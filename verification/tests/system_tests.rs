use copetch::system::{
    command_value, get_cpu, get_disk, get_gpu, get_mem_swap, get_nix_gen, get_nix_rev, get_os,
    get_shell, get_terminal, get_uptime, get_wm, kb,
};

fn gib(v: u64) -> String {
    format!("{:.1}", v as f64 / 1_048_576.0)
}

#[test]
fn os_from_pretty_name() {
    let text = "NAME=NixOS\nPRETTY_NAME=\"NixOS 24.05 (Uakari)\"\nID=nixos\n";
    assert_eq!(get_os(text), "NixOS 24.05 (Uakari)");
}

#[test]
fn os_defaults_to_nixos() {
    assert_eq!(get_os("NAME=Other\n"), "NixOS");
    assert_eq!(get_os(""), "NixOS");
}

#[test]
fn nix_rev_from_build_id() {
    let text = "BUILD_ID=\"24.05.20240501.abcdef1234567\"\n";
    assert_eq!(get_nix_rev(text, None), Some("abcdef12".to_string()));
    assert_eq!(get_nix_rev("BUILD_ID=abc\n", Some("x.y")), Some("abc".to_string()));
}

#[test]
fn nix_rev_from_version_file() {
    assert_eq!(get_nix_rev("", Some("24.05.1234.deadbeefcafe\n")), Some("deadbeef".to_string()));
    assert_eq!(get_nix_rev("", None), Some("unknown".to_string()));
}

#[test]
fn nix_rev_cut_inside_character() {
    // the eighth byte falls inside `é`, where slicing would panic
    assert_eq!(get_nix_rev("BUILD_ID=1.abcdefgé\n", None), None);
    assert_eq!(get_nix_rev("BUILD_ID=1.abcdefé\n", None), Some("abcdefé".to_string()));
}

#[test]
fn uptime_formats() {
    assert_eq!(get_uptime(0, 5), "5m");
    assert_eq!(get_uptime(3, 0), "3h 0m");
    assert_eq!(get_uptime(12, 34), "12h 34m");
}

#[test]
fn kb_reads_second_field() {
    assert_eq!(kb("MemTotal:       16318480 kB"), 16318480);
    assert_eq!(kb("MemTotal:"), 0);
    assert_eq!(kb("MemTotal: lots kB"), 0);
    assert_eq!(kb("X: +42 kB"), 42);
    assert_eq!(kb("X: 18446744073709551615"), u64::MAX);
    assert_eq!(kb("X: 18446744073709551616"), 0);
}

#[test]
fn mem_swap_from_meminfo() {
    let text = "MemTotal:       16318480 kB\nMemFree:  1 kB\nMemAvailable:    8159240 kB\nSwapTotal:       4194300 kB\nSwapFree:        3145725 kB\n";
    let (mem, swap) = get_mem_swap(text);
    assert_eq!(mem, format!("{} / {} GiB", gib(16318480 - 8159240), gib(16318480)));
    assert_eq!(swap, format!("{} / {} GiB", gib(4194300 - 3145725), gib(4194300)));
    assert_eq!(mem, "7.8 / 15.6 GiB");
}

#[test]
fn mem_swap_without_swap() {
    let (mem, swap) = get_mem_swap("MemTotal: 1048576 kB\nMemAvailable: 2097152 kB\n");
    assert_eq!(mem, "0.0 / 1.0 GiB");
    assert_eq!(swap, "none");
}

#[test]
fn mem_swap_stops_after_four_values() {
    let text = "MemTotal: 10 kB\nMemAvailable: 5 kB\nSwapTotal: 1048576 kB\nSwapFree: 0 kB\nMemTotal: 999999999 kB\n";
    let (mem, _) = get_mem_swap(text);
    assert_eq!(mem, format!("{} / {} GiB", gib(5), gib(10)));
}

#[test]
fn gib_rounding_matches_float_formatting() {
    let values: [u64; 12] = [
        0,
        52428,
        52429,
        157286,
        1_048_576,
        104_858 * 5,
        (1u64 << 53) - 1,
        (1u64 << 53) + 1,
        (1u64 << 60) + 12345,
        u64::MAX - 1,
        u64::MAX,
        3 * 52428,
    ];
    for v in values {
        let text = format!("MemTotal: {v} kB\nMemAvailable: 0 kB\n");
        let (mem, _) = get_mem_swap(&text);
        assert_eq!(mem, format!("{} / {} GiB", gib(v), gib(v)), "value {v}");
    }
}

#[test]
fn cpu_model_name_cleaned() {
    let text = "processor\t: 0\nmodel name\t: Intel(R) Core(TM) i7-8550U CPU @ 1.80GHz\n";
    assert_eq!(get_cpu(text), "Intel Core i7-8550U @ 1.80GHz");
    let amd = "model name\t: AMD Ryzen 7 5800X 8-Core Processor  \n";
    assert_eq!(get_cpu(amd), "AMD Ryzen 7 5800X 8-Core");
}

#[test]
fn cpu_unknown() {
    assert_eq!(get_cpu("processor : 0\n"), "unknown");
    assert_eq!(get_cpu("model name without colon\n"), "unknown");
}

#[test]
fn gpu_from_lspci() {
    let text = "00:00.0 Host bridge: Intel Corporation Device 9a14\n00:02.0 VGA compatible controller: Intel Corporation TigerLake-LP GT2 [Iris Xe Graphics] (rev 01)\n";
    assert_eq!(get_gpu(text), "Intel TigerLake-LP GT2 [Iris Xe Graphics]");
    let amd = "03:00.0 VGA compatible controller: Advanced Micro Devices, Inc. [AMD/ATI] Navi 21 (rev c1)\n";
    assert_eq!(get_gpu(amd), "Advanced Micro Devices, Inc. [AMD/ATI] Navi 21");
    let amd2 = "03:00.0 3D controller: X Advanced Micro Devices, Inc. [AMD/ATI] Navi\n";
    assert_eq!(get_gpu(amd2), "XAMD Navi");
    let ivy = "00:02.0 VGA compatible controller: Intel Corporation 3rd Gen Core processor Graphics Controller (rev 09)\n";
    assert_eq!(get_gpu(ivy), "Intel HD 4000");
    assert_eq!(get_gpu("nothing here\n"), "unknown");
}

#[test]
fn disk_from_df() {
    let text = "Filesystem      Size  Used Avail Use% Mounted on\n/dev/nvme0n1p2  468G  120G  325G  27% /\n";
    assert_eq!(get_disk(text), "120G / 468G (27%)");
    assert_eq!(get_disk("Filesystem\n"), "N/A");
    assert_eq!(get_disk("header\na b c\n"), "N/A");
}

#[test]
fn nix_gen_from_link() {
    assert_eq!(get_nix_gen(Some("system-123-link")), "123");
    assert_eq!(get_nix_gen(Some("system")), "?");
    assert_eq!(get_nix_gen(None), "?");
    assert_eq!(get_nix_gen(Some("a-")), "");
}

#[test]
fn shell_wm_terminal() {
    assert_eq!(get_shell(Some("/run/current-system/sw/bin/zsh")), "zsh");
    assert_eq!(get_shell(None), "");
    assert_eq!(get_shell(Some("fish")), "fish");
    assert_eq!(get_wm(Some("Hyprland"), Some("x")), "Hyprland");
    assert_eq!(get_wm(None, Some("plasma")), "plasma");
    assert_eq!(get_wm(None, None), "tty");
    assert_eq!(get_terminal(true, Some("x"), None), "Ghostty");
    assert_eq!(get_terminal(false, Some("WezTerm"), Some("xterm")), "WezTerm");
    assert_eq!(get_terminal(false, None, Some("xterm-256color")), "xterm-256color");
    assert_eq!(get_terminal(false, None, None), "unknown");
}

#[test]
fn command_value_first_line() {
    assert_eq!(command_value(true, "  10.0.0.2 \nother\n"), "10.0.0.2");
    assert_eq!(command_value(true, ""), "N/A");
    assert_eq!(command_value(true, "\n"), "");
    assert_eq!(command_value(false, "10.0.0.2\n"), "N/A");
}
