use copetch::config::ColorConfig;
use copetch::display::{render_ascii, resolve_color, select_mode, vlen, Mode, Theme};
use copetch::kitty::kitty_frames_of;
use copetch::system::{get_uptime, kb};

const NAMES: [&str; 20] = [
    "reset", "bold", "black", "red", "green", "yellow", "blue", "magenta", "cyan", "white",
    "bright_black", "gray", "grey", "bright_red", "bright_green", "bright_yellow", "bright_blue",
    "bright_magenta", "bright_cyan", "bright_white",
];

#[test]
fn visible_width_adds_up_after_closed_escape() {
    assert_eq!(vlen(&format!("{}{}", "a\x1b[1mb", "cd")), vlen("a\x1b[1mb") + vlen("cd"));
    assert_eq!(vlen(&format!("{}{}", "\x1b[31m", "abc")), 3);
}

#[test]
fn named_colour_codes_are_invisible() {
    for n in NAMES {
        let coloured = format!("{}xy", resolve_color(n));
        assert_eq!(vlen(&coloured), 2, "colour {n}");
    }
}

#[test]
fn resolving_twice_changes_nothing() {
    for raw in NAMES.iter().copied().chain(["", "nope", "\x1b[38;5;9m"]) {
        let once = resolve_color(raw);
        assert_eq!(resolve_color(&once), once, "colour {raw:?}");
    }
}

#[test]
fn logo_cells_are_aligned() {
    let t = Theme::from_cfg(&ColorConfig::default());
    let mut out = String::new();
    let info = vec!["a".to_string(), "b".to_string(), "c".to_string(), "d".to_string()];
    render_ascii(&mut out, "x\n\x1b[32mlong\x1b[0m line\n\nmid", &info, &t);
    let sep = format!("{}   ", t.reset);
    let widths: Vec<usize> = out
        .lines()
        .map(|l| {
            let logo = l.split(sep.as_str()).next().unwrap();
            vlen(logo)
        })
        .collect();
    assert_eq!(widths, vec![9, 9, 9, 9]);
}

#[test]
fn chunks_reassemble_payload() {
    let payload: String = (0..9000).map(|i| (b'A' + (i % 26) as u8) as char).collect();
    let out = kitty_frames_of(&payload, 1, 1);
    let joined: String = out
        .split("\x1b\\")
        .filter(|f| !f.is_empty())
        .map(|f| f.split_once(';').unwrap().1)
        .collect();
    assert_eq!(joined, payload);
    assert_eq!(out.matches("m=1;").count(), 2);
    assert_eq!(out.matches("m=0;").count(), 1);
}

#[test]
fn decimal_reads_back() {
    for n in [0u64, 7, 10, 12345, u64::MAX] {
        let written = get_uptime(0, n);
        let digits = written.trim_end_matches('m');
        assert_eq!(kb(&format!("X: {digits} kB")), n);
    }
}

#[test]
fn flag_wins_over_configuration() {
    for cfg in ["gif", "png", "text", "ascii", ""] {
        assert!(select_mode("--png", cfg) == Mode::Png);
        assert!(select_mode("--text", cfg) == Mode::Text);
    }
}
