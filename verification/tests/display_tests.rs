use copetch::config::{ColorConfig, Config, ImageConfig, LogoConfig, Module};
use copetch::display::{
    build_lines, color_bar, logo_path, lookup_color, render_ascii, render_output, render_plain,
    resolve_color, row, select_mode, vlen, prepare_logo, LogoFile, LogoIssue, Mode, Theme,
};
use copetch::system::SysInfo;

fn info() -> SysInfo {
    SysInfo {
        user: "alice".into(),
        host: "box".into(),
        os: "NixOS 24.05".into(),
        kernel: "6.6.30".into(),
        uptime: "1h 2m".into(),
        memory: "1.0 / 2.0 GiB".into(),
        swap: "none".into(),
        shell: "zsh".into(),
        wm: "sway".into(),
        terminal: "foot".into(),
        cpu: "AMD Ryzen 7".into(),
        gpu: "AMD Radeon".into(),
        disk: "10G / 20G (50%)".into(),
        nix_pkgs: 1234,
        hm_pkgs: 56,
        nix_gen: "42".into(),
        nix_rev: "abcdef12".into(),
    }
}

fn theme() -> Theme {
    Theme::from_cfg(&ColorConfig::default())
}

fn expected_row(t: &Theme, key: &str, val: &str) -> String {
    format!(
        "  {k}{key:<5}{r} {s}>{r} {v}{val}{r}\n",
        k = t.key,
        r = t.reset,
        s = t.separator,
        v = t.value
    )
}

#[test]
fn vlen_counts_plain_characters() {
    assert_eq!(vlen("abc"), 3);
    assert_eq!(vlen(""), 0);
    assert_eq!(vlen("héllo"), 5);
}

#[test]
fn vlen_skips_escape_sequences() {
    assert_eq!(vlen("\x1b[31mab\x1b[0m"), 2);
    assert_eq!(vlen("\x1b[38;5;208mx"), 1);
    // an escape sequence left open hides the rest
    assert_eq!(vlen("a\x1b[31"), 1);
}

#[test]
fn resolve_color_names() {
    assert_eq!(resolve_color("red"), "\x1b[31m");
    assert_eq!(resolve_color("reset"), "\x1b[0m");
    assert_eq!(resolve_color("bold"), "\x1b[1m");
    assert_eq!(resolve_color("gray"), "\x1b[90m");
    assert_eq!(resolve_color("grey"), "\x1b[90m");
    assert_eq!(resolve_color("bright_black"), "\x1b[90m");
    assert_eq!(resolve_color("bright_white"), "\x1b[97m");
}

#[test]
fn resolve_color_empty_and_raw() {
    assert_eq!(resolve_color(""), "");
    assert_eq!(resolve_color("\x1b[38;5;1m"), "\x1b[38;5;1m");
}

#[test]
fn resolve_color_unknown_is_empty() {
    assert_eq!(resolve_color("purple"), "");
    assert_eq!(lookup_color("purple"), None);
    assert_eq!(lookup_color(""), Some(String::new()));
    assert_eq!(lookup_color("cyan"), Some("\x1b[36m".to_string()));
}

#[test]
fn theme_from_default_colors() {
    let t = theme();
    assert_eq!(t.key, "\x1b[36m");
    assert_eq!(t.accent, "\x1b[90m");
    assert_eq!(t.value, "\x1b[37m");
    assert_eq!(t.reset, "\x1b[0m");
    assert_eq!(t.bold, "\x1b[1m");
    assert_eq!(t.separator, "\x1b[90m");
    assert_eq!(t.bar.len(), 7);
    assert_eq!(t.bar[0], "\x1b[31m");
    assert_eq!(t.bar[6], "\x1b[37m");
}

#[test]
fn row_pads_key_to_five() {
    let t = theme();
    assert_eq!(row(&t, "os", "NixOS"), expected_row(&t, "os", "NixOS"));
    assert_eq!(
        row(&t, "os", "NixOS"),
        "  \x1b[36mos   \x1b[0m \x1b[90m>\x1b[0m \x1b[37mNixOS\x1b[0m\n"
    );
    assert_eq!(row(&t, "kernel", "6.6"), expected_row(&t, "kernel", "6.6"));
    assert_eq!(row(&t, "ké", "x"), expected_row(&t, "ké", "x"));
}

#[test]
fn color_bar_lists_each_colour() {
    let t = theme();
    let mut expected = String::from("  ");
    for c in &t.bar {
        expected.push_str(c);
        expected.push_str("██");
    }
    expected.push_str(&t.reset);
    expected.push('\n');
    assert_eq!(color_bar(&t), expected);
}

#[test]
fn color_bar_empty_bar_is_empty() {
    let mut colors = ColorConfig::default();
    colors.bar = Vec::new();
    assert_eq!(color_bar(&Theme::from_cfg(&colors)), "");
}

#[test]
fn build_lines_default_modules() {
    let cfg = Config::default();
    let t = theme();
    let i = info();
    let custom = vec![String::new(); cfg.modules.len()];
    let lines = build_lines(&i, &cfg, &t, &custom);
    assert_eq!(lines.len(), 17);
    assert_eq!(lines[0], format!("  {}alice@box{}\n", t.bold, t.reset));
    let div = format!("  {}{}{}\n", t.accent, "─".repeat(24), t.reset);
    assert_eq!(lines[1], div);
    assert_eq!(lines[2], expected_row(&t, "os", "NixOS 24.05"));
    assert_eq!(lines[13], expected_row(&t, "pkgs", "1234 nix  56 hm"));
    assert_eq!(lines[14], expected_row(&t, "gen", "42 · abcdef12"));
    assert_eq!(lines[15], div);
    assert_eq!(lines[16], color_bar(&t));
}

#[test]
fn build_lines_title_label_and_custom() {
    let mut cfg = Config::default();
    cfg.modules = vec![
        Module::Title { label: Some("{host}:{user}!".into()) },
        Module::Custom { label: "ip".into(), command: "hostname -I".into() },
        Module::Os { label: None },
    ];
    let t = theme();
    let i = info();
    let custom = vec![String::new(), "10.0.0.2".to_string(), String::new()];
    let lines = build_lines(&i, &cfg, &t, &custom);
    assert_eq!(lines[0], format!("  {}box:alice!{}\n", t.bold, t.reset));
    assert_eq!(lines[1], expected_row(&t, "ip", "10.0.0.2"));
    assert_eq!(lines[2], expected_row(&t, "os", "NixOS 24.05"));
}

#[test]
fn divider_grows_with_long_names() {
    let mut cfg = Config::default();
    cfg.modules = vec![Module::Divider];
    let mut i = info();
    i.user = "a-very-long-user-name".into();
    i.host = "and-host".into();
    let t = theme();
    let lines = build_lines(&i, &cfg, &t, &vec![String::new()]);
    assert_eq!(lines[0], format!("  {}{}{}\n", t.accent, "─".repeat(30), t.reset));
}

#[test]
fn render_plain_joins_lines() {
    let mut out = String::from("\n");
    render_plain(&mut out, &["a\n".to_string(), "b\n".to_string()]);
    assert_eq!(out, "\na\nb\n\n");
}

#[test]
fn render_ascii_pads_logo_column() {
    let t = theme();
    let mut out = String::new();
    let lines = vec!["one\n".to_string(), "two\n".to_string(), "three\n".to_string()];
    render_ascii(&mut out, "ab\n\x1b[31mxyzw\x1b[0m\n", &lines, &t);
    let k = &t.key;
    let r = &t.reset;
    let expected = format!(
        "{k}ab  {r}   one\n{k}\x1b[31mxyzw\x1b[0m{r}   two\n{k}    {r}   three\n"
    );
    assert_eq!(out, expected);
}

#[test]
fn render_ascii_more_logo_than_info() {
    let t = theme();
    let mut out = String::new();
    render_ascii(&mut out, "a\r\nbb", &[], &t);
    let k = &t.key;
    let r = &t.reset;
    assert_eq!(out, format!("{k}a {r}   \n{k}bb{r}   \n"));
}

#[test]
fn logo_path_per_mode() {
    let cfg = Config::default();
    assert_eq!(logo_path(&Mode::Gif, &cfg, "/h"), "/h/.config/copetch/cop.gif");
    assert_eq!(logo_path(&Mode::Png, &cfg, "/h"), "/h/.config/copetch/cop.png");
    assert_eq!(logo_path(&Mode::Ascii, &cfg, "/h"), "/h/.config/copetch/cop.txt");
    assert_eq!(logo_path(&Mode::Text, &cfg, "/h"), "");
}

#[test]
fn logo_path_configured_wins() {
    let mut cfg = Config::default();
    cfg.logo = LogoConfig { path: Some("/x/logo.txt".into()) };
    assert_eq!(logo_path(&Mode::Gif, &cfg, "/h"), "/x/logo.txt");
    assert_eq!(logo_path(&Mode::Text, &cfg, "/h"), "/x/logo.txt");
}

#[test]
fn select_mode_flags_win() {
    assert!(select_mode("--gif", "text") == Mode::Gif);
    assert!(select_mode("--png", "gif") == Mode::Png);
    assert!(select_mode("--ascii", "png") == Mode::Ascii);
    assert!(select_mode("--text", "ascii") == Mode::Text);
}

#[test]
fn select_mode_from_config() {
    assert!(select_mode("", "gif") == Mode::Gif);
    assert!(select_mode("", "png") == Mode::Png);
    assert!(select_mode("", "text") == Mode::Text);
    assert!(select_mode("", "ascii") == Mode::Ascii);
    assert!(select_mode("--other", "whatever") == Mode::Ascii);
}

fn plain_expected(cfg: &Config) -> String {
    let t = Theme::from_cfg(&cfg.colors);
    let custom = vec![String::new(); cfg.modules.len()];
    let lines = build_lines(&info(), cfg, &t, &custom);
    let mut out = String::from("\n");
    render_plain(&mut out, &lines);
    out
}

#[test]
fn render_output_text_mode_is_plain() {
    let cfg = Config::default();
    let custom = vec![String::new(); cfg.modules.len()];
    let (out, issue) = render_output(&info(), Mode::Text, &cfg, prepare_logo(Mode::Text, LogoFile::Missing), &custom);
    assert_eq!(out, plain_expected(&cfg));
    assert!(issue.is_none());
}

#[test]
fn render_output_missing_logo() {
    let cfg = Config::default();
    let custom = vec![String::new(); cfg.modules.len()];
    let (out, issue) = render_output(&info(), Mode::Png, &cfg, prepare_logo(Mode::Png, LogoFile::Missing), &custom);
    assert_eq!(out, plain_expected(&cfg));
    assert!(issue == Some(LogoIssue::NotFound));
}

#[test]
fn render_output_unreadable_logo() {
    let cfg = Config::default();
    let custom = vec![String::new(); cfg.modules.len()];
    let (_, issue) = render_output(&info(), Mode::Ascii, &cfg, prepare_logo(Mode::Ascii, LogoFile::Unreadable), &custom);
    assert!(issue == Some(LogoIssue::ReadFailed));
    let (_, issue) = render_output(&info(), Mode::Png, &cfg, prepare_logo(Mode::Png, LogoFile::Unreadable), &custom);
    assert!(issue == Some(LogoIssue::ReadFailed));
    // a GIF that cannot be read is reported as not decoded
    let (out, issue) = render_output(&info(), Mode::Gif, &cfg, prepare_logo(Mode::Gif, LogoFile::Unreadable), &custom);
    assert!(issue == Some(LogoIssue::DecodeFailed));
    assert_eq!(out, plain_expected(&cfg));
}

#[test]
fn render_output_bad_gif() {
    let cfg = Config::default();
    let custom = vec![String::new(); cfg.modules.len()];
    let (out, issue) =
        render_output(&info(), Mode::Gif, &cfg, prepare_logo(Mode::Gif, LogoFile::Bytes(b"not a gif".to_vec())), &custom);
    assert!(issue == Some(LogoIssue::DecodeFailed));
    assert_eq!(out, plain_expected(&cfg));
}

#[test]
fn render_output_ascii_logo() {
    let cfg = Config::default();
    let custom = vec![String::new(); cfg.modules.len()];
    let (out, issue) =
        render_output(&info(), Mode::Ascii, &cfg, prepare_logo(Mode::Ascii, LogoFile::Text("/\\\n\\/\n".into())), &custom);
    assert!(issue.is_none());
    let t = Theme::from_cfg(&cfg.colors);
    let lines = build_lines(&info(), &cfg, &t, &custom);
    let mut expected = String::from("\n");
    render_ascii(&mut expected, "/\\\n\\/\n", &lines, &t);
    assert_eq!(out, expected);
    assert!(out.starts_with(&format!("\n{}/\\{}   ", t.key, t.reset)));
}

#[test]
fn render_output_png_logo() {
    let mut cfg = Config::default();
    cfg.image = ImageConfig { cols: 2, rows: 1, gap: 1 };
    cfg.modules = vec![Module::Os { label: None }];
    let custom = vec![String::new()];
    let (out, issue) =
        render_output(&info(), Mode::Png, &cfg, prepare_logo(Mode::Png, LogoFile::Bytes(b"hello".to_vec())), &custom);
    assert!(issue.is_none());
    let t = Theme::from_cfg(&cfg.colors);
    let line = expected_row(&t, "os", "NixOS 24.05");
    let expected = format!(
        "\n\x1b[s\x1b_Ga=T,t=d,f=100,c=2,r=1,q=2,m=0;aGVsbG8=\x1b\\\x1b[u\x1b[s\x1b[5C{line}\x1b[u\x1b[1B\n"
    );
    assert_eq!(out, expected);
}

#[test]
fn undecodable_gif_needs_no_column_offset() {
    let mut cfg = Config::default();
    cfg.image = ImageConfig { cols: u32::MAX, rows: 5, gap: 7 };
    let custom = vec![String::new(); cfg.modules.len()];
    let logo = prepare_logo(Mode::Gif, LogoFile::Bytes(b"broken".to_vec()));
    let (out, issue) = render_output(&info(), Mode::Gif, &cfg, logo, &custom);
    assert!(issue == Some(LogoIssue::DecodeFailed));
    assert_eq!(out, plain_expected(&cfg));
}

#[test]
fn text_mode_ignores_logo() {
    assert!(matches!(prepare_logo(Mode::Text, LogoFile::Bytes(vec![1, 2])), copetch::display::Logo::Missing));
}
