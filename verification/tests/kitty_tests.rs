use copetch::config::ImageConfig;
use copetch::config::{Config, Module};
use copetch::display::{prepare_logo, render_output, LogoFile, Mode};
use copetch::kitty::{kitty_chunk, kitty_frames_of, render_kitty};
use copetch::system::SysInfo;

const GIF_1X1: &[u8] = &[
    0x47, 0x49, 0x46, 0x38, 0x39, 0x61, 0x01, 0x00, 0x01, 0x00, 0x80, 0x00, 0x00, 0xff, 0xff, 0xff,
    0x00, 0x00, 0x00, 0x21, 0xf9, 0x04, 0x01, 0x00, 0x00, 0x00, 0x00, 0x2c, 0x00, 0x00, 0x00, 0x00,
    0x01, 0x00, 0x01, 0x00, 0x00, 0x02, 0x02, 0x44, 0x01, 0x00, 0x3b,
];

#[test]
fn kitty_single_chunk() {
    assert_eq!(
        kitty_frames_of("QUJD", 20, 12),
        "\x1b_Ga=T,t=d,f=100,c=20,r=12,q=2,m=0;QUJD\x1b\\"
    );
}

#[test]
fn kitty_empty_payload() {
    assert_eq!(kitty_frames_of("", 1, 1), "");
}

#[test]
fn kitty_splits_into_chunks() {
    let payload = "A".repeat(4096) + &"B".repeat(4096) + "CC";
    let out = kitty_frames_of(&payload, 3, 4);
    let expected = format!(
        "\x1b_Ga=T,t=d,f=100,c=3,r=4,q=2,m=1;{}\x1b\\\x1b_Gm=1;{}\x1b\\\x1b_Gm=0;CC\x1b\\",
        "A".repeat(4096),
        "B".repeat(4096)
    );
    assert_eq!(out, expected);
}

#[test]
fn kitty_exact_chunk_boundary() {
    let payload = "Z".repeat(4096);
    let out = kitty_frames_of(&payload, 1, 2);
    assert_eq!(out, format!("\x1b_Ga=T,t=d,f=100,c=1,r=2,q=2,m=0;{payload}\x1b\\"));
}

#[test]
fn kitty_chunk_encodes_base64() {
    assert_eq!(
        kitty_chunk(b"hello", 20, 12),
        "\x1b_Ga=T,t=d,f=100,c=20,r=12,q=2,m=0;aGVsbG8=\x1b\\"
    );
    assert_eq!(kitty_chunk(b"ab", 1, 1), "\x1b_Ga=T,t=d,f=100,c=1,r=1,q=2,m=0;YWI=\x1b\\");
}

#[test]
fn render_kitty_rows_beside_picture() {
    let mut out = String::new();
    let img = ImageConfig { cols: 3, rows: 2, gap: 4 };
    render_kitty(&mut out, b"ab", &["x\n".to_string()], &img);
    let expected = "\x1b[s\x1b_Ga=T,t=d,f=100,c=3,r=2,q=2,m=0;YWI=\x1b\\\x1b[u\x1b[s\x1b[10Cx\n\x1b[u\x1b[1B\x1b[s\x1b[10C\x1b[u\x1b[1B\n";
    assert_eq!(out, expected);
}

#[test]
fn render_kitty_more_lines_than_rows() {
    let mut out = String::new();
    let img = ImageConfig { cols: 0, rows: 1, gap: 0 };
    render_kitty(&mut out, b"", &["a".to_string(), "b".to_string()], &img);
    assert_eq!(out, "\x1b[s\x1b[u\x1b[s\x1b[0Ca\x1b[u\x1b[1B\x1b[s\x1b[0Cb\x1b[u\x1b[1B\n");
}

fn info() -> SysInfo {
    SysInfo {
        user: "u".into(),
        host: "h".into(),
        os: "o".into(),
        kernel: "k".into(),
        uptime: "1m".into(),
        memory: "m".into(),
        swap: "none".into(),
        shell: "sh".into(),
        wm: "tty".into(),
        terminal: "t".into(),
        cpu: "c".into(),
        gpu: "g".into(),
        disk: "d".into(),
        nix_pkgs: 1,
        hm_pkgs: 2,
        nix_gen: "3".into(),
        nix_rev: "r".into(),
    }
}

#[test]
fn gif_logo_is_shown_as_png() {
    let mut cfg = Config::default();
    cfg.modules = vec![Module::Divider];
    let custom = vec![String::new()];
    let (out, issue) =
        render_output(&info(), Mode::Gif, &cfg, prepare_logo(Mode::Gif, LogoFile::Bytes(GIF_1X1.to_vec())), &custom);
    assert!(issue.is_none());
    // the payload is PNG data: its base64 starts with that of the PNG signature
    assert!(out.starts_with("\n\x1b[s\x1b_Ga=T,t=d,f=100,c=20,r=12,q=2,m=0;iVBORw0KGgo"));
    assert!(!out.contains("R0lGODlh"));
}

#[test]
fn gif_logo_garbage_is_not_decoded() {
    let cfg = Config::default();
    let custom = vec![String::new(); cfg.modules.len()];
    for bytes in [b"GIF89a broken".to_vec(), Vec::new()] {
        let (out, issue) = render_output(&info(), Mode::Gif, &cfg, prepare_logo(Mode::Gif, LogoFile::Bytes(bytes)), &custom);
        assert!(issue == Some(copetch::display::LogoIssue::DecodeFailed));
        assert!(!out.contains("\x1b_G"));
    }
}

#[test]
fn kitty_chunk_empty_iff_no_bytes() {
    assert_eq!(kitty_chunk(b"", 5, 5), "");
    assert!(!kitty_chunk(b"x", 5, 5).is_empty());
}
