use copetch::config::{config_paths, load_step, ConfigRead, LoadStep, default_modules, ColorConfig, Config, DisplayConfig, ImageConfig, LogoConfig, Module};

fn label_of(m: &Module) -> Option<String> {
    match m {
        Module::Title { label }
        | Module::Os { label }
        | Module::Kernel { label }
        | Module::Uptime { label }
        | Module::Shell { label }
        | Module::Wm { label }
        | Module::Terminal { label }
        | Module::Cpu { label }
        | Module::Gpu { label }
        | Module::Memory { label }
        | Module::Swap { label }
        | Module::Disk { label }
        | Module::Packages { label }
        | Module::Generation { label } => label.clone(),
        Module::Custom { label, .. } => Some(label.clone()),
        Module::Divider | Module::ColorBar => None,
    }
}

fn kind_of(m: &Module) -> &'static str {
    match m {
        Module::Title { .. } => "title",
        Module::Divider => "divider",
        Module::Os { .. } => "os",
        Module::Kernel { .. } => "kernel",
        Module::Uptime { .. } => "uptime",
        Module::Shell { .. } => "shell",
        Module::Wm { .. } => "wm",
        Module::Terminal { .. } => "terminal",
        Module::Cpu { .. } => "cpu",
        Module::Gpu { .. } => "gpu",
        Module::Memory { .. } => "memory",
        Module::Swap { .. } => "swap",
        Module::Disk { .. } => "disk",
        Module::Packages { .. } => "packages",
        Module::Generation { .. } => "generation",
        Module::ColorBar => "color-bar",
        Module::Custom { .. } => "custom",
    }
}

#[test]
fn default_display_mode_is_ascii() {
    assert_eq!(DisplayConfig::default().mode, "ascii");
}

#[test]
fn default_image_size_matches_readme() {
    let img = ImageConfig::default();
    assert_eq!((img.cols, img.rows, img.gap), (20, 12, 3));
}

#[test]
fn default_logo_has_no_path() {
    assert!(LogoConfig::default().path.is_none());
}

#[test]
fn default_colors_match_readme() {
    let c = ColorConfig::default();
    assert_eq!(c.key, "cyan");
    assert_eq!(c.accent, "bright_black");
    assert_eq!(c.value, "white");
    assert_eq!(c.separator, "bright_black");
    assert_eq!(c.reset, "reset");
    assert_eq!(c.bold, "bold");
    assert_eq!(c.bar, vec!["red", "green", "yellow", "blue", "magenta", "cyan", "white"]);
}

#[test]
fn default_modules_match_readme() {
    let m = default_modules();
    let kinds: Vec<&str> = m.iter().map(kind_of).collect();
    assert_eq!(
        kinds,
        vec![
            "title", "divider", "os", "kernel", "uptime", "shell", "wm", "terminal", "cpu", "gpu",
            "memory", "swap", "disk", "packages", "generation", "divider", "color-bar"
        ]
    );
    let labels: Vec<Option<String>> = m.iter().map(label_of).collect();
    assert_eq!(labels[0], None);
    assert_eq!(labels[2], Some("os".to_string()));
    assert_eq!(labels[3], Some("ker".to_string()));
    assert_eq!(labels[7], Some("term".to_string()));
    assert_eq!(labels[13], Some("pkgs".to_string()));
    assert_eq!(labels[14], Some("gen".to_string()));
}

#[test]
fn default_config_combines_section_defaults() {
    let c = Config::default();
    assert_eq!(c.display.mode, "ascii");
    assert_eq!(c.image.cols, 20);
    assert!(c.logo.path.is_none());
    assert_eq!(c.colors.key, "cyan");
    assert_eq!(c.modules.len(), 17);
}

#[test]
fn config_paths_try_local_file_first() {
    let p = config_paths(Some("/home/alice"));
    assert_eq!(
        p,
        vec![
            "./config/copetch/config.toml".to_string(),
            "/home/alice/.config/copetch/config.toml".to_string()
        ]
    );
}

#[test]
fn config_paths_without_home() {
    assert_eq!(config_paths(None), vec!["./config/copetch/config.toml".to_string()]);
}

#[test]
fn load_step_first_match_wins() {
    assert!(matches!(load_step(ConfigRead::Unreadable), LoadStep::TryNext));
    let mut cfg = Config::default();
    cfg.display.mode = "png".to_string();
    match load_step(ConfigRead::Parsed(cfg)) {
        LoadStep::Use(c) => assert_eq!(c.display.mode, "png"),
        LoadStep::TryNext => panic!("a parsed file decides"),
    }
    match load_step(ConfigRead::Unparsable) {
        LoadStep::Use(c) => {
            assert_eq!(c.display.mode, "ascii");
            assert_eq!(c.modules.len(), 17);
        }
        LoadStep::TryNext => panic!("an unparsable file decides"),
    }
}
