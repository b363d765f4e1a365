//! The configuration: its types, its defaults and where it is looked for.
use vstd::prelude::*;
use crate::text::{opt_view, strs};

verus! {

/// The whole configuration.
pub struct Config {
    pub display: DisplayConfig,
    pub image: ImageConfig,
    pub logo: LogoConfig,
    pub colors: ColorConfig,
    pub modules: Vec<Module>,
}

/// `[display]`: which kind of logo to show (`ascii`, `png`, `gif` or `text`).
pub struct DisplayConfig {
    pub mode: String,
}

/// `[image]`: the size of a picture logo in terminal cells, and the gap
/// between it and the information column.
#[derive(Clone, Copy)]
pub struct ImageConfig {
    pub cols: u32,
    pub rows: u32,
    pub gap: u32,
}

/// `[logo]`: an explicit logo file, in place of the one under `$HOME`.
pub struct LogoConfig {
    pub path: Option<String>,
}

/// `[colors]`: colour names or raw escape sequences.
pub struct ColorConfig {
    pub key: String,
    pub accent: String,
    pub value: String,
    pub reset: String,
    pub bold: String,
    pub bar: Vec<String>,
    pub separator: String,
}

/// One entry of `[[modules]]`: a line of the information column.
#[allow(inconsistent_fields)]
pub enum Module {
    Title { label: Option<String> },
    Divider,
    Os { label: Option<String> },
    Kernel { label: Option<String> },
    Uptime { label: Option<String> },
    Shell { label: Option<String> },
    Wm { label: Option<String> },
    Terminal { label: Option<String> },
    Cpu { label: Option<String> },
    Gpu { label: Option<String> },
    Memory { label: Option<String> },
    Swap { label: Option<String> },
    Disk { label: Option<String> },
    Packages { label: Option<String> },
    Generation { label: Option<String> },
    ColorBar,
    Custom { label: String, command: String },
}

/// A module as a value of the specification, its strings taken by view.
#[allow(inconsistent_fields)]
pub enum ModuleView {
    Title { label: Option<Seq<char>> },
    Divider,
    Os { label: Option<Seq<char>> },
    Kernel { label: Option<Seq<char>> },
    Uptime { label: Option<Seq<char>> },
    Shell { label: Option<Seq<char>> },
    Wm { label: Option<Seq<char>> },
    Terminal { label: Option<Seq<char>> },
    Cpu { label: Option<Seq<char>> },
    Gpu { label: Option<Seq<char>> },
    Memory { label: Option<Seq<char>> },
    Swap { label: Option<Seq<char>> },
    Disk { label: Option<Seq<char>> },
    Packages { label: Option<Seq<char>> },
    Generation { label: Option<Seq<char>> },
    ColorBar,
    Custom { label: Seq<char>, command: Seq<char> },
}

impl View for Module {
    type V = ModuleView;

    open spec fn view(&self) -> ModuleView {
        match self {
            Module::Title { label } => ModuleView::Title { label: opt_view(*label) },
            Module::Divider => ModuleView::Divider,
            Module::Os { label } => ModuleView::Os { label: opt_view(*label) },
            Module::Kernel { label } => ModuleView::Kernel { label: opt_view(*label) },
            Module::Uptime { label } => ModuleView::Uptime { label: opt_view(*label) },
            Module::Shell { label } => ModuleView::Shell { label: opt_view(*label) },
            Module::Wm { label } => ModuleView::Wm { label: opt_view(*label) },
            Module::Terminal { label } => ModuleView::Terminal { label: opt_view(*label) },
            Module::Cpu { label } => ModuleView::Cpu { label: opt_view(*label) },
            Module::Gpu { label } => ModuleView::Gpu { label: opt_view(*label) },
            Module::Memory { label } => ModuleView::Memory { label: opt_view(*label) },
            Module::Swap { label } => ModuleView::Swap { label: opt_view(*label) },
            Module::Disk { label } => ModuleView::Disk { label: opt_view(*label) },
            Module::Packages { label } => ModuleView::Packages { label: opt_view(*label) },
            Module::Generation { label } => ModuleView::Generation { label: opt_view(*label) },
            Module::ColorBar => ModuleView::ColorBar,
            Module::Custom { label, command } => ModuleView::Custom {
                label: label@,
                command: command@,
            },
        }
    }
}

/// The views of a sequence of modules.
pub open spec fn module_views(v: Seq<Module>) -> Seq<ModuleView> {
    v.map_values(|m: Module| m@)
}

/// The module list used when the configuration names none.
pub open spec fn default_module_views() -> Seq<ModuleView> {
    seq![
        ModuleView::Title { label: None },
        ModuleView::Divider,
        ModuleView::Os { label: Some("os"@) },
        ModuleView::Kernel { label: Some("ker"@) },
        ModuleView::Uptime { label: Some("up"@) },
        ModuleView::Shell { label: Some("sh"@) },
        ModuleView::Wm { label: Some("wm"@) },
        ModuleView::Terminal { label: Some("term"@) },
        ModuleView::Cpu { label: Some("cpu"@) },
        ModuleView::Gpu { label: Some("gpu"@) },
        ModuleView::Memory { label: Some("mem"@) },
        ModuleView::Swap { label: Some("swap"@) },
        ModuleView::Disk { label: Some("disk"@) },
        ModuleView::Packages { label: Some("pkgs"@) },
        ModuleView::Generation { label: Some("gen"@) },
        ModuleView::Divider,
        ModuleView::ColorBar,
    ]
}

/// The default colour bar.
pub open spec fn default_bar() -> Seq<Seq<char>> {
    seq!["red"@, "green"@, "yellow"@, "blue"@, "magenta"@, "cyan"@, "white"@]
}

/// The default list of modules: title, divider, the system rows, divider,
/// colour bar.
pub fn default_modules() -> (m: Vec<Module>)
    ensures
        module_views(m@) == default_module_views(),
{
    let m = vec![
        Module::Title { label: None },
        Module::Divider,
        Module::Os { label: Some("os".to_string()) },
        Module::Kernel { label: Some("ker".to_string()) },
        Module::Uptime { label: Some("up".to_string()) },
        Module::Shell { label: Some("sh".to_string()) },
        Module::Wm { label: Some("wm".to_string()) },
        Module::Terminal { label: Some("term".to_string()) },
        Module::Cpu { label: Some("cpu".to_string()) },
        Module::Gpu { label: Some("gpu".to_string()) },
        Module::Memory { label: Some("mem".to_string()) },
        Module::Swap { label: Some("swap".to_string()) },
        Module::Disk { label: Some("disk".to_string()) },
        Module::Packages { label: Some("pkgs".to_string()) },
        Module::Generation { label: Some("gen".to_string()) },
        Module::Divider,
        Module::ColorBar,
    ];
    assert(module_views(m@) =~= default_module_views());
    m
}

impl Default for DisplayConfig {
    fn default() -> (d: Self)
        ensures
            d.mode@ == "ascii"@,
    {
        DisplayConfig { mode: "ascii".to_string() }
    }
}

impl Default for ImageConfig {
    fn default() -> (d: Self)
        ensures
            d.cols == 20,
            d.rows == 12,
            d.gap == 3,
    {
        ImageConfig { cols: 20, rows: 12, gap: 3 }
    }
}

impl Default for LogoConfig {
    fn default() -> (d: Self)
        ensures
            d.path is None,
    {
        LogoConfig { path: None }
    }
}

impl ColorConfig {
    /// The default colours, as `ColorConfig::default` gives them.
    pub open spec fn is_default(&self) -> bool {
        &&& self.key@ == "cyan"@
        &&& self.accent@ == "bright_black"@
        &&& self.value@ == "white"@
        &&& self.reset@ == "reset"@
        &&& self.bold@ == "bold"@
        &&& self.separator@ == "bright_black"@
        &&& strs(self.bar@) == default_bar()
    }
}

impl Default for ColorConfig {
    fn default() -> (d: Self)
        ensures
            d.is_default(),
    {
        let bar = vec![
            "red".to_string(),
            "green".to_string(),
            "yellow".to_string(),
            "blue".to_string(),
            "magenta".to_string(),
            "cyan".to_string(),
            "white".to_string(),
        ];
        assert(strs(bar@) =~= default_bar());
        ColorConfig {
            key: "cyan".to_string(),
            accent: "bright_black".to_string(),
            value: "white".to_string(),
            reset: "reset".to_string(),
            bold: "bold".to_string(),
            separator: "bright_black".to_string(),
            bar,
        }
    }
}

impl Config {
    /// Every field at its default, as `Config::default` gives them.
    pub open spec fn is_default(&self) -> bool {
        &&& self.display.mode@ == "ascii"@
        &&& self.image.cols == 20 && self.image.rows == 12 && self.image.gap == 3
        &&& self.logo.path is None
        &&& self.colors.is_default()
        &&& module_views(self.modules@) == default_module_views()
    }
}

impl Default for Config {
    fn default() -> (c: Self)
        ensures
            c.is_default(),
    {
        Config {
            display: DisplayConfig::default(),
            image: ImageConfig::default(),
            logo: LogoConfig::default(),
            colors: ColorConfig::default(),
            modules: default_modules(),
        }
    }
}

/// Where the configuration is looked for, first match first.
pub open spec fn config_path_views(home: Option<Seq<char>>) -> Seq<Seq<char>> {
    match home {
        Some(h) => seq!["./config/copetch/config.toml"@, h + "/.config/copetch/config.toml"@],
        None => seq!["./config/copetch/config.toml"@],
    }
}

/// The files that may hold the configuration, in the order they are tried:
/// `./config/copetch/config.toml`, then `$HOME/.config/copetch/config.toml`
/// when `HOME` is set.
pub fn config_paths(home: Option<&str>) -> (p: Vec<String>)
    ensures
        strs(p@) == config_path_views(
            match home {
                Some(h) => Some(h@),
                None => None,
            },
        ),
{
    let mut p: Vec<String> = Vec::new();
    p.push("./config/copetch/config.toml".to_string());
    if let Some(h) = home {
        let mut s = h.to_string();
        s.append("/.config/copetch/config.toml");
        p.push(s);
    }
    assert(strs(p@) =~= config_path_views(
        match home {
            Some(h) => Some(h@),
            None => None,
        },
    ));
    p
}

/// What became of one candidate configuration file.
pub enum ConfigRead {
    /// It could not be read (most often: it does not exist).
    Unreadable,
    /// It was read and parsed.
    Parsed(Config),
    /// It was read but does not parse.
    Unparsable,
}

/// What the search for the configuration does after one file.
pub enum LoadStep {
    /// Go on with the next candidate file.
    TryNext,
    /// Stop and use this configuration.
    Use(Config),
}

/// One step of the search over `config_paths`, first match wins: a file
/// that cannot be read passes the search on; the first file read decides,
/// with its configuration, or with the defaults where it does not parse.
/// When no file can be read the defaults are used.
pub fn load_step(read: ConfigRead) -> (s: LoadStep)
    ensures
        read is Unreadable ==> s is TryNext,
        read matches ConfigRead::Parsed(c) ==> (s matches LoadStep::Use(d) && d == c),
        read is Unparsable ==> (s matches LoadStep::Use(d) && d.is_default()),
{
    match read {
        ConfigRead::Unreadable => LoadStep::TryNext,
        ConfigRead::Parsed(c) => LoadStep::Use(c),
        ConfigRead::Unparsable => LoadStep::Use(Config::default()),
    }
}

} // verus!
