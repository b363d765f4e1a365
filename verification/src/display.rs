//! Rendering: colours, rows, the information column and the logo beside it.
use vstd::prelude::*;
use crate::text::{
    contains, contains_chars, matches_at, push_repeat, repeat, str_eq, strs, to_chars, opt_view,
    is_ascii_alpha, ascii_alpha, decimal, push_decimal, replace, replace_chars, push_chars, lines,
    lines_of, views, trim_end_char, slice_chars, digit_char, lemma_no_first_char_no_match,
};
use crate::config::{ColorConfig, Config, ModuleView};
use crate::system::SysInfo;
use crate::kitty::{gif_png, gif_to_png, kitty_layout, kitty_row_count, render_kitty};

verus! {

/// How the logo is shown.
#[derive(Clone, Copy, PartialEq, Eq, Structural)]
pub enum Mode {
    Gif,
    Png,
    Ascii,
    Text,
}

/// Scanning `s` from the left: the visible characters counted so far, and
/// whether an escape sequence is open. An escape sequence starts at `ESC`
/// and ends with the next ASCII letter.
pub open spec fn vlen_scan(s: Seq<char>) -> (nat, bool)
    decreases s.len(),
{
    if s.len() == 0 {
        (0, false)
    } else {
        let (n, esc) = vlen_scan(s.drop_last());
        let c = s.last();
        if c == '\x1b' {
            (n, true)
        } else if esc {
            (n, !is_ascii_alpha(c))
        } else {
            (n + 1, false)
        }
    }
}

/// The visible width of `s`: its characters outside escape sequences.
pub open spec fn visible_len(s: Seq<char>) -> nat {
    vlen_scan(s).0
}

/// The visible width of `s`.
pub fn vlen(s: &str) -> (n: usize)
    ensures
        n == visible_len(s@),
{
    let v = to_chars(s);
    vlen_chars(&v)
}

/// The visible width of the characters `v`.
pub fn vlen_chars(v: &Vec<char>) -> (n: usize)
    ensures
        n == visible_len(v@),
{
    let mut n: usize = 0;
    let mut esc = false;
    for i in 0..v.len()
        invariant
            (n as nat, esc) == vlen_scan(v@.take(i as int)),
            n <= i,
    {
        assert(v@.take(i + 1).drop_last() =~= v@.take(i as int));
        let c = v[i];
        if c == '\x1b' {
            esc = true;
        } else if esc {
            if ascii_alpha(c) {
                esc = false;
            }
        } else {
            n = n + 1;
        }
    }
    assert(v@.take(v.len() as int) =~= v@);
    n
}

/// The escape sequence of a colour name, or `None` for a name that is not one.
pub open spec fn named_color(raw: Seq<char>) -> Option<Seq<char>> {
    if raw == "reset"@ { Some("\x1b[0m"@) }
    else if raw == "bold"@ { Some("\x1b[1m"@) }
    else if raw == "black"@ { Some("\x1b[30m"@) }
    else if raw == "red"@ { Some("\x1b[31m"@) }
    else if raw == "green"@ { Some("\x1b[32m"@) }
    else if raw == "yellow"@ { Some("\x1b[33m"@) }
    else if raw == "blue"@ { Some("\x1b[34m"@) }
    else if raw == "magenta"@ { Some("\x1b[35m"@) }
    else if raw == "cyan"@ { Some("\x1b[36m"@) }
    else if raw == "white"@ { Some("\x1b[37m"@) }
    else if raw == "bright_black"@ || raw == "gray"@ || raw == "grey"@ { Some("\x1b[90m"@) }
    else if raw == "bright_red"@ { Some("\x1b[91m"@) }
    else if raw == "bright_green"@ { Some("\x1b[92m"@) }
    else if raw == "bright_yellow"@ { Some("\x1b[93m"@) }
    else if raw == "bright_blue"@ { Some("\x1b[94m"@) }
    else if raw == "bright_magenta"@ { Some("\x1b[95m"@) }
    else if raw == "bright_cyan"@ { Some("\x1b[96m"@) }
    else if raw == "bright_white"@ { Some("\x1b[97m"@) }
    else { None }
}

/// What a configured colour stands for: the empty string for an empty one,
/// the value itself where it holds an escape sequence (`ESC [`), else the
/// code of a colour name; `None` for an unknown name.
pub open spec fn color_code(raw: Seq<char>) -> Option<Seq<char>> {
    if raw.len() == 0 {
        Some(seq![])
    } else if contains(raw, "\x1b["@) {
        Some(raw)
    } else {
        named_color(raw)
    }
}

/// The escape sequence that a configured colour resolves to; an unknown
/// name resolves to the empty string.
pub open spec fn resolved_color(raw: Seq<char>) -> Seq<char> {
    match color_code(raw) {
        Some(c) => c,
        None => seq![],
    }
}

fn named_color_exec(raw: &str) -> (r: Option<String>)
    ensures
        opt_view(r) == named_color(raw@),
{
    if str_eq(raw, "reset") { Some("\x1b[0m".to_string()) }
    else if str_eq(raw, "bold") { Some("\x1b[1m".to_string()) }
    else if str_eq(raw, "black") { Some("\x1b[30m".to_string()) }
    else if str_eq(raw, "red") { Some("\x1b[31m".to_string()) }
    else if str_eq(raw, "green") { Some("\x1b[32m".to_string()) }
    else if str_eq(raw, "yellow") { Some("\x1b[33m".to_string()) }
    else if str_eq(raw, "blue") { Some("\x1b[34m".to_string()) }
    else if str_eq(raw, "magenta") { Some("\x1b[35m".to_string()) }
    else if str_eq(raw, "cyan") { Some("\x1b[36m".to_string()) }
    else if str_eq(raw, "white") { Some("\x1b[37m".to_string()) }
    else if str_eq(raw, "bright_black") || str_eq(raw, "gray") || str_eq(raw, "grey") {
        Some("\x1b[90m".to_string())
    }
    else if str_eq(raw, "bright_red") { Some("\x1b[91m".to_string()) }
    else if str_eq(raw, "bright_green") { Some("\x1b[92m".to_string()) }
    else if str_eq(raw, "bright_yellow") { Some("\x1b[93m".to_string()) }
    else if str_eq(raw, "bright_blue") { Some("\x1b[94m".to_string()) }
    else if str_eq(raw, "bright_magenta") { Some("\x1b[95m".to_string()) }
    else if str_eq(raw, "bright_cyan") { Some("\x1b[96m".to_string()) }
    else if str_eq(raw, "bright_white") { Some("\x1b[97m".to_string()) }
    else { None }
}

/// The code a configured colour stands for, or `None` for an unknown
/// colour name.
pub fn lookup_color(raw: &str) -> (r: Option<String>)
    ensures
        opt_view(r) == color_code(raw@),
{
    if raw.is_empty() {
        return Some(String::new());
    }
    let v = to_chars(raw);
    let esc = to_chars("\x1b[");
    if contains_chars(&v, &esc) {
        return Some(raw.to_string());
    }
    named_color_exec(raw)
}

/// The escape sequence for a configured colour; an unknown name gives the
/// empty string.
pub fn resolve_color(raw: &str) -> (r: String)
    ensures
        r@ == resolved_color(raw@),
{
    match lookup_color(raw) {
        Some(c) => c,
        None => String::new(),
    }
}

/// The colours in effect, as escape sequences.
pub struct Theme {
    pub key: String,
    pub accent: String,
    pub value: String,
    pub reset: String,
    pub bold: String,
    pub separator: String,
    pub bar: Vec<String>,
}

/// A theme as a value of the specification.
pub struct ThemeView {
    pub key: Seq<char>,
    pub accent: Seq<char>,
    pub value: Seq<char>,
    pub reset: Seq<char>,
    pub bold: Seq<char>,
    pub separator: Seq<char>,
    pub bar: Seq<Seq<char>>,
}

impl View for Theme {
    type V = ThemeView;

    open spec fn view(&self) -> ThemeView {
        ThemeView {
            key: self.key@,
            accent: self.accent@,
            value: self.value@,
            reset: self.reset@,
            bold: self.bold@,
            separator: self.separator@,
            bar: strs(self.bar@),
        }
    }
}

/// The theme of a colour configuration: every colour resolved.
pub open spec fn theme_of(colors: ColorConfig) -> ThemeView {
    ThemeView {
        key: resolved_color(colors.key@),
        accent: resolved_color(colors.accent@),
        value: resolved_color(colors.value@),
        reset: resolved_color(colors.reset@),
        bold: resolved_color(colors.bold@),
        separator: resolved_color(colors.separator@),
        bar: resolved_bar(colors.bar@),
    }
}

/// The resolved colours of a colour bar.
pub open spec fn resolved_bar(bar: Seq<String>) -> Seq<Seq<char>> {
    bar.map_values(|c: String| resolved_color(c@))
}

impl Theme {
    /// The theme of a colour configuration: each colour resolved.
    pub fn from_cfg(colors: &ColorConfig) -> (t: Theme)
        ensures
            t@ == theme_of(*colors),
    {
        let mut bar: Vec<String> = Vec::new();
        for i in 0..colors.bar.len()
            invariant
                strs(bar@) == resolved_bar(colors.bar@.take(i as int)),
        {
            let ghost before = bar@;
            bar.push(resolve_color(colors.bar[i].as_str()));
            assert(colors.bar@.take(i + 1) =~= colors.bar@.take(i as int).push(colors.bar@[i as int]));
            assert(strs(bar@) =~= strs(before).push(resolved_color(colors.bar@[i as int]@)));
            assert(resolved_bar(colors.bar@.take(i + 1)) =~= resolved_bar(colors.bar@.take(i as int)).push(
                resolved_color(colors.bar@[i as int]@),
            ));
        }
        assert(colors.bar@.take(colors.bar.len() as int) =~= colors.bar@);
        Theme {
            key: resolve_color(colors.key.as_str()),
            accent: resolve_color(colors.accent.as_str()),
            value: resolve_color(colors.value.as_str()),
            reset: resolve_color(colors.reset.as_str()),
            bold: resolve_color(colors.bold.as_str()),
            separator: resolve_color(colors.separator.as_str()),
            bar,
        }
    }
}

/// `s` padded with spaces on the right to at least `w` characters
/// (`{:<w}`).
pub open spec fn pad_right(s: Seq<char>, w: nat) -> Seq<char> {
    if s.len() < w {
        s + repeat(' ', (w - s.len()) as nat)
    } else {
        s
    }
}

/// A `key > value` line of the information column.
pub open spec fn row_text(theme: ThemeView, key: Seq<char>, val: Seq<char>) -> Seq<char> {
    "  "@ + theme.key + pad_right(key, 5) + theme.reset + " "@ + theme.separator + ">"@
        + theme.reset + " "@ + theme.value + val + theme.reset + "\n"@
}

/// One `key > value` line: the key in the key colour, padded to five
/// characters, a separator, the value in the value colour.
pub fn row(theme: &Theme, key: &str, val: &str) -> (s: String)
    ensures
        s@ == row_text(theme@, key@, val@),
{
    let mut s = "  ".to_string();
    s.append(theme.key.as_str());
    s.append(key);
    let klen = to_chars(key).len();
    if klen < 5 {
        push_repeat(&mut s, ' ', 5 - klen);
    }
    s.append(theme.reset.as_str());
    s.append(" ");
    s.append(theme.separator.as_str());
    s.append(">");
    s.append(theme.reset.as_str());
    s.append(" ");
    s.append(theme.value.as_str());
    s.append(val);
    s.append(theme.reset.as_str());
    s.append("\n");
    assert(s@ =~= row_text(theme@, key@, val@));
    s
}

/// The blocks of a colour bar: each colour followed by two full blocks.
pub open spec fn bar_cells(bar: Seq<Seq<char>>) -> Seq<char>
    decreases bar.len(),
{
    if bar.len() == 0 {
        seq![]
    } else {
        bar_cells(bar.drop_last()) + bar.last() + "██"@
    }
}

/// The colour-bar line, or nothing for an empty bar.
pub open spec fn color_bar_text(theme: ThemeView) -> Seq<char> {
    if theme.bar.len() == 0 {
        seq![]
    } else {
        "  "@ + bar_cells(theme.bar) + theme.reset + "\n"@
    }
}

/// The colour-bar line: two blocks in each bar colour.
pub fn color_bar(theme: &Theme) -> (s: String)
    ensures
        s@ == color_bar_text(theme@),
{
    if theme.bar.len() == 0 {
        return String::new();
    }
    let mut s = "  ".to_string();
    let ghost start = s@;
    for i in 0..theme.bar.len()
        invariant
            s@ == start + bar_cells(strs(theme.bar@.take(i as int))),
    {
        assert(strs(theme.bar@.take(i + 1)).drop_last() =~= strs(theme.bar@.take(i as int)));
        s.append(theme.bar[i].as_str());
        s.append("██");
    }
    assert(theme.bar@.take(theme.bar.len() as int) =~= theme.bar@);
    s.append(theme.reset.as_str());
    s.append("\n");
    assert(s@ =~= color_bar_text(theme@));
    s
}

/// The number of bytes of the UTF-8 encoding of `s`, as `str::len` reports it.
pub open spec fn utf8_len(s: Seq<char>) -> nat {
    (vstd::utf8::encode_utf8(s).len() as usize) as nat
}

/// The width of the divider: the byte length of `user@host`, at least 24.
pub open spec fn divider_width(info: SysInfo) -> nat {
    let w = utf8_len(info.user@ + "@"@ + info.host@);
    if w < 24 {
        24
    } else {
        w
    }
}

/// The divider line.
pub open spec fn divider_text(info: SysInfo, theme: ThemeView) -> Seq<char> {
    "  "@ + theme.accent + repeat('─', divider_width(info)) + theme.reset + "\n"@
}

/// The packages value: `<system> nix  <home-manager> hm`.
pub open spec fn packages_text(info: SysInfo) -> Seq<char> {
    decimal(info.nix_pkgs as nat) + " nix  "@ + decimal(info.hm_pkgs as nat) + " hm"@
}

/// The generation value: `<generation> · <revision>`.
pub open spec fn generation_text(info: SysInfo) -> Seq<char> {
    info.nix_gen@ + " · "@ + info.nix_rev@
}

/// A label, or the module's own default.
pub open spec fn label_or(label: Option<Seq<char>>, default: Seq<char>) -> Seq<char> {
    match label {
        Some(l) => l,
        None => default,
    }
}

/// The title line: the label (by default `{user}@{host}`) with `{user}` and
/// then `{host}` replaced, in bold.
pub open spec fn title_text(label: Option<Seq<char>>, info: SysInfo, theme: ThemeView) -> Seq<char> {
    let t = label_or(label, "{user}@{host}"@);
    "  "@ + theme.bold + replace(replace(t, "{user}"@, info.user@), "{host}"@, info.host@)
        + theme.reset + "\n"@
}

/// The line that a module shows; `custom` is the output of a custom
/// module's command.
pub open spec fn module_line(m: ModuleView, info: SysInfo, theme: ThemeView, custom: Seq<char>) -> Seq<char> {
    match m {
        ModuleView::Title { label } => title_text(label, info, theme),
        ModuleView::Divider => divider_text(info, theme),
        ModuleView::Os { label } => row_text(theme, label_or(label, "os"@), info.os@),
        ModuleView::Kernel { label } => row_text(theme, label_or(label, "ker"@), info.kernel@),
        ModuleView::Uptime { label } => row_text(theme, label_or(label, "up"@), info.uptime@),
        ModuleView::Shell { label } => row_text(theme, label_or(label, "sh"@), info.shell@),
        ModuleView::Wm { label } => row_text(theme, label_or(label, "wm"@), info.wm@),
        ModuleView::Terminal { label } => row_text(theme, label_or(label, "term"@), info.terminal@),
        ModuleView::Cpu { label } => row_text(theme, label_or(label, "cpu"@), info.cpu@),
        ModuleView::Gpu { label } => row_text(theme, label_or(label, "gpu"@), info.gpu@),
        ModuleView::Memory { label } => row_text(theme, label_or(label, "mem"@), info.memory@),
        ModuleView::Swap { label } => row_text(theme, label_or(label, "swap"@), info.swap@),
        ModuleView::Disk { label } => row_text(theme, label_or(label, "disk"@), info.disk@),
        ModuleView::Packages { label } => row_text(theme, label_or(label, "pkgs"@), packages_text(info)),
        ModuleView::Generation { label } => row_text(theme, label_or(label, "gen"@), generation_text(info)),
        ModuleView::ColorBar => color_bar_text(theme),
        ModuleView::Custom { label, command } => row_text(theme, label, custom),
    }
}

fn label_str<'a>(label: &'a Option<String>, default: &'a str) -> (r: &'a str)
    ensures
        r@ == label_or(opt_view(*label), default@),
{
    match label {
        Some(l) => l.as_str(),
        None => default,
    }
}

fn title_line(label: &Option<String>, info: &SysInfo, theme: &Theme) -> (s: String)
    ensures
        s@ == title_text(opt_view(*label), *info, theme@),
{
    let t = to_chars(label_str(label, "{user}@{host}"));
    let user_pat = to_chars("{user}");
    let host_pat = to_chars("{host}");
    proof {
        reveal_strlit("{user}");
        reveal_strlit("{host}");
    }
    let t = replace_chars(&t, &user_pat, &to_chars(info.user.as_str()));
    let t = replace_chars(&t, &host_pat, &to_chars(info.host.as_str()));
    let mut s = "  ".to_string();
    s.append(theme.bold.as_str());
    push_chars(&mut s, &t);
    s.append(theme.reset.as_str());
    s.append("\n");
    assert(s@ =~= title_text(opt_view(*label), *info, theme@));
    s
}

fn divider_line(info: &SysInfo, theme: &Theme) -> (s: String)
    ensures
        s@ == divider_text(*info, theme@),
{
    let mut who = info.user.clone();
    who.append("@");
    who.append(info.host.as_str());
    assert(who@ =~= info.user@ + "@"@ + info.host@);
    let w = who.as_str().len();
    assert(w == utf8_len(info.user@ + "@"@ + info.host@));
    let w = if w < 24 { 24 } else { w };
    let mut s = "  ".to_string();
    s.append(theme.accent.as_str());
    push_repeat(&mut s, '─', w);
    s.append(theme.reset.as_str());
    s.append("\n");
    assert(s@ =~= divider_text(*info, theme@));
    s
}

fn packages_value(info: &SysInfo) -> (s: String)
    ensures
        s@ == packages_text(*info),
{
    let mut s = String::new();
    push_decimal(&mut s, info.nix_pkgs as u64);
    s.append(" nix  ");
    push_decimal(&mut s, info.hm_pkgs as u64);
    s.append(" hm");
    assert(s@ =~= packages_text(*info));
    s
}

fn generation_value(info: &SysInfo) -> (s: String)
    ensures
        s@ == generation_text(*info),
{
    let mut s = info.nix_gen.clone();
    s.append(" · ");
    s.append(info.nix_rev.as_str());
    s
}

/// The lines of the information column, one per configured module, in
/// order. `custom[i]` is what the command of module `i` printed, where
/// module `i` is a custom one; other entries are not read.
pub fn build_lines(info: &SysInfo, cfg: &Config, theme: &Theme, custom: &Vec<String>) -> (lines: Vec<String>)
    requires
        custom.len() == cfg.modules.len(),
    ensures
        lines.len() == cfg.modules.len(),
        forall|i: int|
            0 <= i < lines.len() ==> #[trigger] lines[i]@ == module_line(
                cfg.modules[i]@,
                *info,
                theme@,
                custom[i]@,
            ),
{
    let div = divider_line(info, theme);
    let pkgs = packages_value(info);
    let gen = generation_value(info);
    let mut lines: Vec<String> = Vec::new();
    for i in 0..cfg.modules.len()
        invariant
            custom.len() == cfg.modules.len(),
            div@ == divider_text(*info, theme@),
            pkgs@ == packages_text(*info),
            gen@ == generation_text(*info),
            lines.len() == i,
            forall|j: int|
                0 <= j < i ==> #[trigger] lines[j]@ == module_line(
                    cfg.modules[j]@,
                    *info,
                    theme@,
                    custom[j]@,
                ),
    {
        let line = match &cfg.modules[i] {
            crate::config::Module::Title { label } => title_line(label, info, theme),
            crate::config::Module::Divider => div.clone(),
            crate::config::Module::Os { label } => row(theme, label_str(label, "os"), info.os.as_str()),
            crate::config::Module::Kernel { label } => row(theme, label_str(label, "ker"), info.kernel.as_str()),
            crate::config::Module::Uptime { label } => row(theme, label_str(label, "up"), info.uptime.as_str()),
            crate::config::Module::Shell { label } => row(theme, label_str(label, "sh"), info.shell.as_str()),
            crate::config::Module::Wm { label } => row(theme, label_str(label, "wm"), info.wm.as_str()),
            crate::config::Module::Terminal { label } => row(theme, label_str(label, "term"), info.terminal.as_str()),
            crate::config::Module::Cpu { label } => row(theme, label_str(label, "cpu"), info.cpu.as_str()),
            crate::config::Module::Gpu { label } => row(theme, label_str(label, "gpu"), info.gpu.as_str()),
            crate::config::Module::Memory { label } => row(theme, label_str(label, "mem"), info.memory.as_str()),
            crate::config::Module::Swap { label } => row(theme, label_str(label, "swap"), info.swap.as_str()),
            crate::config::Module::Disk { label } => row(theme, label_str(label, "disk"), info.disk.as_str()),
            crate::config::Module::Packages { label } => row(theme, label_str(label, "pkgs"), pkgs.as_str()),
            crate::config::Module::Generation { label } => row(theme, label_str(label, "gen"), gen.as_str()),
            crate::config::Module::ColorBar => color_bar(theme),
            crate::config::Module::Custom { label, command } => row(theme, label.as_str(), custom[i].as_str()),
        };
        lines.push(line);
    }
    lines
}

/// The widest visible width among `ls`, or 0 for none.
pub open spec fn max_visible(ls: Seq<Seq<char>>) -> nat
    decreases ls.len(),
{
    if ls.len() == 0 {
        0
    } else {
        let m = max_visible(ls.drop_last());
        let w = visible_len(ls.last());
        if w > m {
            w
        } else {
            m
        }
    }
}

/// Row `i` of the text layout: the logo line in the key colour padded to
/// visible width `w`, three spaces, then information line `i` without its
/// trailing newlines.
pub open spec fn ascii_row(
    art: Seq<Seq<char>>,
    info: Seq<Seq<char>>,
    w: nat,
    theme: ThemeView,
    i: int,
) -> Seq<char> {
    let t = if i < info.len() { trim_end_char(info[i], '\n') } else { seq![] };
    theme.key + logo_cell(art, w, i) + theme.reset + "   "@ + t + "\n"@
}

/// The logo part of row `i` of the text layout: logo line `i` (or nothing)
/// and the spaces that pad it to visible width `w`.
pub open spec fn logo_cell(art: Seq<Seq<char>>, w: nat, i: int) -> Seq<char> {
    let a = if i < art.len() { art[i] } else { seq![] };
    let pad: nat = if visible_len(a) < w { (w - visible_len(a)) as nat } else { 0 };
    a + repeat(' ', pad)
}

/// The first `k` rows of the text layout.
pub open spec fn ascii_rows(
    art: Seq<Seq<char>>,
    info: Seq<Seq<char>>,
    w: nat,
    theme: ThemeView,
    k: nat,
) -> Seq<char>
    decreases k,
{
    if k == 0 {
        seq![]
    } else {
        ascii_rows(art, info, w, theme, (k - 1) as nat) + ascii_row(art, info, w, theme, k - 1)
    }
}

/// The number of rows of the text layout: the longer of the two columns.
pub open spec fn ascii_row_count(art: Seq<Seq<char>>, info: Seq<Seq<char>>) -> nat {
    if art.len() < info.len() {
        info.len()
    } else {
        art.len()
    }
}

/// The text layout: the lines of the logo text on the left, padded to the
/// widest of them, the information lines on the right.
pub open spec fn ascii_layout(art: Seq<char>, info: Seq<Seq<char>>, theme: ThemeView) -> Seq<char> {
    let al = lines(art);
    ascii_rows(al, info, max_visible(al), theme, ascii_row_count(al, info))
}

fn max_visible_of(ls: &Vec<Vec<char>>) -> (m: usize)
    ensures
        m == max_visible(views(ls@)),
{
    let mut m: usize = 0;
    for i in 0..ls.len()
        invariant
            m == max_visible(views(ls@.take(i as int))),
    {
        assert(views(ls@.take(i + 1)).drop_last() =~= views(ls@.take(i as int)));
        assert(views(ls@.take(i + 1)).last() == ls@[i as int]@);
        let w = vlen_chars(&ls[i]);
        if w > m {
            m = w;
        }
    }
    assert(ls@.take(ls.len() as int) =~= ls@);
    m
}

fn trim_newlines(v: &Vec<char>) -> (r: Vec<char>)
    ensures
        r@ == trim_end_char(v@, '\n'),
{
    let mut j = v.len();
    assert(v@.take(j as int) =~= v@);
    while j > 0 && v[j - 1] == '\n'
        invariant
            j <= v.len(),
            trim_end_char(v@, '\n') == trim_end_char(v@.take(j as int), '\n'),
        decreases j,
    {
        assert(v@.take(j as int).drop_last() =~= v@.take(j - 1));
        j = j - 1;
    }
    slice_chars(v, 0, j)
}

/// Appends the text layout: logo text on the left, information on the right.
#[verifier::rlimit(40)]
#[verifier::spinoff_prover]
pub fn render_ascii(output: &mut String, art: &str, lines: &[String], theme: &Theme)
    ensures
        final(output)@ == old(output)@ + ascii_layout(art@, strs(lines@), theme@),
{
    let art_lines = lines_of(&to_chars(art));
    let max_w = max_visible_of(&art_lines);
    let total = if art_lines.len() < lines.len() { lines.len() } else { art_lines.len() };
    let ghost al = views(art_lines@);
    let ghost info = strs(lines@);
    let ghost head = output@;
    for i in 0..total
        invariant
            al == views(art_lines@),
            info == strs(lines@),
            output@ == head + ascii_rows(al, info, max_w as nat, theme@, i as nat),
    {
        let ghost before = output@;
        output.append(theme.key.as_str());
        let empty: Vec<char> = Vec::new();
        let a: &Vec<char> = if i < art_lines.len() { &art_lines[i] } else { &empty };
        push_chars(output, a);
        let w = vlen_chars(a);
        let pad = if w < max_w { max_w - w } else { 0 };
        push_repeat(output, ' ', pad);
        output.append(theme.reset.as_str());
        output.append("   ");
        if i < lines.len() {
            let t = trim_newlines(&to_chars(lines[i].as_str()));
            push_chars(output, &t);
        }
        output.append("\n");
        assert(output@ =~= before + ascii_row(al, info, max_w as nat, theme@, i as int)) by {
            assert(a@ == (if i < al.len() { al[i as int] } else { seq![] }));
        }
    }
}

/// The information lines one after another, then a newline.
pub open spec fn plain_lines(info: Seq<Seq<char>>, k: nat) -> Seq<char>
    decreases k,
{
    if k == 0 {
        seq![]
    } else {
        plain_lines(info, (k - 1) as nat) + info[k - 1]
    }
}

/// The layout without a logo.
pub open spec fn plain_layout(info: Seq<Seq<char>>) -> Seq<char> {
    plain_lines(info, info.len()) + "\n"@
}

/// Appends the information lines alone.
pub fn render_plain(output: &mut String, lines: &[String])
    ensures
        final(output)@ == old(output)@ + plain_layout(strs(lines@)),
{
    let ghost info = strs(lines@);
    for i in 0..lines.len()
        invariant
            info == strs(lines@),
            output@ == old(output)@ + plain_lines(info, i as nat),
    {
        output.append(lines[i].as_str());
    }
    output.append("\n");
}

/// The logo file that a mode would show: the configured path, else the
/// mode's file under `$HOME/.config/copetch/`; none for the text mode.
pub open spec fn logo_path_text(mode: Mode, cfg_path: Option<Seq<char>>, home: Seq<char>) -> Seq<char> {
    match cfg_path {
        Some(p) => p,
        None => match mode {
            Mode::Gif => home + "/.config/copetch/cop.gif"@,
            Mode::Png => home + "/.config/copetch/cop.png"@,
            Mode::Ascii => home + "/.config/copetch/cop.txt"@,
            Mode::Text => seq![],
        },
    }
}

/// The path of the logo file for `mode`; `home` is `$HOME`, empty when unset.
pub fn logo_path(mode: &Mode, cfg: &Config, home: &str) -> (p: String)
    ensures
        p@ == logo_path_text(*mode, opt_view(cfg.logo.path), home@),
{
    if let Some(path) = &cfg.logo.path {
        return path.clone();
    }
    let mut p = home.to_string();
    match mode {
        Mode::Gif => p.append("/.config/copetch/cop.gif"),
        Mode::Png => p.append("/.config/copetch/cop.png"),
        Mode::Ascii => p.append("/.config/copetch/cop.txt"),
        Mode::Text => {
            return String::new();
        },
    }
    p
}

/// What became of the logo file before rendering.
pub enum LogoFile {
    /// The file does not exist.
    Missing,
    /// It exists but could not be read (or, for text, is not UTF-8).
    Unreadable,
    /// Its bytes, for a picture mode.
    Bytes(Vec<u8>),
    /// Its text, for the text mode.
    Text(String),
}

/// Why the logo was left out.
#[derive(Clone, Copy, PartialEq, Eq, Structural)]
pub enum LogoIssue {
    NotFound,
    ReadFailed,
    DecodeFailed,
}

/// A logo ready to be shown, or the reason there is none.
pub enum Logo {
    /// The file does not exist (or the mode shows no logo).
    Missing,
    /// The file could not be read.
    Unreadable,
    /// The file was read but holds no GIF that decodes.
    Undecodable,
    /// PNG bytes to draw as a picture.
    Picture(Vec<u8>),
    /// Text art.
    Art(String),
}

/// What a logo file becomes for a mode: for a GIF, its first frame as PNG
/// (a GIF that cannot be read counts as not decoded); for a PNG, its bytes;
/// for text art, its text; for the text mode, no logo.
pub open spec fn prepared_logo(mode: Mode, logo: LogoFile, r: Logo) -> bool {
    match mode {
        Mode::Text => r is Missing,
        Mode::Gif => match logo {
            LogoFile::Missing => r is Missing,
            LogoFile::Bytes(b) => match gif_png(b@) {
                Some(p) => r matches Logo::Picture(q) && q@ == p,
                None => r is Undecodable,
            },
            _ => r is Undecodable,
        },
        Mode::Png => match logo {
            LogoFile::Missing => r is Missing,
            LogoFile::Bytes(b) => r matches Logo::Picture(q) && q@ == b@,
            _ => r is Unreadable,
        },
        Mode::Ascii => match logo {
            LogoFile::Missing => r is Missing,
            LogoFile::Text(t) => r matches Logo::Art(a) && a@ == t@,
            _ => r is Unreadable,
        },
    }
}

/// Turns the logo file of a mode into the logo to show, decoding a GIF to
/// the PNG of its first frame.
pub fn prepare_logo(mode: Mode, logo: LogoFile) -> (r: Logo)
    ensures
        prepared_logo(mode, logo, r),
{
    match mode {
        Mode::Text => Logo::Missing,
        Mode::Gif => match logo {
            LogoFile::Missing => Logo::Missing,
            LogoFile::Bytes(raw) => match gif_to_png(raw.as_slice()) {
                Some(png) => Logo::Picture(png),
                None => Logo::Undecodable,
            },
            _ => Logo::Undecodable,
        },
        Mode::Png => match logo {
            LogoFile::Missing => Logo::Missing,
            LogoFile::Bytes(raw) => Logo::Picture(raw),
            _ => Logo::Unreadable,
        },
        Mode::Ascii => match logo {
            LogoFile::Missing => Logo::Missing,
            LogoFile::Text(art) => Logo::Art(art),
            _ => Logo::Unreadable,
        },
    }
}

/// Whether a picture is drawn: a mode that shows a logo, and a picture to show.
pub open spec fn picture_shown(mode: Mode, logo: Logo) -> bool {
    mode != Mode::Text && logo is Picture
}

/// The information lines that a configuration gives, `custom[i]` being the
/// output of custom module `i`.
pub open spec fn info_lines(info: SysInfo, cfg: Config, custom: Seq<Seq<char>>) -> Seq<Seq<char>> {
    Seq::new(
        cfg.modules@.len(),
        |i: int| module_line(cfg.modules@[i]@, info, theme_of(cfg.colors), custom[i]),
    )
}

/// The whole output, after a leading newline, and why the logo was left
/// out, if it was: the text mode shows the information column alone; other
/// modes show it beside the logo, or alone with the reason.
pub open spec fn rendered(
    info: SysInfo,
    mode: Mode,
    cfg: Config,
    logo: Logo,
    custom: Seq<Seq<char>>,
) -> (Seq<char>, Option<LogoIssue>) {
    let ls = info_lines(info, cfg, custom);
    let plain = "\n"@ + plain_layout(ls);
    if mode == Mode::Text {
        (plain, None)
    } else {
        match logo {
            Logo::Missing => (plain, Some(LogoIssue::NotFound)),
            Logo::Unreadable => (plain, Some(LogoIssue::ReadFailed)),
            Logo::Undecodable => (plain, Some(LogoIssue::DecodeFailed)),
            Logo::Picture(p) => ("\n"@ + kitty_layout(p@, ls, cfg.image), None),
            Logo::Art(t) => ("\n"@ + ascii_layout(t@, ls, theme_of(cfg.colors)), None),
        }
    }
}

/// Everything that is printed: the information column and, by the mode,
/// the logo beside it, or the column alone and the reason the logo is
/// missing.
pub fn render_output(info: &SysInfo, mode: Mode, cfg: &Config, logo: Logo, custom: &Vec<String>) -> (r: (
    String,
    Option<LogoIssue>,
))
    requires
        custom.len() == cfg.modules.len(),
        picture_shown(mode, logo) && kitty_row_count(cfg.modules@.len(), cfg.image) > 0
            ==> cfg.image.cols * 2 + cfg.image.gap <= u32::MAX,
    ensures
        (r.0@, r.1) == rendered(*info, mode, *cfg, logo, strs(custom@)),
{
    let theme = Theme::from_cfg(&cfg.colors);
    let lines = build_lines(info, cfg, &theme, custom);
    let ghost ls = info_lines(*info, *cfg, strs(custom@));
    assert(strs(lines@) =~= ls);
    let mut output = "\n".to_string();
    if mode == Mode::Text {
        render_plain(&mut output, lines.as_slice());
        return (output, None);
    }
    let issue = match logo {
        Logo::Missing => {
            render_plain(&mut output, lines.as_slice());
            Some(LogoIssue::NotFound)
        },
        Logo::Unreadable => {
            render_plain(&mut output, lines.as_slice());
            Some(LogoIssue::ReadFailed)
        },
        Logo::Undecodable => {
            render_plain(&mut output, lines.as_slice());
            Some(LogoIssue::DecodeFailed)
        },
        Logo::Picture(png) => {
            render_kitty(&mut output, png.as_slice(), lines.as_slice(), &cfg.image);
            None
        },
        Logo::Art(art) => {
            render_ascii(&mut output, art.as_str(), lines.as_slice(), &theme);
            None
        },
    };
    (output, issue)
}

/// The display mode: a command-line flag (`--gif`, `--png`, `--ascii`,
/// `--text`) wins; otherwise `display.mode` of the configuration (`gif`,
/// `png`, `text`), and the text-art mode for anything else.
pub open spec fn chosen_mode(arg: Seq<char>, cfg_mode: Seq<char>) -> Mode {
    if arg == "--gif"@ {
        Mode::Gif
    } else if arg == "--png"@ {
        Mode::Png
    } else if arg == "--ascii"@ {
        Mode::Ascii
    } else if arg == "--text"@ {
        Mode::Text
    } else if cfg_mode == "gif"@ {
        Mode::Gif
    } else if cfg_mode == "png"@ {
        Mode::Png
    } else if cfg_mode == "text"@ {
        Mode::Text
    } else {
        Mode::Ascii
    }
}

/// The display mode for the first command-line argument (empty when there
/// is none) and the configured mode.
pub fn select_mode(arg: &str, cfg_mode: &str) -> (m: Mode)
    ensures
        m == chosen_mode(arg@, cfg_mode@),
{
    if str_eq(arg, "--gif") {
        Mode::Gif
    } else if str_eq(arg, "--png") {
        Mode::Png
    } else if str_eq(arg, "--ascii") {
        Mode::Ascii
    } else if str_eq(arg, "--text") {
        Mode::Text
    } else if str_eq(cfg_mode, "gif") {
        Mode::Gif
    } else if str_eq(cfg_mode, "png") {
        Mode::Png
    } else if str_eq(cfg_mode, "text") {
        Mode::Text
    } else {
        Mode::Ascii
    }
}

/// Visible width adds up across a boundary where no escape sequence is open:
/// the scan of `a + b` counts what `a` counts and then what `b` counts, and
/// ends as the scan of `b` ends.
pub proof fn law_visible_len_concat(a: Seq<char>, b: Seq<char>)
    requires
        !vlen_scan(a).1,
    ensures
        vlen_scan(a + b) == (vlen_scan(a).0 + vlen_scan(b).0, vlen_scan(b).1),
    decreases b.len(),
{
    if b.len() == 0 {
        assert(a + b =~= a);
    } else {
        law_visible_len_concat(a, b.drop_last());
        assert((a + b).drop_last() =~= a + b.drop_last());
        assert((a + b).last() == b.last());
    }
}

/// Spaces are visible, one column each.
pub proof fn lemma_spaces_visible(k: nat)
    ensures
        vlen_scan(repeat(' ', k)) == (k, false),
    decreases k,
{
    if k > 0 {
        lemma_spaces_visible((k - 1) as nat);
        assert(repeat(' ', k).drop_last() =~= repeat(' ', (k - 1) as nat));
    }
}

/// Every line is at most as wide as the widest one.
pub proof fn lemma_max_visible(ls: Seq<Seq<char>>, i: int)
    requires
        0 <= i < ls.len(),
    ensures
        visible_len(ls[i]) <= max_visible(ls),
    decreases ls.len(),
{
    if i < ls.len() - 1 {
        lemma_max_visible(ls.drop_last(), i);
    }
}

/// In the text layout the information column is aligned: the logo part of
/// every row has the visible width of the widest logo line, wherever the
/// logo line of that row leaves no escape sequence open.
pub proof fn law_logo_cells_aligned(art: Seq<char>, i: int)
    requires
        0 <= i,
        i < lines(art).len() ==> !vlen_scan(lines(art)[i]).1,
    ensures
        visible_len(logo_cell(lines(art), max_visible(lines(art)), i)) == max_visible(lines(art)),
{
    let al = lines(art);
    let w = max_visible(al);
    let a = if i < al.len() { al[i] } else { seq![] };
    if i < al.len() {
        lemma_max_visible(al, i);
    }
    let pad: nat = if visible_len(a) < w { (w - visible_len(a)) as nat } else { 0 };
    law_visible_len_concat(a, repeat(' ', pad));
    lemma_spaces_visible(pad);
}

/// `ESC [ <digits> m` shows nothing and closes its escape sequence.
pub proof fn lemma_sgr_invisible(d: Seq<char>)
    requires
        forall|j: int| 0 <= j < d.len() ==> !is_ascii_alpha(#[trigger] d[j]),
    ensures
        vlen_scan(seq!['\x1b', '['] + d + seq!['m']) == (0nat, false),
{
    lemma_escape_body(d, d.len());
    assert(d.take(d.len() as int) =~= d);
    assert((seq!['\x1b', '['] + d + seq!['m']).drop_last() =~= seq!['\x1b', '['] + d);
    assert((seq!['\x1b', '['] + d + seq!['m']).last() == 'm');
}

proof fn lemma_escape_open()
    ensures
        vlen_scan(seq!['\x1b', '[']) == (0nat, true),
{
    let e = seq!['\x1b'];
    assert(e.drop_last() =~= Seq::<char>::empty());
    assert(e.len() == 1 && e.last() == '\x1b');
    assert(vlen_scan(Seq::<char>::empty()) == (0nat, false));
    assert(vlen_scan(e) == (0nat, true));
    assert(seq!['\x1b', '['].drop_last() =~= seq!['\x1b']);
}

proof fn lemma_escape_body(d: Seq<char>, k: nat)
    requires
        k <= d.len(),
        forall|j: int| 0 <= j < d.len() ==> !is_ascii_alpha(#[trigger] d[j]),
    ensures
        vlen_scan(seq!['\x1b', '['] + d.take(k as int)) == (0nat, true),
    decreases k,
{
    lemma_escape_open();
    if k == 0 {
        assert(seq!['\x1b', '['] + d.take(0) =~= seq!['\x1b', '[']);
    } else {
        lemma_escape_body(d, (k - 1) as nat);
        assert((seq!['\x1b', '['] + d.take(k as int)).drop_last() =~= seq!['\x1b', '['] + d.take(k - 1));
        assert((seq!['\x1b', '['] + d.take(k as int)).last() == d[k - 1]);
    }
    if k == d.len() {
        assert(d.take(k as int) =~= d);
    }
}

/// The code of every colour name shows nothing and closes its escape
/// sequence, so colouring text leaves its visible width unchanged.
pub proof fn law_named_colors_invisible(raw: Seq<char>, s: Seq<char>)
    requires
        named_color(raw) is Some,
    ensures
        visible_len(named_color(raw)->0 + s) == visible_len(s),
{
    let code = named_color(raw)->0;
    assert(vlen_scan(code) == (0nat, false)) by {
        reveal_strlit("\x1b[0m");
        reveal_strlit("\x1b[1m");
        reveal_strlit("\x1b[30m");
        reveal_strlit("\x1b[31m");
        reveal_strlit("\x1b[32m");
        reveal_strlit("\x1b[33m");
        reveal_strlit("\x1b[34m");
        reveal_strlit("\x1b[35m");
        reveal_strlit("\x1b[36m");
        reveal_strlit("\x1b[37m");
        reveal_strlit("\x1b[90m");
        reveal_strlit("\x1b[91m");
        reveal_strlit("\x1b[92m");
        reveal_strlit("\x1b[93m");
        reveal_strlit("\x1b[94m");
        reveal_strlit("\x1b[95m");
        reveal_strlit("\x1b[96m");
        reveal_strlit("\x1b[97m");
        reveal_strlit("\x1b[");
        lemma_code_shape(code);
    }
    law_visible_len_concat(code, s);
}

proof fn lemma_code_shape(code: Seq<char>)
    requires
        code.len() >= 4,
        code[0] == '\x1b',
        code[1] == '[',
        code.last() == 'm',
        forall|j: int| 2 <= j < code.len() - 1 ==> '0' <= #[trigger] code[j] && code[j] <= '9',
    ensures
        vlen_scan(code) == (0nat, false),
{
    let d = code.subrange(2, code.len() - 1);
    assert(code =~= seq!['\x1b', '['] + d + seq!['m']);
    assert forall|j: int| 0 <= j < d.len() implies !is_ascii_alpha(#[trigger] d[j]) by {
        assert(d[j] == code[j + 2]);
    }
    lemma_sgr_invisible(d);
}

/// Resolving a resolved colour changes nothing: escape sequences pass
/// through, and an unknown name has already become the empty string.
pub proof fn law_resolve_idempotent(raw: Seq<char>)
    ensures
        resolved_color(resolved_color(raw)) == resolved_color(raw),
{
    let code = resolved_color(raw);
    if raw.len() > 0 && !contains(raw, "\x1b["@) && named_color(raw) is Some {
        assert(code.len() > 0 && contains(code, "\x1b["@)) by {
            reveal_strlit("\x1b[0m");
            reveal_strlit("\x1b[1m");
            reveal_strlit("\x1b[30m");
            reveal_strlit("\x1b[31m");
            reveal_strlit("\x1b[32m");
            reveal_strlit("\x1b[33m");
            reveal_strlit("\x1b[34m");
            reveal_strlit("\x1b[35m");
            reveal_strlit("\x1b[36m");
            reveal_strlit("\x1b[37m");
            reveal_strlit("\x1b[90m");
            reveal_strlit("\x1b[91m");
            reveal_strlit("\x1b[92m");
            reveal_strlit("\x1b[93m");
            reveal_strlit("\x1b[94m");
            reveal_strlit("\x1b[95m");
            reveal_strlit("\x1b[96m");
            reveal_strlit("\x1b[97m");
            reveal_strlit("\x1b[");
            assert(code.subrange(0, 2) =~= "\x1b["@);
            assert(matches_at(code, "\x1b["@, 0));
        }
    }
}

/// A command-line flag decides the mode, whatever the configuration says.
pub proof fn law_flag_overrides_config(arg: Seq<char>, cfg_a: Seq<char>, cfg_b: Seq<char>)
    requires
        arg == "--gif"@ || arg == "--png"@ || arg == "--ascii"@ || arg == "--text"@,
    ensures
        chosen_mode(arg, cfg_a) == chosen_mode(arg, cfg_b),
{
}

} // verus!

verus! {

/// The Select Graphic Rendition sequence `ESC [ n m`.
pub open spec fn sgr(n: nat) -> Seq<char> {
    seq!['\x1b', '['] + decimal(n) + seq!['m']
}

/// The eight basic colours in ANSI order.
pub open spec fn ansi_color_names() -> Seq<Seq<char>> {
    seq!["black"@, "red"@, "green"@, "yellow"@, "blue"@, "magenta"@, "cyan"@, "white"@]
}

proof fn lemma_two_digits(n: nat)
    requires
        10 <= n < 100,
    ensures
        decimal(n) == seq![digit_char((n / 10) as int), digit_char((n % 10) as int)],
{
    assert(decimal(n / 10) == seq![digit_char((n / 10) as int)]);
    assert(decimal(n) =~= seq![digit_char((n / 10) as int), digit_char((n % 10) as int)]);
}

proof fn lemma_names_hold_no_escape(k: int)
    requires
        0 <= k < 8,
    ensures
        ansi_color_names()[k].len() > 0,
        forall|j: int| 0 <= j < ansi_color_names()[k].len() ==> ansi_color_names()[k][j] != '\x1b',
        forall|j: int|
            0 <= j < ("bright_"@ + ansi_color_names()[k]).len() ==> ("bright_"@ + ansi_color_names()[k])[j]
                != '\x1b',
{
    reveal_strlit("black");
    reveal_strlit("red");
    reveal_strlit("green");
    reveal_strlit("yellow");
    reveal_strlit("blue");
    reveal_strlit("magenta");
    reveal_strlit("cyan");
    reveal_strlit("white");
    reveal_strlit("bright_");
    let n = ansi_color_names()[k];
    assert forall|j: int| 0 <= j < n.len() implies n[j] != '\x1b' by {
        if k == 0 { assert(n == "black"@); }
        else if k == 1 { assert(n == "red"@); }
        else if k == 2 { assert(n == "green"@); }
        else if k == 3 { assert(n == "yellow"@); }
        else if k == 4 { assert(n == "blue"@); }
        else if k == 5 { assert(n == "magenta"@); }
        else if k == 6 { assert(n == "cyan"@); }
        else { assert(n == "white"@); }
    }
    assert forall|j: int| 0 <= j < ("bright_"@ + n).len() implies ("bright_"@ + n)[j] != '\x1b' by {
        if j >= 7 {
            assert(("bright_"@ + n)[j] == n[j - 7]);
        }
    }
}

/// Colour names follow ANSI order: the `k`-th basic colour is SGR `30 + k`,
/// and its `bright_` form is SGR `90 + k`.
pub proof fn law_color_codes_follow_ansi(k: int)
    requires
        0 <= k < 8,
    ensures
        named_color(ansi_color_names()[k]) == Some(sgr((30 + k) as nat)),
        named_color("bright_"@ + ansi_color_names()[k]) == Some(sgr((90 + k) as nat)),
        resolved_color(ansi_color_names()[k]) == sgr((30 + k) as nat),
        resolved_color("bright_"@ + ansi_color_names()[k]) == sgr((90 + k) as nat),
{
    reveal_strlit("\x1b[");
    lemma_names_hold_no_escape(k);
    lemma_no_first_char_no_match(ansi_color_names()[k], "\x1b["@, 0);
    lemma_no_first_char_no_match("bright_"@ + ansi_color_names()[k], "\x1b["@, 0);
    reveal_strlit("reset");
    reveal_strlit("bold");
    reveal_strlit("black");
    reveal_strlit("red");
    reveal_strlit("green");
    reveal_strlit("yellow");
    reveal_strlit("blue");
    reveal_strlit("magenta");
    reveal_strlit("cyan");
    reveal_strlit("white");
    reveal_strlit("bright_");
    reveal_strlit("bright_black");
    reveal_strlit("gray");
    reveal_strlit("grey");
    reveal_strlit("bright_red");
    reveal_strlit("bright_green");
    reveal_strlit("bright_yellow");
    reveal_strlit("bright_blue");
    reveal_strlit("bright_magenta");
    reveal_strlit("bright_cyan");
    reveal_strlit("bright_white");
    reveal_strlit("\x1b[30m");
    reveal_strlit("\x1b[31m");
    reveal_strlit("\x1b[32m");
    reveal_strlit("\x1b[33m");
    reveal_strlit("\x1b[34m");
    reveal_strlit("\x1b[35m");
    reveal_strlit("\x1b[36m");
    reveal_strlit("\x1b[37m");
    reveal_strlit("\x1b[90m");
    reveal_strlit("\x1b[91m");
    reveal_strlit("\x1b[92m");
    reveal_strlit("\x1b[93m");
    reveal_strlit("\x1b[94m");
    reveal_strlit("\x1b[95m");
    reveal_strlit("\x1b[96m");
    reveal_strlit("\x1b[97m");
    lemma_two_digits((30 + k) as nat);
    lemma_two_digits((90 + k) as nat);
    let name = ansi_color_names()[k];
    assert(name == ansi_color_names()[k]);
    let bright = "bright_"@ + name;
    if k == 0 {
        assert(bright =~= "bright_black"@);
        assert(sgr(30) =~= "\x1b[30m"@);
        assert(sgr(90) =~= "\x1b[90m"@);
        assert("black"@ != "reset"@) by { assert("black"@[0] != "reset"@[0]); }
        assert("black"@ != "bold"@) by { assert("black"@.len() != "bold"@.len()); }
        assert("bright_black"@ != "reset"@) by { assert("bright_black"@.len() != "reset"@.len()); }
        assert("bright_black"@ != "bold"@) by { assert("bright_black"@.len() != "bold"@.len()); }
        assert("bright_black"@ != "black"@) by { assert("bright_black"@.len() != "black"@.len()); }
        assert("bright_black"@ != "red"@) by { assert("bright_black"@.len() != "red"@.len()); }
        assert("bright_black"@ != "green"@) by { assert("bright_black"@.len() != "green"@.len()); }
        assert("bright_black"@ != "yellow"@) by { assert("bright_black"@.len() != "yellow"@.len()); }
        assert("bright_black"@ != "blue"@) by { assert("bright_black"@.len() != "blue"@.len()); }
        assert("bright_black"@ != "magenta"@) by { assert("bright_black"@.len() != "magenta"@.len()); }
        assert("bright_black"@ != "cyan"@) by { assert("bright_black"@.len() != "cyan"@.len()); }
        assert("bright_black"@ != "white"@) by { assert("bright_black"@.len() != "white"@.len()); }
    } else if k == 1 {
        assert(bright =~= "bright_red"@);
        assert(sgr(31) =~= "\x1b[31m"@);
        assert(sgr(91) =~= "\x1b[91m"@);
        assert("red"@ != "reset"@) by { assert("red"@.len() != "reset"@.len()); }
        assert("red"@ != "bold"@) by { assert("red"@.len() != "bold"@.len()); }
        assert("red"@ != "black"@) by { assert("red"@.len() != "black"@.len()); }
        assert("bright_red"@ != "reset"@) by { assert("bright_red"@.len() != "reset"@.len()); }
        assert("bright_red"@ != "bold"@) by { assert("bright_red"@.len() != "bold"@.len()); }
        assert("bright_red"@ != "black"@) by { assert("bright_red"@.len() != "black"@.len()); }
        assert("bright_red"@ != "red"@) by { assert("bright_red"@.len() != "red"@.len()); }
        assert("bright_red"@ != "green"@) by { assert("bright_red"@.len() != "green"@.len()); }
        assert("bright_red"@ != "yellow"@) by { assert("bright_red"@.len() != "yellow"@.len()); }
        assert("bright_red"@ != "blue"@) by { assert("bright_red"@.len() != "blue"@.len()); }
        assert("bright_red"@ != "magenta"@) by { assert("bright_red"@.len() != "magenta"@.len()); }
        assert("bright_red"@ != "cyan"@) by { assert("bright_red"@.len() != "cyan"@.len()); }
        assert("bright_red"@ != "white"@) by { assert("bright_red"@.len() != "white"@.len()); }
        assert("bright_red"@ != "bright_black"@) by { assert("bright_red"@.len() != "bright_black"@.len()); }
        assert("bright_red"@ != "gray"@) by { assert("bright_red"@.len() != "gray"@.len()); }
        assert("bright_red"@ != "grey"@) by { assert("bright_red"@.len() != "grey"@.len()); }
    } else if k == 2 {
        assert(bright =~= "bright_green"@);
        assert(sgr(32) =~= "\x1b[32m"@);
        assert(sgr(92) =~= "\x1b[92m"@);
        assert("green"@ != "reset"@) by { assert("green"@[0] != "reset"@[0]); }
        assert("green"@ != "bold"@) by { assert("green"@.len() != "bold"@.len()); }
        assert("green"@ != "black"@) by { assert("green"@[0] != "black"@[0]); }
        assert("green"@ != "red"@) by { assert("green"@.len() != "red"@.len()); }
        assert("bright_green"@ != "reset"@) by { assert("bright_green"@.len() != "reset"@.len()); }
        assert("bright_green"@ != "bold"@) by { assert("bright_green"@.len() != "bold"@.len()); }
        assert("bright_green"@ != "black"@) by { assert("bright_green"@.len() != "black"@.len()); }
        assert("bright_green"@ != "red"@) by { assert("bright_green"@.len() != "red"@.len()); }
        assert("bright_green"@ != "green"@) by { assert("bright_green"@.len() != "green"@.len()); }
        assert("bright_green"@ != "yellow"@) by { assert("bright_green"@.len() != "yellow"@.len()); }
        assert("bright_green"@ != "blue"@) by { assert("bright_green"@.len() != "blue"@.len()); }
        assert("bright_green"@ != "magenta"@) by { assert("bright_green"@.len() != "magenta"@.len()); }
        assert("bright_green"@ != "cyan"@) by { assert("bright_green"@.len() != "cyan"@.len()); }
        assert("bright_green"@ != "white"@) by { assert("bright_green"@.len() != "white"@.len()); }
        assert("bright_green"@ != "bright_black"@) by { assert("bright_green"@[7] != "bright_black"@[7]); }
        assert("bright_green"@ != "gray"@) by { assert("bright_green"@.len() != "gray"@.len()); }
        assert("bright_green"@ != "grey"@) by { assert("bright_green"@.len() != "grey"@.len()); }
        assert("bright_green"@ != "bright_red"@) by { assert("bright_green"@.len() != "bright_red"@.len()); }
    } else if k == 3 {
        assert(bright =~= "bright_yellow"@);
        assert(sgr(33) =~= "\x1b[33m"@);
        assert(sgr(93) =~= "\x1b[93m"@);
        assert("yellow"@ != "reset"@) by { assert("yellow"@.len() != "reset"@.len()); }
        assert("yellow"@ != "bold"@) by { assert("yellow"@.len() != "bold"@.len()); }
        assert("yellow"@ != "black"@) by { assert("yellow"@.len() != "black"@.len()); }
        assert("yellow"@ != "red"@) by { assert("yellow"@.len() != "red"@.len()); }
        assert("yellow"@ != "green"@) by { assert("yellow"@.len() != "green"@.len()); }
        assert("bright_yellow"@ != "reset"@) by { assert("bright_yellow"@.len() != "reset"@.len()); }
        assert("bright_yellow"@ != "bold"@) by { assert("bright_yellow"@.len() != "bold"@.len()); }
        assert("bright_yellow"@ != "black"@) by { assert("bright_yellow"@.len() != "black"@.len()); }
        assert("bright_yellow"@ != "red"@) by { assert("bright_yellow"@.len() != "red"@.len()); }
        assert("bright_yellow"@ != "green"@) by { assert("bright_yellow"@.len() != "green"@.len()); }
        assert("bright_yellow"@ != "yellow"@) by { assert("bright_yellow"@.len() != "yellow"@.len()); }
        assert("bright_yellow"@ != "blue"@) by { assert("bright_yellow"@.len() != "blue"@.len()); }
        assert("bright_yellow"@ != "magenta"@) by { assert("bright_yellow"@.len() != "magenta"@.len()); }
        assert("bright_yellow"@ != "cyan"@) by { assert("bright_yellow"@.len() != "cyan"@.len()); }
        assert("bright_yellow"@ != "white"@) by { assert("bright_yellow"@.len() != "white"@.len()); }
        assert("bright_yellow"@ != "bright_black"@) by { assert("bright_yellow"@.len() != "bright_black"@.len()); }
        assert("bright_yellow"@ != "gray"@) by { assert("bright_yellow"@.len() != "gray"@.len()); }
        assert("bright_yellow"@ != "grey"@) by { assert("bright_yellow"@.len() != "grey"@.len()); }
        assert("bright_yellow"@ != "bright_red"@) by { assert("bright_yellow"@.len() != "bright_red"@.len()); }
        assert("bright_yellow"@ != "bright_green"@) by { assert("bright_yellow"@.len() != "bright_green"@.len()); }
    } else if k == 4 {
        assert(bright =~= "bright_blue"@);
        assert(sgr(34) =~= "\x1b[34m"@);
        assert(sgr(94) =~= "\x1b[94m"@);
        assert("blue"@ != "reset"@) by { assert("blue"@.len() != "reset"@.len()); }
        assert("blue"@ != "bold"@) by { assert("blue"@[1] != "bold"@[1]); }
        assert("blue"@ != "black"@) by { assert("blue"@.len() != "black"@.len()); }
        assert("blue"@ != "red"@) by { assert("blue"@.len() != "red"@.len()); }
        assert("blue"@ != "green"@) by { assert("blue"@.len() != "green"@.len()); }
        assert("blue"@ != "yellow"@) by { assert("blue"@.len() != "yellow"@.len()); }
        assert("bright_blue"@ != "reset"@) by { assert("bright_blue"@.len() != "reset"@.len()); }
        assert("bright_blue"@ != "bold"@) by { assert("bright_blue"@.len() != "bold"@.len()); }
        assert("bright_blue"@ != "black"@) by { assert("bright_blue"@.len() != "black"@.len()); }
        assert("bright_blue"@ != "red"@) by { assert("bright_blue"@.len() != "red"@.len()); }
        assert("bright_blue"@ != "green"@) by { assert("bright_blue"@.len() != "green"@.len()); }
        assert("bright_blue"@ != "yellow"@) by { assert("bright_blue"@.len() != "yellow"@.len()); }
        assert("bright_blue"@ != "blue"@) by { assert("bright_blue"@.len() != "blue"@.len()); }
        assert("bright_blue"@ != "magenta"@) by { assert("bright_blue"@.len() != "magenta"@.len()); }
        assert("bright_blue"@ != "cyan"@) by { assert("bright_blue"@.len() != "cyan"@.len()); }
        assert("bright_blue"@ != "white"@) by { assert("bright_blue"@.len() != "white"@.len()); }
        assert("bright_blue"@ != "bright_black"@) by { assert("bright_blue"@.len() != "bright_black"@.len()); }
        assert("bright_blue"@ != "gray"@) by { assert("bright_blue"@.len() != "gray"@.len()); }
        assert("bright_blue"@ != "grey"@) by { assert("bright_blue"@.len() != "grey"@.len()); }
        assert("bright_blue"@ != "bright_red"@) by { assert("bright_blue"@.len() != "bright_red"@.len()); }
        assert("bright_blue"@ != "bright_green"@) by { assert("bright_blue"@.len() != "bright_green"@.len()); }
        assert("bright_blue"@ != "bright_yellow"@) by { assert("bright_blue"@.len() != "bright_yellow"@.len()); }
    } else if k == 5 {
        assert(bright =~= "bright_magenta"@);
        assert(sgr(35) =~= "\x1b[35m"@);
        assert(sgr(95) =~= "\x1b[95m"@);
        assert("magenta"@ != "reset"@) by { assert("magenta"@.len() != "reset"@.len()); }
        assert("magenta"@ != "bold"@) by { assert("magenta"@.len() != "bold"@.len()); }
        assert("magenta"@ != "black"@) by { assert("magenta"@.len() != "black"@.len()); }
        assert("magenta"@ != "red"@) by { assert("magenta"@.len() != "red"@.len()); }
        assert("magenta"@ != "green"@) by { assert("magenta"@.len() != "green"@.len()); }
        assert("magenta"@ != "yellow"@) by { assert("magenta"@.len() != "yellow"@.len()); }
        assert("magenta"@ != "blue"@) by { assert("magenta"@.len() != "blue"@.len()); }
        assert("bright_magenta"@ != "reset"@) by { assert("bright_magenta"@.len() != "reset"@.len()); }
        assert("bright_magenta"@ != "bold"@) by { assert("bright_magenta"@.len() != "bold"@.len()); }
        assert("bright_magenta"@ != "black"@) by { assert("bright_magenta"@.len() != "black"@.len()); }
        assert("bright_magenta"@ != "red"@) by { assert("bright_magenta"@.len() != "red"@.len()); }
        assert("bright_magenta"@ != "green"@) by { assert("bright_magenta"@.len() != "green"@.len()); }
        assert("bright_magenta"@ != "yellow"@) by { assert("bright_magenta"@.len() != "yellow"@.len()); }
        assert("bright_magenta"@ != "blue"@) by { assert("bright_magenta"@.len() != "blue"@.len()); }
        assert("bright_magenta"@ != "magenta"@) by { assert("bright_magenta"@.len() != "magenta"@.len()); }
        assert("bright_magenta"@ != "cyan"@) by { assert("bright_magenta"@.len() != "cyan"@.len()); }
        assert("bright_magenta"@ != "white"@) by { assert("bright_magenta"@.len() != "white"@.len()); }
        assert("bright_magenta"@ != "bright_black"@) by { assert("bright_magenta"@.len() != "bright_black"@.len()); }
        assert("bright_magenta"@ != "gray"@) by { assert("bright_magenta"@.len() != "gray"@.len()); }
        assert("bright_magenta"@ != "grey"@) by { assert("bright_magenta"@.len() != "grey"@.len()); }
        assert("bright_magenta"@ != "bright_red"@) by { assert("bright_magenta"@.len() != "bright_red"@.len()); }
        assert("bright_magenta"@ != "bright_green"@) by { assert("bright_magenta"@.len() != "bright_green"@.len()); }
        assert("bright_magenta"@ != "bright_yellow"@) by { assert("bright_magenta"@.len() != "bright_yellow"@.len()); }
        assert("bright_magenta"@ != "bright_blue"@) by { assert("bright_magenta"@.len() != "bright_blue"@.len()); }
    } else if k == 6 {
        assert(bright =~= "bright_cyan"@);
        assert(sgr(36) =~= "\x1b[36m"@);
        assert(sgr(96) =~= "\x1b[96m"@);
        assert("cyan"@ != "reset"@) by { assert("cyan"@.len() != "reset"@.len()); }
        assert("cyan"@ != "bold"@) by { assert("cyan"@[0] != "bold"@[0]); }
        assert("cyan"@ != "black"@) by { assert("cyan"@.len() != "black"@.len()); }
        assert("cyan"@ != "red"@) by { assert("cyan"@.len() != "red"@.len()); }
        assert("cyan"@ != "green"@) by { assert("cyan"@.len() != "green"@.len()); }
        assert("cyan"@ != "yellow"@) by { assert("cyan"@.len() != "yellow"@.len()); }
        assert("cyan"@ != "blue"@) by { assert("cyan"@[0] != "blue"@[0]); }
        assert("cyan"@ != "magenta"@) by { assert("cyan"@.len() != "magenta"@.len()); }
        assert("bright_cyan"@ != "reset"@) by { assert("bright_cyan"@.len() != "reset"@.len()); }
        assert("bright_cyan"@ != "bold"@) by { assert("bright_cyan"@.len() != "bold"@.len()); }
        assert("bright_cyan"@ != "black"@) by { assert("bright_cyan"@.len() != "black"@.len()); }
        assert("bright_cyan"@ != "red"@) by { assert("bright_cyan"@.len() != "red"@.len()); }
        assert("bright_cyan"@ != "green"@) by { assert("bright_cyan"@.len() != "green"@.len()); }
        assert("bright_cyan"@ != "yellow"@) by { assert("bright_cyan"@.len() != "yellow"@.len()); }
        assert("bright_cyan"@ != "blue"@) by { assert("bright_cyan"@.len() != "blue"@.len()); }
        assert("bright_cyan"@ != "magenta"@) by { assert("bright_cyan"@.len() != "magenta"@.len()); }
        assert("bright_cyan"@ != "cyan"@) by { assert("bright_cyan"@.len() != "cyan"@.len()); }
        assert("bright_cyan"@ != "white"@) by { assert("bright_cyan"@.len() != "white"@.len()); }
        assert("bright_cyan"@ != "bright_black"@) by { assert("bright_cyan"@.len() != "bright_black"@.len()); }
        assert("bright_cyan"@ != "gray"@) by { assert("bright_cyan"@.len() != "gray"@.len()); }
        assert("bright_cyan"@ != "grey"@) by { assert("bright_cyan"@.len() != "grey"@.len()); }
        assert("bright_cyan"@ != "bright_red"@) by { assert("bright_cyan"@.len() != "bright_red"@.len()); }
        assert("bright_cyan"@ != "bright_green"@) by { assert("bright_cyan"@.len() != "bright_green"@.len()); }
        assert("bright_cyan"@ != "bright_yellow"@) by { assert("bright_cyan"@.len() != "bright_yellow"@.len()); }
        assert("bright_cyan"@ != "bright_blue"@) by { assert("bright_cyan"@[7] != "bright_blue"@[7]); }
        assert("bright_cyan"@ != "bright_magenta"@) by { assert("bright_cyan"@.len() != "bright_magenta"@.len()); }
    } else if k == 7 {
        assert(bright =~= "bright_white"@);
        assert(sgr(37) =~= "\x1b[37m"@);
        assert(sgr(97) =~= "\x1b[97m"@);
        assert("white"@ != "reset"@) by { assert("white"@[0] != "reset"@[0]); }
        assert("white"@ != "bold"@) by { assert("white"@.len() != "bold"@.len()); }
        assert("white"@ != "black"@) by { assert("white"@[0] != "black"@[0]); }
        assert("white"@ != "red"@) by { assert("white"@.len() != "red"@.len()); }
        assert("white"@ != "green"@) by { assert("white"@[0] != "green"@[0]); }
        assert("white"@ != "yellow"@) by { assert("white"@.len() != "yellow"@.len()); }
        assert("white"@ != "blue"@) by { assert("white"@.len() != "blue"@.len()); }
        assert("white"@ != "magenta"@) by { assert("white"@.len() != "magenta"@.len()); }
        assert("white"@ != "cyan"@) by { assert("white"@.len() != "cyan"@.len()); }
        assert("bright_white"@ != "reset"@) by { assert("bright_white"@.len() != "reset"@.len()); }
        assert("bright_white"@ != "bold"@) by { assert("bright_white"@.len() != "bold"@.len()); }
        assert("bright_white"@ != "black"@) by { assert("bright_white"@.len() != "black"@.len()); }
        assert("bright_white"@ != "red"@) by { assert("bright_white"@.len() != "red"@.len()); }
        assert("bright_white"@ != "green"@) by { assert("bright_white"@.len() != "green"@.len()); }
        assert("bright_white"@ != "yellow"@) by { assert("bright_white"@.len() != "yellow"@.len()); }
        assert("bright_white"@ != "blue"@) by { assert("bright_white"@.len() != "blue"@.len()); }
        assert("bright_white"@ != "magenta"@) by { assert("bright_white"@.len() != "magenta"@.len()); }
        assert("bright_white"@ != "cyan"@) by { assert("bright_white"@.len() != "cyan"@.len()); }
        assert("bright_white"@ != "white"@) by { assert("bright_white"@.len() != "white"@.len()); }
        assert("bright_white"@ != "bright_black"@) by { assert("bright_white"@[7] != "bright_black"@[7]); }
        assert("bright_white"@ != "gray"@) by { assert("bright_white"@.len() != "gray"@.len()); }
        assert("bright_white"@ != "grey"@) by { assert("bright_white"@.len() != "grey"@.len()); }
        assert("bright_white"@ != "bright_red"@) by { assert("bright_white"@.len() != "bright_red"@.len()); }
        assert("bright_white"@ != "bright_green"@) by { assert("bright_white"@[7] != "bright_green"@[7]); }
        assert("bright_white"@ != "bright_yellow"@) by { assert("bright_white"@.len() != "bright_yellow"@.len()); }
        assert("bright_white"@ != "bright_blue"@) by { assert("bright_white"@.len() != "bright_blue"@.len()); }
        assert("bright_white"@ != "bright_magenta"@) by { assert("bright_white"@.len() != "bright_magenta"@.len()); }
        assert("bright_white"@ != "bright_cyan"@) by { assert("bright_white"@.len() != "bright_cyan"@.len()); }
    }
}

} // verus!

verus! {

/// The style names: `reset` is SGR 0, `bold` SGR 1, and `gray`/`grey`
/// name bright black, SGR 90.
pub proof fn law_style_codes()
    ensures
        named_color("reset"@) == Some(sgr(0)),
        named_color("bold"@) == Some(sgr(1)),
        named_color("gray"@) == Some(sgr(90)),
        named_color("grey"@) == Some(sgr(90)),
{
    reveal_strlit("reset");
    reveal_strlit("bold");
    reveal_strlit("black");
    reveal_strlit("red");
    reveal_strlit("green");
    reveal_strlit("yellow");
    reveal_strlit("blue");
    reveal_strlit("magenta");
    reveal_strlit("cyan");
    reveal_strlit("white");
    reveal_strlit("bright_black");
    reveal_strlit("gray");
    reveal_strlit("grey");
    reveal_strlit("\x1b[0m");
    reveal_strlit("\x1b[1m");
    reveal_strlit("\x1b[90m");
    lemma_two_digits(90);
    assert(decimal(0) =~= seq!['0']);
    assert(decimal(1) =~= seq!['1']);
    assert(sgr(0) =~= "\x1b[0m"@);
    assert(sgr(1) =~= "\x1b[1m"@);
    assert(sgr(90) =~= "\x1b[90m"@);
    assert("bold"@ != "reset"@) by { assert("bold"@.len() != "reset"@.len()); }
    assert("gray"@ != "reset"@) by { assert("gray"@.len() != "reset"@.len()); }
    assert("gray"@ != "bold"@) by { assert("gray"@[0] != "bold"@[0]); }
    assert("gray"@ != "black"@) by { assert("gray"@.len() != "black"@.len()); }
    assert("gray"@ != "red"@) by { assert("gray"@.len() != "red"@.len()); }
    assert("gray"@ != "green"@) by { assert("gray"@.len() != "green"@.len()); }
    assert("gray"@ != "yellow"@) by { assert("gray"@.len() != "yellow"@.len()); }
    assert("gray"@ != "blue"@) by { assert("gray"@[0] != "blue"@[0]); }
    assert("gray"@ != "magenta"@) by { assert("gray"@.len() != "magenta"@.len()); }
    assert("gray"@ != "cyan"@) by { assert("gray"@[0] != "cyan"@[0]); }
    assert("gray"@ != "white"@) by { assert("gray"@.len() != "white"@.len()); }
    assert("gray"@ != "bright_black"@) by { assert("gray"@.len() != "bright_black"@.len()); }
    assert("grey"@ != "reset"@) by { assert("grey"@.len() != "reset"@.len()); }
    assert("grey"@ != "bold"@) by { assert("grey"@[0] != "bold"@[0]); }
    assert("grey"@ != "black"@) by { assert("grey"@.len() != "black"@.len()); }
    assert("grey"@ != "red"@) by { assert("grey"@.len() != "red"@.len()); }
    assert("grey"@ != "green"@) by { assert("grey"@.len() != "green"@.len()); }
    assert("grey"@ != "yellow"@) by { assert("grey"@.len() != "yellow"@.len()); }
    assert("grey"@ != "blue"@) by { assert("grey"@[0] != "blue"@[0]); }
    assert("grey"@ != "magenta"@) by { assert("grey"@.len() != "magenta"@.len()); }
    assert("grey"@ != "cyan"@) by { assert("grey"@[0] != "cyan"@[0]); }
    assert("grey"@ != "white"@) by { assert("grey"@.len() != "white"@.len()); }
    assert("grey"@ != "bright_black"@) by { assert("grey"@.len() != "bright_black"@.len()); }
    assert("grey"@ != "gray"@) by { assert("grey"@[2] != "gray"@[2]); }
}

} // verus!

verus! {

proof fn lemma_middle_cancels(p: Seq<char>, x: Seq<char>, y: Seq<char>, q: Seq<char>)
    ensures
        p + x + q == p + y + q <==> x == y,
{
    if p + x + q == p + y + q {
        assert((p + x + q).len() == (p + y + q).len());
        assert(x =~= (p + x + q).subrange(p.len() as int, (p.len() + x.len()) as int));
        assert(y =~= (p + y + q).subrange(p.len() as int, (p.len() + y.len()) as int));
    }
}

proof fn lemma_row_shows_value(theme: ThemeView, key: Seq<char>, v1: Seq<char>, v2: Seq<char>)
    ensures
        row_text(theme, key, v1) == row_text(theme, key, v2) <==> v1 == v2,
{
    let p = "  "@ + theme.key + pad_right(key, 5) + theme.reset + " "@ + theme.separator + ">"@
        + theme.reset + " "@ + theme.value;
    let q = theme.reset + "\n"@;
    assert(row_text(theme, key, v1) =~= p + v1 + q);
    assert(row_text(theme, key, v2) =~= p + v2 + q);
    lemma_middle_cancels(p, v1, v2, q);
}

/// A custom row shows the output of its own command.
pub proof fn law_custom_row_shows_output(
    label: Seq<char>,
    command: Seq<char>,
    info: SysInfo,
    theme: ThemeView,
    c1: Seq<char>,
    c2: Seq<char>,
)
    ensures
        module_line(ModuleView::Custom { label, command }, info, theme, c1) == module_line(
            ModuleView::Custom { label, command },
            info,
            theme,
            c2,
        ) <==> c1 == c2,
{
    lemma_row_shows_value(theme, label, c1, c2);
}

/// Each system row shows its own field: the row of a module changes exactly
/// when that module's field of the system information changes, whatever
/// the other fields hold.
pub proof fn law_rows_show_own_field(
    label: Option<Seq<char>>,
    a: SysInfo,
    b: SysInfo,
    theme: ThemeView,
    c: Seq<char>,
)
    ensures
        module_line(ModuleView::Os { label }, a, theme, c) == module_line(ModuleView::Os { label }, b, theme, c)
            <==> a.os@ == b.os@,
        module_line(ModuleView::Kernel { label }, a, theme, c) == module_line(ModuleView::Kernel { label }, b, theme, c)
            <==> a.kernel@ == b.kernel@,
        module_line(ModuleView::Uptime { label }, a, theme, c) == module_line(ModuleView::Uptime { label }, b, theme, c)
            <==> a.uptime@ == b.uptime@,
        module_line(ModuleView::Shell { label }, a, theme, c) == module_line(ModuleView::Shell { label }, b, theme, c)
            <==> a.shell@ == b.shell@,
        module_line(ModuleView::Wm { label }, a, theme, c) == module_line(ModuleView::Wm { label }, b, theme, c)
            <==> a.wm@ == b.wm@,
        module_line(ModuleView::Terminal { label }, a, theme, c) == module_line(ModuleView::Terminal { label }, b, theme, c)
            <==> a.terminal@ == b.terminal@,
        module_line(ModuleView::Cpu { label }, a, theme, c) == module_line(ModuleView::Cpu { label }, b, theme, c)
            <==> a.cpu@ == b.cpu@,
        module_line(ModuleView::Gpu { label }, a, theme, c) == module_line(ModuleView::Gpu { label }, b, theme, c)
            <==> a.gpu@ == b.gpu@,
        module_line(ModuleView::Memory { label }, a, theme, c) == module_line(ModuleView::Memory { label }, b, theme, c)
            <==> a.memory@ == b.memory@,
        module_line(ModuleView::Swap { label }, a, theme, c) == module_line(ModuleView::Swap { label }, b, theme, c)
            <==> a.swap@ == b.swap@,
        module_line(ModuleView::Disk { label }, a, theme, c) == module_line(ModuleView::Disk { label }, b, theme, c)
            <==> a.disk@ == b.disk@,
{
    lemma_row_shows_value(theme, label_or(label, "os"@), a.os@, b.os@);
    lemma_row_shows_value(theme, label_or(label, "ker"@), a.kernel@, b.kernel@);
    lemma_row_shows_value(theme, label_or(label, "up"@), a.uptime@, b.uptime@);
    lemma_row_shows_value(theme, label_or(label, "sh"@), a.shell@, b.shell@);
    lemma_row_shows_value(theme, label_or(label, "wm"@), a.wm@, b.wm@);
    lemma_row_shows_value(theme, label_or(label, "term"@), a.terminal@, b.terminal@);
    lemma_row_shows_value(theme, label_or(label, "cpu"@), a.cpu@, b.cpu@);
    lemma_row_shows_value(theme, label_or(label, "gpu"@), a.gpu@, b.gpu@);
    lemma_row_shows_value(theme, label_or(label, "mem"@), a.memory@, b.memory@);
    lemma_row_shows_value(theme, label_or(label, "swap"@), a.swap@, b.swap@);
    lemma_row_shows_value(theme, label_or(label, "disk"@), a.disk@, b.disk@);
}

} // verus!

verus! {

/// `s` shows nothing and leaves no escape sequence open.
pub open spec fn invisible(s: Seq<char>) -> bool {
    vlen_scan(s) == (0nat, false)
}

/// `s` leaves no escape sequence open.
pub open spec fn closed(s: Seq<char>) -> bool {
    !vlen_scan(s).1
}

/// Information line `i` as the text layout shows it, or nothing past the end.
pub open spec fn info_cell(info: Seq<Seq<char>>, i: int) -> Seq<char> {
    if 0 <= i < info.len() {
        trim_end_char(info[i], '\n')
    } else {
        seq![]
    }
}

/// The visible width of the first `k` information cells together.
pub open spec fn info_width(info: Seq<Seq<char>>, k: nat) -> nat
    decreases k,
{
    if k == 0 {
        0
    } else {
        info_width(info, (k - 1) as nat) + visible_len(info_cell(info, k - 1))
    }
}

proof fn lemma_short_literals()
    ensures
        vlen_scan("   "@) == (3nat, false),
        vlen_scan("\n"@) == (1nat, false),
{
    reveal_strlit("   ");
    reveal_strlit("\n");
    assert("   "@ =~= repeat(' ', 3));
    lemma_spaces_visible(3);
    let nl = seq!['\n'];
    assert("\n"@ =~= nl);
    assert(nl.drop_last() =~= Seq::<char>::empty());
    assert(nl.len() == 1 && nl.last() == '\n');
    assert(vlen_scan(Seq::<char>::empty()) == (0nat, false));
    assert(vlen_scan(nl) == (1nat, false));
}

proof fn lemma_ascii_row_width(art: Seq<Seq<char>>, info: Seq<Seq<char>>, theme: ThemeView, i: int)
    requires
        0 <= i,
        invisible(theme.key),
        invisible(theme.reset),
        forall|k: int| 0 <= k < art.len() ==> closed(#[trigger] art[k]),
        closed(info_cell(info, i)),
    ensures
        vlen_scan(ascii_row(art, info, max_visible(art), theme, i)) == (
            max_visible(art) + 4 + visible_len(info_cell(info, i)),
            false,
        ),
{
    let w = max_visible(art);
    let a = if i < art.len() { art[i] } else { seq![] };
    if i < art.len() {
        lemma_max_visible(art, i);
    }
    let pad: nat = if visible_len(a) < w { (w - visible_len(a)) as nat } else { 0 };
    let cell = logo_cell(art, w, i);
    assert(cell == a + repeat(' ', pad));
    law_visible_len_concat(a, repeat(' ', pad));
    lemma_spaces_visible(pad);
    assert(vlen_scan(cell) == (w, false));
    let t = info_cell(info, i);
    assert(t == (if i < info.len() { trim_end_char(info[i], '\n') } else { seq![] }));
    lemma_short_literals();
    let s1 = theme.key + cell;
    law_visible_len_concat(theme.key, cell);
    let s2 = s1 + theme.reset;
    law_visible_len_concat(s1, theme.reset);
    let s3 = s2 + "   "@;
    law_visible_len_concat(s2, "   "@);
    let s4 = s3 + t;
    law_visible_len_concat(s3, t);
    law_visible_len_concat(s4, "\n"@);
    assert(ascii_row(art, info, w, theme, i) == s4 + "\n"@);
}

proof fn lemma_ascii_rows_width(art: Seq<Seq<char>>, info: Seq<Seq<char>>, theme: ThemeView, k: nat)
    requires
        invisible(theme.key),
        invisible(theme.reset),
        forall|j: int| 0 <= j < art.len() ==> closed(#[trigger] art[j]),
        forall|j: int| 0 <= j < info.len() ==> closed(#[trigger] info_cell(info, j)),
    ensures
        vlen_scan(ascii_rows(art, info, max_visible(art), theme, k)) == (
            k * (max_visible(art) + 4) + info_width(info, k),
            false,
        ),
    decreases k,
{
    let w = max_visible(art);
    if k == 0 {
        assert(vlen_scan(Seq::<char>::empty()) == (0nat, false));
        assert(ascii_rows(art, info, w, theme, 0) == Seq::<char>::empty());
        assert(0 * (w + 4) == 0);
    } else {
        lemma_ascii_rows_width(art, info, theme, (k - 1) as nat);
        assert(ascii_rows(art, info, w, theme, k) == ascii_rows(art, info, w, theme, (k - 1) as nat)
            + ascii_row(art, info, w, theme, k - 1));
        assert(info_width(info, k) == info_width(info, (k - 1) as nat) + visible_len(info_cell(info, k - 1)));
        if k - 1 >= info.len() {
            assert(info_cell(info, k - 1) =~= Seq::<char>::empty());
            assert(vlen_scan(Seq::<char>::empty()) == (0nat, false));
        } else {
            assert(closed(info_cell(info, k - 1)));
        }
        lemma_ascii_row_width(art, info, theme, k - 1);
        law_visible_len_concat(
            ascii_rows(art, info, w, theme, (k - 1) as nat),
            ascii_row(art, info, w, theme, k - 1),
        );
        assert(k * (w + 4) == (k - 1) * (w + 4) + (w + 4)) by (nonlinear_arith);
    }
}

/// The text layout pads with the widest logo line: where the colours of
/// the key and reset show nothing and no logo or information line leaves
/// an escape sequence open, each of its `n` rows is as wide as the widest
/// logo line, plus four (three spaces and the newline), plus its
/// information; the first logo line counts like the others.
pub proof fn law_ascii_layout_width(art: Seq<char>, info: Seq<Seq<char>>, theme: ThemeView)
    requires
        invisible(theme.key),
        invisible(theme.reset),
        forall|j: int| 0 <= j < lines(art).len() ==> closed(#[trigger] lines(art)[j]),
        forall|j: int| 0 <= j < info.len() ==> closed(#[trigger] info_cell(info, j)),
    ensures
        vlen_scan(ascii_layout(art, info, theme)) == (
            ascii_row_count(lines(art), info) * (max_visible(lines(art)) + 4) + info_width(
                info,
                ascii_row_count(lines(art), info),
            ),
            false,
        ),
{
    lemma_ascii_rows_width(lines(art), info, theme, ascii_row_count(lines(art), info));
}

} // verus!

verus! {

proof fn lemma_plain_visible(s: Seq<char>)
    requires
        forall|j: int| 0 <= j < s.len() ==> s[j] != '\x1b',
    ensures
        vlen_scan(s) == (s.len(), false),
    decreases s.len(),
{
    if s.len() > 0 {
        lemma_plain_visible(s.drop_last());
    }
}

proof fn lemma_row_literals()
    ensures
        vlen_scan("  "@) == (2nat, false),
        vlen_scan(" "@) == (1nat, false),
        vlen_scan(">"@) == (1nat, false),
        vlen_scan("\n"@) == (1nat, false),
{
    reveal_strlit("  ");
    reveal_strlit(" ");
    reveal_strlit(">");
    lemma_short_literals();
    assert("  "@ =~= repeat(' ', 2));
    assert(" "@ =~= repeat(' ', 1));
    lemma_spaces_visible(2);
    lemma_spaces_visible(1);
    lemma_plain_visible(">"@);
}

/// Rows line up: with colours that show nothing and a key without escape
/// sequences, a row is as wide as its key padded to five columns, plus the
/// two leading spaces, ` > `, the value and the newline.
pub proof fn law_row_width(theme: ThemeView, key: Seq<char>, val: Seq<char>)
    requires
        invisible(theme.key),
        invisible(theme.reset),
        invisible(theme.separator),
        invisible(theme.value),
        forall|j: int| 0 <= j < key.len() ==> key[j] != '\x1b',
        closed(val),
    ensures
        vlen_scan(row_text(theme, key, val)) == (
            (if key.len() < 5 { 5 } else { key.len() }) + 6 + visible_len(val),
            false,
        ),
{
    lemma_row_literals();
    let padded = pad_right(key, 5);
    lemma_plain_visible(key);
    if key.len() < 5 {
        law_visible_len_concat(key, repeat(' ', (5 - key.len()) as nat));
        lemma_spaces_visible((5 - key.len()) as nat);
    }
    lemma_plain_visible(key);
    let s1 = "  "@ + theme.key;
    law_visible_len_concat("  "@, theme.key);
    let s2 = s1 + padded;
    law_visible_len_concat(s1, padded);
    let s3 = s2 + theme.reset;
    law_visible_len_concat(s2, theme.reset);
    let s4 = s3 + " "@;
    law_visible_len_concat(s3, " "@);
    let s5 = s4 + theme.separator;
    law_visible_len_concat(s4, theme.separator);
    let s6 = s5 + ">"@;
    law_visible_len_concat(s5, ">"@);
    let s7 = s6 + theme.reset;
    law_visible_len_concat(s6, theme.reset);
    let s8 = s7 + " "@;
    law_visible_len_concat(s7, " "@);
    let s9 = s8 + theme.value;
    law_visible_len_concat(s8, theme.value);
    let s10 = s9 + val;
    law_visible_len_concat(s9, val);
    let s11 = s10 + theme.reset;
    law_visible_len_concat(s10, theme.reset);
    law_visible_len_concat(s11, "\n"@);
    assert(row_text(theme, key, val) == s11 + "\n"@);
}

proof fn lemma_bar_cells_width(bar: Seq<Seq<char>>)
    requires
        forall|j: int| 0 <= j < bar.len() ==> invisible(#[trigger] bar[j]),
    ensures
        vlen_scan(bar_cells(bar)) == (2 * bar.len(), false),
    decreases bar.len(),
{
    reveal_strlit("██");
    lemma_plain_visible("██"@);
    if bar.len() > 0 {
        lemma_bar_cells_width(bar.drop_last());
        assert(invisible(bar.last()));
        law_visible_len_concat(bar_cells(bar.drop_last()), bar.last());
        law_visible_len_concat(bar_cells(bar.drop_last()) + bar.last(), "██"@);
    } else {
        assert(vlen_scan(Seq::<char>::empty()) == (0nat, false));
    }
}

/// The colour bar shows two blocks per colour: with colours that show
/// nothing, it is two columns of indent, two per colour, and the newline;
/// an empty bar shows nothing.
pub proof fn law_color_bar_width(theme: ThemeView)
    requires
        invisible(theme.reset),
        forall|j: int| 0 <= j < theme.bar.len() ==> invisible(#[trigger] theme.bar[j]),
    ensures
        theme.bar.len() == 0 ==> color_bar_text(theme).len() == 0,
        theme.bar.len() > 0 ==> vlen_scan(color_bar_text(theme)) == (2 * theme.bar.len() + 3, false),
{
    if theme.bar.len() > 0 {
        lemma_row_literals();
        lemma_bar_cells_width(theme.bar);
        let s1 = "  "@ + bar_cells(theme.bar);
        law_visible_len_concat("  "@, bar_cells(theme.bar));
        let s2 = s1 + theme.reset;
        law_visible_len_concat(s1, theme.reset);
        law_visible_len_concat(s2, "\n"@);
        assert(color_bar_text(theme) == s2 + "\n"@);
    }
}

} // verus!

verus! {

/// Each flag names its mode whatever the configuration says, and without a
/// flag each configured name gives its mode.
pub proof fn law_modes_by_name(cfg_mode: Seq<char>, arg: Seq<char>)
    requires
        arg != "--gif"@ && arg != "--png"@ && arg != "--ascii"@ && arg != "--text"@,
    ensures
        chosen_mode("--gif"@, cfg_mode) == Mode::Gif,
        chosen_mode("--png"@, cfg_mode) == Mode::Png,
        chosen_mode("--ascii"@, cfg_mode) == Mode::Ascii,
        chosen_mode("--text"@, cfg_mode) == Mode::Text,
        chosen_mode(arg, "gif"@) == Mode::Gif,
        chosen_mode(arg, "png"@) == Mode::Png,
        chosen_mode(arg, "text"@) == Mode::Text,
        cfg_mode != "gif"@ && cfg_mode != "png"@ && cfg_mode != "text"@ ==> chosen_mode(arg, cfg_mode)
            == Mode::Ascii,
{
    reveal_strlit("--gif");
    reveal_strlit("--png");
    reveal_strlit("--ascii");
    reveal_strlit("--text");
    reveal_strlit("gif");
    reveal_strlit("png");
    reveal_strlit("text");
    assert("--png"@ != "--gif"@) by { assert("--png"@[2] != "--gif"@[2]); }
    assert("--ascii"@ != "--gif"@) by { assert("--ascii"@.len() != "--gif"@.len()); }
    assert("--ascii"@ != "--png"@) by { assert("--ascii"@.len() != "--png"@.len()); }
    assert("--text"@ != "--gif"@) by { assert("--text"@.len() != "--gif"@.len()); }
    assert("--text"@ != "--png"@) by { assert("--text"@.len() != "--png"@.len()); }
    assert("--text"@ != "--ascii"@) by { assert("--text"@.len() != "--ascii"@.len()); }
    assert("png"@ != "gif"@) by { assert("png"@[0] != "gif"@[0]); }
    assert("text"@ != "gif"@) by { assert("text"@.len() != "gif"@.len()); }
    assert("text"@ != "png"@) by { assert("text"@.len() != "png"@.len()); }
}

} // verus!
