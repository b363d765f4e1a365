//! System information: the record shown, and how it is read from the text
//! of system files and command output.
use vstd::prelude::*;
use crate::text::{
    lines, lines_of, views, to_chars, from_chars, starts_with, starts_with_chars, slice_chars,
    trim, trim_chars, trim_char, trim_char_chars, after_last, after_last_chars, opt_view,
    decimal, push_decimal, words, words_of, parse_u64, parse_u64_chars, digit_char, digit_exec,
    replace, replace_chars, after_first, after_first_chars, before_first, before_first_chars,
    contains, contains_chars, push_chars, matches_at, lemma_no_first_char_no_match, lemma_replace_absent,
    lemma_remove_all_openers, lemma_remove_keeps_absent, lemma_first_match_bounds, first_match,
    is_ws, lemma_two_words, law_parse_decimal_roundtrip,
};
use vstd::arithmetic::power2::{pow2, lemma2_to64, lemma_pow2_pos, lemma_pow2_unfold};
use vstd::arithmetic::div_mod::lemma_div_denominator;

verus! {

/// Everything the information column can show.
pub struct SysInfo {
    pub user: String,
    pub host: String,
    pub os: String,
    pub kernel: String,
    pub uptime: String,
    pub memory: String,
    pub swap: String,
    pub shell: String,
    pub wm: String,
    pub terminal: String,
    pub cpu: String,
    pub gpu: String,
    pub disk: String,
    pub nix_pkgs: usize,
    pub hm_pkgs: usize,
    pub nix_gen: String,
    pub nix_rev: String,
}

} // verus!

verus! {

/// The rest of the first line of `ls` that starts with `p`.
pub open spec fn first_with_prefix(ls: Seq<Seq<char>>, p: Seq<char>) -> Option<Seq<char>>
    decreases ls.len(),
{
    if ls.len() == 0 {
        None
    } else if starts_with(ls[0], p) {
        Some(ls[0].subrange(p.len() as int, ls[0].len() as int))
    } else {
        first_with_prefix(ls.drop_first(), p)
    }
}

/// The rest of the first line of `text` that starts with `prefix`.
pub fn line_value(text: &str, prefix: &str) -> (r: Option<Vec<char>>)
    ensures
        match r {
            Some(v) => first_with_prefix(lines(text@), prefix@) == Some(v@),
            None => first_with_prefix(lines(text@), prefix@) is None,
        },
{
    let ls = lines_of(&to_chars(text));
    let p = to_chars(prefix);
    let ghost all = views(ls@);
    assert(all.skip(0) =~= all);
    assert(all == lines(text@));
    for i in 0..ls.len()
        invariant
            all == views(ls@),
            all == lines(text@),
            p@ == prefix@,
            first_with_prefix(all, p@) == first_with_prefix(all.skip(i as int), p@),
    {
        assert(all.skip(i as int)[0] == ls@[i as int]@);
        assert(all.skip(i as int).drop_first() =~= all.skip(i + 1));
        if starts_with_chars(&ls[i], &p) {
            let r = slice_chars(&ls[i], p.len(), ls[i].len());
            assert(first_with_prefix(all.skip(i as int), p@) == Some(r@));
            return Some(r);
        }
    }
    assert(all.skip(ls.len() as int) =~= Seq::<Seq<char>>::empty());
    None
}

/// The operating-system name of `/etc/os-release`: its `PRETTY_NAME`
/// without quotes, or `NixOS`.
pub open spec fn os_text(os_release: Seq<char>) -> Seq<char> {
    match first_with_prefix(lines(os_release), "PRETTY_NAME="@) {
        Some(v) => trim_char(v, '"'),
        None => "NixOS"@,
    }
}

/// The operating-system name, from the text of `/etc/os-release`.
pub fn get_os(os_release: &str) -> (s: String)
    ensures
        s@ == os_text(os_release@),
{
    match line_value(os_release, "PRETTY_NAME=") {
        Some(v) => from_chars(&trim_char_chars(&v, '"')),
        None => "NixOS".to_string(),
    }
}

/// The number of bytes of the UTF-8 encoding of `c`.
pub open spec fn utf8_width(c: char) -> int {
    if (c as u32) < 0x80 {
        1
    } else if (c as u32) < 0x800 {
        2
    } else if (c as u32) < 0x10000 {
        3
    } else {
        4
    }
}

/// The first `n` bytes of `s` as characters (`&s[..n]`, `n` capped at the
/// length), or `None` where byte `n` falls inside a character.
pub open spec fn byte_prefix(s: Seq<char>, n: int) -> Option<Seq<char>>
    decreases s.len(),
{
    if n <= 0 || s.len() == 0 {
        Some(seq![])
    } else if utf8_width(s[0]) > n {
        None
    } else {
        match byte_prefix(s.drop_first(), n - utf8_width(s[0])) {
            Some(t) => Some(seq![s[0]] + t),
            None => None,
        }
    }
}

fn utf8_width_exec(c: char) -> (w: usize)
    ensures
        w == utf8_width(c),
{
    if (c as u32) < 0x80 {
        1
    } else if (c as u32) < 0x800 {
        2
    } else if (c as u32) < 0x10000 {
        3
    } else {
        4
    }
}

/// The first `n` bytes of `v`, or `None` where byte `n` falls inside a character.
pub fn byte_prefix_chars(v: &Vec<char>, n: usize) -> (r: Option<Vec<char>>)
    ensures
        match r {
            Some(t) => byte_prefix(v@, n as int) == Some(t@),
            None => byte_prefix(v@, n as int) is None,
        },
{
    let ghost s = v@;
    let mut i: usize = 0;
    let mut left: usize = n;
    assert(s.take(0) =~= Seq::<char>::empty());
    assert(s.skip(0) =~= s);
    proof {
        match byte_prefix(s, n as int) {
            Some(t) => {
                assert(s.take(0) + t =~= t);
            },
            None => {},
        }
    }
    while left > 0 && i < v.len()
        invariant
            s == v@,
            i <= v.len(),
            left <= n,
            byte_prefix(s, n as int) == match byte_prefix(s.skip(i as int), left as int) {
                Some(t) => Some(s.take(i as int) + t),
                None => None,
            },
        decreases v.len() - i,
    {
        let w = utf8_width_exec(v[i]);
        assert(s.skip(i as int)[0] == v@[i as int]);
        if w > left {
            return None;
        }
        assert(s.skip(i as int).drop_first() =~= s.skip(i + 1));
        assert(s.take(i + 1) =~= s.take(i as int) + seq![v@[i as int]]);
        proof {
            match byte_prefix(s.skip(i + 1), left - w) {
                Some(t) => {
                    assert(s.take(i as int) + (seq![v@[i as int]] + t) =~= s.take(i + 1) + t);
                },
                None => {},
            }
        }
        left = left - w;
        i = i + 1;
    }
    assert(s.take(i as int) + Seq::<char>::empty() =~= s.take(i as int));
    Some(slice_chars(v, 0, i))
}

/// The revision shown for a NixOS build: the part after the last `.`, cut to
/// eight bytes; `None` where that cut falls inside a character.
pub open spec fn short_rev(v: Seq<char>) -> Option<Seq<char>> {
    byte_prefix(after_last(v, '.'), 8)
}

/// The system revision: from `BUILD_ID` in `/etc/os-release`, else from the
/// text of `/run/current-system/nixos-version` where it could be read, else
/// `unknown`. `None` stands for the inputs on which the cut to eight bytes
/// falls inside a character.
pub open spec fn nix_rev_text(os_release: Seq<char>, nixos_version: Option<Seq<char>>) -> Option<Seq<char>> {
    match first_with_prefix(lines(os_release), "BUILD_ID="@) {
        Some(v) => short_rev(trim_char(v, '"')),
        None => match nixos_version {
            Some(t) => short_rev(trim(t)),
            None => Some("unknown"@),
        },
    }
}

fn short_rev_chars(v: &Vec<char>) -> (r: Option<String>)
    ensures
        opt_view(r) == short_rev(v@),
{
    let rev = after_last_chars(v, '.');
    match byte_prefix_chars(&rev, 8) {
        Some(t) => Some(from_chars(&t)),
        None => None,
    }
}

/// The system revision, from the text of `/etc/os-release` and, where it
/// could be read, of `/run/current-system/nixos-version`.
pub fn get_nix_rev(os_release: &str, nixos_version: Option<&str>) -> (r: Option<String>)
    ensures
        opt_view(r) == nix_rev_text(
            os_release@,
            match nixos_version {
                Some(t) => Some(t@),
                None => None,
            },
        ),
{
    match line_value(os_release, "BUILD_ID=") {
        Some(v) => short_rev_chars(&trim_char_chars(&v, '"')),
        None => match nixos_version {
            Some(t) => short_rev_chars(&trim_chars(&to_chars(t))),
            None => Some("unknown".to_string()),
        },
    }
}

} // verus!

verus! {

/// The uptime: `<h>h <m>m`, or `<m>m` under an hour, from the whole hours
/// and the whole minutes past them.
pub open spec fn uptime_text(hours: u64, minutes: u64) -> Seq<char> {
    if hours > 0 {
        decimal(hours as nat) + "h "@ + decimal(minutes as nat) + "m"@
    } else {
        decimal(minutes as nat) + "m"@
    }
}

/// The uptime, from its whole hours and the whole minutes past them.
pub fn get_uptime(hours: u64, minutes: u64) -> (s: String)
    ensures
        s@ == uptime_text(hours, minutes),
{
    let mut s = String::new();
    if hours > 0 {
        push_decimal(&mut s, hours);
        s.append("h ");
    }
    push_decimal(&mut s, minutes);
    s.append("m");
    assert(s@ =~= uptime_text(hours, minutes));
    s
}

/// The number in the second whitespace-separated field of a
/// `/proc/meminfo` line, or 0 where there is none.
pub open spec fn kb_value(line: Seq<char>) -> u64 {
    let w = words(line);
    if w.len() >= 2 {
        match parse_u64(w[1]) {
            Some(n) => n,
            None => 0,
        }
    } else {
        0
    }
}

/// The number of kibibytes that a `/proc/meminfo` line gives.
pub fn kb(line: &str) -> (n: u64)
    ensures
        n == kb_value(line@),
{
    let w = words_of(&to_chars(line));
    if w.len() >= 2 {
        match parse_u64_chars(&w[1]) {
            Some(n) => n,
            None => 0,
        }
    } else {
        0
    }
}

/// What is read of `/proc/meminfo`: `MemTotal`, `MemAvailable`,
/// `SwapTotal`, `SwapFree`, and how many of these lines were seen.
pub struct MemScan {
    pub mem_total: u64,
    pub mem_available: u64,
    pub swap_total: u64,
    pub swap_free: u64,
    pub found: nat,
}

/// Reading the lines `ls` in order, each known line setting its value,
/// until four known lines have been seen.
pub open spec fn mem_scan(ls: Seq<Seq<char>>) -> MemScan
    decreases ls.len(),
{
    if ls.len() == 0 {
        MemScan { mem_total: 0, mem_available: 0, swap_total: 0, swap_free: 0, found: 0 }
    } else {
        let st = mem_scan(ls.drop_last());
        let l = ls.last();
        if st.found == 4 {
            st
        } else if starts_with(l, "MemTotal:"@) {
            MemScan { mem_total: kb_value(l), found: st.found + 1, ..st }
        } else if starts_with(l, "MemAvailable:"@) {
            MemScan { mem_available: kb_value(l), found: st.found + 1, ..st }
        } else if starts_with(l, "SwapTotal:"@) {
            MemScan { swap_total: kb_value(l), found: st.found + 1, ..st }
        } else if starts_with(l, "SwapFree:"@) {
            MemScan { swap_free: kb_value(l), found: st.found + 1, ..st }
        } else {
            st
        }
    }
}

/// `2^53`: below it every integer is an `f64`.
pub open spec fn f64_exact_limit() -> nat {
    0x20000000000000
}

/// How many low bits of `v` an `f64` cannot hold.
pub open spec fn sig_shift(v: nat) -> nat
    decreases v,
{
    if v < f64_exact_limit() {
        0
    } else {
        1 + sig_shift(v / 2)
    }
}

/// `a / d` rounded to the nearest integer, ties to the even one.
pub open spec fn round_div_even(a: nat, d: nat) -> nat {
    let q = a / d;
    let r = a % d;
    if 2 * r > d || (2 * r == d && q % 2 == 1) {
        q + 1
    } else {
        q
    }
}

/// The value of `v as f64`: `v` rounded to 53 significant bits, ties to even.
pub open spec fn f64_of(v: nat) -> nat {
    let unit = pow2(sig_shift(v));
    round_div_even(v, unit) * unit
}

/// Tenths of a GiB in `kb` KiB as `{:.1}` prints `kb as f64 / 1048576.0`:
/// the exact quotient rounded to one decimal, ties to even.
pub open spec fn gib_tenths(kb: nat) -> nat {
    round_div_even(f64_of(kb) * 10, 1048576)
}

/// `{:.1}` of a size in GiB given in KiB.
pub open spec fn gib_text(kb: nat) -> Seq<char> {
    let t = gib_tenths(kb);
    decimal(t / 10) + seq!['.', digit_char((t % 10) as int)]
}

/// `used / total GiB`.
pub open spec fn usage_text(used: nat, total: nat) -> Seq<char> {
    gib_text(used) + " / "@ + gib_text(total) + " GiB"@
}

/// `a - b`, or 0 where `b` is larger.
pub open spec fn sat_sub(a: u64, b: u64) -> nat {
    if a >= b {
        (a - b) as nat
    } else {
        0
    }
}

/// The memory and swap values of `/proc/meminfo`: used (total less
/// available or free) and total in GiB; `none` for a swap of size 0.
pub open spec fn mem_swap_text(meminfo: Seq<char>) -> (Seq<char>, Seq<char>) {
    let st = mem_scan(lines(meminfo));
    let mem = usage_text(sat_sub(st.mem_total, st.mem_available), st.mem_total as nat);
    let swap = if st.swap_total == 0 {
        "none"@
    } else {
        usage_text(sat_sub(st.swap_total, st.swap_free), st.swap_total as nat)
    };
    (mem, swap)
}

fn round_div_even_exec(a: u128, d: u128) -> (q: u128)
    requires
        d > 0,
        a / d + 1 <= u128::MAX,
    ensures
        q == round_div_even(a as nat, d as nat),
{
    let q = a / d;
    let r = a % d;
    if r > d - r || (r == d - r && q % 2 == 1) {
        q + 1
    } else {
        q
    }
}

fn f64_of_exec(v: u64) -> (r: u128)
    ensures
        r == f64_of(v as nat),
        r <= 2 * (v as nat) + 2,
{
    let mut u: u64 = v;
    let ghost mut s: nat = 0;
    let mut unit: u128 = 1;
    proof {
        lemma2_to64();
    }
    while u >= 0x20000000000000
        invariant
            sig_shift(v as nat) == s + sig_shift(u as nat),
            unit == pow2(s),
            (u as nat) * (unit as nat) <= v,
            unit <= v as nat + 1,
            u as nat == (v as nat) / (unit as nat),
        decreases u,
    {
        proof {
            lemma_pow2_unfold(s + 1);
            lemma_pow2_pos(s);
            lemma_div_denominator(v as int, unit as int, 2);
            assert((u as nat / 2) * (unit as nat * 2) <= (u as nat) * (unit as nat)) by (nonlinear_arith);
            assert(unit as nat * 2 <= v as nat) by (nonlinear_arith)
                requires (u as nat) * (unit as nat) <= v, u >= 2;
        }
        u = u / 2;
        proof {
            s = s + 1;
        }
        unit = unit * 2;
    }
    proof {
        lemma_pow2_pos(s);
    }
    let q = round_div_even_exec(v as u128, unit);
    assert(q * unit <= 2 * (v as nat) + 2) by (nonlinear_arith)
        requires q <= (v as nat) / (unit as nat) + 1, unit >= 1, unit <= v as nat + 1;
    q * unit
}

/// Appends `{:.1}` of `kb` KiB in GiB.
fn push_gib(out: &mut String, kb: u64)
    ensures
        final(out)@ == old(out)@ + gib_text(kb as nat),
{
    let f = f64_of_exec(kb);
    let t = round_div_even_exec(f * 10, 1048576);
    assert(t / 10 <= u64::MAX);
    push_decimal(out, (t / 10) as u64);
    out.push('.');
    out.push(digit_exec((t % 10) as u64));
    assert(out@ =~= old(out)@ + gib_text(kb as nat));
}

fn push_usage(out: &mut String, used: u64, total: u64)
    ensures
        final(out)@ == old(out)@ + usage_text(used as nat, total as nat),
{
    push_gib(out, used);
    out.append(" / ");
    push_gib(out, total);
    out.append(" GiB");
    assert(out@ =~= old(out)@ + usage_text(used as nat, total as nat));
}

/// The memory and swap values, from the text of `/proc/meminfo`.
pub fn get_mem_swap(meminfo: &str) -> (r: (String, String))
    ensures
        (r.0@, r.1@) == mem_swap_text(meminfo@),
{
    let ls = lines_of(&to_chars(meminfo));
    let ghost all = views(ls@);
    let total_p = to_chars("MemTotal:");
    let avail_p = to_chars("MemAvailable:");
    let stotal_p = to_chars("SwapTotal:");
    let sfree_p = to_chars("SwapFree:");
    let mut mt: u64 = 0;
    let mut ma: u64 = 0;
    let mut st: u64 = 0;
    let mut sf: u64 = 0;
    let mut found: u8 = 0;
    let mut i: usize = 0;
    while i < ls.len() && found < 4
        invariant
            all == views(ls@),
            all == lines(meminfo@),
            i <= ls.len(),
            total_p@ == "MemTotal:"@,
            avail_p@ == "MemAvailable:"@,
            stotal_p@ == "SwapTotal:"@,
            sfree_p@ == "SwapFree:"@,
            mem_scan(all.take(i as int)) == (MemScan {
                mem_total: mt,
                mem_available: ma,
                swap_total: st,
                swap_free: sf,
                found: found as nat,
            }),
            found <= 4,
        decreases ls.len() - i,
    {
        assert(all.take(i + 1).drop_last() =~= all.take(i as int));
        assert(all.take(i + 1).last() == ls@[i as int]@);
        let line = &ls[i];
        if starts_with_chars(line, &total_p) {
            mt = kb(from_chars(line).as_str());
            found = found + 1;
        } else if starts_with_chars(line, &avail_p) {
            ma = kb(from_chars(line).as_str());
            found = found + 1;
        } else if starts_with_chars(line, &stotal_p) {
            st = kb(from_chars(line).as_str());
            found = found + 1;
        } else if starts_with_chars(line, &sfree_p) {
            sf = kb(from_chars(line).as_str());
            found = found + 1;
        }
        i = i + 1;
    }
    proof {
        lemma_mem_scan_stops(all, i as nat);
    }
    let mut mem = String::new();
    push_usage(&mut mem, if mt >= ma { mt - ma } else { 0 }, mt);
    let swap = if st == 0 {
        "none".to_string()
    } else {
        let mut s = String::new();
        push_usage(&mut s, if st >= sf { st - sf } else { 0 }, st);
        s
    };
    (mem, swap)
}

/// Once four known lines have been seen, later lines change nothing.
pub proof fn lemma_mem_scan_stops(ls: Seq<Seq<char>>, i: nat)
    requires
        i <= ls.len(),
        i < ls.len() ==> mem_scan(ls.take(i as int)).found == 4,
    ensures
        mem_scan(ls) == mem_scan(ls.take(i as int)),
    decreases ls.len() - i,
{
    if i == ls.len() {
        assert(ls.take(i as int) =~= ls);
    } else {
        assert(ls.take(i + 1 as int).drop_last() =~= ls.take(i as int));
        lemma_mem_scan_stops(ls, i + 1);
    }
}

} // verus!

verus! {

/// The CPU name of a `model name` value: trimmed, without `(R)`, `(TM)`,
/// ` Processor` and ` CPU`, removed in that order.
pub open spec fn cpu_name(v: Seq<char>) -> Seq<char> {
    replace(
        replace(replace(replace(trim(v), "(R)"@, seq![]), "(TM)"@, seq![]), " Processor"@, seq![]),
        " CPU"@,
        seq![],
    )
}

/// The CPU name of the first line of `ls` that starts with `model name` and
/// holds a `:`, taken after that `:`.
pub open spec fn cpu_from_lines(ls: Seq<Seq<char>>) -> Option<Seq<char>>
    decreases ls.len(),
{
    if ls.len() == 0 {
        None
    } else if starts_with(ls[0], "model name"@) && after_first(ls[0], ":"@) is Some {
        Some(cpu_name(after_first(ls[0], ":"@)->0))
    } else {
        cpu_from_lines(ls.drop_first())
    }
}

/// The CPU model of `/proc/cpuinfo`, or `unknown`.
pub open spec fn cpu_text(cpuinfo: Seq<char>) -> Seq<char> {
    match cpu_from_lines(lines(cpuinfo)) {
        Some(n) => n,
        None => "unknown"@,
    }
}

fn cpu_name_chars(v: &Vec<char>) -> (r: Vec<char>)
    ensures
        r@ == cpu_name(v@),
{
    let empty: Vec<char> = Vec::new();
    let p1 = to_chars("(R)");
    let p2 = to_chars("(TM)");
    let p3 = to_chars(" Processor");
    let p4 = to_chars(" CPU");
    proof {
        reveal_strlit("(R)");
        reveal_strlit("(TM)");
        reveal_strlit(" Processor");
        reveal_strlit(" CPU");
    }
    let t = trim_chars(v);
    let t = replace_chars(&t, &p1, &empty);
    let t = replace_chars(&t, &p2, &empty);
    let t = replace_chars(&t, &p3, &empty);
    let t = replace_chars(&t, &p4, &empty);
    assert(empty@ =~= Seq::<char>::empty());
    t
}

/// The CPU model, from the text of `/proc/cpuinfo`.
pub fn get_cpu(cpuinfo: &str) -> (s: String)
    ensures
        s@ == cpu_text(cpuinfo@),
{
    let ls = lines_of(&to_chars(cpuinfo));
    let ghost all = views(ls@);
    let prefix = to_chars("model name");
    let colon = to_chars(":");
    assert(all.skip(0) =~= all);
    for i in 0..ls.len()
        invariant
            all == views(ls@),
            all == lines(cpuinfo@),
            prefix@ == "model name"@,
            colon@ == ":"@,
            cpu_from_lines(all) == cpu_from_lines(all.skip(i as int)),
    {
        assert(all.skip(i as int)[0] == ls@[i as int]@);
        assert(all.skip(i as int).drop_first() =~= all.skip(i + 1));
        if starts_with_chars(&ls[i], &prefix) {
            if let Some(v) = after_first_chars(&ls[i], &colon) {
                return from_chars(&cpu_name_chars(&v));
            }
        }
    }
    assert(all.skip(ls.len() as int) =~= Seq::<Seq<char>>::empty());
    "unknown".to_string()
}

/// The graphics-card name of the part of an `lspci` line after `: `:
/// vendor words shortened, cut before ` (rev`, trimmed.
pub open spec fn gpu_name(part: Seq<char>) -> Seq<char> {
    let n = replace(
        replace(
            replace(part, " Corporation"@, seq![]),
            " Advanced Micro Devices, Inc. [AMD/ATI]"@,
            "AMD"@,
        ),
        "3rd Gen Core processor Graphics Controller"@,
        "HD 4000"@,
    );
    trim(before_first(n, " (rev"@))
}

/// A line of `lspci` that describes a graphics card.
pub open spec fn is_gpu_line(l: Seq<char>) -> bool {
    contains(l, "VGA compatible controller"@) || contains(l, "3D controller"@)
}

/// The name of the first graphics card of `ls` whose line holds a `: `.
pub open spec fn gpu_from_lines(ls: Seq<Seq<char>>) -> Option<Seq<char>>
    decreases ls.len(),
{
    if ls.len() == 0 {
        None
    } else if is_gpu_line(ls[0]) && after_first(ls[0], ": "@) is Some {
        Some(gpu_name(after_first(ls[0], ": "@)->0))
    } else {
        gpu_from_lines(ls.drop_first())
    }
}

/// The graphics card of the output of `lspci`, or `unknown`.
pub open spec fn gpu_text(lspci: Seq<char>) -> Seq<char> {
    match gpu_from_lines(lines(lspci)) {
        Some(n) => n,
        None => "unknown"@,
    }
}

fn gpu_name_chars(part: &Vec<char>) -> (r: Vec<char>)
    ensures
        r@ == gpu_name(part@),
{
    let empty: Vec<char> = Vec::new();
    let p1 = to_chars(" Corporation");
    let p2 = to_chars(" Advanced Micro Devices, Inc. [AMD/ATI]");
    let r2 = to_chars("AMD");
    let p3 = to_chars("3rd Gen Core processor Graphics Controller");
    let r3 = to_chars("HD 4000");
    let rev = to_chars(" (rev");
    proof {
        reveal_strlit(" Corporation");
        reveal_strlit(" Advanced Micro Devices, Inc. [AMD/ATI]");
        reveal_strlit("3rd Gen Core processor Graphics Controller");
    }
    let n = replace_chars(part, &p1, &empty);
    let n = replace_chars(&n, &p2, &r2);
    let n = replace_chars(&n, &p3, &r3);
    let n = before_first_chars(&n, &rev);
    assert(empty@ =~= Seq::<char>::empty());
    trim_chars(&n)
}

/// The graphics card, from the output of `lspci`.
pub fn get_gpu(lspci: &str) -> (s: String)
    ensures
        s@ == gpu_text(lspci@),
{
    let ls = lines_of(&to_chars(lspci));
    let ghost all = views(ls@);
    let vga = to_chars("VGA compatible controller");
    let threed = to_chars("3D controller");
    let sep = to_chars(": ");
    assert(all.skip(0) =~= all);
    for i in 0..ls.len()
        invariant
            all == views(ls@),
            all == lines(lspci@),
            vga@ == "VGA compatible controller"@,
            threed@ == "3D controller"@,
            sep@ == ": "@,
            gpu_from_lines(all) == gpu_from_lines(all.skip(i as int)),
    {
        assert(all.skip(i as int)[0] == ls@[i as int]@);
        assert(all.skip(i as int).drop_first() =~= all.skip(i + 1));
        if contains_chars(&ls[i], &vga) || contains_chars(&ls[i], &threed) {
            if let Some(part) = after_first_chars(&ls[i], &sep) {
                return from_chars(&gpu_name_chars(&part));
            }
        }
    }
    assert(all.skip(ls.len() as int) =~= Seq::<Seq<char>>::empty());
    "unknown".to_string()
}

/// The disk usage of the output of `df -h`: from its second line, `used /
/// size (use%)`, or `N/A` where that line has fewer than five fields.
pub open spec fn disk_text(df: Seq<char>) -> Seq<char> {
    let ls = lines(df);
    if ls.len() >= 2 && words(ls[1]).len() >= 5 {
        let f = words(ls[1]);
        f[2] + " / "@ + f[1] + " ("@ + f[4] + ")"@
    } else {
        "N/A"@
    }
}

/// The disk usage, from the output of `df -h`.
pub fn get_disk(df: &str) -> (s: String)
    ensures
        s@ == disk_text(df@),
{
    let ls = lines_of(&to_chars(df));
    if ls.len() >= 2 {
        let f = words_of(&ls[1]);
        if f.len() >= 5 {
            let mut s = from_chars(&f[2]);
            s.append(" / ");
            push_chars(&mut s, &f[1]);
            s.append(" (");
            push_chars(&mut s, &f[4]);
            s.append(")");
            assert(s@ =~= disk_text(df@));
            return s;
        }
    }
    "N/A".to_string()
}

/// The generation number of the target of `/nix/var/nix/profiles/system`
/// (`system-<n>-link`): its second `-`-separated field, or `?`.
pub open spec fn nix_gen_text(target: Option<Seq<char>>) -> Seq<char> {
    match target {
        Some(t) => match after_first(t, "-"@) {
            Some(rest) => before_first(rest, "-"@),
            None => "?"@,
        },
        None => "?"@,
    }
}

/// The system generation, from the target of the system profile link where
/// it could be read.
pub fn get_nix_gen(target: Option<&str>) -> (s: String)
    ensures
        s@ == nix_gen_text(
            match target {
                Some(t) => Some(t@),
                None => None,
            },
        ),
{
    match target {
        Some(t) => {
            let dash = to_chars("-");
            match after_first_chars(&to_chars(t), &dash) {
                Some(rest) => from_chars(&before_first_chars(&rest, &dash)),
                None => "?".to_string(),
            }
        },
        None => "?".to_string(),
    }
}

/// The login shell: the last `/`-separated part of `$SHELL` (empty when unset).
pub fn get_shell(shell: Option<&str>) -> (s: String)
    ensures
        s@ == after_last(
            match shell {
                Some(t) => t@,
                None => seq![],
            },
            '/',
        ),
{
    let v = match shell {
        Some(t) => to_chars(t),
        None => Vec::new(),
    };
    from_chars(&after_last_chars(&v, '/'))
}

/// The window manager: `$XDG_CURRENT_DESKTOP`, else `$DESKTOP_SESSION`, else
/// `tty`.
pub fn get_wm(current_desktop: Option<&str>, desktop_session: Option<&str>) -> (s: String)
    ensures
        s@ == match current_desktop {
            Some(d) => d@,
            None => match desktop_session {
                Some(d) => d@,
                None => "tty"@,
            },
        },
{
    match current_desktop {
        Some(d) => d.to_string(),
        None => match desktop_session {
            Some(d) => d.to_string(),
            None => "tty".to_string(),
        },
    }
}

/// The terminal: `Ghostty` where its resources variable is set, else
/// `$TERM_PROGRAM`, else `$TERM`, else `unknown`.
pub fn get_terminal(ghostty: bool, term_program: Option<&str>, term: Option<&str>) -> (s: String)
    ensures
        s@ == if ghostty {
            "Ghostty"@
        } else {
            match term_program {
                Some(t) => t@,
                None => match term {
                    Some(t) => t@,
                    None => "unknown"@,
                },
            }
        },
{
    if ghostty {
        return "Ghostty".to_string();
    }
    match term_program {
        Some(t) => t.to_string(),
        None => match term {
            Some(t) => t.to_string(),
            None => "unknown".to_string(),
        },
    }
}

/// The value of a custom module: the first line of what its command
/// printed, trimmed, where it ran and succeeded; `N/A` otherwise or for no
/// output.
pub open spec fn command_text(success: bool, stdout: Seq<char>) -> Seq<char> {
    if success && lines(stdout).len() > 0 {
        trim(lines(stdout)[0])
    } else {
        "N/A"@
    }
}

/// The value of a custom module, from whether its command succeeded and
/// what it printed.
pub fn command_value(success: bool, stdout: &str) -> (s: String)
    ensures
        s@ == command_text(success, stdout@),
{
    if success {
        let ls = lines_of(&to_chars(stdout));
        if ls.len() > 0 {
            assert(views(ls@)[0] == ls@[0]@);
            return from_chars(&trim_chars(&ls[0]));
        }
    }
    "N/A".to_string()
}

} // verus!

verus! {

/// Below `2^53` KiB the value printed is the exact size in GiB rounded to
/// one decimal: the conversion to `f64` loses nothing there.
pub proof fn law_gib_exact_below_2_53(kb: nat)
    requires
        kb < f64_exact_limit(),
    ensures
        f64_of(kb) == kb,
        gib_tenths(kb) == round_div_even(kb * 10, 1048576),
{
    lemma2_to64();
    assert(sig_shift(kb) == 0);
    assert(pow2(0) == 1);
    assert(kb / 1 == kb && kb % 1 == 0);
    assert(round_div_even(kb, 1) == kb);
}

} // verus!

verus! {

/// A line of `lspci` that names a graphics card: it says so and holds `: `.
pub open spec fn names_gpu(l: Seq<char>) -> bool {
    is_gpu_line(l) && after_first(l, ": "@) is Some
}

/// A line of `/proc/cpuinfo` that names the CPU model.
pub open spec fn names_cpu(l: Seq<char>) -> bool {
    starts_with(l, "model name"@) && after_first(l, ":"@) is Some
}

/// The first graphics line decides: the name comes from the first line that
/// names a graphics card, whatever lines follow it.
pub proof fn law_gpu_first_line_decides(ls: Seq<Seq<char>>, i: int)
    requires
        0 <= i < ls.len(),
        names_gpu(ls[i]),
        forall|k: int| 0 <= k < i ==> !names_gpu(#[trigger] ls[k]),
    ensures
        gpu_from_lines(ls) == Some(gpu_name(after_first(ls[i], ": "@)->0)),
    decreases i,
{
    if i > 0 {
        assert(!names_gpu(ls[0]));
        assert forall|k: int| 0 <= k < i - 1 implies !names_gpu(#[trigger] ls.drop_first()[k]) by {
            assert(ls.drop_first()[k] == ls[k + 1]);
        }
        law_gpu_first_line_decides(ls.drop_first(), i - 1);
    }
}

/// Lines after a graphics line change nothing; without one, the card is
/// unknown.
pub proof fn law_gpu_later_lines_ignored(ls: Seq<Seq<char>>, more: Seq<Seq<char>>)
    ensures
        gpu_from_lines(ls) is Some ==> gpu_from_lines(ls + more) == gpu_from_lines(ls),
        (forall|k: int| 0 <= k < ls.len() ==> !names_gpu(#[trigger] ls[k])) ==> gpu_from_lines(ls) is None,
    decreases ls.len(),
{
    if ls.len() > 0 {
        assert((ls + more)[0] == ls[0]);
        assert((ls + more).drop_first() =~= ls.drop_first() + more);
        law_gpu_later_lines_ignored(ls.drop_first(), more);
        if forall|k: int| 0 <= k < ls.len() ==> !names_gpu(#[trigger] ls[k]) {
            assert(!names_gpu(ls[0]));
            assert forall|k: int| 0 <= k < ls.drop_first().len() implies !names_gpu(#[trigger] ls.drop_first()[k]) by {
                assert(ls.drop_first()[k] == ls[k + 1]);
            }
        }
    }
}

/// The first `model name` line decides the CPU name, whatever lines follow.
pub proof fn law_cpu_first_line_decides(ls: Seq<Seq<char>>, i: int)
    requires
        0 <= i < ls.len(),
        names_cpu(ls[i]),
        forall|k: int| 0 <= k < i ==> !names_cpu(#[trigger] ls[k]),
    ensures
        cpu_from_lines(ls) == Some(cpu_name(after_first(ls[i], ":"@)->0)),
    decreases i,
{
    if i > 0 {
        assert(!names_cpu(ls[0]));
        assert forall|k: int| 0 <= k < i - 1 implies !names_cpu(#[trigger] ls.drop_first()[k]) by {
            assert(ls.drop_first()[k] == ls[k + 1]);
        }
        law_cpu_first_line_decides(ls.drop_first(), i - 1);
    }
}

/// Lines after the `model name` line change nothing; without one, the CPU
/// is unknown.
pub proof fn law_cpu_later_lines_ignored(ls: Seq<Seq<char>>, more: Seq<Seq<char>>)
    ensures
        cpu_from_lines(ls) is Some ==> cpu_from_lines(ls + more) == cpu_from_lines(ls),
        (forall|k: int| 0 <= k < ls.len() ==> !names_cpu(#[trigger] ls[k])) ==> cpu_from_lines(ls) is None,
    decreases ls.len(),
{
    if ls.len() > 0 {
        assert((ls + more)[0] == ls[0]);
        assert((ls + more).drop_first() =~= ls.drop_first() + more);
        law_cpu_later_lines_ignored(ls.drop_first(), more);
        if forall|k: int| 0 <= k < ls.len() ==> !names_cpu(#[trigger] ls[k]) {
            assert(!names_cpu(ls[0]));
            assert forall|k: int| 0 <= k < ls.drop_first().len() implies !names_cpu(#[trigger] ls.drop_first()[k]) by {
                assert(ls.drop_first()[k] == ls[k + 1]);
            }
        }
    }
}

/// The first line with the prefix decides the value, which is the rest of
/// that line; later lines change nothing.
pub proof fn law_first_prefixed_line_decides(ls: Seq<Seq<char>>, p: Seq<char>, i: int, more: Seq<Seq<char>>)
    requires
        0 <= i < ls.len(),
        starts_with(ls[i], p),
        forall|k: int| 0 <= k < i ==> !starts_with(#[trigger] ls[k], p),
    ensures
        first_with_prefix(ls, p) == Some(ls[i].subrange(p.len() as int, ls[i].len() as int)),
        first_with_prefix(ls + more, p) == first_with_prefix(ls, p),
    decreases i,
{
    assert((ls + more)[0] == ls[0]);
    if i > 0 {
        assert(!starts_with(ls[0], p));
        assert forall|k: int| 0 <= k < i - 1 implies !starts_with(#[trigger] ls.drop_first()[k], p) by {
            assert(ls.drop_first()[k] == ls[k + 1]);
        }
        assert((ls + more).drop_first() =~= ls.drop_first() + more);
        law_first_prefixed_line_decides(ls.drop_first(), p, i - 1, more);
    }
}

} // verus!

verus! {

/// `s` holds no `c`.
pub open spec fn lacks(s: Seq<char>, c: char) -> bool {
    forall|m: int| 0 <= m < s.len() ==> s[m] != c
}

/// Every `c` in `s` opens an occurrence of `p`.
pub open spec fn only_opens(s: Seq<char>, c: char, p: Seq<char>) -> bool {
    forall|k: int| 0 <= k < s.len() && s[k] == c ==> matches_at(s, p, k)
}

/// Where `s` holds no `c`, and `c` opens `p`, removing `p` from `s` keeps it.
proof fn lemma_remove_absent_opener(s: Seq<char>, p: Seq<char>, c: char)
    requires
        p.len() > 0,
        p[0] == c,
        lacks(s, c),
    ensures
        replace(s, p, seq![]) == s,
{
    lemma_no_first_char_no_match(s, p, 0);
    lemma_replace_absent(s, p, seq![]);
}

/// Where every `c` of `s` opens `q`, no occurrence of `p` starts with a `c`
/// that `q` does not continue as `p` does.
proof fn lemma_no_match_when_other_opens(s: Seq<char>, p: Seq<char>, q: Seq<char>, c: char)
    requires
        p.len() >= 2,
        q.len() >= 2,
        p[0] == c,
        q[0] == c,
        p[1] != q[1],
        only_opens(s, c, q),
    ensures
        replace(s, p, seq![]) == s,
{
    assert forall|k: int| 0 <= k implies !matches_at(s, p, k) by {
        if matches_at(s, p, k) {
            assert(s.subrange(k, k + p.len())[0] == s[k]);
            assert(s.subrange(k, k + p.len())[1] == s[k + 1]);
            assert(matches_at(s, q, k));
            assert(s.subrange(k, k + q.len())[1] == s[k + 1]);
        }
    }
    if first_match(s, p, 0) is Some {
        lemma_first_match_bounds(s, p, 0);
    }
    lemma_replace_absent(s, p, seq![]);
}

proof fn lemma_cpu_literals()
    ensures
        "(R)"@.len() == 3 && "(R)"@[0] == '(' && "(R)"@[1] == 'R',
        "(TM)"@.len() == 4 && "(TM)"@[0] == '(' && "(TM)"@[1] == 'T',
        " Processor"@.len() == 10 && " Processor"@[0] == ' ' && " Processor"@[1] == 'P',
        " CPU"@.len() == 4 && " CPU"@[0] == ' ' && " CPU"@[1] == 'C',
{
    reveal_strlit("(R)");
    reveal_strlit("(TM)");
    reveal_strlit(" Processor");
    reveal_strlit(" CPU");
}

/// Every registered mark goes: where each `(` of the trimmed value opens an
/// `(R)`, the CPU name holds no `(` at all (each `(R)` removed, not only
/// the first).
pub proof fn law_cpu_name_drops_every_registered_mark(v: Seq<char>)
    requires
        only_opens(trim(v), '(', "(R)"@),
    ensures
        lacks(cpu_name(v), '('),
{
    lemma_cpu_literals();
    let t = trim(v);
    let r1 = replace(t, "(R)"@, seq![]);
    lemma_remove_all_openers(t, "(R)"@, 0);
    let r2 = replace(r1, "(TM)"@, seq![]);
    lemma_remove_keeps_absent(r1, "(TM)"@, 0, '(');
    let r3 = replace(r2, " Processor"@, seq![]);
    lemma_remove_keeps_absent(r2, " Processor"@, 0, '(');
    lemma_remove_keeps_absent(r3, " CPU"@, 0, '(');
}

/// Every trademark mark goes: where each `(` of the trimmed value opens a
/// `(TM)`, the CPU name holds no `(`.
pub proof fn law_cpu_name_drops_every_trademark(v: Seq<char>)
    requires
        only_opens(trim(v), '(', "(TM)"@),
    ensures
        lacks(cpu_name(v), '('),
{
    lemma_cpu_literals();
    let t = trim(v);
    lemma_no_match_when_other_opens(t, "(R)"@, "(TM)"@, '(');
    lemma_remove_all_openers(t, "(TM)"@, 0);
    let r2 = replace(t, "(TM)"@, seq![]);
    let r3 = replace(r2, " Processor"@, seq![]);
    lemma_remove_keeps_absent(r2, " Processor"@, 0, '(');
    lemma_remove_keeps_absent(r3, " CPU"@, 0, '(');
}

/// Every ` Processor` goes: where the trimmed value holds no `(` and each
/// space opens ` Processor`, the CPU name holds no space.
pub proof fn law_cpu_name_drops_every_processor(v: Seq<char>)
    requires
        lacks(trim(v), '('),
        only_opens(trim(v), ' ', " Processor"@),
    ensures
        lacks(cpu_name(v), ' '),
{
    lemma_cpu_literals();
    let t = trim(v);
    lemma_remove_absent_opener(t, "(R)"@, '(');
    lemma_remove_absent_opener(t, "(TM)"@, '(');
    lemma_remove_all_openers(t, " Processor"@, 0);
    let r3 = replace(t, " Processor"@, seq![]);
    lemma_remove_keeps_absent(r3, " CPU"@, 0, ' ');
}

/// Every ` CPU` goes: where the trimmed value holds no `(` and each space
/// opens ` CPU`, the CPU name holds no space.
pub proof fn law_cpu_name_drops_every_cpu_word(v: Seq<char>)
    requires
        lacks(trim(v), '('),
        only_opens(trim(v), ' ', " CPU"@),
    ensures
        lacks(cpu_name(v), ' '),
{
    lemma_cpu_literals();
    let t = trim(v);
    lemma_remove_absent_opener(t, "(R)"@, '(');
    lemma_remove_absent_opener(t, "(TM)"@, '(');
    lemma_no_match_when_other_opens(t, " Processor"@, " CPU"@, ' ');
    lemma_remove_all_openers(t, " CPU"@, 0);
}

} // verus!

verus! {

/// Rounding to the nearest, ties to even: `round_div_even(a, d)` times `d`
/// is at most `d / 2` away from `a`, and where it is exactly `d / 2` away
/// the quotient is even.
pub proof fn law_round_div_even_nearest(a: nat, d: nat)
    requires
        d > 0,
    ensures
        2 * a <= 2 * (round_div_even(a, d) * d) + d,
        2 * (round_div_even(a, d) * d) <= 2 * a + d,
        (2 * a == 2 * (round_div_even(a, d) * d) + d || 2 * (round_div_even(a, d) * d) == 2 * a + d)
            ==> round_div_even(a, d) % 2 == 0,
{
    let q = a / d;
    let m = a % d;
    let r = round_div_even(a, d);
    assert(a == q * d + m && m < d) by {
        vstd::arithmetic::div_mod::lemma_fundamental_div_mod(a as int, d as int);
    }
    if 2 * m > d || (2 * m == d && q % 2 == 1) {
        assert(r == q + 1);
        assert(r * d == q * d + d) by (nonlinear_arith)
            requires r == q + 1;
    } else {
        assert(r == q);
    }
}

} // verus!

verus! {

/// `kb` reads the number after the key: for a key without whitespace
/// followed by a space and a number, with or without more after a space,
/// the value is that number.
pub proof fn law_kb_reads_second_field(key: Seq<char>, n: u64, tail: Seq<char>)
    requires
        key.len() > 0,
        forall|j: int| 0 <= j < key.len() ==> !is_ws(key[j]),
    ensures
        kb_value(key + seq![' '] + decimal(n as nat) + seq![' '] + tail) == n,
        kb_value(key + seq![' '] + decimal(n as nat)) == n,
{
    lemma_decimal_not_ws(n as nat);
    lemma_two_words(key, decimal(n as nat), tail);
    law_parse_decimal_roundtrip(n);
}

proof fn lemma_decimal_not_ws(n: nat)
    ensures
        decimal(n).len() > 0,
        forall|j: int| 0 <= j < decimal(n).len() ==> !is_ws(decimal(n)[j]),
    decreases n,
{
    if n >= 10 {
        lemma_decimal_not_ws(n / 10);
        assert forall|j: int| 0 <= j < decimal(n).len() implies !is_ws(decimal(n)[j]) by {
            if j < decimal(n).len() - 1 {
                assert(decimal(n)[j] == decimal(n / 10)[j]);
            }
        }
    }
}

} // verus!
