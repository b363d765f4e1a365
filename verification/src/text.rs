//! Character-level text handling on views (`Seq<char>`).
use vstd::prelude::*;

verus! {

/// `String::push` appends one character.
pub assume_specification[ String::push ](s: &mut String, ch: char)
    ensures
        final(s)@ == old(s)@.push(ch),
;

/// The characters of `s`, in order.
pub fn to_chars(s: &str) -> (v: Vec<char>)
    ensures
        v@ == s@,
{
    let mut v: Vec<char> = Vec::new();
    for c in it: s.chars()
        invariant
            v@ == it.seq().take(it.index() as int),
            it.seq() == s@,
    {
        v.push(c);
    }
    v
}

/// A string holding exactly the characters of `v`.
pub fn from_chars(v: &Vec<char>) -> (s: String)
    ensures
        s@ == v@,
{
    let mut s = String::new();
    for i in 0..v.len()
        invariant
            s@ == v@.take(i as int),
    {
        s.push(v[i]);
        assert(v@.take(i + 1) =~= v@.take(i as int).push(v@[i as int]));
    }
    assert(v@.take(v.len() as int) =~= v@);
    s
}

/// An ASCII letter (`char::is_ascii_alphabetic`).
pub open spec fn is_ascii_alpha(c: char) -> bool {
    ('a' <= c && c <= 'z') || ('A' <= c && c <= 'Z')
}

/// Whether `c` is an ASCII letter.
pub fn ascii_alpha(c: char) -> (b: bool)
    ensures b == is_ascii_alpha(c),
{
    ('a' <= c && c <= 'z') || ('A' <= c && c <= 'Z')
}

} // verus!

verus! {

/// Unicode `White_Space`, the set that `char::is_whitespace` tests.
pub open spec fn is_ws(c: char) -> bool {
    ||| ('\t' <= c && c <= '\r')
    ||| c == ' '
    ||| c == '\u{85}'
    ||| c == '\u{a0}'
    ||| c == '\u{1680}'
    ||| ('\u{2000}' <= c && c <= '\u{200a}')
    ||| c == '\u{2028}'
    ||| c == '\u{2029}'
    ||| c == '\u{202f}'
    ||| c == '\u{205f}'
    ||| c == '\u{3000}'
}

/// Whether `c` is whitespace (`char::is_whitespace`).
pub fn is_whitespace(c: char) -> (b: bool)
    ensures
        b == is_ws(c),
{
    ('\t' <= c && c <= '\r') || c == ' ' || c == '\u{85}' || c == '\u{a0}' || c == '\u{1680}'
        || ('\u{2000}' <= c && c <= '\u{200a}') || c == '\u{2028}' || c == '\u{2029}'
        || c == '\u{202f}' || c == '\u{205f}' || c == '\u{3000}'
}

/// `s` without its leading whitespace.
pub open spec fn trim_start(s: Seq<char>) -> Seq<char>
    decreases s.len(),
{
    if s.len() > 0 && is_ws(s[0]) {
        trim_start(s.drop_first())
    } else {
        s
    }
}

/// `s` without its trailing whitespace.
pub open spec fn trim_end(s: Seq<char>) -> Seq<char>
    decreases s.len(),
{
    if s.len() > 0 && is_ws(s.last()) {
        trim_end(s.drop_last())
    } else {
        s
    }
}

/// `s` without leading and trailing whitespace (`str::trim`).
pub open spec fn trim(s: Seq<char>) -> Seq<char> {
    trim_end(trim_start(s))
}

/// The characters of `v` from `i` up to `j`.
pub fn slice_chars(v: &Vec<char>, i: usize, j: usize) -> (r: Vec<char>)
    requires
        i <= j <= v.len(),
    ensures
        r@ == v@.subrange(i as int, j as int),
{
    let mut r: Vec<char> = Vec::new();
    let mut k = i;
    while k < j
        invariant
            i <= k <= j <= v.len(),
            r@ == v@.subrange(i as int, k as int),
        decreases j - k,
    {
        r.push(v[k]);
        assert(v@.subrange(i as int, k + 1) =~= v@.subrange(i as int, k as int).push(v@[k as int]));
        k = k + 1;
    }
    r
}

/// `v` without leading and trailing whitespace.
pub fn trim_chars(v: &Vec<char>) -> (r: Vec<char>)
    ensures
        r@ == trim(v@),
{
    let ghost s = v@;
    let mut i: usize = 0;
    assert(s.skip(0) =~= s);
    while i < v.len() && is_whitespace(v[i])
        invariant
            i <= v.len(),
            s == v@,
            trim_start(s) == trim_start(s.skip(i as int)),
        decreases v.len() - i,
    {
        assert(s.skip(i as int).drop_first() =~= s.skip(i + 1));
        i = i + 1;
    }
    assert(trim_start(s) == s.skip(i as int));
    let mut j: usize = v.len();
    assert(s.skip(i as int) =~= s.subrange(i as int, j as int));
    while j > i && is_whitespace(v[j - 1])
        invariant
            i <= j <= v.len(),
            s == v@,
            trim(s) == trim_end(s.subrange(i as int, j as int)),
        decreases j,
    {
        assert(s.subrange(i as int, j as int).drop_last() =~= s.subrange(i as int, j - 1));
        j = j - 1;
    }
    slice_chars(v, i, j)
}

/// `l` without one trailing carriage return.
pub open spec fn strip_cr(l: Seq<char>) -> Seq<char> {
    if l.len() > 0 && l.last() == '\r' {
        l.drop_last()
    } else {
        l
    }
}

/// Scanning `s` from the left: the lines that a newline has ended, and the
/// line still open.
pub open spec fn line_scan(s: Seq<char>) -> (Seq<Seq<char>>, Seq<char>)
    decreases s.len(),
{
    if s.len() == 0 {
        (seq![], seq![])
    } else {
        let (done, cur) = line_scan(s.drop_last());
        if s.last() == '\n' {
            (done.push(strip_cr(cur)), seq![])
        } else {
            (done, cur.push(s.last()))
        }
    }
}

/// The lines of `s` as `str::lines` gives them: split at `\n`, a `\r`
/// before it dropped, no empty line after a final newline.
pub open spec fn lines(s: Seq<char>) -> Seq<Seq<char>> {
    let (done, cur) = line_scan(s);
    if cur.len() > 0 {
        done.push(cur)
    } else {
        done
    }
}

/// The views of a sequence of character vectors.
pub open spec fn views(v: Seq<Vec<char>>) -> Seq<Seq<char>> {
    v.map_values(|x: Vec<char>| x@)
}

fn strip_cr_chars(l: Vec<char>) -> (r: Vec<char>)
    ensures
        r@ == strip_cr(l@),
{
    let mut l = l;
    if l.len() > 0 && l[l.len() - 1] == '\r' {
        l.pop();
    }
    l
}

/// The lines of `v`, as `str::lines` cuts them.
pub fn lines_of(v: &Vec<char>) -> (r: Vec<Vec<char>>)
    ensures
        views(r@) == lines(v@),
{
    let ghost s = v@;
    let mut done: Vec<Vec<char>> = Vec::new();
    let mut cur: Vec<char> = Vec::new();
    for i in 0..v.len()
        invariant
            s == v@,
            (views(done@), cur@) == line_scan(s.take(i as int)),
    {
        assert(s.take(i + 1).drop_last() =~= s.take(i as int));
        if v[i] == '\n' {
            let line = strip_cr_chars(cur);
            done.push(line);
            cur = Vec::new();
            assert(views(done@) =~= line_scan(s.take(i as int)).0.push(line@));
        } else {
            cur.push(v[i]);
        }
    }
    assert(s.take(v.len() as int) =~= s);
    if cur.len() > 0 {
        let ghost before = done@;
        done.push(cur);
        assert(views(done@) =~= views(before).push(cur@));
    }
    done
}

/// Scanning `s` from the left: the words that whitespace has ended, and the
/// word still open.
pub open spec fn word_scan(s: Seq<char>) -> (Seq<Seq<char>>, Seq<char>)
    decreases s.len(),
{
    if s.len() == 0 {
        (seq![], seq![])
    } else {
        let (done, cur) = word_scan(s.drop_last());
        if is_ws(s.last()) {
            if cur.len() > 0 {
                (done.push(cur), seq![])
            } else {
                (done, cur)
            }
        } else {
            (done, cur.push(s.last()))
        }
    }
}

/// The maximal runs of non-whitespace characters of `s`
/// (`str::split_whitespace`).
pub open spec fn words(s: Seq<char>) -> Seq<Seq<char>> {
    let (done, cur) = word_scan(s);
    if cur.len() > 0 {
        done.push(cur)
    } else {
        done
    }
}

/// The whitespace-separated words of `v`.
pub fn words_of(v: &Vec<char>) -> (r: Vec<Vec<char>>)
    ensures
        views(r@) == words(v@),
{
    let ghost s = v@;
    let mut done: Vec<Vec<char>> = Vec::new();
    let mut cur: Vec<char> = Vec::new();
    for i in 0..v.len()
        invariant
            s == v@,
            (views(done@), cur@) == word_scan(s.take(i as int)),
    {
        assert(s.take(i + 1).drop_last() =~= s.take(i as int));
        if is_whitespace(v[i]) {
            if cur.len() > 0 {
                let ghost before = done@;
                done.push(cur);
                cur = Vec::new();
                assert(views(done@) =~= views(before).push(word_scan(s.take(i as int)).1));
            }
        } else {
            cur.push(v[i]);
        }
    }
    assert(s.take(v.len() as int) =~= s);
    if cur.len() > 0 {
        let ghost before = done@;
        done.push(cur);
        assert(views(done@) =~= views(before).push(cur@));
    }
    done
}

} // verus!

verus! {

/// `p` occurs in `s` at position `i`.
pub open spec fn matches_at(s: Seq<char>, p: Seq<char>, i: int) -> bool {
    0 <= i && i + p.len() <= s.len() && s.subrange(i, i + p.len()) == p
}

/// `s` begins with `p`.
pub open spec fn starts_with(s: Seq<char>, p: Seq<char>) -> bool {
    matches_at(s, p, 0)
}

/// The first position at or after `i` where `p` occurs in `s`.
pub open spec fn first_match(s: Seq<char>, p: Seq<char>, i: int) -> Option<int>
    decreases s.len() + 1 - i,
{
    if i < 0 || i + p.len() > s.len() {
        None
    } else if matches_at(s, p, i) {
        Some(i)
    } else {
        first_match(s, p, i + 1)
    }
}

/// `p` occurs somewhere in `s`.
pub open spec fn contains(s: Seq<char>, p: Seq<char>) -> bool {
    first_match(s, p, 0) is Some
}

pub proof fn lemma_first_match_bounds(s: Seq<char>, p: Seq<char>, i: int)
    ensures
        first_match(s, p, i) matches Some(j) ==> i <= j && matches_at(s, p, j),
    decreases s.len() + 1 - i,
{
    if !(i < 0 || i + p.len() > s.len()) && !matches_at(s, p, i) {
        lemma_first_match_bounds(s, p, i + 1);
    }
}

/// Whether `p` occurs in `v` at position `i`.
pub fn matches_at_exec(v: &Vec<char>, p: &Vec<char>, i: usize) -> (b: bool)
    ensures
        b == matches_at(v@, p@, i as int),
{
    if i > v.len() || p.len() > v.len() - i {
        return false;
    }
    let mut k: usize = 0;
    while k < p.len()
        invariant
            i + p.len() <= v.len(),
            k <= p.len(),
            forall|m: int| 0 <= m < k ==> v@[i + m] == p@[m],
        decreases p.len() - k,
    {
        if v[i + k] != p[k] {
            assert(v@.subrange(i as int, i + p.len())[k as int] != p@[k as int]);
            return false;
        }
        k = k + 1;
    }
    assert(v@.subrange(i as int, i + p.len()) =~= p@);
    true
}

/// Whether `v` begins with `p`.
pub fn starts_with_chars(v: &Vec<char>, p: &Vec<char>) -> (b: bool)
    ensures
        b == starts_with(v@, p@),
{
    matches_at_exec(v, p, 0)
}

/// The first position at or after `from` where `p` occurs in `v`.
pub fn find_from(v: &Vec<char>, p: &Vec<char>, from: usize) -> (r: Option<usize>)
    ensures
        r matches Some(j) ==> first_match(v@, p@, from as int) == Some(j as int),
        r is None ==> first_match(v@, p@, from as int) is None,
{
    if p.len() > v.len() {
        return None;
    }
    let last = v.len() - p.len();
    let mut i = from;
    while i <= last
        invariant
            first_match(v@, p@, from as int) == first_match(v@, p@, i as int),
            from <= i,
            last == v.len() - p.len(),
        decreases last + 1 - i,
    {
        if matches_at_exec(v, p, i) {
            return Some(i);
        }
        if i == last {
            assert(first_match(v@, p@, i + 1) is None);
            return None;
        }
        i = i + 1;
    }
    None
}

/// Whether `p` occurs in `v`.
pub fn contains_chars(v: &Vec<char>, p: &Vec<char>) -> (b: bool)
    ensures
        b == contains(v@, p@),
{
    find_from(v, p, 0).is_some()
}

/// `s` from position `i` on, with each occurrence of `p` (found left to right,
/// not overlapping) replaced by `r`.
pub open spec fn replace_from(s: Seq<char>, p: Seq<char>, r: Seq<char>, i: int) -> Seq<char>
    decreases s.len() - i,
{
    if p.len() == 0 || i < 0 || i > s.len() {
        s.subrange(i, s.len() as int)
    } else {
        match first_match(s, p, i) {
            Some(j) => {
                proof {
                    lemma_first_match_bounds(s, p, i);
                }
                s.subrange(i, j) + r + replace_from(s, p, r, j + p.len())
            },
            None => s.subrange(i, s.len() as int),
        }
    }
}

/// `str::replace` with a nonempty pattern.
pub open spec fn replace(s: Seq<char>, p: Seq<char>, r: Seq<char>) -> Seq<char> {
    replace_from(s, p, r, 0)
}

/// `v` with each occurrence of the nonempty `p` replaced by `r`.
pub fn replace_chars(v: &Vec<char>, p: &Vec<char>, r: &Vec<char>) -> (out: Vec<char>)
    requires
        p.len() > 0,
    ensures
        out@ == replace(v@, p@, r@),
{
    let mut out: Vec<char> = Vec::new();
    let mut i: usize = 0;
    loop
        invariant
            p.len() > 0,
            i <= v.len(),
            replace(v@, p@, r@) == out@ + replace_from(v@, p@, r@, i as int),
        decreases v.len() - i,
    {
        proof {
            lemma_first_match_bounds(v@, p@, i as int);
        }
        match find_from(v, p, i) {
            Some(j) => {
                let ghost before = out@;
                let mut k = i;
                while k < j
                    invariant
                        i <= k <= j <= v.len(),
                        out@ == before + v@.subrange(i as int, k as int),
                    decreases j - k,
                {
                    out.push(v[k]);
                    assert(v@.subrange(i as int, k + 1) =~= v@.subrange(i as int, k as int).push(
                        v@[k as int],
                    ));
                    k = k + 1;
                }
                let ghost mid = out@;
                for m in 0..r.len()
                    invariant
                        out@ == mid + r@.take(m as int),
                {
                    out.push(r[m]);
                    assert(r@.take(m + 1) =~= r@.take(m as int).push(r@[m as int]));
                }
                assert(r@.take(r.len() as int) =~= r@);
                assert(out@ == before + v@.subrange(i as int, j as int) + r@);
                i = j + p.len();
            },
            None => {
                let ghost before = out@;
                let mut k = i;
                while k < v.len()
                    invariant
                        i <= k <= v.len(),
                        out@ == before + v@.subrange(i as int, k as int),
                    decreases v.len() - k,
                {
                    out.push(v[k]);
                    assert(v@.subrange(i as int, k + 1) =~= v@.subrange(i as int, k as int).push(
                        v@[k as int],
                    ));
                    k = k + 1;
                }
                return out;
            },
        }
    }
}

} // verus!

verus! {

/// The part of `s` after the first occurrence of `p` (`splitn(2, p).nth(1)`).
pub open spec fn after_first(s: Seq<char>, p: Seq<char>) -> Option<Seq<char>> {
    match first_match(s, p, 0) {
        Some(j) => Some(s.subrange(j + p.len(), s.len() as int)),
        None => None,
    }
}

/// The part of `s` before the first occurrence of `p` (`split(p).next()`).
pub open spec fn before_first(s: Seq<char>, p: Seq<char>) -> Seq<char> {
    match first_match(s, p, 0) {
        Some(j) => s.take(j),
        None => s,
    }
}

/// The part of `v` after the first `p`, if `p` occurs.
pub fn after_first_chars(v: &Vec<char>, p: &Vec<char>) -> (r: Option<Vec<char>>)
    ensures
        r matches Some(t) ==> after_first(v@, p@) == Some(t@),
        r is None ==> after_first(v@, p@) is None,
{
    proof {
        lemma_first_match_bounds(v@, p@, 0);
    }
    match find_from(v, p, 0) {
        Some(j) => {
            assert(matches_at(v@, p@, j as int));
            assert(j + p.len() <= v.len());
            Some(slice_chars(v, j + p.len(), v.len()))
        },
        None => None,
    }
}

/// The part of `v` before the first `p`, or all of `v`.
pub fn before_first_chars(v: &Vec<char>, p: &Vec<char>) -> (r: Vec<char>)
    ensures
        r@ == before_first(v@, p@),
{
    proof {
        lemma_first_match_bounds(v@, p@, 0);
    }
    match find_from(v, p, 0) {
        Some(j) => slice_chars(v, 0, j),
        None => slice_chars(v, 0, v.len()),
    }
}

/// The part of `s` after its last `c`, or all of `s` when it holds no `c`
/// (`rsplit(c).next()`).
pub open spec fn after_last(s: Seq<char>, c: char) -> Seq<char>
    decreases s.len(),
{
    if s.len() == 0 {
        s
    } else if s.last() == c {
        seq![]
    } else {
        after_last(s.drop_last(), c).push(s.last())
    }
}

/// The part of `v` after its last `c`.
pub fn after_last_chars(v: &Vec<char>, c: char) -> (r: Vec<char>)
    ensures
        r@ == after_last(v@, c),
{
    let ghost s = v@;
    let mut j: usize = v.len();
    assert(s.take(j as int) =~= s);
    assert(s.subrange(j as int, j as int) =~= Seq::<char>::empty());
    while j > 0 && v[j - 1] != c
        invariant
            j <= v.len(),
            s == v@,
            after_last(s, c) == after_last(s.take(j as int), c) + s.subrange(j as int, s.len() as int),
        decreases j,
    {
        assert(s.take(j as int).drop_last() =~= s.take(j - 1));
        assert(after_last(s.take(j - 1), c).push(s[j - 1]) + s.subrange(j as int, s.len() as int)
            =~= after_last(s.take(j - 1), c) + s.subrange(j - 1, s.len() as int));
        j = j - 1;
    }
    assert(after_last(s.take(j as int), c) =~= Seq::<char>::empty());
    assert(Seq::<char>::empty() + s.subrange(j as int, s.len() as int) =~= s.subrange(j as int, s.len() as int));
    slice_chars(v, j, v.len())
}

/// `s` without leading and trailing `c` (`str::trim_matches(c)`).
pub open spec fn trim_char(s: Seq<char>, c: char) -> Seq<char> {
    trim_end_char(trim_start_char(s, c), c)
}

pub open spec fn trim_start_char(s: Seq<char>, c: char) -> Seq<char>
    decreases s.len(),
{
    if s.len() > 0 && s[0] == c {
        trim_start_char(s.drop_first(), c)
    } else {
        s
    }
}

pub open spec fn trim_end_char(s: Seq<char>, c: char) -> Seq<char>
    decreases s.len(),
{
    if s.len() > 0 && s.last() == c {
        trim_end_char(s.drop_last(), c)
    } else {
        s
    }
}

/// `v` without leading and trailing `c`.
pub fn trim_char_chars(v: &Vec<char>, c: char) -> (r: Vec<char>)
    ensures
        r@ == trim_char(v@, c),
{
    let ghost s = v@;
    let mut i: usize = 0;
    assert(s.skip(0) =~= s);
    while i < v.len() && v[i] == c
        invariant
            i <= v.len(),
            s == v@,
            trim_start_char(s, c) == trim_start_char(s.skip(i as int), c),
        decreases v.len() - i,
    {
        assert(s.skip(i as int).drop_first() =~= s.skip(i + 1));
        i = i + 1;
    }
    let mut j: usize = v.len();
    assert(s.skip(i as int) =~= s.subrange(i as int, j as int));
    while j > i && v[j - 1] == c
        invariant
            i <= j <= v.len(),
            s == v@,
            trim_char(s, c) == trim_end_char(s.subrange(i as int, j as int), c),
        decreases j,
    {
        assert(s.subrange(i as int, j as int).drop_last() =~= s.subrange(i as int, j - 1));
        j = j - 1;
    }
    slice_chars(v, i, j)
}

/// The decimal digit character for `d` in `0..10`.
pub open spec fn digit_char(d: int) -> char {
    if d == 0 { '0' }
    else if d == 1 { '1' }
    else if d == 2 { '2' }
    else if d == 3 { '3' }
    else if d == 4 { '4' }
    else if d == 5 { '5' }
    else if d == 6 { '6' }
    else if d == 7 { '7' }
    else if d == 8 { '8' }
    else { '9' }
}

/// The decimal notation of `n`, without leading zeros.
pub open spec fn decimal(n: nat) -> Seq<char>
    decreases n,
{
    if n < 10 {
        seq![digit_char(n as int)]
    } else {
        decimal(n / 10).push(digit_char((n % 10) as int))
    }
}

/// The digit character of `d`.
pub fn digit_exec(d: u64) -> (c: char)
    requires
        d < 10,
    ensures
        c == digit_char(d as int),
{
    if d == 0 { '0' }
    else if d == 1 { '1' }
    else if d == 2 { '2' }
    else if d == 3 { '3' }
    else if d == 4 { '4' }
    else if d == 5 { '5' }
    else if d == 6 { '6' }
    else if d == 7 { '7' }
    else if d == 8 { '8' }
    else { '9' }
}

/// Appends the decimal notation of `n` to `out`.
pub fn push_decimal(out: &mut String, n: u64)
    ensures
        final(out)@ == old(out)@ + decimal(n as nat),
    decreases n,
{
    if n >= 10 {
        push_decimal(out, n / 10);
    }
    let ghost mid = out@;
    out.push(digit_exec(n % 10));
    proof {
        if n >= 10 {
            assert(out@ =~= old(out)@ + decimal(n as nat));
        } else {
            assert(out@ =~= old(out)@ + decimal(n as nat));
        }
    }
}

pub open spec fn is_digit(c: char) -> bool {
    '0' <= c && c <= '9'
}

pub open spec fn digit_value(c: char) -> int {
    c as int - '0' as int
}

/// The number that a string of decimal digits denotes.
pub open spec fn digits_value(s: Seq<char>) -> int
    decreases s.len(),
{
    if s.len() == 0 {
        0
    } else {
        digits_value(s.drop_last()) * 10 + digit_value(s.last())
    }
}

pub open spec fn all_digits(s: Seq<char>) -> bool {
    forall|i: int| 0 <= i < s.len() ==> is_digit(#[trigger] s[i])
}

/// `s` with one leading `+` dropped.
pub open spec fn unsigned_digits(s: Seq<char>) -> Seq<char> {
    if s.len() > 0 && s[0] == '+' {
        s.drop_first()
    } else {
        s
    }
}

/// What `s.parse::<u64>()` gives: an optional `+`, then at least one decimal
/// digit and nothing else, denoting a number that fits.
pub open spec fn parse_u64(s: Seq<char>) -> Option<u64> {
    let d = unsigned_digits(s);
    if d.len() > 0 && all_digits(d) && digits_value(d) <= u64::MAX {
        Some(digits_value(d) as u64)
    } else {
        None
    }
}

pub proof fn lemma_digits_value_prefix(s: Seq<char>, k: int)
    requires
        all_digits(s),
        0 <= k <= s.len(),
    ensures
        0 <= digits_value(s.take(k)) <= digits_value(s),
    decreases s.len(),
{
    if s.len() > 0 {
        assert(all_digits(s.drop_last()));
        if k == s.len() {
            assert(s.take(k) =~= s);
            lemma_digits_value_prefix(s.drop_last(), k - 1);
            assert(s.drop_last().take(k - 1) =~= s.drop_last());
        } else {
            lemma_digits_value_prefix(s.drop_last(), k);
            assert(s.drop_last().take(k) =~= s.take(k));
            lemma_digits_value_prefix(s.drop_last(), s.len() - 1);
            assert(s.drop_last().take(s.len() - 1) =~= s.drop_last());
        }
    } else {
        assert(s.take(k) =~= s);
    }
}

/// `v` read as an unsigned 64-bit decimal number (`str::parse::<u64>`).
pub fn parse_u64_chars(v: &Vec<char>) -> (r: Option<u64>)
    ensures
        r == parse_u64(v@),
{
    let ghost s = v@;
    let start: usize = if v.len() > 0 && v[0] == '+' { 1 } else { 0 };
    let ghost d = unsigned_digits(s);
    assert(d =~= s.skip(start as int));
    if start == v.len() {
        return None;
    }
    let mut acc: u64 = 0;
    let mut i = start;
    while i < v.len()
        invariant
            start <= i <= v.len(),
            s == v@,
            d == s.skip(start as int),
            d == unsigned_digits(s),
            all_digits(d.take(i - start)),
            acc as int == digits_value(d.take(i - start)),
        decreases v.len() - i,
    {
        let c = v[i];
        assert(d[i - start] == c);
        assert(d.take(i - start + 1).drop_last() =~= d.take(i - start));
        if !('0' <= c && c <= '9') {
            assert(!all_digits(d)) by {
                assert(!is_digit(d[i - start]));
            }
            return None;
        }
        let dv = (c as u32 - '0' as u32) as u64;
        assert(dv < 10 && dv as int == digit_value(c));
        assert(d.take(i - start + 1).last() == c);
        assert(digits_value(d.take(i - start + 1)) == acc * 10 + dv);
        if acc > (u64::MAX - dv) / 10 {
            proof {
                assert(acc * 10 + dv > u64::MAX) by (nonlinear_arith)
                    requires acc > (u64::MAX - dv) / 10, dv < 10;
                if all_digits(d) {
                    lemma_digits_value_prefix(d, i - start + 1);
                }
            }
            return None;
        }
        assert(acc * 10 + dv <= u64::MAX) by (nonlinear_arith)
            requires acc <= (u64::MAX - dv) / 10, dv < 10;
        acc = acc * 10 + dv;
        i = i + 1;
    }
    assert(d.take(i - start) =~= d);
    Some(acc)
}

} // verus!

verus! {

/// Appends the characters of `v` to `out`.
pub fn push_chars(out: &mut String, v: &Vec<char>)
    ensures
        final(out)@ == old(out)@ + v@,
{
    for i in 0..v.len()
        invariant
            out@ == old(out)@ + v@.take(i as int),
    {
        out.push(v[i]);
        assert(v@.take(i + 1) =~= v@.take(i as int).push(v@[i as int]));
    }
    assert(v@.take(v.len() as int) =~= v@);
}

/// A string holding `n` copies of `c`.
pub open spec fn repeat(c: char, n: nat) -> Seq<char> {
    Seq::new(n, |_i: int| c)
}

/// Appends `n` copies of `c` to `out`.
pub fn push_repeat(out: &mut String, c: char, n: usize)
    ensures
        final(out)@ == old(out)@ + repeat(c, n as nat),
{
    for i in 0..n
        invariant
            out@ == old(out)@ + repeat(c, i as nat),
    {
        out.push(c);
        assert(repeat(c, (i + 1) as nat) =~= repeat(c, i as nat).push(c));
    }
}

/// Whether two strings hold the same characters.
pub fn str_eq(a: &str, b: &str) -> (r: bool)
    ensures
        r == (a@ == b@),
{
    a.to_string() == b.to_string()
}

/// The view of an optional string.
pub open spec fn opt_view(o: Option<String>) -> Option<Seq<char>> {
    match o {
        Some(s) => Some(s@),
        None => None,
    }
}

/// The views of a sequence of strings.
pub open spec fn strs(v: Seq<String>) -> Seq<Seq<char>> {
    v.map_values(|s: String| s@)
}

} // verus!

verus! {

proof fn lemma_digit_char(d: int)
    requires
        0 <= d < 10,
    ensures
        is_digit(digit_char(d)),
        digit_value(digit_char(d)) == d,
{
}

proof fn lemma_decimal_digits(n: nat)
    ensures
        decimal(n).len() > 0,
        all_digits(decimal(n)),
        digits_value(decimal(n)) == n,
    decreases n,
{
    if n < 10 {
        lemma_digit_char(n as int);
        assert(decimal(n).drop_last() =~= Seq::<char>::empty());
        assert(decimal(n).last() == digit_char(n as int));
        assert(digits_value(decimal(n)) == digits_value(decimal(n).drop_last()) * 10 + digit_value(decimal(n).last()));
        assert(digits_value(Seq::<char>::empty()) == 0);
    } else {
        lemma_decimal_digits(n / 10);
        lemma_digit_char((n % 10) as int);
        assert(decimal(n).drop_last() =~= decimal(n / 10));
        assert(decimal(n).last() == digit_char((n % 10) as int));
        assert((n / 10) * 10 + n % 10 == n);
        assert(digits_value(decimal(n)) == digits_value(decimal(n).drop_last()) * 10 + digit_value(decimal(n).last()));
        assert(forall|i: int| 0 <= i < decimal(n).len() - 1 ==> decimal(n)[i] == decimal(n / 10)[i]);
    }
}

/// Reading back a number written in decimal gives the number: what
/// `push_decimal` writes, `parse_u64_chars` (and so `kb`) reads back.
pub proof fn law_parse_decimal_roundtrip(n: u64)
    ensures
        parse_u64(decimal(n as nat)) == Some(n),
{
    lemma_decimal_digits(n as nat);
    assert(is_digit(decimal(n as nat)[0]));
    assert(unsigned_digits(decimal(n as nat)) == decimal(n as nat));
}

/// No line holds a newline.
pub proof fn law_lines_hold_no_newline(s: Seq<char>, i: int, j: int)
    requires
        0 <= i < lines(s).len(),
        0 <= j < lines(s)[i].len(),
    ensures
        lines(s)[i][j] != '\n',
{
    lemma_line_scan_no_newline(s);
}

proof fn lemma_line_scan_no_newline(s: Seq<char>)
    ensures
        forall|i: int, j: int|
            0 <= i < line_scan(s).0.len() && 0 <= j < line_scan(s).0[i].len() ==> #[trigger] line_scan(
                s,
            ).0[i][j] != '\n',
        forall|j: int| 0 <= j < line_scan(s).1.len() ==> #[trigger] line_scan(s).1[j] != '\n',
    decreases s.len(),
{
    if s.len() > 0 {
        lemma_line_scan_no_newline(s.drop_last());
        let (done, cur) = line_scan(s.drop_last());
        if s.last() == '\n' {
            assert forall|j: int| 0 <= j < strip_cr(cur).len() implies #[trigger] strip_cr(cur)[j] != '\n' by {
                assert(strip_cr(cur)[j] == cur[j]);
            }
            assert forall|i: int, j: int|
                0 <= i < line_scan(s).0.len() && 0 <= j < line_scan(s).0[i].len() implies #[trigger] line_scan(
                s,
            ).0[i][j] != '\n' by {
                if i < done.len() {
                    assert(line_scan(s).0[i] == done[i]);
                } else {
                    assert(line_scan(s).0[i] == strip_cr(cur));
                }
            }
        } else {
            assert forall|j: int| 0 <= j < line_scan(s).1.len() implies #[trigger] line_scan(s).1[j] != '\n' by {
                if j < cur.len() {
                    assert(line_scan(s).1[j] == cur[j]);
                }
            }
        }
    }
}

} // verus!

verus! {

/// `s` without leading and trailing whitespace (`str::trim`).
pub fn trimmed(s: &str) -> (r: String)
    ensures
        r@ == trim(s@),
{
    from_chars(&trim_chars(&to_chars(s)))
}

} // verus!

verus! {

/// A pattern whose first character `s` does not hold from `i` on does not
/// occur there.
pub proof fn lemma_no_first_char_no_match(s: Seq<char>, p: Seq<char>, i: int)
    requires
        p.len() > 0,
        0 <= i,
        forall|k: int| i <= k < s.len() ==> s[k] != p[0],
    ensures
        first_match(s, p, i) is None,
    decreases s.len() + 1 - i,
{
    if !(i + p.len() > s.len()) {
        assert(s.subrange(i, i + p.len())[0] == s[i]);
        lemma_no_first_char_no_match(s, p, i + 1);
    }
}

} // verus!

verus! {

/// The first match from `i` is the first: no occurrence lies before it, and
/// where there is none, none lies anywhere from `i` on.
pub proof fn lemma_first_match_first(s: Seq<char>, p: Seq<char>, i: int)
    requires
        0 <= i,
    ensures
        first_match(s, p, i) matches Some(j) ==> forall|k: int| i <= k < j ==> !matches_at(s, p, k),
        first_match(s, p, i) is None ==> forall|k: int| i <= k ==> !matches_at(s, p, k),
    decreases s.len() + 1 - i,
{
    if !(i + p.len() > s.len()) && !matches_at(s, p, i) {
        lemma_first_match_first(s, p, i + 1);
    }
}

/// Removing every occurrence of `p` removes every `p[0]`, where each `p[0]`
/// from `i` on opens an occurrence.
pub proof fn lemma_remove_all_openers(s: Seq<char>, p: Seq<char>, i: int)
    requires
        p.len() > 0,
        0 <= i <= s.len(),
        forall|k: int| i <= k < s.len() && s[k] == p[0] ==> matches_at(s, p, k),
    ensures
        forall|m: int|
            0 <= m < replace_from(s, p, seq![], i).len() ==> replace_from(s, p, seq![], i)[m] != p[0],
    decreases s.len() - i,
{
    lemma_first_match_first(s, p, i);
    lemma_first_match_bounds(s, p, i);
    let r = replace_from(s, p, seq![], i);
    match first_match(s, p, i) {
        Some(j) => {
            lemma_remove_all_openers(s, p, j + p.len());
            let head = s.subrange(i, j);
            let rest = replace_from(s, p, seq![], j + p.len());
            assert(r == head + seq![] + rest);
            assert forall|m: int| 0 <= m < r.len() implies r[m] != p[0] by {
                if m < head.len() {
                    assert(r[m] == s[i + m]);
                    if s[i + m] == p[0] {
                        assert(matches_at(s, p, i + m));
                    }
                } else {
                    assert(r[m] == rest[m - head.len()]);
                }
            }
        },
        None => {
            assert forall|m: int| 0 <= m < r.len() implies r[m] != p[0] by {
                assert(r[m] == s[i + m]);
                if s[i + m] == p[0] {
                    assert(matches_at(s, p, i + m));
                }
            }
        },
    }
}

/// Removing occurrences of a pattern brings in no character that was not
/// there.
pub proof fn lemma_remove_keeps_absent(s: Seq<char>, p: Seq<char>, i: int, c: char)
    requires
        p.len() > 0,
        0 <= i <= s.len(),
        forall|k: int| i <= k < s.len() ==> s[k] != c,
    ensures
        forall|m: int| 0 <= m < replace_from(s, p, seq![], i).len() ==> replace_from(s, p, seq![], i)[m] != c,
    decreases s.len() - i,
{
    lemma_first_match_bounds(s, p, i);
    let r = replace_from(s, p, seq![], i);
    match first_match(s, p, i) {
        Some(j) => {
            lemma_remove_keeps_absent(s, p, j + p.len(), c);
            let head = s.subrange(i, j);
            let rest = replace_from(s, p, seq![], j + p.len());
            assert(r == head + seq![] + rest);
            assert forall|m: int| 0 <= m < r.len() implies r[m] != c by {
                if m < head.len() {
                    assert(r[m] == s[i + m]);
                } else {
                    assert(r[m] == rest[m - head.len()]);
                }
            }
        },
        None => {
            assert forall|m: int| 0 <= m < r.len() implies r[m] != c by {
                assert(r[m] == s[i + m]);
            }
        },
    }
}

/// Where a pattern does not occur, replacing it changes nothing.
pub proof fn lemma_replace_absent(s: Seq<char>, p: Seq<char>, r: Seq<char>)
    requires
        p.len() > 0,
        first_match(s, p, 0) is None,
    ensures
        replace(s, p, r) == s,
{
    assert(s.subrange(0, s.len() as int) =~= s);
}

} // verus!

verus! {

proof fn lemma_trim_start_shape(s: Seq<char>) -> (a: int)
    ensures
        0 <= a <= s.len(),
        trim_start(s) == s.subrange(a, s.len() as int),
        forall|k: int| 0 <= k < a ==> is_ws(s[k]),
        a < s.len() ==> !is_ws(s[a]),
    decreases s.len(),
{
    if s.len() > 0 && is_ws(s[0]) {
        let b = lemma_trim_start_shape(s.drop_first());
        assert(s.drop_first().subrange(b, s.drop_first().len() as int) =~= s.subrange(b + 1, s.len() as int));
        assert forall|k: int| 0 <= k < b + 1 implies is_ws(s[k]) by {
            if k > 0 {
                assert(s[k] == s.drop_first()[k - 1]);
            }
        }
        b + 1
    } else {
        assert(s.subrange(0, s.len() as int) =~= s);
        0
    }
}

proof fn lemma_trim_end_shape(s: Seq<char>) -> (b: int)
    ensures
        0 <= b <= s.len(),
        trim_end(s) == s.take(b),
        forall|k: int| b <= k < s.len() ==> is_ws(s[k]),
        b > 0 ==> !is_ws(s[b - 1]),
    decreases s.len(),
{
    if s.len() > 0 && is_ws(s.last()) {
        let c = lemma_trim_end_shape(s.drop_last());
        assert(s.drop_last().take(c) =~= s.take(c));
        assert forall|k: int| c <= k < s.len() implies is_ws(s[k]) by {
            if k < s.len() - 1 {
                assert(s[k] == s.drop_last()[k]);
            }
        }
        c
    } else {
        assert(s.take(s.len() as int) =~= s);
        s.len() as int
    }
}

/// `trim` cuts off exactly the surrounding whitespace: the result is the
/// piece of `s` from position `i` on, everything before and after it is
/// whitespace, and it neither starts nor ends with whitespace.
pub proof fn law_trim_strips_whitespace(s: Seq<char>) -> (i: int)
    ensures
        0 <= i,
        i + trim(s).len() <= s.len(),
        s.subrange(i, i + trim(s).len()) == trim(s),
        forall|k: int| 0 <= k < i ==> is_ws(s[k]),
        forall|k: int| i + trim(s).len() <= k < s.len() ==> is_ws(s[k]),
        trim(s).len() > 0 ==> !is_ws(trim(s)[0]) && !is_ws(trim(s).last()),
{
    let a = lemma_trim_start_shape(s);
    let u = s.subrange(a, s.len() as int);
    let b = lemma_trim_end_shape(u);
    assert(trim(s) == u.take(b));
    assert(u.take(b) =~= s.subrange(a, a + b));
    assert forall|k: int| a + b <= k < s.len() implies is_ws(s[k]) by {
        assert(s[k] == u[k - a]);
    }
    if b > 0 {
        assert(trim(s)[0] == s[a]);
        assert(trim(s).last() == u[b - 1]);
    }
    a
}

} // verus!

verus! {

/// Scanning continues across a boundary where no word is open.
pub proof fn lemma_word_scan_concat(a: Seq<char>, b: Seq<char>)
    requires
        word_scan(a).1.len() == 0,
    ensures
        word_scan(a + b) == (word_scan(a).0 + word_scan(b).0, word_scan(b).1),
    decreases b.len(),
{
    if b.len() == 0 {
        assert(a + b =~= a);
        assert(word_scan(a).0 + word_scan(b).0 =~= word_scan(a).0);
    } else {
        lemma_word_scan_concat(a, b.drop_last());
        assert((a + b).drop_last() =~= a + b.drop_last());
        assert((a + b).last() == b.last());
        let (d, c) = word_scan(b.drop_last());
        assert((word_scan(a).0 + d).push(c) =~= word_scan(a).0 + d.push(c));
    }
}

/// A run of non-whitespace is one open word.
pub proof fn lemma_word_scan_plain(s: Seq<char>)
    requires
        forall|j: int| 0 <= j < s.len() ==> !is_ws(s[j]),
    ensures
        word_scan(s) == (Seq::<Seq<char>>::empty(), s),
    decreases s.len(),
{
    if s.len() > 0 {
        lemma_word_scan_plain(s.drop_last());
        assert(s.drop_last().push(s.last()) =~= s);
    }
}

/// A word followed by a space is one finished word.
proof fn lemma_word_then_space(w: Seq<char>)
    requires
        w.len() > 0,
        forall|j: int| 0 <= j < w.len() ==> !is_ws(w[j]),
    ensures
        word_scan(w + seq![' ']) == (seq![w], Seq::<char>::empty()),
{
    lemma_word_scan_plain(w);
    assert((w + seq![' ']).drop_last() =~= w);
}

/// Two words, each followed by a space, then anything: the words come
/// first, in order.
pub proof fn lemma_two_words(k: Seq<char>, d: Seq<char>, tail: Seq<char>)
    requires
        k.len() > 0,
        d.len() > 0,
        forall|j: int| 0 <= j < k.len() ==> !is_ws(k[j]),
        forall|j: int| 0 <= j < d.len() ==> !is_ws(d[j]),
    ensures
        words(k + seq![' '] + d + seq![' '] + tail).len() >= 2,
        words(k + seq![' '] + d + seq![' '] + tail)[0] == k,
        words(k + seq![' '] + d + seq![' '] + tail)[1] == d,
        words(k + seq![' '] + d) == seq![k, d],
{
    lemma_word_then_space(k);
    lemma_word_then_space(d);
    let a = k + seq![' '];
    let b = d + seq![' '];
    lemma_word_scan_concat(a, b);
    assert(a + b =~= k + seq![' '] + d + seq![' ']);
    assert(word_scan(a + b) == (seq![k, d], Seq::<char>::empty())) by {
        assert(seq![k] + seq![d] =~= seq![k, d]);
    }
    lemma_word_scan_concat(a + b, tail);
    assert(a + b + tail =~= k + seq![' '] + d + seq![' '] + tail);
    let ws = word_scan(a + b + tail);
    assert(ws.0 == seq![k, d] + word_scan(tail).0);
    if ws.1.len() > 0 {
        assert(words(a + b + tail) == ws.0.push(ws.1));
        assert(ws.0.push(ws.1)[0] == ws.0[0]);
        assert(ws.0.push(ws.1)[1] == ws.0[1]);
    }
    lemma_word_scan_plain(d);
    lemma_word_scan_concat(a, d);
    assert(a + d =~= k + seq![' '] + d);
    assert(seq![k] + Seq::<Seq<char>>::empty() =~= seq![k]);
    assert(seq![k].push(d) =~= seq![k, d]);
}

} // verus!
