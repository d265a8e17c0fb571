//! Character-level text utilities: the character classes of the line
//! grammars, maximal-run scans, literal matching and search, splitting,
//! trimming, ASCII lowercasing, and unsigned decimal parsing.

use vstd::prelude::*;

verus! {

// --- character classes ---

/// Whitespace, as the line grammars understand it (ASCII).
pub open spec fn is_space(c: char) -> bool {
    c == ' ' || c == '\t' || c == '\n' || c == '\r' || c == '\u{b}' || c == '\u{c}'
}

pub open spec fn is_digit(c: char) -> bool {
    '0' <= c && c <= '9'
}

/// Word characters: ASCII letters, digits and underscore.
pub open spec fn is_word(c: char) -> bool {
    is_digit(c) || ('a' <= c && c <= 'z') || ('A' <= c && c <= 'Z') || c == '_'
}

/// The character classes over which the grammars take maximal runs.
#[derive(Clone, Copy)]
pub enum Cls {
    /// Whitespace.
    Space,
    /// Anything but whitespace.
    NonSpace,
    /// Word characters.
    Word,
    /// Word characters or a dot (keys such as `BGP.as_path`).
    WordDot,
    /// Word characters or whitespace (the key of a `key: value` line).
    WordSpace,
    /// Word characters, a dot, or whitespace.
    WordDotSpace,
    /// Characters of an uptime column: digits, `-`, `:`, whitespace.
    Uptime,
    /// Characters of a route age column: digits, `-`, `:`, `.`, whitespace.
    Age,
    /// Decimal digits.
    Digit,
    /// Characters of a network prefix: lowercase hex digits, `:`, `.`, `/`.
    Net,
    /// Characters of a gateway address: lowercase hex digits, `:`, `.`.
    Host,
}

pub open spec fn in_class(cl: Cls, c: char) -> bool {
    match cl {
        Cls::Space => is_space(c),
        Cls::NonSpace => !is_space(c),
        Cls::Word => is_word(c),
        Cls::WordDot => is_word(c) || c == '.',
        Cls::WordSpace => is_word(c) || is_space(c),
        Cls::WordDotSpace => is_word(c) || c == '.' || is_space(c),
        Cls::Uptime => is_digit(c) || c == '-' || c == ':' || is_space(c),
        Cls::Age => is_digit(c) || c == '-' || c == ':' || c == '.' || is_space(c),
        Cls::Digit => is_digit(c),
        Cls::Net => is_digit(c) || ('a' <= c && c <= 'f') || c == ':' || c == '.' || c == '/',
        Cls::Host => is_digit(c) || ('a' <= c && c <= 'f') || c == ':' || c == '.',
    }
}

pub fn class_test(cl: Cls, c: char) -> (r: bool)
    ensures
        r == in_class(cl, c),
{
    match cl {
        Cls::Space => c == ' ' || c == '\t' || c == '\n' || c == '\r' || c == '\u{b}' || c == '\u{c}',
        Cls::NonSpace => !(c == ' ' || c == '\t' || c == '\n' || c == '\r' || c == '\u{b}' || c == '\u{c}'),
        Cls::Word => ('0' <= c && c <= '9') || ('a' <= c && c <= 'z') || ('A' <= c && c <= 'Z') || c == '_',
        Cls::WordDot => ('0' <= c && c <= '9') || ('a' <= c && c <= 'z') || ('A' <= c && c <= 'Z') || c == '_' || c == '.',
        Cls::WordSpace => ('0' <= c && c <= '9') || ('a' <= c && c <= 'z') || ('A' <= c && c <= 'Z')
            || c == '_' || c == ' ' || c == '\t' || c == '\n' || c == '\r' || c == '\u{b}' || c == '\u{c}',
        Cls::WordDotSpace => ('0' <= c && c <= '9') || ('a' <= c && c <= 'z') || ('A' <= c && c <= 'Z')
            || c == '_' || c == '.' || c == ' ' || c == '\t' || c == '\n' || c == '\r' || c == '\u{b}' || c == '\u{c}',
        Cls::Uptime => ('0' <= c && c <= '9') || c == '-' || c == ':' || c == ' ' || c == '\t'
            || c == '\n' || c == '\r' || c == '\u{b}' || c == '\u{c}',
        Cls::Age => ('0' <= c && c <= '9') || c == '-' || c == ':' || c == '.' || c == ' '
            || c == '\t' || c == '\n' || c == '\r' || c == '\u{b}' || c == '\u{c}',
        Cls::Digit => '0' <= c && c <= '9',
        Cls::Net => ('0' <= c && c <= '9') || ('a' <= c && c <= 'f') || c == ':' || c == '.' || c == '/',
        Cls::Host => ('0' <= c && c <= '9') || ('a' <= c && c <= 'f') || c == ':' || c == '.',
    }
}

// --- maximal runs ---

/// The end of the maximal run of class `cl` characters starting at `i`.
pub open spec fn run_end(cl: Cls, s: Seq<char>, i: int) -> int
    decreases s.len() - i,
{
    if !(0 <= i < s.len()) {
        i
    } else if !in_class(cl, s[i]) {
        i
    } else {
        run_end(cl, s, i + 1)
    }
}

pub proof fn lemma_run_end(cl: Cls, s: Seq<char>, i: int)
    requires
        0 <= i <= s.len(),
    ensures
        i <= run_end(cl, s, i) <= s.len(),
        forall|k: int| i <= k < run_end(cl, s, i) ==> in_class(cl, s[k]),
        run_end(cl, s, i) < s.len() ==> !in_class(cl, s[run_end(cl, s, i)]),
    decreases s.len() - i,
{
    if i < s.len() && in_class(cl, s[i]) {
        lemma_run_end(cl, s, i + 1);
    }
}

pub fn run_end_exec(cl: Cls, v: &Vec<char>, i: usize) -> (r: usize)
    requires
        i <= v@.len(),
    ensures
        r as int == run_end(cl, v@, i as int),
        i <= r <= v@.len(),
{
    let mut j = i;
    while j < v.len() && class_test(cl, v[j])
        invariant
            i <= j <= v@.len(),
            run_end(cl, v@, i as int) == run_end(cl, v@, j as int),
        decreases v@.len() - j,
    {
        j += 1;
    }
    j
}

// --- matching and searching ---

/// `p` occurs in `s` at position `i`.
pub open spec fn match_at(s: Seq<char>, i: int, p: Seq<char>) -> bool {
    0 <= i && i + p.len() <= s.len() && s.subrange(i, i + p.len()) == p
}

pub fn match_at_exec(v: &Vec<char>, i: usize, p: &str) -> (r: bool)
    ensures
        r == match_at(v@, i as int, p@),
{
    let plen = p.unicode_len();
    let vlen = v.len();
    if i > vlen || vlen - i < plen {
        return false;
    }
    let mut j: usize = 0;
    while j < plen
        invariant
            i + plen <= vlen,
            vlen == v@.len(),
            plen == p@.len(),
            j <= plen,
            forall|k: int| 0 <= k < j ==> v@[i + k] == p@[k],
        decreases plen - j,
    {
        if v[i + j] != p.get_char(j) {
            proof {
                assert(!match_at(v@, i as int, p@)) by {
                    if match_at(v@, i as int, p@) {
                        assert(v@.subrange(i as int, i + plen as int)[j as int] == v@[i + j]);
                    }
                }
            }
            return false;
        }
        j += 1;
    }
    proof {
        assert(v@.subrange(i as int, i + plen as int) =~= p@);
    }
    true
}

/// The first position at or after `from` where `p` occurs in `s`.
pub open spec fn spec_find(s: Seq<char>, p: Seq<char>, from: int) -> Option<int>
    decreases s.len() + 1 - from,
{
    if !(0 <= from && from + p.len() <= s.len()) {
        None
    } else if match_at(s, from, p) {
        Some(from)
    } else {
        spec_find(s, p, from + 1)
    }
}

pub proof fn lemma_spec_find_props(s: Seq<char>, p: Seq<char>, from: int)
    requires
        spec_find(s, p, from) is Some,
    ensures
        from <= spec_find(s, p, from).unwrap(),
        spec_find(s, p, from).unwrap() + p.len() <= s.len(),
        match_at(s, spec_find(s, p, from).unwrap(), p),
    decreases s.len() + 1 - from,
{
    if 0 <= from && from + p.len() <= s.len() && !match_at(s, from, p) {
        lemma_spec_find_props(s, p, from + 1);
    }
}

pub fn find_exec(v: &Vec<char>, p: &str, from: usize) -> (r: Option<usize>)
    requires
        p@.len() >= 1,
    ensures
        match r {
            Some(j) => spec_find(v@, p@, from as int) == Some(j as int),
            None => spec_find(v@, p@, from as int) is None,
        },
{
    let plen = p.unicode_len();
    let vlen = v.len();
    let mut j = from;
    loop
        invariant
            from <= j,
            plen == p@.len() >= 1,
            vlen == v@.len(),
            spec_find(v@, p@, from as int) == spec_find(v@, p@, j as int),
        decreases vlen + 1 - j,
    {
        if j > vlen || vlen - j < plen {
            return None;
        }
        if match_at_exec(v, j, p) {
            return Some(j);
        }
        j += 1;
    }
}

pub fn contains_exec(v: &Vec<char>, p: &str) -> (r: bool)
    requires
        p@.len() >= 1,
    ensures
        r == spec_find(v@, p@, 0) is Some,
{
    find_exec(v, p, 0).is_some()
}

// --- building strings ---

/// Relies on `String::push` from std: it appends exactly the given
/// character to the end of the string.
#[verifier::external_body]
pub fn push_char(s: &mut String, c: char)
    ensures
        final(s)@ == old(s)@.push(c),
{
    s.push(c);
}

/// Copy the characters `[from, to)` of `v` into a fresh string.
pub fn string_range(v: &Vec<char>, from: usize, to: usize) -> (r: String)
    requires
        from <= to <= v@.len(),
    ensures
        r@ == v@.subrange(from as int, to as int),
{
    let mut r = String::new();
    let mut i = from;
    proof {
        assert(r@ =~= v@.subrange(from as int, from as int));
    }
    while i < to
        invariant
            from <= i <= to <= v@.len(),
            r@ == v@.subrange(from as int, i as int),
        decreases to - i,
    {
        push_char(&mut r, v[i]);
        proof {
            assert(v@.subrange(from as int, i as int).push(v@[i as int]) =~= v@.subrange(
                from as int,
                i as int + 1,
            ));
        }
        i += 1;
    }
    r
}

pub fn chars_of(s: &str) -> (v: Vec<char>)
    ensures
        v@ == s@,
{
    let n = s.unicode_len();
    let mut v: Vec<char> = Vec::new();
    let mut i: usize = 0;
    while i < n
        invariant
            n == s@.len(),
            i <= n,
            v@ == s@.subrange(0, i as int),
        decreases n - i,
    {
        v.push(s.get_char(i));
        proof {
            assert(s@.subrange(0, i as int).push(s@[i as int]) =~= s@.subrange(0, i as int + 1));
        }
        i += 1;
    }
    proof {
        assert(v@ =~= s@);
    }
    v
}

// --- ASCII lowercasing ---

pub open spec fn lower_char(c: char) -> char {
    if 'A' <= c && c <= 'Z' {
        ((c as u8) + 32) as char
    } else {
        c
    }
}

pub open spec fn lower(s: Seq<char>) -> Seq<char> {
    s.map_values(|c: char| lower_char(c))
}

pub fn lower_char_exec(c: char) -> (r: char)
    ensures
        r == lower_char(c),
{
    if 'A' <= c && c <= 'Z' {
        ((c as u8) + 32) as char
    } else {
        c
    }
}

/// The characters `[from, to)` of `v`, lowercased, as a fresh string.
pub fn lower_range(v: &Vec<char>, from: usize, to: usize) -> (r: String)
    requires
        from <= to <= v@.len(),
    ensures
        r@ == lower(v@.subrange(from as int, to as int)),
{
    let mut r = String::new();
    let mut i = from;
    proof {
        assert(r@ =~= lower(v@.subrange(from as int, from as int)));
    }
    while i < to
        invariant
            from <= i <= to <= v@.len(),
            r@ == lower(v@.subrange(from as int, i as int)),
        decreases to - i,
    {
        push_char(&mut r, lower_char_exec(v[i]));
        proof {
            assert(lower(v@.subrange(from as int, i as int)).push(lower_char(v@[i as int]))
                =~= lower(v@.subrange(from as int, i as int + 1)));
        }
        i += 1;
    }
    r
}

/// A whole string, lowercased.
pub fn lower_str(s: &str) -> (r: String)
    ensures
        r@ == lower(s@),
{
    let v = chars_of(s);
    let r = lower_range(&v, 0, v.len());
    proof {
        assert(v@.subrange(0, v@.len() as int) =~= s@);
    }
    r
}

// --- trimming ---

/// The end of the string with trailing whitespace removed, scanning from `j`.
pub open spec fn rtrim_idx(s: Seq<char>, j: int) -> int
    decreases j,
{
    if j <= 0 {
        0
    } else if is_space(s[j - 1]) {
        rtrim_idx(s, j - 1)
    } else {
        j
    }
}

/// `s` with leading and trailing whitespace removed.
pub open spec fn spec_trim(s: Seq<char>) -> Seq<char> {
    let a = run_end(Cls::Space, s, 0);
    let b = rtrim_idx(s, s.len() as int);
    if a <= b {
        s.subrange(a, b)
    } else {
        Seq::empty()
    }
}

pub proof fn lemma_rtrim_idx(s: Seq<char>, j: int)
    requires
        0 <= j <= s.len(),
    ensures
        0 <= rtrim_idx(s, j) <= j,
    decreases j,
{
    if j > 0 && is_space(s[j - 1]) {
        lemma_rtrim_idx(s, j - 1);
    }
}

pub fn trim_range(v: &Vec<char>, from: usize, to: usize) -> (r: String)
    requires
        from <= to <= v@.len(),
    ensures
        r@ == spec_trim(v@.subrange(from as int, to as int)),
{
    let ghost s = v@.subrange(from as int, to as int);
    let mut a = from;
    while a < to && class_test(Cls::Space, v[a])
        invariant
            from <= a <= to <= v@.len(),
            s == v@.subrange(from as int, to as int),
            run_end(Cls::Space, s, 0) == run_end(Cls::Space, s, a - from),
        decreases to - a,
    {
        proof {
            assert(s[a - from] == v@[a as int]);
        }
        a += 1;
    }
    proof {
        if a < to {
            assert(s[a - from] == v@[a as int]);
        }
        assert(run_end(Cls::Space, s, a - from) == a - from);
    }
    let mut b = to;
    while b > a && class_test(Cls::Space, v[b - 1])
        invariant
            from <= a <= b <= to <= v@.len(),
            s == v@.subrange(from as int, to as int),
            rtrim_idx(s, to - from) == rtrim_idx(s, b - from),
        decreases b,
    {
        proof {
            assert(s[b - from - 1] == v@[b - 1]);
        }
        b -= 1;
    }
    proof {
        if b > a {
            assert(s[b - from - 1] == v@[b - 1]);
            assert(rtrim_idx(s, b - from) == b - from);
            assert(v@.subrange(a as int, b as int) =~= s.subrange(a - from, b - from));
        } else {
            lemma_rtrim_idx(s, b - from);
            assert(spec_trim(s).len() == 0);
            assert(v@.subrange(a as int, b as int) =~= spec_trim(s));
        }
    }
    string_range(v, a, b)
}

// --- unsigned decimal parsing ---

pub open spec fn digit_val(c: char) -> int {
    c as int - '0' as int
}

pub open spec fn all_digits(s: Seq<char>) -> bool {
    forall|i: int| 0 <= i < s.len() ==> is_digit(s[i])
}

/// The value of a digit string, most significant digit first.
pub open spec fn digits_val(s: Seq<char>) -> int
    decreases s.len(),
{
    if s.len() == 0 {
        0
    } else {
        digits_val(s.drop_last()) * 10 + digit_val(s.last())
    }
}

pub proof fn lemma_digits_val_nonneg(s: Seq<char>)
    requires
        all_digits(s),
    ensures
        digits_val(s) >= 0,
    decreases s.len(),
{
    if s.len() > 0 {
        assert(all_digits(s.drop_last()));
        lemma_digits_val_nonneg(s.drop_last());
    }
}

/// What parsing a decimal `u32` returns: the value when the string is one
/// or more digits and fits, nothing otherwise.
pub open spec fn spec_parse_u32(s: Seq<char>) -> Option<u32> {
    if s.len() >= 1 && all_digits(s) && digits_val(s) <= u32::MAX {
        Some(digits_val(s) as u32)
    } else {
        None
    }
}

pub fn parse_u32_range(v: &Vec<char>, from: usize, to: usize) -> (r: Option<u32>)
    requires
        from <= to <= v@.len(),
    ensures
        r == spec_parse_u32(v@.subrange(from as int, to as int)),
{
    let ghost s = v@.subrange(from as int, to as int);
    if from == to {
        return None;
    }
    let mut acc: u64 = 0;
    let mut over = false;
    let mut i = from;
    proof {
        assert(s.subrange(0, 0) =~= Seq::<char>::empty());
    }
    while i < to
        invariant
            from <= i <= to <= v@.len(),
            s == v@.subrange(from as int, to as int),
            all_digits(s.subrange(0, i - from)),
            !over ==> acc == digits_val(s.subrange(0, i - from)) && acc <= u32::MAX,
            over ==> digits_val(s.subrange(0, i - from)) > u32::MAX,
        decreases to - i,
    {
        let c = v[i];
        proof {
            assert(s[i - from] == v@[i as int]);
        }
        if !class_test(Cls::Digit, c) {
            proof {
                assert(!all_digits(s));
            }
            return None;
        }
        let d = (c as u32) - ('0' as u32);
        let ghost pre = s.subrange(0, i - from);
        proof {
            assert(pre.push(c) =~= s.subrange(0, i - from + 1));
            assert(pre.push(c).drop_last() =~= pre);
            assert(digits_val(pre.push(c)) == digits_val(pre) * 10 + digit_val(c));
            lemma_digits_val_nonneg(pre);
        }
        if over {
            proof {
                assert(digits_val(pre) * 10 >= digits_val(pre)) by (nonlinear_arith)
                    requires digits_val(pre) >= 0;
                assert(digit_val(c) >= 0);
            }
        } else {
            let next = acc * 10 + (d as u64);
            if next > u32::MAX as u64 {
                over = true;
            } else {
                acc = next;
            }
        }
        i += 1;
    }
    proof {
        assert(s.subrange(0, to - from) =~= s);
    }
    if over {
        None
    } else {
        Some(acc as u32)
    }
}

// --- splitting ---

pub open spec fn strings_view(v: Seq<String>) -> Seq<Seq<char>> {
    v.map_values(|x: String| x@)
}

/// The whitespace-separated tokens of `s`, scanning from `i`.
pub open spec fn spec_split_ws(s: Seq<char>, i: int) -> Seq<Seq<char>>
    decreases s.len() - i,
{
    if !(0 <= i < s.len()) {
        Seq::empty()
    } else if is_space(s[i]) {
        spec_split_ws(s, i + 1)
    } else if i == 0 || is_space(s[i - 1]) {
        seq![s.subrange(i, run_end(Cls::NonSpace, s, i))] + spec_split_ws(s, i + 1)
    } else {
        spec_split_ws(s, i + 1)
    }
}

pub fn split_ws(v: &Vec<char>) -> (r: Vec<String>)
    ensures
        strings_view(r@) == spec_split_ws(v@, 0),
{
    let mut r: Vec<String> = Vec::new();
    let mut i: usize = 0;
    proof {
        assert(strings_view(r@) =~= Seq::<Seq<char>>::empty());
    }
    while i < v.len()
        invariant
            i <= v@.len(),
            strings_view(r@) + spec_split_ws(v@, i as int) =~= spec_split_ws(v@, 0),
        decreases v@.len() - i,
    {
        if !class_test(Cls::Space, v[i]) && (i == 0 || class_test(Cls::Space, v[i - 1])) {
            let e = run_end_exec(Cls::NonSpace, v, i);
            let t = string_range(v, i, e);
            let ghost old_r = r@;
            r.push(t);
            proof {
                assert(strings_view(r@) =~= strings_view(old_r).push(t@));
                assert(strings_view(old_r).push(t@) + spec_split_ws(v@, i + 1) =~= strings_view(
                    old_r,
                ) + (seq![v@.subrange(i as int, run_end(Cls::NonSpace, v@, i as int))]
                    + spec_split_ws(v@, i + 1)));
            }
        }
        i += 1;
    }
    r
}

/// The segments of `s` between occurrences of the separator `sep`,
/// scanning from `i` with the current segment starting at `start`.
pub open spec fn spec_split(s: Seq<char>, sep: Seq<char>, start: int, i: int) -> Seq<Seq<char>>
    decreases s.len() - i,
{
    if sep.len() == 0 || !(0 <= start <= i) {
        Seq::empty()
    } else if i + sep.len() > s.len() {
        seq![s.subrange(start, s.len() as int)]
    } else if match_at(s, i, sep) {
        seq![s.subrange(start, i)] + spec_split(s, sep, i + sep.len(), i + sep.len())
    } else {
        spec_split(s, sep, start, i + 1)
    }
}

pub fn split_by(v: &Vec<char>, sep: &str) -> (r: Vec<String>)
    requires
        sep@.len() >= 1,
    ensures
        strings_view(r@) == spec_split(v@, sep@, 0, 0),
{
    let mut r: Vec<String> = Vec::new();
    let mut start: usize = 0;
    let mut i: usize = 0;
    let seplen = sep.unicode_len();
    loop
        invariant
            0 <= start <= i,
            start <= v@.len(),
            seplen == sep@.len() >= 1,
            strings_view(r@) + spec_split(v@, sep@, start as int, i as int) =~= spec_split(
                v@,
                sep@,
                0,
                0,
            ),
        decreases v@.len() + 1 - i,
    {
        if i > v.len() || v.len() - i < seplen {
            let t = string_range(v, start, v.len());
            let ghost old_r = r@;
            r.push(t);
            proof {
                assert(strings_view(r@) =~= strings_view(old_r).push(t@));
            }
            return r;
        }
        if match_at_exec(v, i, sep) {
            let t = string_range(v, start, i);
            let ghost old_r = r@;
            r.push(t);
            start = i + seplen;
            i = start;
            proof {
                assert(strings_view(r@) =~= strings_view(old_r).push(t@));
            }
        } else {
            i += 1;
        }
    }
}

} // verus!
