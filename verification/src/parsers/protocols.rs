//! The protocol parser: one 1002 block of the `show protocols all`
//! response becomes a [`Protocol`]. A five-state machine walks the lines:
//! header, protocol meta, BGP state, and per-channel sections with an
//! optional change-stats table.

use vstd::prelude::*;

use crate::bird::{
    channels_view, count_of, counts_view, stats_view, Channel, ChannelView, Protocol, ProtocolView,
    RoutesCount, str_eq,
};
use crate::config::parse_u32_str;
use crate::framer::{lines_view, Block};
use crate::parsers::parser::ParseError;
use crate::text::{
    chars_of, class_test, in_class, is_space, is_word, lower, lower_char, lower_range, match_at,
    match_at_exec, run_end, run_end_exec, spec_find, spec_parse_u32, spec_split, spec_split_ws,
    spec_trim, split_by, split_ws, string_range, strings_view, trim_range, Cls, find_exec, lower_str,
    push_char, lower_char_exec,
};

verus! {

// --- the `key: value` capture ---
//
// A key-value line is whitespace, then a run of word characters and
// whitespace (the key, which may itself contain spaces; with `dot` also
// dots), a colon, whitespace, and the value. The capture finds the first
// position where that shape fits.

pub open spec fn kv_run_end(s: Seq<char>, i: int, dot: bool) -> int {
    if dot {
        run_end(Cls::WordDotSpace, s, i)
    } else {
        run_end(Cls::WordSpace, s, i)
    }
}

/// The key/value split when the shape fits at position `p`.
pub open spec fn kv_local(s: Seq<char>, p: int, dot: bool) -> Option<(Seq<char>, Seq<char>)> {
    if !is_space(s[p]) {
        None
    } else {
        let r = kv_run_end(s, p, dot);
        if r - p < 2 || r >= s.len() || s[r] != ':' {
            None
        } else {
            let w0 = run_end(Cls::Space, s, p);
            let key = if w0 < r {
                s.subrange(w0, r)
            } else {
                s.subrange(r - 1, r)
            };
            let a = r + 1;
            if a >= s.len() || !is_space(s[a]) {
                None
            } else {
                let v0 = run_end(Cls::Space, s, a);
                if v0 < s.len() {
                    Some((key, s.subrange(v0, s.len() as int)))
                } else if s.len() - a >= 2 {
                    Some((key, s.subrange(s.len() - 1, s.len() as int)))
                } else {
                    None
                }
            }
        }
    }
}

/// The first position from `p` where a key-value shape fits, and its parts.
pub open spec fn kv_capture(s: Seq<char>, p: int, dot: bool) -> Option<(Seq<char>, Seq<char>)>
    decreases s.len() - p,
{
    if !(0 <= p < s.len()) {
        None
    } else if kv_local(s, p, dot) is Some {
        kv_local(s, p, dot)
    } else {
        kv_capture(s, p + 1, dot)
    }
}

/// Capture the key and value of a `key: value` line.
pub fn key_value(v: &Vec<char>, dot: bool) -> (r: Option<(String, String)>)
    ensures
        match r {
            Some(kv) => kv_capture(v@, 0, dot) == Some((kv.0@, kv.1@)),
            None => kv_capture(v@, 0, dot) is None,
        },
{
    let mut p: usize = 0;
    while p < v.len()
        invariant
            p <= v@.len(),
            kv_capture(v@, 0, dot) == kv_capture(v@, p as int, dot),
        decreases v@.len() - p,
    {
        if class_test(Cls::Space, v[p]) {
            let r = if dot {
                run_end_exec(Cls::WordDotSpace, v, p)
            } else {
                run_end_exec(Cls::WordSpace, v, p)
            };
            if r - p >= 2 && r < v.len() && v[r] == ':' {
                let w0 = run_end_exec(Cls::Space, v, p);
                let a = r + 1;
                if a < v.len() && class_test(Cls::Space, v[a]) {
                    let v0 = run_end_exec(Cls::Space, v, a);
                    let key = if w0 < r {
                        string_range(v, w0, r)
                    } else {
                        string_range(v, r - 1, r)
                    };
                    if v0 < v.len() {
                        return Some((key, string_range(v, v0, v.len())));
                    } else if v.len() - a >= 2 {
                        return Some((key, string_range(v, v.len() - 1, v.len())));
                    }
                }
            }
        }
        p += 1;
    }
    None
}

// --- the channel header ---

/// A channel header reads `... [Cc]hannel <name>`: the name is what follows
/// the last occurrence of the word.
pub open spec fn channel_at(s: Seq<char>, i: int) -> bool {
    &&& 0 <= i && i + 9 <= s.len()
    &&& s[i] == ' '
    &&& (s[i + 1] == 'C' || s[i + 1] == 'c')
    &&& match_at(s, i + 2, "hannel"@)
    &&& s[i + 8] == ' '
}

/// The last position at or before `p` where a channel header fits.
pub open spec fn channel_find(s: Seq<char>, p: int) -> Option<int>
    decreases p + 1,
{
    if p < 0 {
        None
    } else if channel_at(s, p) {
        Some(p)
    } else {
        channel_find(s, p - 1)
    }
}

pub open spec fn spec_channel_header(s: Seq<char>) -> Option<Seq<char>> {
    if s.len() < 9 {
        None
    } else {
        match channel_find(s, s.len() - 9) {
            Some(i) => Some(s.subrange(i + 9, s.len() as int)),
            None => None,
        }
    }
}

/// Check whether the line starts a new channel section; return the channel
/// name.
pub fn parse_channel_header(l: &str) -> (r: Option<String>)
    ensures
        match r {
            Some(name) => spec_channel_header(l@) == Some(name@),
            None => spec_channel_header(l@) is None,
        },
{
    let v = chars_of(l);
    if v.len() < 9 {
        return None;
    }
    let mut q: usize = v.len() - 9 + 1;
    while q > 0
        invariant
            q <= v@.len() - 9 + 1,
            v@ == l@,
            v@.len() >= 9,
            channel_find(v@, v@.len() - 9) == channel_find(v@, q - 1),
        decreases q,
    {
        let i = q - 1;
        if v[i] == ' ' && (v[i + 1] == 'C' || v[i + 1] == 'c') && match_at_exec(&v, i + 2, "hannel")
            && v[i + 8] == ' ' {
            return Some(string_range(&v, i + 9, v.len()));
        }
        q -= 1;
    }
    None
}

// --- the protocol header ---

/// The parts a protocol header line captures.
pub struct ProtoHeader {
    pub id: String,
    pub kind: String,
    pub state: String,
    pub uptime: String,
    pub info: String,
}

pub struct ProtoHeaderView {
    pub id: Seq<char>,
    pub kind: Seq<char>,
    pub state: Seq<char>,
    pub uptime: Seq<char>,
    pub info: Seq<char>,
}

impl View for ProtoHeader {
    type V = ProtoHeaderView;

    open spec fn view(&self) -> ProtoHeaderView {
        ProtoHeaderView {
            id: self.id@,
            kind: self.kind@,
            state: self.state@,
            uptime: self.uptime@,
            info: self.info@,
        }
    }
}

/// The greatest whitespace position strictly inside `(lo, hi)`.
pub open spec fn last_space_in(s: Seq<char>, lo: int, hi: int) -> Option<int>
    decreases hi - lo,
{
    if hi <= lo + 1 {
        None
    } else if is_space(s[hi - 1]) {
        Some(hi - 1)
    } else {
        last_space_in(s, lo, hi - 1)
    }
}

/// Split an uptime column and the trailing info at a state candidate `s0`:
/// the state word, then whitespace, then the uptime run (digits, `-`, `:`
/// and whitespace), optionally a fractional part, then one whitespace and
/// the info text.
pub open spec fn try_candidate(s: Seq<char>, s0: int) -> Option<(Seq<char>, Seq<char>, Seq<char>)> {
    let se = run_end(Cls::Word, s, s0);
    if se <= s0 || se >= s.len() || !is_space(s[se]) {
        None
    } else {
        let u0 = run_end(Cls::Space, s, se);
        if u0 >= s.len() || !in_class(Cls::Uptime, s[u0]) {
            None
        } else {
            let ue = run_end(Cls::Uptime, s, u0);
            let state = s.subrange(s0, se);
            if ue < s.len() && s[ue] == '.' && run_end(Cls::Digit, s, ue + 1) > ue + 1 && run_end(
                Cls::Digit,
                s,
                ue + 1,
            ) < s.len() && is_space(s[run_end(Cls::Digit, s, ue + 1)]) {
                let de = run_end(Cls::Digit, s, ue + 1);
                Some((state, s.subrange(u0, ue), s.subrange(de + 1, s.len() as int)))
            } else {
                match last_space_in(s, u0, ue) {
                    Some(w) => Some((state, s.subrange(u0, w), s.subrange(w + 1, s.len() as int))),
                    None => None,
                }
            }
        }
    }
}

/// The first state candidate from `q` on that completes: a word run
/// preceded by whitespace whose tail parses as state, uptime and info.
pub open spec fn state_scan(s: Seq<char>, q: int) -> Option<(Seq<char>, Seq<char>, Seq<char>)>
    decreases s.len() - q,
{
    if !(2 <= q < s.len()) {
        None
    } else if is_word(s[q]) && is_space(s[q - 1]) && try_candidate(s, q) is Some {
        try_candidate(s, q)
    } else {
        state_scan(s, q + 1)
    }
}

/// The capture of a protocol header line `1002-<id> <type> ... <state>
/// <uptime>[.frac] <info>`.
pub open spec fn spec_proto_header(s: Seq<char>) -> Option<ProtoHeaderView> {
    match spec_find(s, "1002-"@, 0) {
        None => None,
        Some(h0) => {
            let h = h0 + 5;
            let pe = run_end(Cls::Word, s, h);
            if pe <= h || pe >= s.len() || !is_space(s[pe]) {
                None
            } else {
                let t0 = run_end(Cls::Space, s, pe);
                let te = run_end(Cls::Word, s, t0);
                if te <= t0 || te >= s.len() || !is_space(s[te]) {
                    None
                } else {
                    match state_scan(s, te + 2) {
                        None => None,
                        Some((state, uptime, info)) => Some(
                            ProtoHeaderView {
                                id: s.subrange(h, pe),
                                kind: s.subrange(t0, te),
                                state,
                                uptime,
                                info,
                            },
                        ),
                    }
                }
            }
        },
    }
}

fn last_space_in_exec(v: &Vec<char>, lo: usize, hi: usize) -> (r: Option<usize>)
    requires
        lo < hi <= v@.len(),
    ensures
        match r {
            Some(w) => last_space_in(v@, lo as int, hi as int) == Some(w as int) && lo < w < hi,
            None => last_space_in(v@, lo as int, hi as int) is None,
        },
{
    let mut h = hi;
    while h > lo + 1
        invariant
            lo < hi <= v@.len(),
            lo + 1 <= h <= hi || h == hi,
            h <= hi,
            last_space_in(v@, lo as int, hi as int) == last_space_in(v@, lo as int, h as int),
        decreases h,
    {
        if class_test(Cls::Space, v[h - 1]) {
            return Some(h - 1);
        }
        h -= 1;
    }
    None
}

fn try_candidate_exec(v: &Vec<char>, s0: usize) -> (r: Option<(String, String, String)>)
    requires
        s0 < v@.len(),
    ensures
        match r {
            Some(t) => try_candidate(v@, s0 as int) == Some((t.0@, t.1@, t.2@)),
            None => try_candidate(v@, s0 as int) is None,
        },
{
    let se = run_end_exec(Cls::Word, v, s0);
    if se <= s0 || se >= v.len() || !class_test(Cls::Space, v[se]) {
        return None;
    }
    let u0 = run_end_exec(Cls::Space, v, se);
    if u0 >= v.len() || !class_test(Cls::Uptime, v[u0]) {
        return None;
    }
    let ue = run_end_exec(Cls::Uptime, v, u0);
    proof {
        crate::text::lemma_run_end(Cls::Uptime, v@, u0 as int);
        assert(ue > u0) by {
            if ue == u0 {
                assert(!in_class(Cls::Uptime, v@[u0 as int]));
            }
        }
    }
    let state = string_range(v, s0, se);
    if ue < v.len() && v[ue] == '.' {
        let de = run_end_exec(Cls::Digit, v, ue + 1);
        if de > ue + 1 && de < v.len() && class_test(Cls::Space, v[de]) {
            return Some((state, string_range(v, u0, ue), string_range(v, de + 1, v.len())));
        }
    }
    match last_space_in_exec(v, u0, ue) {
        Some(w) => Some((state, string_range(v, u0, w), string_range(v, w + 1, v.len()))),
        None => None,
    }
}

/// Scan for the first completing state candidate.
fn state_scan_exec(v: &Vec<char>, q0: usize) -> (r: Option<(String, String, String)>)
    requires
        2 <= q0,
    ensures
        match r {
            Some(t) => state_scan(v@, q0 as int) == Some((t.0@, t.1@, t.2@)),
            None => state_scan(v@, q0 as int) is None,
        },
{
    let mut q = q0;
    loop
        invariant
            2 <= q0 <= q,
            state_scan(v@, q0 as int) == state_scan(v@, q as int),
        decreases v@.len() + 1 - q,
    {
        if q >= v.len() {
            return None;
        }
        if class_test(Cls::Word, v[q]) && class_test(Cls::Space, v[q - 1]) {
            match try_candidate_exec(v, q) {
                Some(t) => {
                    return Some(t);
                },
                None => {},
            }
        }
        q += 1;
    }
}

/// Capture a protocol header line into its parts.
pub fn proto_header(v: &Vec<char>) -> (r: Option<ProtoHeader>)
    ensures
        match r {
            Some(h) => spec_proto_header(v@) == Some(h@),
            None => spec_proto_header(v@) is None,
        },
{
    let n = v.len();
    proof {
        reveal_strlit("1002-");
    }
    let h0 = match find_exec(v, "1002-", 0) {
        Some(i) => i,
        None => {
            return None;
        },
    };
    proof {
        crate::text::lemma_spec_find_props(v@, "1002-"@, 0);
        assert("1002-"@.len() == 5);
        assert(h0 + 5 <= n);
    }
    let h = h0 + 5;
    let pe = run_end_exec(Cls::Word, v, h);
    if pe <= h || pe >= v.len() || !class_test(Cls::Space, v[pe]) {
        return None;
    }
    let t0 = run_end_exec(Cls::Space, v, pe);
    let te = run_end_exec(Cls::Word, v, t0);
    if te <= t0 || te >= v.len() || !class_test(Cls::Space, v[te]) {
        return None;
    }
    if te + 1 >= v.len() {
        return None;
    }
    match state_scan_exec(v, te + 2) {
        Some(t) => Some(
            ProtoHeader {
                id: string_range(v, h, pe),
                kind: string_range(v, t0, te),
                state: t.0,
                uptime: t.1,
                info: t.2,
            },
        ),
        None => None,
    }
}

// --- per-channel route counts ---

/// One comma-separated segment of a routes line: `<count> <label>`. A
/// segment with fewer than two tokens contributes nothing; a count that is
/// not a number contributes zero.
pub open spec fn spec_count_entry(seg: Seq<char>) -> Option<(Seq<char>, u32)> {
    let toks = spec_split_ws(seg, 0);
    if toks.len() >= 2 {
        Some(
            (
                toks[1],
                match spec_parse_u32(toks[0]) {
                    Some(n) => n,
                    None => 0u32,
                },
            ),
        )
    } else {
        None
    }
}

/// The position of a label among count entries.
pub open spec fn count_key_idx(m: Seq<(Seq<char>, u32)>, k: Seq<char>, i: int) -> Option<int>
    decreases m.len() - i,
{
    if !(0 <= i < m.len()) {
        None
    } else if m[i].0 == k {
        Some(i)
    } else {
        count_key_idx(m, k, i + 1)
    }
}

/// Store a count under a label, replacing an existing entry in place.
pub open spec fn counts_set(m: Seq<(Seq<char>, u32)>, k: Seq<char>, c: u32) -> Seq<
    (Seq<char>, u32),
> {
    match count_key_idx(m, k, 0) {
        Some(i) => m.update(i, (k, c)),
        None => m.push((k, c)),
    }
}

pub open spec fn rc_fold(segs: Seq<Seq<char>>, i: int, acc: Seq<(Seq<char>, u32)>) -> Seq<
    (Seq<char>, u32),
>
    decreases segs.len() - i,
{
    if !(0 <= i < segs.len()) {
        acc
    } else {
        match spec_count_entry(segs[i]) {
            Some(e) => rc_fold(segs, i + 1, counts_set(acc, e.0, e.1)),
            None => rc_fold(segs, i + 1, acc),
        }
    }
}

/// What a routes line parses to: its comma-separated segments folded into
/// a label-to-count mapping.
pub open spec fn spec_routes_count(s: Seq<char>) -> Seq<(Seq<char>, u32)> {
    rc_fold(spec_split(s, ","@, 0, 0), 0, Seq::empty())
}

fn rc_set(rc: &mut RoutesCount, k: String, c: u32)
    ensures
        final(rc)@ == counts_set(old(rc)@, k@, c),
{
    let ghost m = rc@;
    let mut i: usize = 0;
    while i < rc.entries.len()
        invariant
            i <= rc.entries@.len(),
            m == counts_view(rc.entries@),
            m == old(rc)@,
            count_key_idx(m, k@, 0) == count_key_idx(m, k@, i as int),
        decreases rc.entries@.len() - i,
    {
        proof {
            assert(m[i as int] == (rc.entries@[i as int].0@, rc.entries@[i as int].1));
        }
        if str_eq(rc.entries[i].0.as_str(), k.as_str()) {
            proof {
                assert(count_key_idx(m, k@, i as int) == Some(i as int));
            }
            rc.entries.remove(i);
            rc.entries.insert(i, (k, c));
            proof {
                assert(counts_view(rc.entries@) =~= m.update(i as int, (k@, c)));
            }
            return ;
        }
        i += 1;
    }
    rc.entries.push((k, c));
    proof {
        assert(counts_view(rc.entries@) =~= m.push((k@, c)));
    }
}

impl RoutesCount {
    /// Parse a routes line: split on commas, each segment contributing a
    /// `<count> <label>` pair; malformed counts contribute zero, and the
    /// parse is total.
    pub fn parse(row: &str) -> (r: RoutesCount)
        ensures
            r@ == spec_routes_count(row@),
    {
        proof {
            reveal_strlit(",");
        }
        let v = chars_of(row);
        let segs = split_by(&v, ",");
        let ghost sv = strings_view(segs@);
        let mut rc = RoutesCount::empty();
        let mut i: usize = 0;
        while i < segs.len()
            invariant
                i <= segs@.len(),
                sv == strings_view(segs@),
                rc_fold(sv, i as int, rc@) == rc_fold(sv, 0, Seq::empty()),
            decreases segs@.len() - i,
        {
            proof {
                assert(sv[i as int] == segs@[i as int]@);
            }
            let seg = chars_of(segs[i].as_str());
            let toks = split_ws(&seg);
            if toks.len() >= 2 {
                proof {
                    assert(strings_view(toks@)[0] == toks@[0]@);
                    assert(strings_view(toks@)[1] == toks@[1]@);
                }
                let c = match parse_u32_str(toks[0].as_str()) {
                    Some(n) => n,
                    None => 0,
                };
                rc_set(&mut rc, toks[1].clone(), c);
            }
            i += 1;
        }
        rc
    }
}

// --- the change-stats table ---

pub open spec fn underscore_char(c: char) -> char {
    if c == ' ' {
        '_'
    } else {
        c
    }
}

/// A change-stats column name: trimmed, lowercased, spaces replaced by
/// underscores.
pub open spec fn xform_field(f: Seq<char>) -> Seq<char> {
    spec_trim(f).map_values(|c: char| underscore_char(lower_char(c)))
}

pub open spec fn fields_fold(segs: Seq<Seq<char>>, i: int, acc: Seq<Seq<char>>) -> Seq<Seq<char>>
    decreases segs.len() - i,
{
    if !(0 <= i < segs.len()) {
        acc
    } else if segs[i].len() > 0 {
        fields_fold(segs, i + 1, acc.push(xform_field(segs[i])))
    } else {
        fields_fold(segs, i + 1, acc)
    }
}

/// The column names of a change-stats header: split on double spaces, the
/// non-empty segments normalized.
pub open spec fn spec_change_stats_fields(s: Seq<char>) -> Seq<Seq<char>> {
    fields_fold(spec_split(s, "  "@, 0, 0), 0, Seq::empty())
}

fn xform_field_exec(sv: &Vec<char>) -> (r: String)
    ensures
        r@ == xform_field(sv@),
{
    let t = trim_range(sv, 0, sv.len());
    proof {
        assert(sv@.subrange(0, sv@.len() as int) =~= sv@);
    }
    let tv = chars_of(t.as_str());
    let mut r = String::new();
    let mut i: usize = 0;
    proof {
        assert(r@ =~= tv@.map_values(|c: char| underscore_char(lower_char(c))).subrange(0, 0));
    }
    while i < tv.len()
        invariant
            i <= tv@.len(),
            tv@ == spec_trim(sv@),
            r@ == tv@.map_values(|c: char| underscore_char(lower_char(c))).subrange(0, i as int),
        decreases tv@.len() - i,
    {
        let c = lower_char_exec(tv[i]);
        let c = if c == ' ' {
            '_'
        } else {
            c
        };
        push_char(&mut r, c);
        proof {
            let m = tv@.map_values(|c: char| underscore_char(lower_char(c)));
            assert(m.subrange(0, i as int).push(m[i as int]) =~= m.subrange(0, i as int + 1));
        }
        i += 1;
    }
    proof {
        let m = tv@.map_values(|c: char| underscore_char(lower_char(c)));
        assert(m.subrange(0, m.len() as int) =~= m);
    }
    r
}

/// Get the column names from the change-stats header value.
pub fn parse_change_stats_fields(s: &str) -> (r: Vec<String>)
    ensures
        strings_view(r@) == spec_change_stats_fields(s@),
{
    proof {
        reveal_strlit("  ");
    }
    let v = chars_of(s);
    let segs = split_by(&v, "  ");
    let ghost sv = strings_view(segs@);
    let mut out: Vec<String> = Vec::new();
    let mut i: usize = 0;
    proof {
        assert(strings_view(out@) =~= Seq::<Seq<char>>::empty());
    }
    while i < segs.len()
        invariant
            i <= segs@.len(),
            sv == strings_view(segs@),
            fields_fold(sv, i as int, strings_view(out@)) == fields_fold(sv, 0, Seq::empty()),
        decreases segs@.len() - i,
    {
        proof {
            assert(sv[i as int] == segs@[i as int]@);
        }
        let seg = chars_of(segs[i].as_str());
        if seg.len() > 0 {
            let f = xform_field_exec(&seg);
            let ghost old_out = out@;
            out.push(f);
            proof {
                assert(strings_view(out@) =~= strings_view(old_out).push(xform_field(sv[i as int])));
            }
        }
        i += 1;
    }
    out
}

/// The values of one change-stats row: whitespace tokens, each a number or
/// nothing (the daemon prints `---` for absent values).
pub open spec fn spec_change_stats_values(s: Seq<char>) -> Seq<Option<u32>> {
    spec_split_ws(s, 0).map_values(|t: Seq<char>| spec_parse_u32(t))
}

/// Parse the values of one change-stats row.
pub fn parse_change_stats_values(s: &str) -> (r: Vec<Option<u32>>)
    ensures
        r@ == spec_change_stats_values(s@),
{
    let v = chars_of(s);
    let toks = split_ws(&v);
    let mut out: Vec<Option<u32>> = Vec::new();
    let mut i: usize = 0;
    while i < toks.len()
        invariant
            i <= toks@.len(),
            v@ == s@,
            strings_view(toks@) == spec_split_ws(s@, 0),
            out@ =~= spec_change_stats_values(s@).subrange(0, i as int),
        decreases toks@.len() - i,
    {
        proof {
            assert(strings_view(toks@)[i as int] == toks@[i as int]@);
        }
        let n = parse_u32_str(toks[i].as_str());
        out.push(n);
        proof {
            let m = spec_change_stats_values(s@);
            assert(m.subrange(0, i as int).push(m[i as int]) =~= m.subrange(0, i as int + 1));
        }
        i += 1;
    }
    proof {
        let m = spec_change_stats_values(s@);
        assert(m.subrange(0, m.len() as int) =~= m);
    }
    out
}

/// The column names zipped with a row's values, truncated to the shorter.
pub open spec fn zip_stats(fields: Seq<Seq<char>>, vals: Seq<Option<u32>>) -> Seq<
    (Seq<char>, Option<u32>),
> {
    Seq::new(
        if fields.len() <= vals.len() {
            fields.len()
        } else {
            vals.len()
        },
        |i: int| (fields[i], vals[i]),
    )
}

fn zip_stats_exec(fields: &Vec<String>, vals: &Vec<Option<u32>>) -> (r: Vec<(String, Option<u32>)>)
    ensures
        stats_view(r@) == zip_stats(strings_view(fields@), vals@),
{
    let n = if fields.len() <= vals.len() {
        fields.len()
    } else {
        vals.len()
    };
    let mut out: Vec<(String, Option<u32>)> = Vec::new();
    let mut i: usize = 0;
    proof {
        assert(stats_view(out@) =~= zip_stats(strings_view(fields@), vals@).subrange(0, 0));
    }
    while i < n
        invariant
            i <= n,
            n == if strings_view(fields@).len() <= vals@.len() {
                strings_view(fields@).len() as usize
            } else {
                vals@.len() as usize
            },
            n <= fields@.len(),
            n <= vals@.len(),
            stats_view(out@) == zip_stats(strings_view(fields@), vals@).subrange(0, i as int),
        decreases n - i,
    {
        proof {
            assert(strings_view(fields@)[i as int] == fields@[i as int]@);
        }
        let ghost old_out = out@;
        out.push((fields[i].clone(), vals[i]));
        proof {
            let m = zip_stats(strings_view(fields@), vals@);
            assert(stats_view(out@) =~= stats_view(old_out).push(m[i as int]));
            assert(m.subrange(0, i as int).push(m[i as int]) =~= m.subrange(0, i as int + 1));
        }
        i += 1;
    }
    proof {
        let m = zip_stats(strings_view(fields@), vals@);
        assert(m.subrange(0, m.len() as int) =~= m);
    }
    out
}

// --- the parser states ---

/// The sub-state inside a channel section.
#[derive(Debug, PartialEq)]
pub enum ChannelSection {
    Meta,
    RouteChangeStats(Vec<String>),
}

pub enum ChannelSectionView {
    Meta,
    RouteChangeStats(Seq<Seq<char>>),
}

impl View for ChannelSection {
    type V = ChannelSectionView;

    open spec fn view(&self) -> ChannelSectionView {
        match self {
            ChannelSection::Meta => ChannelSectionView::Meta,
            ChannelSection::RouteChangeStats(f) => ChannelSectionView::RouteChangeStats(
                strings_view(f@),
            ),
        }
    }
}

/// The parser state: before the header, protocol meta, BGP state, or
/// inside a named channel section.
#[derive(Debug, PartialEq)]
pub enum State {
    Start,
    Meta,
    BgpState,
    Channel(String, ChannelSection),
}

pub enum StateView {
    Start,
    Meta,
    BgpState,
    Channel(Seq<char>, ChannelSectionView),
}

impl View for State {
    type V = StateView;

    open spec fn view(&self) -> StateView {
        match self {
            State::Start => StateView::Start,
            State::Meta => StateView::Meta,
            State::BgpState => StateView::BgpState,
            State::Channel(name, sec) => StateView::Channel(name@, sec@),
        }
    }
}

// --- the channel map ---

pub open spec fn chan_key_idx(chs: Seq<(Seq<char>, ChannelView)>, k: Seq<char>, i: int) -> Option<
    int,
>
    decreases chs.len() - i,
{
    if !(0 <= i < chs.len()) {
        None
    } else if chs[i].0 == k {
        Some(i)
    } else {
        chan_key_idx(chs, k, i + 1)
    }
}

/// The channel under a name, created empty when absent, and its position.
pub open spec fn spec_ensure_channel(chs: Seq<(Seq<char>, ChannelView)>, k: Seq<char>) -> (
    Seq<(Seq<char>, ChannelView)>,
    int,
) {
    match chan_key_idx(chs, k, 0) {
        Some(i) => (chs, i),
        None => (chs.push((k, ChannelView::init())), chs.len() as int),
    }
}

fn ensure_channel(protocol: &mut Protocol, name: &str) -> (i: usize)
    ensures
        ({
            let (chs, j) = spec_ensure_channel(channels_view(old(protocol).channels@), name@);
            &&& final(protocol)@ == (ProtocolView { channels: chs, ..old(protocol)@ })
            &&& i as int == j
            &&& i < final(protocol).channels@.len()
            &&& chs[j].0 == name@
        }),
{
    let ghost chs0 = channels_view(old(protocol).channels@);
    let mut i: usize = 0;
    while i < protocol.channels.len()
        invariant
            i <= protocol.channels@.len(),
            chs0 == channels_view(protocol.channels@),
            protocol@ == old(protocol)@,
            chan_key_idx(chs0, name@, 0) == chan_key_idx(chs0, name@, i as int),
        decreases protocol.channels@.len() - i,
    {
        proof {
            assert(chs0[i as int] == (
                protocol.channels@[i as int].0@,
                protocol.channels@[i as int].1@,
            ));
        }
        if str_eq(protocol.channels[i].0.as_str(), name) {
            return i;
        }
        i += 1;
    }
    let n = protocol.channels.len();
    protocol.channels.push((name.to_owned(), Channel::empty()));
    proof {
        assert(channels_view(protocol.channels@) =~= chs0.push((name@, ChannelView::init())));
    }
    n
}

// --- the per-line steps ---

/// Effect of a line in the header state: skipped under the BGP filter when
/// the line lacks the token, recorded into the record when the header
/// shape matches, ignored otherwise.
pub open spec fn spec_header_step(p: ProtocolView, l: Seq<char>, filter: bool) -> (
    ProtocolView,
    StateView,
) {
    if filter && spec_find(l, "BGP"@, 0) is None {
        (p, StateView::Start)
    } else {
        match spec_proto_header(l) {
            Some(h) => (
                ProtocolView {
                    id: h.id,
                    bird_protocol: h.kind,
                    state: lower(h.state),
                    last_error: if lower(h.state) == "down"@ {
                        h.info
                    } else {
                        p.last_error
                    },
                    since: spec_trim(h.uptime),
                    state_changed: spec_trim(h.uptime),
                    ..p
                },
                StateView::Meta,
            ),
            None => (p, StateView::Start),
        }
    }
}

/// Effect of a line in the meta state: a channel header opens a channel;
/// a `Description:` line is recorded; anything else moves on.
pub open spec fn spec_meta_step(p: ProtocolView, l: Seq<char>) -> (ProtocolView, StateView) {
    match spec_channel_header(l) {
        Some(ch) => (p, StateView::Channel(ch, ChannelSectionView::Meta)),
        None => match kv_capture(l, 0, false) {
            Some(kv) => if lower(kv.0) == "description"@ {
                (ProtocolView { description: kv.1, ..p }, StateView::BgpState)
            } else {
                (p, StateView::BgpState)
            },
            None => (p, StateView::BgpState),
        },
    }
}

/// Effect of a line in the BGP state: neighbor address and AS are
/// recorded; a malformed AS number fails the parse.
pub open spec fn spec_bgp_step(p: ProtocolView, l: Seq<char>) -> Option<(ProtocolView, StateView)> {
    match spec_channel_header(l) {
        Some(ch) => Some((p, StateView::Channel(ch, ChannelSectionView::Meta))),
        None => match kv_capture(l, 0, false) {
            Some(kv) => {
                let k = lower(kv.0);
                if k == "neighbor address"@ {
                    Some((ProtocolView { address: kv.1, ..p }, StateView::BgpState))
                } else if k == "neighbor as"@ {
                    match spec_parse_u32(kv.1) {
                        Some(n) => Some((ProtocolView { asn: n, ..p }, StateView::BgpState)),
                        None => None,
                    }
                } else {
                    Some((p, StateView::BgpState))
                }
            },
            None => Some((p, StateView::BgpState)),
        },
    }
}

/// Effect of a key-value pair on a channel's metadata.
pub open spec fn spec_channel_meta_step(p: ProtocolView, name: Seq<char>, l: Seq<char>) -> Option<
    (ProtocolView, StateView),
> {
    let (chs, i) = spec_ensure_channel(p.channels, name);
    let ch = chs[i].1;
    match kv_capture(l, 0, false) {
        None => Some(
            (ProtocolView { channels: chs, ..p }, StateView::Channel(name, ChannelSectionView::Meta)),
        ),
        Some(kv) => {
            let k = lower(kv.0);
            let v = kv.1;
            if k == "route change stats"@ {
                Some(
                    (
                        ProtocolView { channels: chs, ..p },
                        StateView::Channel(
                            name,
                            ChannelSectionView::RouteChangeStats(spec_change_stats_fields(v)),
                        ),
                    ),
                )
            } else if k == "preference"@ {
                match spec_parse_u32(v) {
                    Some(n) => Some(
                        (
                            ProtocolView {
                                channels: chs.update(i, (name, ChannelView { preference: n, ..ch })),
                                ..p
                            },
                            StateView::Channel(name, ChannelSectionView::Meta),
                        ),
                    ),
                    None => None,
                }
            } else {
                let ch2 = if k == "state"@ {
                    ChannelView { state: v, ..ch }
                } else if k == "import state"@ {
                    ChannelView { import_state: v, ..ch }
                } else if k == "export state"@ {
                    ChannelView { export_state: v, ..ch }
                } else if k == "table"@ {
                    ChannelView { table: v, ..ch }
                } else if k == "peer table"@ {
                    ChannelView { peer_table: v, ..ch }
                } else if k == "input filter"@ {
                    ChannelView { input_filter: v, ..ch }
                } else if k == "output filter"@ {
                    ChannelView { output_filter: v, ..ch }
                } else if k == "routes"@ {
                    ChannelView { routes_count: spec_routes_count(v), ..ch }
                } else if k == "bgp next hop"@ {
                    ChannelView { bgp_next_hop: v, ..ch }
                } else {
                    ch
                };
                Some(
                    (
                        ProtocolView { channels: chs.update(i, (name, ch2)), ..p },
                        StateView::Channel(name, ChannelSectionView::Meta),
                    ),
                )
            }
        },
    }
}

/// Effect of a change-stats row on a channel: the whole line is
/// lowercased, a stray `bgp next hop` is written to the channel metadata,
/// the four known rows are zipped with the column names, and a line with
/// no key-value shape leaves the channel sections.
pub open spec fn spec_channel_stats_step(
    p: ProtocolView,
    name: Seq<char>,
    fields: Seq<Seq<char>>,
    l: Seq<char>,
) -> Option<(ProtocolView, StateView)> {
    let (chs, i) = spec_ensure_channel(p.channels, name);
    let ch = chs[i].1;
    let low = lower(l);
    match kv_capture(low, 0, false) {
        None => Some((ProtocolView { channels: chs, ..p }, StateView::Meta)),
        Some(kv) => {
            let k = kv.0;
            let v = kv.1;
            if k == "bgp next hop"@ {
                Some(
                    (
                        ProtocolView {
                            channels: chs.update(i, (name, ChannelView { bgp_next_hop: v, ..ch })),
                            ..p
                        },
                        StateView::Channel(name, ChannelSectionView::RouteChangeStats(fields)),
                    ),
                )
            } else {
                let stats = zip_stats(fields, spec_change_stats_values(v));
                let rcs = ch.route_change_stats;
                let ch2 = if k == "import updates"@ {
                    ChannelView {
                        route_change_stats: crate::bird::RouteChangesView {
                            import_updates: stats,
                            ..rcs
                        },
                        ..ch
                    }
                } else if k == "import withdraws"@ {
                    ChannelView {
                        route_change_stats: crate::bird::RouteChangesView {
                            import_withdraws: stats,
                            ..rcs
                        },
                        ..ch
                    }
                } else if k == "export updates"@ {
                    ChannelView {
                        route_change_stats: crate::bird::RouteChangesView {
                            export_updates: stats,
                            ..rcs
                        },
                        ..ch
                    }
                } else if k == "export withdraws"@ {
                    ChannelView {
                        route_change_stats: crate::bird::RouteChangesView {
                            export_withdraws: stats,
                            ..rcs
                        },
                        ..ch
                    }
                } else {
                    ch
                };
                Some(
                    (
                        ProtocolView { channels: chs.update(i, (name, ch2)), ..p },
                        StateView::Channel(name, ChannelSectionView::RouteChangeStats(fields)),
                    ),
                )
            }
        },
    }
}

/// Effect of a line inside a channel: a new channel header switches
/// channels; otherwise the section decides.
pub open spec fn spec_channel_step(
    p: ProtocolView,
    name: Seq<char>,
    sec: ChannelSectionView,
    l: Seq<char>,
) -> Option<(ProtocolView, StateView)> {
    match spec_channel_header(l) {
        Some(next) => Some((p, StateView::Channel(next, ChannelSectionView::Meta))),
        None => match sec {
            ChannelSectionView::Meta => spec_channel_meta_step(p, name, l),
            ChannelSectionView::RouteChangeStats(fields) => spec_channel_stats_step(
                p,
                name,
                fields,
                l,
            ),
        },
    }
}

/// Effect of one line, dispatched on the parser state.
pub open spec fn spec_parse_line(
    p: ProtocolView,
    st: StateView,
    l: Seq<char>,
    filter: bool,
) -> Option<(ProtocolView, StateView)> {
    match st {
        StateView::Start => Some(spec_header_step(p, l, filter)),
        StateView::Meta => Some(spec_meta_step(p, l)),
        StateView::BgpState => spec_bgp_step(p, l),
        StateView::Channel(name, sec) => spec_channel_step(p, name, sec, l),
    }
}

pub open spec fn spec_fold_lines(
    lines: Seq<Seq<char>>,
    i: int,
    p: ProtocolView,
    st: StateView,
    filter: bool,
) -> Option<(ProtocolView, StateView)>
    decreases lines.len() - i,
{
    if !(0 <= i < lines.len()) {
        Some((p, st))
    } else {
        match spec_parse_line(p, st, lines[i], filter) {
            Some(next) => spec_fold_lines(lines, i + 1, next.0, next.1, filter),
            None => None,
        }
    }
}

// --- the exec steps ---

/// Parse the protocol header line (name, type, state, uptime, info).
pub fn parse_protocol_header(protocol: &mut Protocol, line: &str, filter_bgp: bool) -> (r: Result<
    State,
    ParseError,
>)
    ensures
        r matches Ok(st) && spec_header_step(old(protocol)@, line@, filter_bgp) == (
            final(protocol)@,
            st@,
        ),
{
    let v = chars_of(line);
    proof {
        reveal_strlit("BGP");
    }
    if filter_bgp && !crate::text::contains_exec(&v, "BGP") {
        return Ok(State::Start);
    }
    match proto_header(&v) {
        Some(h) => {
            let state_low = lower_str(h.state.as_str());
            protocol.id = h.id;
            protocol.bird_protocol = h.kind;
            if str_eq(state_low.as_str(), "down") {
                protocol.last_error = h.info;
            }
            protocol.state = state_low;
            let uv = chars_of(h.uptime.as_str());
            let uptime = trim_range(&uv, 0, uv.len());
            proof {
                assert(uv@.subrange(0, uv@.len() as int) =~= uv@);
            }
            protocol.since = uptime.clone();
            protocol.state_changed = uptime;
            Ok(State::Meta)
        },
        None => Ok(State::Start),
    }
}

/// Parse protocol metadata (the description).
pub fn parse_protocol_meta(protocol: &mut Protocol, line: &str) -> (r: Result<State, ParseError>)
    ensures
        r matches Ok(st) && spec_meta_step(old(protocol)@, line@) == (final(protocol)@, st@),
{
    match parse_channel_header(line) {
        Some(channel) => Ok(State::Channel(channel, ChannelSection::Meta)),
        None => {
            let v = chars_of(line);
            match key_value(&v, false) {
                Some(kv) => {
                    let k = lower_str(kv.0.as_str());
                    if str_eq(k.as_str(), "description") {
                        protocol.description = kv.1;
                    }
                    Ok(State::BgpState)
                },
                None => Ok(State::BgpState),
            }
        },
    }
}

/// Parse the BGP state section (neighbor address and AS).
pub fn parse_bgp_state(protocol: &mut Protocol, line: &str) -> (r: Result<State, ParseError>)
    ensures
        match r {
            Ok(st) => spec_bgp_step(old(protocol)@, line@) == Some((final(protocol)@, st@)),
            Err(_) => spec_bgp_step(old(protocol)@, line@) is None,
        },
{
    match parse_channel_header(line) {
        Some(channel) => Ok(State::Channel(channel, ChannelSection::Meta)),
        None => {
            let v = chars_of(line);
            match key_value(&v, false) {
                Some(kv) => {
                    let k = lower_str(kv.0.as_str());
                    if str_eq(k.as_str(), "neighbor address") {
                        protocol.address = kv.1;
                        Ok(State::BgpState)
                    } else if str_eq(k.as_str(), "neighbor as") {
                        match parse_u32_str(kv.1.as_str()) {
                            Some(n) => {
                                protocol.asn = n;
                                Ok(State::BgpState)
                            },
                            None => Err(
                                ParseError::new(
                                    line.to_owned(),
                                    "invalid neighbor AS number".to_owned(),
                                ),
                            ),
                        }
                    } else {
                        Ok(State::BgpState)
                    }
                },
                None => Ok(State::BgpState),
            }
        },
    }
}

/// Parse channel metadata (state, tables, filters, routes, preference).
pub fn parse_channel_meta(protocol: &mut Protocol, channel: String, line: &str) -> (r: Result<
    State,
    ParseError,
>)
    ensures
        match r {
            Ok(st) => spec_channel_meta_step(old(protocol)@, channel@, line@) == Some(
                (final(protocol)@, st@),
            ),
            Err(_) => spec_channel_meta_step(old(protocol)@, channel@, line@) is None,
        },
{
    let i = ensure_channel(protocol, channel.as_str());
    let ghost chs = channels_view(protocol.channels@);
    let v = chars_of(line);
    match key_value(&v, false) {
        None => Ok(State::Channel(channel, ChannelSection::Meta)),
        Some(kv) => {
            let k = lower_str(kv.0.as_str());
            let val = kv.1;
            if str_eq(k.as_str(), "route change stats") {
                let fields = parse_change_stats_fields(val.as_str());
                Ok(State::Channel(channel, ChannelSection::RouteChangeStats(fields)))
            } else if str_eq(k.as_str(), "preference") {
                match parse_u32_str(val.as_str()) {
                    Some(n) => {
                        proof {
                            assert(chs[i as int] == (
                                protocol.channels@[i as int].0@,
                                protocol.channels@[i as int].1@,
                            ));
                        }
                        let pair = protocol.channels.remove(i);
                        let key = pair.0;
                        let mut ch = pair.1;
                        ch.preference = n;
                        let ghost chv = ch@;
                        protocol.channels.insert(i, (key, ch));
                        proof {
                            assert(chv == ChannelView { preference: n, ..chs[i as int].1 });
                            assert(channels_view(protocol.channels@) =~= chs.update(
                                i as int,
                                (channel@, chv),
                            ));
                        }
                        Ok(State::Channel(channel, ChannelSection::Meta))
                    },
                    None => Err(
                        ParseError::new(line.to_owned(), "invalid preference".to_owned()),
                    ),
                }
            } else {
                proof {
                    assert(chs[i as int] == (
                        protocol.channels@[i as int].0@,
                        protocol.channels@[i as int].1@,
                    ));
                }
                let pair = protocol.channels.remove(i);
                let key = pair.0;
                let mut ch = pair.1;
                if str_eq(k.as_str(), "state") {
                    ch.state = val;
                } else if str_eq(k.as_str(), "import state") {
                    ch.import_state = val;
                } else if str_eq(k.as_str(), "export state") {
                    ch.export_state = val;
                } else if str_eq(k.as_str(), "table") {
                    ch.table = val;
                } else if str_eq(k.as_str(), "peer table") {
                    ch.peer_table = val;
                } else if str_eq(k.as_str(), "input filter") {
                    ch.input_filter = val;
                } else if str_eq(k.as_str(), "output filter") {
                    ch.output_filter = val;
                } else if str_eq(k.as_str(), "routes") {
                    ch.routes_count = RoutesCount::parse(val.as_str());
                } else if str_eq(k.as_str(), "bgp next hop") {
                    ch.bgp_next_hop = val;
                }
                let ghost chv = ch@;
                protocol.channels.insert(i, (key, ch));
                proof {
                    assert(chs[i as int].0 == channel@);
                    assert(channels_view(protocol.channels@) =~= chs.update(
                        i as int,
                        (channel@, chv),
                    ));
                }
                Ok(State::Channel(channel, ChannelSection::Meta))
            }
        },
    }
}

/// Parse one change-stats row of a channel.
pub fn parse_channel_route_change_stats(
    protocol: &mut Protocol,
    channel: String,
    fields: Vec<String>,
    line: &str,
) -> (r: Result<State, ParseError>)
    ensures
        r matches Ok(st) && spec_channel_stats_step(
            old(protocol)@,
            channel@,
            strings_view(fields@),
            line@,
        ) == Some((final(protocol)@, st@)),
{
    let i = ensure_channel(protocol, channel.as_str());
    let ghost chs = channels_view(protocol.channels@);
    let v = chars_of(line);
    let low = crate::text::lower_range(&v, 0, v.len());
    proof {
        assert(v@.subrange(0, v@.len() as int) =~= v@);
    }
    let lv = chars_of(low.as_str());
    match key_value(&lv, false) {
        None => Ok(State::Meta),
        Some(kv) => {
            let k = kv.0;
            let val = kv.1;
            if str_eq(k.as_str(), "bgp next hop") {
                let pair = protocol.channels.remove(i);
                let key = pair.0;
                let mut ch = pair.1;
                ch.bgp_next_hop = val;
                protocol.channels.insert(i, (key, ch));
                proof {
                    assert(channels_view(protocol.channels@) =~= chs.update(
                        i as int,
                        (channel@, channels_view(protocol.channels@)[i as int].1),
                    ));
                }
                Ok(State::Channel(channel, ChannelSection::RouteChangeStats(fields)))
            } else {
                let vals = parse_change_stats_values(val.as_str());
                let stats = zip_stats_exec(&fields, &vals);
                let pair = protocol.channels.remove(i);
                let key = pair.0;
                let mut ch = pair.1;
                if str_eq(k.as_str(), "import updates") {
                    ch.route_change_stats.import_updates = stats;
                } else if str_eq(k.as_str(), "import withdraws") {
                    ch.route_change_stats.import_withdraws = stats;
                } else if str_eq(k.as_str(), "export updates") {
                    ch.route_change_stats.export_updates = stats;
                } else if str_eq(k.as_str(), "export withdraws") {
                    ch.route_change_stats.export_withdraws = stats;
                }
                protocol.channels.insert(i, (key, ch));
                proof {
                    assert(channels_view(protocol.channels@) =~= chs.update(
                        i as int,
                        (channel@, channels_view(protocol.channels@)[i as int].1),
                    ));
                }
                Ok(State::Channel(channel, ChannelSection::RouteChangeStats(fields)))
            }
        },
    }
}

/// Parse a line inside a channel section.
pub fn parse_channel(
    protocol: &mut Protocol,
    channel: String,
    section: ChannelSection,
    line: &str,
) -> (r: Result<State, ParseError>)
    ensures
        match r {
            Ok(st) => spec_channel_step(old(protocol)@, channel@, section@, line@) == Some(
                (final(protocol)@, st@),
            ),
            Err(_) => spec_channel_step(old(protocol)@, channel@, section@, line@) is None,
        },
{
    match parse_channel_header(line) {
        Some(next) => Ok(State::Channel(next, ChannelSection::Meta)),
        None => match section {
            ChannelSection::Meta => parse_channel_meta(protocol, channel, line),
            ChannelSection::RouteChangeStats(fields) => parse_channel_route_change_stats(
                protocol,
                channel,
                fields,
                line,
            ),
        },
    }
}

/// Parse one line, dispatching on the current state.
pub fn parse_line(protocol: &mut Protocol, state: State, line: &str, filter_bgp: bool) -> (r:
    Result<State, ParseError>)
    ensures
        match r {
            Ok(st) => spec_parse_line(old(protocol)@, state@, line@, filter_bgp) == Some(
                (final(protocol)@, st@),
            ),
            Err(_) => spec_parse_line(old(protocol)@, state@, line@, filter_bgp) is None,
        },
{
    match state {
        State::Start => parse_protocol_header(protocol, line, filter_bgp),
        State::Meta => parse_protocol_meta(protocol, line),
        State::BgpState => parse_bgp_state(protocol, line),
        State::Channel(channel, section) => parse_channel(protocol, channel, section, line),
    }
}

// --- finalisation ---

pub open spec fn clamp_u32(x: int) -> u32 {
    if x > u32::MAX {
        u32::MAX
    } else if x < 0 {
        0
    } else {
        x as u32
    }
}

/// Add one count to a label, saturating at the integer limit.
pub open spec fn counts_add(m: Seq<(Seq<char>, u32)>, k: Seq<char>, c: u32) -> Seq<
    (Seq<char>, u32),
> {
    match count_key_idx(m, k, 0) {
        Some(i) => m.update(i, (k, clamp_u32(m[i].1 + c))),
        None => m.push((k, c)),
    }
}

pub open spec fn counts_add_all(
    m: Seq<(Seq<char>, u32)>,
    es: Seq<(Seq<char>, u32)>,
    j: int,
) -> Seq<(Seq<char>, u32)>
    decreases es.len() - j,
{
    if !(0 <= j < es.len()) {
        m
    } else {
        counts_add_all(counts_add(m, es[j].0, es[j].1), es, j + 1)
    }
}

/// The element-wise sum of all channels' route counts.
pub open spec fn total_counts(
    chs: Seq<(Seq<char>, ChannelView)>,
    i: int,
    acc: Seq<(Seq<char>, u32)>,
) -> Seq<(Seq<char>, u32)>
    decreases chs.len() - i,
{
    if !(0 <= i < chs.len()) {
        acc
    } else {
        total_counts(chs, i + 1, counts_add_all(acc, chs[i].1.routes_count, 0))
    }
}

pub open spec fn spec_finalize_attrs(p: ProtocolView) -> ProtocolView {
    if p.channels.len() > 0 {
        ProtocolView { table: p.channels[0].1.table, peer_table: p.channels[0].1.peer_table, ..p }
    } else {
        p
    }
}

/// A parsed protocol, finalized: the summary route counts are the sums
/// over the channels, and the table attributes are the first channel's.
pub open spec fn spec_finalize(p: ProtocolView) -> ProtocolView {
    spec_finalize_attrs(
        ProtocolView { routes: total_counts(p.channels, 0, Seq::empty()), ..p },
    )
}

/// What one protocol block parses to, when it parses.
pub open spec fn spec_parse_protocol(lines: Seq<Seq<char>>, filter: bool) -> Option<ProtocolView> {
    match spec_fold_lines(lines, 0, ProtocolView::init(), StateView::Start, filter) {
        Some(r) => Some(spec_finalize(r.0)),
        None => None,
    }
}

fn counts_add_exec(total: &mut RoutesCount, k: String, c: u32)
    ensures
        final(total)@ == counts_add(old(total)@, k@, c),
{
    let ghost m = total@;
    let mut i: usize = 0;
    while i < total.entries.len()
        invariant
            i <= total.entries@.len(),
            m == counts_view(total.entries@),
            m == old(total)@,
            count_key_idx(m, k@, 0) == count_key_idx(m, k@, i as int),
        decreases total.entries@.len() - i,
    {
        proof {
            assert(m[i as int] == (total.entries@[i as int].0@, total.entries@[i as int].1));
        }
        if str_eq(total.entries[i].0.as_str(), k.as_str()) {
            proof {
                assert(count_key_idx(m, k@, i as int) == Some(i as int));
            }
            let prev = total.entries[i].1;
            let summed = if c > u32::MAX - prev {
                u32::MAX
            } else {
                prev + c
            };
            total.entries.remove(i);
            total.entries.insert(i, (k, summed));
            proof {
                assert(summed == clamp_u32(m[i as int].1 + c));
                assert(counts_view(total.entries@) =~= m.update(i as int, (k@, summed)));
            }
            return ;
        }
        i += 1;
    }
    total.entries.push((k, c));
    proof {
        assert(counts_view(total.entries@) =~= m.push((k@, c)));
    }
}

fn add_counts_exec(total: &mut RoutesCount, rc: &RoutesCount)
    ensures
        final(total)@ == counts_add_all(old(total)@, rc@, 0),
{
    let ghost es = rc@;
    let mut j: usize = 0;
    while j < rc.entries.len()
        invariant
            j <= rc.entries@.len(),
            es == counts_view(rc.entries@),
            counts_add_all(total@, es, j as int) == counts_add_all(old(total)@, es, 0),
        decreases rc.entries@.len() - j,
    {
        proof {
            assert(es[j as int] == (rc.entries@[j as int].0@, rc.entries@[j as int].1));
        }
        counts_add_exec(total, rc.entries[j].0.clone(), rc.entries[j].1);
        j += 1;
    }
}

/// Sum the per-channel route counts into the protocol's summary counts.
pub fn finalize_counters(protocol: &mut Protocol)
    ensures
        final(protocol)@ == (ProtocolView {
            routes: total_counts(channels_view(old(protocol).channels@), 0, Seq::empty()),
            ..old(protocol)@
        }),
{
    let ghost chs = channels_view(protocol.channels@);
    let mut total = RoutesCount::empty();
    let mut ci: usize = 0;
    proof {
        assert(total@ =~= Seq::<(Seq<char>, u32)>::empty());
    }
    while ci < protocol.channels.len()
        invariant
            ci <= protocol.channels@.len(),
            chs == channels_view(protocol.channels@),
            protocol@ == old(protocol)@,
            total_counts(chs, ci as int, total@) == total_counts(chs, 0, Seq::empty()),
        decreases protocol.channels@.len() - ci,
    {
        proof {
            assert(chs[ci as int] == (
                protocol.channels@[ci as int].0@,
                protocol.channels@[ci as int].1@,
            ));
        }
        add_counts_exec(&mut total, &protocol.channels[ci].1.routes_count);
        ci += 1;
    }
    protocol.routes = total;
}

/// Copy the first channel's table attributes to the protocol level.
pub fn finalize_attributes(protocol: &mut Protocol)
    ensures
        final(protocol)@ == spec_finalize_attrs(old(protocol)@),
{
    if protocol.channels.len() > 0 {
        proof {
            assert(channels_view(protocol.channels@)[0] == (
                protocol.channels@[0].0@,
                protocol.channels@[0].1@,
            ));
        }
        protocol.table = protocol.channels[0].1.table.clone();
        protocol.peer_table = protocol.channels[0].1.peer_table.clone();
    }
}

impl Protocol {
    /// Parse one protocol block: fold the lines through the state machine
    /// from an empty record, then finalize the summary counts and table
    /// attributes. Fails exactly when a line carries a malformed number.
    pub fn parse(block: &Block, filter_bgp: bool) -> (r: Result<Protocol, ParseError>)
        ensures
            match r {
                Ok(p) => spec_parse_protocol(lines_view(block@), filter_bgp) == Some(p@),
                Err(_) => spec_parse_protocol(lines_view(block@), filter_bgp) is None,
            },
    {
        let ghost ls = lines_view(block@);
        let mut protocol = Protocol::empty();
        let mut state = State::Start;
        let mut i: usize = 0;
        while i < block.len()
            invariant
                i <= block@.len(),
                ls == lines_view(block@),
                spec_fold_lines(ls, i as int, protocol@, state@, filter_bgp) == spec_fold_lines(
                    ls,
                    0,
                    ProtocolView::init(),
                    StateView::Start,
                    filter_bgp,
                ),
            decreases block@.len() - i,
        {
            proof {
                assert(ls[i as int] == block@[i as int]@);
            }
            match parse_line(&mut protocol, state, block[i].as_str(), filter_bgp) {
                Ok(st) => {
                    state = st;
                },
                Err(e) => {
                    return Err(e);
                },
            }
            i += 1;
        }
        finalize_counters(&mut protocol);
        finalize_attributes(&mut protocol);
        Ok(protocol)
    }
}

// --- the protocol reader ---

/// Folding the framed blocks of a `show protocols all` reply: blocks that
/// fail to parse are skipped.
pub open spec fn read_fold(
    blocks: Seq<Seq<Seq<char>>>,
    i: int,
    filter: bool,
    acc: Seq<ProtocolView>,
) -> Seq<ProtocolView>
    decreases blocks.len() - i,
{
    if !(0 <= i < blocks.len()) {
        acc
    } else {
        match spec_parse_protocol(blocks[i], filter) {
            Some(p) => read_fold(blocks, i + 1, filter, acc.push(p)),
            None => read_fold(blocks, i + 1, filter, acc),
        }
    }
}

/// What a whole `show protocols all` reply parses to: each 1002 block a
/// protocol, failed blocks skipped.
pub open spec fn spec_read_protocols(lines: Seq<Seq<char>>, filter: bool) -> Seq<ProtocolView> {
    read_fold(
        crate::framer::spec_blocks(
            lines,
            crate::framer::MarkerView {
                token: "1002-"@,
                follow: crate::framer::Follow::Anything,
            },
            None,
            0,
            Seq::empty(),
        ),
        0,
        filter,
        Seq::empty(),
    )
}

/// Parse the raw lines of a `show protocols all` reply; with the BGP
/// filter set, blocks whose header lacks the token are skipped.
pub fn read_protocols(lines: &Vec<String>, filter_bgp: bool) -> (r: Vec<Protocol>)
    ensures
        crate::bird::protocols_seq_view(r@) == spec_read_protocols(lines_view(lines@), filter_bgp),
{
    proof {
        reveal_strlit("1002-");
    }
    let marker = crate::framer::Marker::new("1002-", crate::framer::Follow::Anything);
    let blocks = crate::framer::split_blocks(lines, &marker, None);
    let ghost bs = crate::framer::blocks_view(blocks@);
    let mut out: Vec<Protocol> = Vec::new();
    let mut i: usize = 0;
    proof {
        assert(crate::bird::protocols_seq_view(out@) =~= Seq::<ProtocolView>::empty());
    }
    while i < blocks.len()
        invariant
            i <= blocks@.len(),
            bs == crate::framer::blocks_view(blocks@),
            spec_read_protocols(lines_view(lines@), filter_bgp) == read_fold(
                bs,
                0,
                filter_bgp,
                Seq::empty(),
            ),
            read_fold(bs, i as int, filter_bgp, crate::bird::protocols_seq_view(out@)) == read_fold(
                bs,
                0,
                filter_bgp,
                Seq::empty(),
            ),
        decreases blocks@.len() - i,
    {
        proof {
            assert(bs[i as int] == lines_view(blocks@[i as int]@));
        }
        match Protocol::parse(&blocks[i], filter_bgp) {
            Ok(p) => {
                let ghost old_out = out@;
                let ghost pv = p@;
                out.push(p);
                proof {
                    assert(crate::bird::protocols_seq_view(out@)
                        =~= crate::bird::protocols_seq_view(old_out).push(pv));
                }
            },
            Err(_) => {},
        }
        i += 1;
    }
    out
}

/// The position of a protocol id among map entries.
pub open spec fn pmap_key_idx(m: Seq<(Seq<char>, ProtocolView)>, k: Seq<char>, i: int) -> Option<
    int,
>
    decreases m.len() - i,
{
    if !(0 <= i < m.len()) {
        None
    } else if m[i].0 == k {
        Some(i)
    } else {
        pmap_key_idx(m, k, i + 1)
    }
}

/// Folding parsed protocols into an id-keyed map: empty ids are dropped,
/// a repeated id replaces the stored protocol in place.
pub open spec fn pmap_fold(
    ps: Seq<ProtocolView>,
    i: int,
    acc: Seq<(Seq<char>, ProtocolView)>,
) -> Seq<(Seq<char>, ProtocolView)>
    decreases ps.len() - i,
{
    if !(0 <= i < ps.len()) {
        acc
    } else if ps[i].id.len() == 0 {
        pmap_fold(ps, i + 1, acc)
    } else {
        let acc2 = match pmap_key_idx(acc, ps[i].id, 0) {
            Some(j) => acc.update(j, (ps[i].id, ps[i])),
            None => acc.push((ps[i].id, ps[i])),
        };
        pmap_fold(ps, i + 1, acc2)
    }
}

/// The position of a protocol id in a protocols map.
fn pmap_find(out: &crate::bird::ProtocolsMap, id: &str) -> (r: Option<usize>)
    ensures
        match r {
            Some(j) => pmap_key_idx(crate::bird::protocols_view(out@), id@, 0) == Some(j as int)
                && j < out@.len(),
            None => pmap_key_idx(crate::bird::protocols_view(out@), id@, 0) is None,
        },
{
    let ghost acc = crate::bird::protocols_view(out@);
    let mut j: usize = 0;
    while j < out.len()
        invariant
            j <= out@.len(),
            acc == crate::bird::protocols_view(out@),
            pmap_key_idx(acc, id@, 0) == pmap_key_idx(acc, id@, j as int),
        decreases out@.len() - j,
    {
        proof {
            assert(acc[j as int] == (out@[j as int].0@, out@[j as int].1@));
        }
        if str_eq(out[j].0.as_str(), id) {
            return Some(j);
        }
        j += 1;
    }
    None
}

/// Key parsed protocols by id, dropping those whose id is empty.
pub fn protocols_map(protocols: Vec<Protocol>) -> (r: crate::bird::ProtocolsMap)
    ensures
        crate::bird::protocols_view(r@) == pmap_fold(
            crate::bird::protocols_seq_view(protocols@),
            0,
            Seq::empty(),
        ),
{
    let ghost ps = crate::bird::protocols_seq_view(protocols@);
    let mut out: crate::bird::ProtocolsMap = Vec::new();
    let mut protocols = protocols;
    let n0 = protocols.len();
    let mut i: usize = 0;
    proof {
        assert(crate::bird::protocols_view(out@) =~= Seq::<(Seq<char>, ProtocolView)>::empty());
        assert(crate::bird::protocols_seq_view(protocols@) =~= ps.skip(0));
    }
    while protocols.len() > 0
        invariant
            i + protocols@.len() == ps.len(),
            ps.len() == n0,
            crate::bird::protocols_seq_view(protocols@) == ps.skip(i as int),
            pmap_fold(ps, i as int, crate::bird::protocols_view(out@)) == pmap_fold(
                ps,
                0,
                Seq::empty(),
            ),
        decreases protocols@.len(),
    {
        let ghost old_pro = protocols@;
        let p = protocols.remove(0);
        proof {
            assert(crate::bird::protocols_seq_view(old_pro)[0] == old_pro[0]@);
            assert(ps.skip(i as int)[0] == ps[i as int]);
            assert(p@ == ps[i as int]);
            let cur = crate::bird::protocols_seq_view(protocols@);
            assert forall|m: int| 0 <= m < cur.len() implies cur[m] == ps.skip(i as int + 1)[m] by {
                assert(cur[m] == protocols@[m]@);
                assert(protocols@[m] == old_pro[m + 1]);
                assert(crate::bird::protocols_seq_view(old_pro)[m + 1] == old_pro[m + 1]@);
                assert(ps.skip(i as int)[m + 1] == ps[i + 1 + m]);
            }
            assert(cur =~= ps.skip(i as int + 1));
        }
        if p.id.as_str().unicode_len() > 0 {
            let ghost acc = crate::bird::protocols_view(out@);
            let found = pmap_find(&out, p.id.as_str());
            match found {
                Some(j) => {
                    let ghost pv = p@;
                    let key = p.id.clone();
                    out.remove(j);
                    out.insert(j, (key, p));
                    proof {
                        assert(crate::bird::protocols_view(out@) =~= acc.update(
                            j as int,
                            (pv.id, pv),
                        ));
                        assert(pv == ps[i as int]);
                        assert(pv.id == ps[i as int].id);
                        assert(pmap_key_idx(acc, ps[i as int].id, 0) == Some(j as int));
                        assert(ps[i as int].id.len() > 0);
                        assert(crate::bird::protocols_view(out@) == acc.update(
                            j as int,
                            (ps[i as int].id, ps[i as int]),
                        ));
                        assert(0 <= (i as int) && (i as int) < ps.len());
                        assert(pmap_fold(ps, i as int, acc) == pmap_fold(
                            ps,
                            i as int + 1,
                            acc.update(j as int, (ps[i as int].id, ps[i as int])),
                        ));
                        assert(pmap_fold(ps, i as int + 1, crate::bird::protocols_view(out@))
                            == pmap_fold(ps, i as int, acc));
                    }
                },
                None => {
                    let ghost pv = p@;
                    proof {
                        assert(acc.len() == out@.len());
                        assert(pmap_key_idx(acc, p.id@, 0) is None);
                    }
                    let key = p.id.clone();
                    out.push((key, p));
                    proof {
                        assert(crate::bird::protocols_view(out@) =~= acc.push((pv.id, pv)));
                        assert(crate::bird::protocols_view(out@) == acc.push(
                            (ps[i as int].id, ps[i as int]),
                        ));
                        assert(0 <= (i as int) && (i as int) < ps.len());
                        assert(pmap_key_idx(acc, ps[i as int].id, 0) is None);
                        assert(pmap_fold(ps, i as int, acc) == pmap_fold(
                            ps,
                            i as int + 1,
                            acc.push((ps[i as int].id, ps[i as int])),
                        ));
                        assert(pmap_fold(ps, i as int + 1, crate::bird::protocols_view(out@))
                            == pmap_fold(ps, i as int, acc));
                    }
                },
            }
        } else {
            proof {
                assert(ps[i as int].id.len() == 0);
                assert(pmap_fold(ps, i as int + 1, crate::bird::protocols_view(out@)) == pmap_fold(
                    ps,
                    i as int,
                    crate::bird::protocols_view(out@),
                ));
            }
        }
        i += 1;
    }
    proof {
        assert(crate::bird::protocols_seq_view(protocols@).len() == 0);
    }
    out
}

// --- the summary-count law ---

/// The count stored under a label, through the entry position.
pub open spec fn count_at(m: Seq<(Seq<char>, u32)>, k: Seq<char>) -> int {
    match count_key_idx(m, k, 0) {
        Some(i) => m[i].1 as int,
        None => 0,
    }
}

/// The sum a label contributes to one channel's counts, from entry `j` on.
pub open spec fn key_sum(es: Seq<(Seq<char>, u32)>, j: int, k: Seq<char>) -> int
    decreases es.len() - j,
{
    if !(0 <= j < es.len()) {
        0
    } else {
        (if es[j].0 == k {
            es[j].1 as int
        } else {
            0
        }) + key_sum(es, j + 1, k)
    }
}

pub proof fn lemma_key_sum_nonneg(es: Seq<(Seq<char>, u32)>, j: int, k: Seq<char>)
    ensures
        key_sum(es, j, k) >= 0,
    decreases es.len() - j,
{
    if 0 <= j < es.len() {
        lemma_key_sum_nonneg(es, j + 1, k);
    }
}

/// The per-label sum over all channels from channel `i` on.
pub open spec fn channels_key_sum(chs: Seq<(Seq<char>, ChannelView)>, i: int, k: Seq<char>) -> int
    decreases chs.len() - i,
{
    if !(0 <= i < chs.len()) {
        0
    } else {
        key_sum(chs[i].1.routes_count, 0, k) + channels_key_sum(chs, i + 1, k)
    }
}

pub proof fn lemma_channels_key_sum_nonneg(
    chs: Seq<(Seq<char>, ChannelView)>,
    i: int,
    k: Seq<char>,
)
    ensures
        channels_key_sum(chs, i, k) >= 0,
    decreases chs.len() - i,
{
    if 0 <= i < chs.len() {
        lemma_key_sum_nonneg(chs[i].1.routes_count, 0, k);
        lemma_channels_key_sum_nonneg(chs, i + 1, k);
    }
}

proof fn lemma_count_idx_shift(m: Seq<(Seq<char>, u32)>, k: Seq<char>, j: int)
    requires
        m.len() > 0,
        0 <= j,
    ensures
        count_key_idx(m, k, j + 1) == match count_key_idx(m.drop_first(), k, j) {
            Some(i) => Some(i + 1),
            None => None::<int>,
        },
    decreases m.len() - j,
{
    let d = m.drop_first();
    if 0 <= j < d.len() {
        assert(m[j + 1] == d[j]);
        lemma_count_idx_shift(m, k, j + 1);
    }
}

/// The recursive lookup and the position-based lookup agree.
pub proof fn lemma_count_of_is_at(m: Seq<(Seq<char>, u32)>, k: Seq<char>)
    ensures
        count_of(m, k) as int == count_at(m, k),
    decreases m.len(),
{
    if m.len() > 0 && m[0].0 != k {
        lemma_count_of_is_at(m.drop_first(), k);
        lemma_count_idx_shift(m, k, 0);
        match count_key_idx(m.drop_first(), k, 0) {
            Some(i) => {
                lemma_count_idx_first(m.drop_first(), k, 0);
                assert(m[i + 1] == m.drop_first()[i]);
            },
            None => {},
        }
    }
}

/// A found label position is the first one, in range, holding the label.
proof fn lemma_count_idx_first(m: Seq<(Seq<char>, u32)>, k: Seq<char>, j: int)
    requires
        0 <= j,
        count_key_idx(m, k, j) is Some,
    ensures
        j <= count_key_idx(m, k, j).unwrap() < m.len(),
        m[count_key_idx(m, k, j).unwrap()].0 == k,
        forall|x: int| j <= x < count_key_idx(m, k, j).unwrap() ==> (#[trigger] m[x]).0 != k,
    decreases m.len() - j,
{
    if j < m.len() && m[j].0 != k {
        lemma_count_idx_first(m, k, j + 1);
    }
}

proof fn lemma_count_idx_none(m: Seq<(Seq<char>, u32)>, k: Seq<char>, j: int)
    requires
        0 <= j,
        count_key_idx(m, k, j) is None,
    ensures
        forall|x: int| j <= x < m.len() ==> (#[trigger] m[x]).0 != k,
    decreases m.len() - j,
{
    if j < m.len() {
        lemma_count_idx_none(m, k, j + 1);
    }
}

/// Scanning a sequence that agrees on keys everywhere, and on entries at
/// the scanned label, finds the same position.
proof fn lemma_count_idx_congruent(
    a: Seq<(Seq<char>, u32)>,
    b: Seq<(Seq<char>, u32)>,
    k: Seq<char>,
    j: int,
)
    requires
        0 <= j,
        a.len() == b.len(),
        forall|x: int| 0 <= x < a.len() ==> (#[trigger] a[x]).0 == b[x].0,
    ensures
        count_key_idx(a, k, j) == count_key_idx(b, k, j),
    decreases a.len() - j,
{
    if j < a.len() {
        lemma_count_idx_congruent(a, b, k, j + 1);
    }
}

/// Adding a count under one label changes exactly that label's total,
/// saturating at the integer limit.
proof fn lemma_counts_add_at(m: Seq<(Seq<char>, u32)>, k: Seq<char>, c: u32, q: Seq<char>)
    ensures
        count_at(counts_add(m, k, c), q) == if q == k {
            clamp_u32(count_at(m, k) + c) as int
        } else {
            count_at(m, q)
        },
{
    let r = counts_add(m, k, c);
    match count_key_idx(m, k, 0) {
        Some(i) => {
            lemma_count_idx_first(m, k, 0);
            assert(forall|x: int| 0 <= x < r.len() ==> (#[trigger] r[x]).0 == m[x].0);
            lemma_count_idx_congruent(r, m, q, 0);
            if q == k {
                assert(count_key_idx(r, q, 0) == count_key_idx(m, k, 0));
            } else {
                match count_key_idx(m, q, 0) {
                    Some(x) => {
                        lemma_count_idx_first(m, q, 0);
                        assert(m[x].0 == q);
                        assert(x != i);
                        assert(r[x] == m[x]);
                    },
                    None => {},
                }
            }
        },
        None => {
            lemma_count_idx_none(m, k, 0);
            if q == k {
                lemma_count_idx_extend_found(m, (k, c), 0);
                assert(count_at(m, k) == 0);
            } else {
                lemma_count_idx_extend_other(m, (k, c), q, 0);
                match count_key_idx(m, q, 0) {
                    Some(x) => {
                        lemma_count_idx_first(m, q, 0);
                        assert(r[x] == m[x]);
                    },
                    None => {},
                }
            }
        },
    }
}

/// Pushing an entry whose label was absent makes the scan find it last.
proof fn lemma_count_idx_extend_found(m: Seq<(Seq<char>, u32)>, e: (Seq<char>, u32), j: int)
    requires
        0 <= j <= m.len(),
        forall|x: int| j <= x < m.len() ==> (#[trigger] m[x]).0 != e.0,
    ensures
        count_key_idx(m.push(e), e.0, j) == Some(m.len() as int),
    decreases m.len() - j,
{
    let r = m.push(e);
    if j < m.len() {
        assert(r[j] == m[j]);
        lemma_count_idx_extend_found(m, e, j + 1);
    } else {
        assert(r[j] == e);
    }
}

/// Pushing an entry of another label leaves the scan unchanged.
proof fn lemma_count_idx_extend_other(
    m: Seq<(Seq<char>, u32)>,
    e: (Seq<char>, u32),
    q: Seq<char>,
    j: int,
)
    requires
        0 <= j,
        e.0 != q,
    ensures
        count_key_idx(m.push(e), q, j) == count_key_idx(m, q, j),
    decreases m.len() + 1 - j,
{
    let r = m.push(e);
    if j < m.len() {
        assert(r[j] == m[j]);
        lemma_count_idx_extend_other(m, e, q, j + 1);
    } else if j == m.len() {
        assert(r[j] == e);
        assert(count_key_idx(r, q, j + 1) is None);
        assert(count_key_idx(m, q, j) is None);
    }
}

/// Folding one channel's counts adds, per label, exactly that channel's
/// per-label sum, saturating at the integer limit.
proof fn lemma_counts_add_all_at(
    m: Seq<(Seq<char>, u32)>,
    es: Seq<(Seq<char>, u32)>,
    j: int,
    q: Seq<char>,
)
    requires
        0 <= j <= es.len(),
        count_at(m, q) >= 0,
    ensures
        count_at(counts_add_all(m, es, j), q) == clamp_u32(count_at(m, q) + key_sum(es, j, q)) as int,
    decreases es.len() - j,
{
    lemma_key_sum_nonneg(es, j, q);
    if j < es.len() {
        let m2 = counts_add(m, es[j].0, es[j].1);
        lemma_counts_add_at(m, es[j].0, es[j].1, q);
        lemma_count_at_nonneg(m2, q);
        lemma_counts_add_all_at(m2, es, j + 1, q);
        lemma_key_sum_nonneg(es, j + 1, q);
    }
}

proof fn lemma_count_at_nonneg(m: Seq<(Seq<char>, u32)>, q: Seq<char>)
    ensures
        count_at(m, q) >= 0,
{
    match count_key_idx(m, q, 0) {
        Some(i) => {
            lemma_count_idx_first(m, q, 0);
        },
        None => {},
    }
}

/// The total over all channels adds, per label, the per-channel sums.
proof fn lemma_total_counts_at(
    chs: Seq<(Seq<char>, ChannelView)>,
    i: int,
    acc: Seq<(Seq<char>, u32)>,
    q: Seq<char>,
)
    requires
        0 <= i <= chs.len(),
    ensures
        count_at(total_counts(chs, i, acc), q) == clamp_u32(
            count_at(acc, q) + channels_key_sum(chs, i, q),
        ) as int,
    decreases chs.len() - i,
{
    lemma_count_at_nonneg(acc, q);
    lemma_channels_key_sum_nonneg(chs, i, q);
    if i < chs.len() {
        let acc2 = counts_add_all(acc, chs[i].1.routes_count, 0);
        lemma_counts_add_all_at(acc, chs[i].1.routes_count, 0, q);
        lemma_total_counts_at(chs, i + 1, acc2, q);
        lemma_key_sum_nonneg(chs[i].1.routes_count, 0, q);
        lemma_channels_key_sum_nonneg(chs, i + 1, q);
    }
}

/// The summary-count law: for every label, a finalized protocol's summary
/// route count is the sum of that label's counts over all its channels
/// (saturating at the integer limit); when the sum fits, it is the sum
/// exactly.
pub proof fn lemma_routes_are_channel_sums(p: ProtocolView, q: Seq<char>)
    ensures
        count_of(spec_finalize(p).routes, q) as int == clamp_u32(
            channels_key_sum(p.channels, 0, q),
        ) as int,
        channels_key_sum(p.channels, 0, q) <= u32::MAX ==> count_of(spec_finalize(p).routes, q)
            as int == channels_key_sum(p.channels, 0, q),
{
    let routes = total_counts(p.channels, 0, Seq::empty());
    assert(spec_finalize(p).routes == routes);
    lemma_count_of_is_at(routes, q);
    lemma_total_counts_at(p.channels, 0, Seq::empty(), q);
    lemma_channels_key_sum_nonneg(p.channels, 0, q);
}

/// Parsing is deterministic: one block parses to at most one protocol, so
/// two parses of the same block yield equal records.
pub proof fn lemma_protocol_parse_deterministic(
    lines: Seq<Seq<char>>,
    filter: bool,
    a: ProtocolView,
    b: ProtocolView,
)
    requires
        spec_parse_protocol(lines, filter) == Some(a),
        spec_parse_protocol(lines, filter) == Some(b),
    ensures
        a == b,
{
}

} // verus!
