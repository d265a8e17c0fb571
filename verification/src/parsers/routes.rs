//! The route parser: each inner block of a 1007 prefix group becomes a
//! [`Route`]. The state machine walks header, meta (gateway, type) and BGP
//! attribute lines; community lists may continue over several lines.

use vstd::prelude::*;

use crate::bird::{
    ext_communities_view, opt_str_view, routes_view, str_eq, BGPInfoView, Community, ExtCommunity,
    LargeCommunity, Route, RouteView,
};
use crate::config::parse_u32_str;
use crate::framer::{blocks_view, lines_view, split_group, Block, Follow, Marker};
use crate::parsers::parser::ParseError;
use crate::parsers::protocols::kv_capture;
use crate::text::{
    chars_of, class_test, in_class, is_space, lower, lower_range, lower_str, match_at,
    match_at_exec, run_end, run_end_exec, spec_find, spec_parse_u32, spec_split, spec_trim,
    split_by, string_range, strings_view, find_exec, lemma_spec_find_props, Cls,
};

verus! {

// --- the route header ---

/// The parts a route header line captures.
pub struct RouteHeader {
    pub prefix: Option<String>,
    pub neighbor: String,
    pub age: String,
    pub learnt: Option<String>,
    pub primary: bool,
    pub metric_digits: String,
}

pub struct RouteHeaderView {
    pub prefix: Option<Seq<char>>,
    pub neighbor: Seq<char>,
    pub age: Seq<char>,
    pub learnt: Option<Seq<char>>,
    pub primary: bool,
    pub metric_digits: Seq<char>,
}

impl View for RouteHeader {
    type V = RouteHeaderView;

    open spec fn view(&self) -> RouteHeaderView {
        RouteHeaderView {
            prefix: opt_str_view(self.prefix),
            neighbor: self.neighbor@,
            age: self.age@,
            learnt: opt_str_view(self.learnt),
            primary: self.primary,
            metric_digits: self.metric_digits@,
        }
    }
}

/// The start of the whitespace run that ends at `e`.
pub open spec fn space_run_start(s: Seq<char>, e: int) -> int
    decreases e,
{
    if e <= 0 {
        0
    } else if is_space(s[e - 1]) {
        space_run_start(s, e - 1)
    } else {
        e
    }
}

/// The bracket part of a route header from the age column on: the age run,
/// an optional ` from <peer>`, and the closing bracket position.
pub open spec fn rh_bracket(s: Seq<char>, a0: int) -> Option<(Seq<char>, Option<Seq<char>>, int)> {
    let ae = run_end(Cls::Age, s, a0);
    if ae < s.len() && s[ae] == ']' {
        Some((s.subrange(a0, ae), None, ae))
    } else if ae < s.len() && match_at(s, ae, "from"@) && ae - 1 > a0 && is_space(s[ae - 1]) {
        let w = space_run_start(s, ae);
        if w <= a0 {
            None
        } else {
            let ff = ae + 4;
            if ff < s.len() && is_space(s[ff]) {
                let l0 = run_end(Cls::Space, s, ff);
                match spec_find(s, "]"@, l0) {
                    Some(lb) => if lb > l0 {
                        Some((s.subrange(a0, w), Some(s.subrange(l0, lb)), lb))
                    } else {
                        None
                    },
                    None => None,
                }
            } else {
                None
            }
        }
    } else {
        None
    }
}

/// The metric-and-primary tail after the closing bracket at `be`.
pub open spec fn rh_tail(s: Seq<char>, be: int) -> Option<(bool, Seq<char>)> {
    if !(be + 1 < s.len() && is_space(s[be + 1])) {
        None
    } else {
        let q = run_end(Cls::Space, s, be + 1);
        let (primary, q2) = if q < s.len() && s[q] == '*' {
            if q + 1 < s.len() && is_space(s[q + 1]) {
                (true, run_end(Cls::Space, s, q + 1))
            } else {
                (false, s.len() as int + 1)
            }
        } else {
            (false, q)
        };
        if !(0 <= q2 < s.len() && s[q2] == '(') {
            None
        } else {
            let m0 = q2 + 1;
            let me = run_end(Cls::Digit, s, m0);
            if me > m0 && me < s.len() && s[me] == ')' && me + 1 < s.len() && is_space(s[me + 1]) {
                Some((primary, s.subrange(m0, me)))
            } else {
                None
            }
        }
    }
}

/// The route header shape at position `p`: an optional network prefix,
/// whitespace, the route type word, `[<proto> <age>[ from <peer>]]`, an
/// optional `*`, and `(<metric>)`.
pub open spec fn rh_local(s: Seq<char>, p: int) -> Option<RouteHeaderView> {
    let (prefix, t0) = if in_class(Cls::Net, s[p]) {
        let pe = run_end(Cls::Net, s, p);
        if pe < s.len() && is_space(s[pe]) {
            (Some(s.subrange(p, pe)), run_end(Cls::Space, s, pe))
        } else {
            (None, -1)
        }
    } else if is_space(s[p]) {
        (None, run_end(Cls::Space, s, p))
    } else {
        (None, -1)
    };
    if t0 < 0 {
        None
    } else {
        let te = run_end(Cls::Word, s, t0);
        if te <= t0 || te >= s.len() || !is_space(s[te]) {
            None
        } else {
            let b0 = run_end(Cls::Space, s, te);
            if !(b0 < s.len() && s[b0] == '[') {
                None
            } else {
                let f0 = b0 + 1;
                let fe = run_end(Cls::NonSpace, s, f0);
                if fe >= s.len() {
                    None
                } else {
                    let a0 = run_end(Cls::Space, s, fe);
                    if !(a0 < s.len() && in_class(Cls::Age, s[a0])) {
                        None
                    } else {
                        match rh_bracket(s, a0) {
                            None => None,
                            Some((age, learnt, be)) => match rh_tail(s, be) {
                                None => None,
                                Some((primary, metric)) => Some(
                                    RouteHeaderView {
                                        prefix,
                                        neighbor: s.subrange(f0, fe),
                                        age,
                                        learnt,
                                        primary,
                                        metric_digits: metric,
                                    },
                                ),
                            },
                        }
                    }
                }
            }
        }
    }
}

/// The first position where the route header shape fits.
pub open spec fn rh_capture(s: Seq<char>, p: int) -> Option<RouteHeaderView>
    decreases s.len() - p,
{
    if !(0 <= p < s.len()) {
        None
    } else if rh_local(s, p) is Some {
        rh_local(s, p)
    } else {
        rh_capture(s, p + 1)
    }
}

fn space_run_start_exec(v: &Vec<char>, e: usize) -> (r: usize)
    requires
        e <= v@.len(),
    ensures
        r as int == space_run_start(v@, e as int),
        r <= e,
{
    let mut j = e;
    while j > 0 && class_test(Cls::Space, v[j - 1])
        invariant
            j <= e <= v@.len(),
            space_run_start(v@, e as int) == space_run_start(v@, j as int),
        decreases j,
    {
        j -= 1;
    }
    j
}

fn rh_bracket_exec(v: &Vec<char>, a0: usize) -> (r: Option<(String, Option<String>, usize)>)
    requires
        a0 < v@.len(),
    ensures
        match r {
            Some(t) => rh_bracket(v@, a0 as int) == Some(
                (
                    t.0@,
                    match t.1 {
                        Some(l) => Some(l@),
                        None => None,
                    },
                    t.2 as int,
                ),
            ) && t.2 < v@.len(),
            None => rh_bracket(v@, a0 as int) is None,
        },
{
    let n = v.len();
    let ae = run_end_exec(Cls::Age, v, a0);
    if ae >= n {
        return None;
    }
    if v[ae] == ']' {
        return Some((string_range(v, a0, ae), None, ae));
    }
    proof {
        reveal_strlit("from");
        reveal_strlit("]");
    }
    if match_at_exec(v, ae, "from") && ae > a0 + 1 && class_test(Cls::Space, v[ae - 1]) {
        let w = space_run_start_exec(v, ae);
        if w <= a0 {
            return None;
        }
        let ff = ae + 4;
        if ff < v.len() && class_test(Cls::Space, v[ff]) {
            let l0 = run_end_exec(Cls::Space, v, ff);
            match find_exec(v, "]", l0) {
                Some(lb) => {
                    proof {
                        lemma_spec_find_props(v@, "]"@, l0 as int);
                    }
                    if lb > l0 {
                        return Some(
                            (string_range(v, a0, w), Some(string_range(v, l0, lb)), lb),
                        );
                    }
                    return None;
                },
                None => {
                    return None;
                },
            }
        }
        return None;
    }
    None
}

fn rh_tail_exec(v: &Vec<char>, be: usize) -> (r: Option<(bool, String)>)
    requires
        be < v@.len(),
    ensures
        match r {
            Some(t) => rh_tail(v@, be as int) == Some((t.0, t.1@)),
            None => rh_tail(v@, be as int) is None,
        },
{
    let n = v.len();
    if !(be + 1 < n && class_test(Cls::Space, v[be + 1])) {
        return None;
    }
    let q = run_end_exec(Cls::Space, v, be + 1);
    let mut primary = false;
    let mut q2 = q;
    if q < v.len() && v[q] == '*' {
        if q + 1 < v.len() && class_test(Cls::Space, v[q + 1]) {
            primary = true;
            q2 = run_end_exec(Cls::Space, v, q + 1);
        } else {
            return None;
        }
    }
    if !(q2 < v.len() && v[q2] == '(') {
        return None;
    }
    let m0 = q2 + 1;
    let me = run_end_exec(Cls::Digit, v, m0);
    if me > m0 && me < v.len() && v[me] == ')' && me + 1 < v.len() && class_test(
        Cls::Space,
        v[me + 1],
    ) {
        Some((primary, string_range(v, m0, me)))
    } else {
        None
    }
}

fn rh_local_exec(v: &Vec<char>, p: usize) -> (r: Option<RouteHeader>)
    requires
        p < v@.len(),
    ensures
        match r {
            Some(h) => rh_local(v@, p as int) == Some(h@),
            None => rh_local(v@, p as int) is None,
        },
{
    let mut prefix: Option<String> = None;
    let t0: usize;
    if class_test(Cls::Net, v[p]) {
        let pe = run_end_exec(Cls::Net, v, p);
        if pe < v.len() && class_test(Cls::Space, v[pe]) {
            prefix = Some(string_range(v, p, pe));
            t0 = run_end_exec(Cls::Space, v, pe);
        } else {
            return None;
        }
    } else if class_test(Cls::Space, v[p]) {
        t0 = run_end_exec(Cls::Space, v, p);
    } else {
        return None;
    }
    let te = run_end_exec(Cls::Word, v, t0);
    if te <= t0 || te >= v.len() || !class_test(Cls::Space, v[te]) {
        return None;
    }
    let b0 = run_end_exec(Cls::Space, v, te);
    if !(b0 < v.len() && v[b0] == '[') {
        return None;
    }
    let f0 = b0 + 1;
    let fe = run_end_exec(Cls::NonSpace, v, f0);
    if fe >= v.len() {
        return None;
    }
    let a0 = run_end_exec(Cls::Space, v, fe);
    if !(a0 < v.len() && class_test(Cls::Age, v[a0])) {
        return None;
    }
    match rh_bracket_exec(v, a0) {
        None => None,
        Some((age, learnt, be)) => match rh_tail_exec(v, be) {
            None => None,
            Some((primary, metric)) => Some(
                RouteHeader {
                    prefix,
                    neighbor: string_range(v, f0, fe),
                    age,
                    learnt,
                    primary,
                    metric_digits: metric,
                },
            ),
        },
    }
}

/// Capture a route header line into its parts.
pub fn route_header(v: &Vec<char>) -> (r: Option<RouteHeader>)
    ensures
        match r {
            Some(h) => rh_capture(v@, 0) == Some(h@),
            None => rh_capture(v@, 0) is None,
        },
{
    let mut p: usize = 0;
    while p < v.len()
        invariant
            p <= v@.len(),
            rh_capture(v@, 0) == rh_capture(v@, p as int),
        decreases v@.len() - p,
    {
        match rh_local_exec(v, p) {
            Some(h) => {
                return Some(h);
            },
            None => {},
        }
        p += 1;
    }
    None
}

// --- the gateway line ---

/// The first `via` token followed by whitespace.
pub open spec fn via_scan(s: Seq<char>, i: int) -> Option<int>
    decreases s.len() - i,
{
    if !(0 <= i && i + 4 <= s.len()) {
        None
    } else if match_at(s, i, "via"@) && is_space(s[i + 3]) {
        Some(i)
    } else {
        via_scan(s, i + 1)
    }
}

/// The gateway/interface capture of a `via <gateway> on <interface>` line.
pub open spec fn gw_capture(s: Seq<char>) -> Option<(Option<Seq<char>>, Seq<char>)> {
    match via_scan(s, 0) {
        None => None,
        Some(i) => {
            let g0 = run_end(Cls::Space, s, i + 3);
            let ge = run_end(Cls::Host, s, g0);
            let gateway: Option<Seq<char>> = if ge > g0 {
                Some(s.subrange(g0, ge))
            } else {
                None
            };
            let o0 = if ge > g0 {
                if ge < s.len() && is_space(s[ge]) {
                    run_end(Cls::Space, s, ge)
                } else {
                    -1
                }
            } else {
                g0
            };
            if o0 < 0 {
                None
            } else if match_at(s, o0, "on"@) && o0 + 2 < s.len() && is_space(s[o0 + 2]) {
                let i0 = run_end(Cls::Space, s, o0 + 2);
                if i0 < s.len() {
                    Some((gateway, s.subrange(i0, s.len() as int)))
                } else {
                    None
                }
            } else {
                None
            }
        },
    }
}

fn via_find(v: &Vec<char>) -> (r: Option<usize>)
    ensures
        match r {
            Some(i) => via_scan(v@, 0) == Some(i as int) && i + 4 <= v@.len(),
            None => via_scan(v@, 0) is None,
        },
{
    proof {
        reveal_strlit("via");
    }
    let n = v.len();
    let mut i: usize = 0;
    loop
        invariant
            via_scan(v@, 0) == via_scan(v@, i as int),
            n == v@.len(),
            0 <= i,
        decreases v@.len() + 1 - i,
    {
        if i > n || n - i < 4 {
            return None;
        }
        if match_at_exec(v, i, "via") && class_test(Cls::Space, v[i + 3]) {
            return Some(i);
        }
        i += 1;
    }
}

/// Capture the gateway and interface of a `via ... on ...` line.
pub fn gateway_interface(v: &Vec<char>) -> (r: Option<(Option<String>, String)>)
    ensures
        match r {
            Some(t) => gw_capture(v@) == Some(
                (
                    match t.0 {
                        Some(g) => Some(g@),
                        None => None,
                    },
                    t.1@,
                ),
            ),
            None => gw_capture(v@) is None,
        },
{
    proof {
        reveal_strlit("via");
        reveal_strlit("on");
    }
    let n = v.len();
    let found = match via_find(v) {
        Some(i) => i,
        None => {
            return None;
        },
    };
    proof {
        assert(found + 4 <= n);
    }
    let g0 = run_end_exec(Cls::Space, v, found + 3);
    let ge = run_end_exec(Cls::Host, v, g0);
    let o0: usize;
    let mut gateway: Option<String> = None;
    if ge > g0 {
        gateway = Some(string_range(v, g0, ge));
        if ge < v.len() && class_test(Cls::Space, v[ge]) {
            o0 = run_end_exec(Cls::Space, v, ge);
        } else {
            return None;
        }
    } else {
        o0 = g0;
    }
    if match_at_exec(v, o0, "on") {
        proof {
            assert("on"@.len() == 2);
            assert(o0 + 2 <= n);
        }
        if o0 + 2 < n && class_test(Cls::Space, v[o0 + 2]) {
            let i0 = run_end_exec(Cls::Space, v, o0 + 2);
            if i0 < n {
                return Some((gateway, string_range(v, i0, v.len())));
            }
        }
        return None;
    }
    None
}

// --- community lists ---

/// One parenthesised tuple `(<a>, <b>, <c>)` starting at the `(` at `i`:
/// the three parts and the scan position after the closing parenthesis.
pub open spec fn tuple_local(s: Seq<char>, i: int) -> Option<
    ((Seq<char>, Seq<char>, Seq<char>), int),
> {
    match spec_find(s, ", "@, i + 1) {
        None => None,
        Some(j1) => if j1 < i + 2 {
            None
        } else {
            match spec_find(s, ", "@, j1 + 2) {
                None => None,
                Some(j2) => if j2 < j1 + 3 {
                    None
                } else {
                    match spec_find(s, ")"@, j2 + 2) {
                        None => None,
                        Some(j3) => if j3 < j2 + 3 {
                            None
                        } else {
                            Some(
                                (
                                    (
                                        s.subrange(i + 1, j1),
                                        s.subrange(j1 + 2, j2),
                                        s.subrange(j2 + 2, j3),
                                    ),
                                    j3 + 1,
                                ),
                            )
                        },
                    }
                },
            }
        },
    }
}

/// All parenthesised three-part tuples of a line, left to right.
pub open spec fn spec_tuples(s: Seq<char>, i: int) -> Seq<(Seq<char>, Seq<char>, Seq<char>)>
    decreases s.len() + 1 - i,
{
    if !(0 <= i < s.len()) {
        Seq::empty()
    } else if s[i] == '(' && tuple_local(s, i) is Some {
        let r = tuple_local(s, i).unwrap();
        proof {
            lemma_tuple_local_advances(s, i);
        }
        seq![r.0] + spec_tuples(s, r.1)
    } else {
        spec_tuples(s, i + 1)
    }
}

pub proof fn lemma_tuple_local_advances(s: Seq<char>, i: int)
    requires
        tuple_local(s, i) is Some,
    ensures
        i < tuple_local(s, i).unwrap().1 <= s.len() + 1,
{
    lemma_spec_find_props(s, ", "@, i + 1);
    let j1 = spec_find(s, ", "@, i + 1).unwrap();
    lemma_spec_find_props(s, ", "@, j1 + 2);
    let j2 = spec_find(s, ", "@, j1 + 2).unwrap();
    lemma_spec_find_props(s, ")"@, j2 + 2);
}

fn tuple_local_exec(v: &Vec<char>, i: usize) -> (r: Option<((String, String, String), usize)>)
    requires
        i < v@.len(),
    ensures
        match r {
            Some(t) => tuple_local(v@, i as int) == Some(((t.0.0@, t.0.1@, t.0.2@), t.1 as int))
                && i < t.1 <= v@.len() + 1,
            None => tuple_local(v@, i as int) is None,
        },
{
    proof {
        reveal_strlit(", ");
        reveal_strlit(")");
    }
    let n = v.len();
    let j1 = match find_exec(v, ", ", i + 1) {
        Some(j) => j,
        None => {
            return None;
        },
    };
    proof {
        lemma_spec_find_props(v@, ", "@, i as int + 1);
    }
    if j1 < i + 2 {
        return None;
    }
    let j2 = match find_exec(v, ", ", j1 + 2) {
        Some(j) => j,
        None => {
            return None;
        },
    };
    proof {
        lemma_spec_find_props(v@, ", "@, j1 as int + 2);
    }
    if j2 < j1 + 3 {
        return None;
    }
    let j3 = match find_exec(v, ")", j2 + 2) {
        Some(j) => j,
        None => {
            return None;
        },
    };
    proof {
        lemma_spec_find_props(v@, ")"@, j2 as int + 2);
    }
    if j3 < j2 + 3 {
        return None;
    }
    Some(
        (
            (string_range(v, i + 1, j1), string_range(v, j1 + 2, j2), string_range(v, j2 + 2, j3)),
            j3 + 1,
        ),
    )
}

/// All tuples of a line, as strings.
pub fn tuples_exec(v: &Vec<char>) -> (r: Vec<(String, String, String)>)
    ensures
        r@.map_values(|t: (String, String, String)| (t.0@, t.1@, t.2@)) == spec_tuples(v@, 0),
{
    let ghost m = |t: (String, String, String)| (t.0@, t.1@, t.2@);
    let mut out: Vec<(String, String, String)> = Vec::new();
    let mut i: usize = 0;
    proof {
        assert(out@.map_values(m) =~= Seq::<(Seq<char>, Seq<char>, Seq<char>)>::empty());
    }
    while i < v.len()
        invariant
            i <= v@.len() + 1,
            out@.map_values(m) + spec_tuples(v@, i as int) =~= spec_tuples(v@, 0),
            m == (|t: (String, String, String)| (t.0@, t.1@, t.2@)),
        decreases v@.len() + 1 - i,
    {
        if v[i] == '(' {
            match tuple_local_exec(v, i) {
                Some((t, next)) => {
                    let ghost old_out = out@;
                    out.push(t);
                    proof {
                        assert(out@.map_values(m) =~= old_out.map_values(m).push((t.0@, t.1@, t.2@)));
                    }
                    i = next;
                    continue ;
                },
                None => {},
            }
        }
        i += 1;
    }
    out
}

// --- community lists ---

/// One regular community token `(<a>,<b>)`.
pub open spec fn spec_parse_community(tok: Seq<char>) -> Option<Community> {
    if tok.len() < 2 {
        None
    } else {
        let inner = tok.subrange(1, tok.len() - 1);
        let parts = spec_split(inner, ","@, 0, 0);
        if parts.len() != 2 {
            None
        } else {
            match (spec_parse_u32(parts[0]), spec_parse_u32(parts[1])) {
                (Some(a), Some(b)) => Some(Community(a, b)),
                _ => None,
            }
        }
    }
}

pub open spec fn comms_fold(toks: Seq<Seq<char>>, i: int, acc: Seq<Community>) -> Option<
    Seq<Community>,
>
    decreases toks.len() - i,
{
    if !(0 <= i < toks.len()) {
        Some(acc)
    } else {
        match spec_parse_community(toks[i]) {
            Some(c) => comms_fold(toks, i + 1, acc.push(c)),
            None => None,
        }
    }
}

/// A list of regular communities: the trimmed line split on single spaces,
/// every token a community.
pub open spec fn spec_parse_communities(s: Seq<char>) -> Option<Seq<Community>> {
    comms_fold(spec_split(spec_trim(s), " "@, 0, 0), 0, Seq::empty())
}

/// Parse one regular community token.
pub fn parse_community(s: &str) -> (r: Result<Community, ParseError>)
    ensures
        match r {
            Ok(c) => spec_parse_community(s@) == Some(c),
            Err(_) => spec_parse_community(s@) is None,
        },
{
    proof {
        reveal_strlit(",");
    }
    let v = chars_of(s);
    if v.len() < 2 {
        return Err(ParseError::new(s.to_owned(), "invalid community".to_owned()));
    }
    let inner_s = string_range(&v, 1, v.len() - 1);
    let inner = chars_of(inner_s.as_str());
    let parts = split_by(&inner, ",");
    if parts.len() != 2 {
        return Err(ParseError::new(s.to_owned(), "invalid community".to_owned()));
    }
    proof {
        assert(strings_view(parts@)[0] == parts@[0]@);
        assert(strings_view(parts@)[1] == parts@[1]@);
    }
    let a = parse_u32_str(parts[0].as_str());
    let b = parse_u32_str(parts[1].as_str());
    match (a, b) {
        (Some(a), Some(b)) => Ok(Community(a, b)),
        _ => Err(ParseError::new(s.to_owned(), "invalid community".to_owned())),
    }
}

/// Parse a list of regular communities.
pub fn parse_communities(s: &str) -> (r: Result<Vec<Community>, ParseError>)
    ensures
        match r {
            Ok(cs) => spec_parse_communities(s@) == Some(cs@),
            Err(_) => spec_parse_communities(s@) is None,
        },
{
    proof {
        reveal_strlit(" ");
    }
    let v = chars_of(s);
    let t = crate::text::trim_range(&v, 0, v.len());
    proof {
        assert(v@.subrange(0, v@.len() as int) =~= v@);
    }
    let tv = chars_of(t.as_str());
    let toks = split_by(&tv, " ");
    let ghost ts = strings_view(toks@);
    let mut out: Vec<Community> = Vec::new();
    let mut i: usize = 0;
    while i < toks.len()
        invariant
            i <= toks@.len(),
            ts == strings_view(toks@),
            spec_parse_communities(s@) == comms_fold(ts, 0, Seq::empty()),
            comms_fold(ts, i as int, out@) == comms_fold(ts, 0, Seq::empty()),
        decreases toks@.len() - i,
    {
        proof {
            assert(ts[i as int] == toks@[i as int]@);
        }
        match parse_community(toks[i].as_str()) {
            Ok(c) => {
                out.push(c);
            },
            Err(e) => {
                return Err(e);
            },
        }
        i += 1;
    }
    Ok(out)
}

pub open spec fn large_fold(
    ts: Seq<(Seq<char>, Seq<char>, Seq<char>)>,
    i: int,
    acc: Seq<LargeCommunity>,
) -> Option<Seq<LargeCommunity>>
    decreases ts.len() - i,
{
    if !(0 <= i < ts.len()) {
        Some(acc)
    } else {
        match (spec_parse_u32(ts[i].0), spec_parse_u32(ts[i].1), spec_parse_u32(ts[i].2)) {
            (Some(a), Some(b), Some(c)) => large_fold(ts, i + 1, acc.push(LargeCommunity(a, b, c))),
            _ => None,
        }
    }
}

/// A list of large communities: every parenthesised tuple of the line,
/// each part a number.
pub open spec fn spec_parse_large_communities(s: Seq<char>) -> Option<Seq<LargeCommunity>> {
    large_fold(spec_tuples(s, 0), 0, Seq::empty())
}

/// Parse a list of large communities.
pub fn parse_large_communities(s: &str) -> (r: Result<Vec<LargeCommunity>, ParseError>)
    ensures
        match r {
            Ok(cs) => spec_parse_large_communities(s@) == Some(cs@),
            Err(_) => spec_parse_large_communities(s@) is None,
        },
{
    let v = chars_of(s);
    let ts = tuples_exec(&v);
    let ghost tsv = ts@.map_values(|t: (String, String, String)| (t.0@, t.1@, t.2@));
    let mut out: Vec<LargeCommunity> = Vec::new();
    let mut i: usize = 0;
    while i < ts.len()
        invariant
            i <= ts@.len(),
            tsv == ts@.map_values(|t: (String, String, String)| (t.0@, t.1@, t.2@)),
            spec_parse_large_communities(s@) == large_fold(tsv, 0, Seq::empty()),
            large_fold(tsv, i as int, out@) == large_fold(tsv, 0, Seq::empty()),
        decreases ts@.len() - i,
    {
        proof {
            assert(tsv[i as int] == (ts@[i as int].0@, ts@[i as int].1@, ts@[i as int].2@));
        }
        let a = parse_u32_str(ts[i].0.as_str());
        let b = parse_u32_str(ts[i].1.as_str());
        let c = parse_u32_str(ts[i].2.as_str());
        match (a, b, c) {
            (Some(a), Some(b), Some(c)) => {
                out.push(LargeCommunity(a, b, c));
            },
            _ => {
                return Err(ParseError::new(s.to_owned(), "invalid large community".to_owned()));
            },
        }
        i += 1;
    }
    Ok(out)
}

/// The extended communities of a line: every parenthesised tuple, its
/// parts kept as strings. Total.
pub open spec fn spec_parse_ext_communities(s: Seq<char>) -> Seq<(Seq<char>, Seq<char>, Seq<char>)> {
    spec_tuples(s, 0)
}

/// Parse a list of extended communities; never fails.
pub fn parse_ext_communities(s: &str) -> (r: Result<Vec<ExtCommunity>, ParseError>)
    ensures
        r matches Ok(cs) && ext_communities_view(cs@) == spec_parse_ext_communities(s@),
{
    let v = chars_of(s);
    let ts = tuples_exec(&v);
    let ghost tsv = ts@.map_values(|t: (String, String, String)| (t.0@, t.1@, t.2@));
    let mut out: Vec<ExtCommunity> = Vec::new();
    let mut i: usize = 0;
    proof {
        assert(ext_communities_view(out@) =~= tsv.subrange(0, 0));
    }
    while i < ts.len()
        invariant
            i <= ts@.len(),
            tsv == ts@.map_values(|t: (String, String, String)| (t.0@, t.1@, t.2@)),
            ext_communities_view(out@) == tsv.subrange(0, i as int),
        decreases ts@.len() - i,
    {
        proof {
            assert(tsv[i as int] == (ts@[i as int].0@, ts@[i as int].1@, ts@[i as int].2@));
        }
        let t = (ts[i].0.clone(), ts[i].1.clone(), ts[i].2.clone());
        let ghost old_out = out@;
        out.push(ExtCommunity(t.0, t.1, t.2));
        proof {
            assert(ext_communities_view(out@) =~= ext_communities_view(old_out).push(tsv[i as int]));
            assert(tsv.subrange(0, i as int).push(tsv[i as int]) =~= tsv.subrange(0, i as int + 1));
        }
        i += 1;
    }
    proof {
        assert(tsv.subrange(0, tsv.len() as int) =~= tsv);
    }
    Ok(out)
}

// --- route type and AS path ---

/// Split on single spaces (empty tokens kept, as the daemon never prints
/// them inside these values).
pub open spec fn spec_space_split(s: Seq<char>) -> Seq<Seq<char>> {
    spec_split(s, " "@, 0, 0)
}

/// Parse a route type value into its tokens.
pub fn parse_route_type(s: &str) -> (r: Vec<String>)
    ensures
        strings_view(r@) == spec_space_split(s@),
{
    proof {
        reveal_strlit(" ");
    }
    let v = chars_of(s);
    split_by(&v, " ")
}

/// Parse an AS path value into its tokens, kept as strings.
pub fn parse_as_path(s: &str) -> (r: Vec<String>)
    ensures
        strings_view(r@) == spec_space_split(s@),
{
    proof {
        reveal_strlit(" ");
    }
    let v = chars_of(s);
    split_by(&v, " ")
}

// --- the parser states ---

/// Which community list is being accumulated.
#[derive(Clone, Copy, PartialEq, Eq, Structural, Debug)]
pub enum BGPCommunities {
    Regular,
    Large,
    Extended,
}

/// Inside the BGP attributes: plain attributes, or a communities list that
/// may continue over several lines.
#[derive(Clone, Copy, PartialEq, Eq, Structural, Debug)]
pub enum BGPState {
    Attributes,
    Communities(BGPCommunities),
}

/// The route parser state.
#[derive(Clone, Copy, PartialEq, Eq, Structural, Debug)]
pub enum State {
    Start,
    Meta,
    BGP(BGPState),
}

// --- the per-line steps ---

/// Effect of a communities line (or continuation): everything after the
/// first colon of the lowercased, left-trimmed line is parsed as the
/// pending community kind and appended.
pub open spec fn spec_communities_line(
    b: BGPInfoView,
    ctype: BGPCommunities,
    l: Seq<char>,
) -> Option<BGPInfoView> {
    let t = l.skip(run_end(Cls::Space, l, 0));
    let low = lower(t);
    let body = match spec_find(low, ":"@, 0) {
        Some(ix) => low.skip(ix + 1),
        None => low,
    };
    match ctype {
        BGPCommunities::Regular => match spec_parse_communities(body) {
            Some(cs) => Some(BGPInfoView { communities: b.communities + cs, ..b }),
            None => None,
        },
        BGPCommunities::Large => match spec_parse_large_communities(body) {
            Some(cs) => Some(BGPInfoView { large_communities: b.large_communities + cs, ..b }),
            None => None,
        },
        BGPCommunities::Extended => Some(
            BGPInfoView {
                ext_communities: b.ext_communities + spec_parse_ext_communities(body),
                ..b
            },
        ),
    }
}

/// Effect of a line in the header state.
pub open spec fn spec_route_header_step(r: RouteView, l: Seq<char>) -> Option<(RouteView, State)> {
    match rh_capture(l, 0) {
        Some(h) => match spec_parse_u32(h.metric_digits) {
            Some(m) => Some(
                (
                    RouteView {
                        network: match h.prefix {
                            Some(p) => p,
                            None => r.network,
                        },
                        age: h.age,
                        primary: if h.primary {
                            true
                        } else {
                            r.primary
                        },
                        metric: m,
                        learnt_from: match h.learnt {
                            Some(x) => Some(x),
                            None => r.learnt_from,
                        },
                        neighbor_id: Some(h.neighbor),
                        ..r
                    },
                    State::Meta,
                ),
            ),
            None => None,
        },
        None => Some((r, State::Start)),
    }
}

/// Effect of a line in the meta state: gateway/interface, or the type.
pub open spec fn spec_route_meta_step(r: RouteView, l: Seq<char>) -> (RouteView, State) {
    match gw_capture(l) {
        Some(gi) => (
            RouteView {
                gateway: match gi.0 {
                    Some(x) => x,
                    None => r.gateway,
                },
                interface: gi.1,
                ..r
            },
            State::Meta,
        ),
        None => match kv_capture(l, 0, true) {
            Some(kv) => if kv.0 == "Type"@ {
                (RouteView { route_type: spec_space_split(kv.1), ..r }, State::BGP(
                    BGPState::Attributes,
                ))
            } else {
                (r, State::BGP(BGPState::Attributes))
            },
            None => (r, State::BGP(BGPState::Attributes)),
        },
    }
}

/// Effect of a line in the BGP attributes state.
pub open spec fn spec_route_bgp_step(r: RouteView, st: BGPState, l: Seq<char>) -> Option<
    (RouteView, State),
> {
    match kv_capture(l, 0, true) {
        Some(kv) => {
            let k = lower(kv.0);
            let v = kv.1;
            if !match_at(k, 0, "bgp"@) || k.len() < 4 {
                Some((r, State::BGP(BGPState::Attributes)))
            } else {
                let k4 = k.skip(4);
                if k4 == "origin"@ {
                    Some(
                        (
                            RouteView { bgp: BGPInfoView { origin: v, ..r.bgp }, ..r },
                            State::BGP(BGPState::Attributes),
                        ),
                    )
                } else if k4 == "as_path"@ || k4 == "path"@ {
                    Some(
                        (
                            RouteView {
                                bgp: BGPInfoView { as_path: spec_space_split(v), ..r.bgp },
                                ..r
                            },
                            State::BGP(BGPState::Attributes),
                        ),
                    )
                } else if k4 == "next_hop"@ {
                    Some(
                        (
                            RouteView { bgp: BGPInfoView { next_hop: v, ..r.bgp }, ..r },
                            State::BGP(BGPState::Attributes),
                        ),
                    )
                } else if k4 == "otc"@ {
                    Some(
                        (
                            RouteView { bgp: BGPInfoView { otc: Some(v), ..r.bgp }, ..r },
                            State::BGP(BGPState::Attributes),
                        ),
                    )
                } else if k4 == "med"@ {
                    Some(
                        (
                            RouteView { bgp: BGPInfoView { med: v, ..r.bgp }, ..r },
                            State::BGP(BGPState::Attributes),
                        ),
                    )
                } else if k4 == "local_pref"@ {
                    Some(
                        (
                            RouteView { bgp: BGPInfoView { local_pref: v, ..r.bgp }, ..r },
                            State::BGP(BGPState::Attributes),
                        ),
                    )
                } else if k4 == "community"@ {
                    match spec_communities_line(r.bgp, BGPCommunities::Regular, l) {
                        Some(b) => Some(
                            (
                                RouteView { bgp: b, ..r },
                                State::BGP(BGPState::Communities(BGPCommunities::Regular)),
                            ),
                        ),
                        None => None,
                    }
                } else if k4 == "large_community"@ {
                    match spec_communities_line(r.bgp, BGPCommunities::Large, l) {
                        Some(b) => Some(
                            (
                                RouteView { bgp: b, ..r },
                                State::BGP(BGPState::Communities(BGPCommunities::Large)),
                            ),
                        ),
                        None => None,
                    }
                } else if k4 == "ext_community"@ {
                    match spec_communities_line(r.bgp, BGPCommunities::Extended, l) {
                        Some(b) => Some(
                            (
                                RouteView { bgp: b, ..r },
                                State::BGP(BGPState::Communities(BGPCommunities::Extended)),
                            ),
                        ),
                        None => None,
                    }
                } else {
                    Some((r, State::BGP(BGPState::Attributes)))
                }
            }
        },
        None => match st {
            BGPState::Communities(ct) => match spec_communities_line(r.bgp, ct, l) {
                Some(b) => Some((RouteView { bgp: b, ..r }, State::BGP(BGPState::Communities(ct)))),
                None => None,
            },
            BGPState::Attributes => Some((r, State::BGP(BGPState::Attributes))),
        },
    }
}

/// Effect of one line, dispatched on the route parser state.
pub open spec fn spec_route_line(r: RouteView, st: State, l: Seq<char>) -> Option<
    (RouteView, State),
> {
    match st {
        State::Start => spec_route_header_step(r, l),
        State::Meta => Some(spec_route_meta_step(r, l)),
        State::BGP(b) => spec_route_bgp_step(r, b, l),
    }
}

pub open spec fn spec_route_fold(lines: Seq<Seq<char>>, i: int, r: RouteView, st: State) -> Option<
    (RouteView, State),
>
    decreases lines.len() - i,
{
    if !(0 <= i < lines.len()) {
        Some((r, st))
    } else {
        match spec_route_line(r, st, lines[i]) {
            Some(next) => spec_route_fold(lines, i + 1, next.0, next.1),
            None => None,
        }
    }
}

/// What one route block parses to, when it parses.
pub open spec fn spec_parse_route(lines: Seq<Seq<char>>) -> Option<RouteView> {
    match spec_route_fold(lines, 0, RouteView::init(), State::Start) {
        Some(r) => Some(r.0),
        None => None,
    }
}

// --- the exec steps ---

fn communities_line(bgp: &mut crate::bird::BGPInfo, ctype: BGPCommunities, line: &str) -> (r:
    Result<(), ParseError>)
    ensures
        match r {
            Ok(_) => spec_communities_line(old(bgp)@, ctype, line@) == Some(final(bgp)@),
            Err(_) => spec_communities_line(old(bgp)@, ctype, line@) is None,
        },
{
    proof {
        reveal_strlit(":");
    }
    let v = chars_of(line);
    let t0 = run_end_exec(Cls::Space, &v, 0);
    let low = lower_range(&v, t0, v.len());
    proof {
        assert(v@.subrange(t0 as int, v@.len() as int) =~= v@.skip(run_end(Cls::Space, v@, 0)));
    }
    let lv = chars_of(low.as_str());
    let body = match find_exec(&lv, ":", 0) {
        Some(ix) => {
            proof {
                lemma_spec_find_props(lv@, ":"@, 0);
            }
            let b = string_range(&lv, ix + 1, lv.len());
            proof {
                assert(lv@.subrange(ix + 1, lv@.len() as int) =~= lv@.skip(ix + 1));
            }
            b
        },
        None => low,
    };
    match ctype {
        BGPCommunities::Regular => match parse_communities(body.as_str()) {
            Ok(mut cs) => {
                bgp.communities.append(&mut cs);
                Ok(())
            },
            Err(e) => Err(e),
        },
        BGPCommunities::Large => match parse_large_communities(body.as_str()) {
            Ok(mut cs) => {
                bgp.large_communities.append(&mut cs);
                Ok(())
            },
            Err(e) => Err(e),
        },
        BGPCommunities::Extended => match parse_ext_communities(body.as_str()) {
            Ok(mut cs) => {
                let ghost old_ext = ext_communities_view(bgp.ext_communities@);
                bgp.ext_communities.append(&mut cs);
                proof {
                    assert(ext_communities_view(bgp.ext_communities@) =~= old_ext
                        + spec_parse_ext_communities(body@));
                }
                Ok(())
            },
            Err(e) => Err(e),
        },
    }
}

/// Parse the route header line.
pub fn parse_route_header(route: &mut Route, line: &str) -> (r: Result<State, ParseError>)
    ensures
        match r {
            Ok(st) => spec_route_header_step(old(route)@, line@) == Some((final(route)@, st)),
            Err(_) => spec_route_header_step(old(route)@, line@) is None,
        },
{
    let v = chars_of(line);
    match route_header(&v) {
        Some(h) => {
            match parse_u32_str(h.metric_digits.as_str()) {
                Some(m) => {
                    match h.prefix {
                        Some(p) => {
                            route.network = p;
                        },
                        None => {},
                    }
                    route.age = h.age;
                    if h.primary {
                        route.primary = true;
                    }
                    route.metric = m;
                    match h.learnt {
                        Some(x) => {
                            route.learnt_from = Some(x);
                        },
                        None => {},
                    }
                    route.neighbor_id = Some(h.neighbor);
                    Ok(State::Meta)
                },
                None => Err(ParseError::new(line.to_owned(), "invalid metric".to_owned())),
            }
        },
        None => Ok(State::Start),
    }
}

/// Parse a route meta line (gateway/interface or type).
pub fn parse_route_meta(route: &mut Route, line: &str) -> (r: Result<State, ParseError>)
    ensures
        r matches Ok(st) && spec_route_meta_step(old(route)@, line@) == (final(route)@, st),
{
    let v = chars_of(line);
    match gateway_interface(&v) {
        Some(gi) => {
            match gi.0 {
                Some(g) => {
                    route.gateway = g;
                },
                None => {},
            }
            route.interface = gi.1;
            Ok(State::Meta)
        },
        None => {
            match crate::parsers::protocols::key_value(&v, true) {
                Some(kv) => {
                    if str_eq(kv.0.as_str(), "Type") {
                        route.route_type = parse_route_type(kv.1.as_str());
                    }
                    Ok(State::BGP(BGPState::Attributes))
                },
                None => Ok(State::BGP(BGPState::Attributes)),
            }
        },
    }
}

/// Parse a BGP attribute line.
pub fn parse_route_bgp(route: &mut Route, state: BGPState, line: &str) -> (r: Result<
    State,
    ParseError,
>)
    ensures
        match r {
            Ok(st) => spec_route_bgp_step(old(route)@, state, line@) == Some((final(route)@, st)),
            Err(_) => spec_route_bgp_step(old(route)@, state, line@) is None,
        },
{
    proof {
        reveal_strlit("bgp");
    }
    let v = chars_of(line);
    match crate::parsers::protocols::key_value(&v, true) {
        Some(kv) => {
            let k = lower_str(kv.0.as_str());
            let kc = chars_of(k.as_str());
            if !match_at_exec(&kc, 0, "bgp") || kc.len() < 4 {
                return Ok(State::BGP(BGPState::Attributes));
            }
            let k4 = string_range(&kc, 4, kc.len());
            proof {
                assert(kc@.subrange(4, kc@.len() as int) =~= lower(kv.0@).skip(4));
            }
            let val = kv.1;
            if str_eq(k4.as_str(), "origin") {
                route.bgp.origin = val;
                Ok(State::BGP(BGPState::Attributes))
            } else if str_eq(k4.as_str(), "as_path") || str_eq(k4.as_str(), "path") {
                route.bgp.as_path = parse_as_path(val.as_str());
                Ok(State::BGP(BGPState::Attributes))
            } else if str_eq(k4.as_str(), "next_hop") {
                route.bgp.next_hop = val;
                Ok(State::BGP(BGPState::Attributes))
            } else if str_eq(k4.as_str(), "otc") {
                route.bgp.otc = Some(val);
                Ok(State::BGP(BGPState::Attributes))
            } else if str_eq(k4.as_str(), "med") {
                route.bgp.med = val;
                Ok(State::BGP(BGPState::Attributes))
            } else if str_eq(k4.as_str(), "local_pref") {
                route.bgp.local_pref = val;
                Ok(State::BGP(BGPState::Attributes))
            } else if str_eq(k4.as_str(), "community") {
                match communities_line(&mut route.bgp, BGPCommunities::Regular, line) {
                    Ok(_) => Ok(State::BGP(BGPState::Communities(BGPCommunities::Regular))),
                    Err(e) => Err(e),
                }
            } else if str_eq(k4.as_str(), "large_community") {
                match communities_line(&mut route.bgp, BGPCommunities::Large, line) {
                    Ok(_) => Ok(State::BGP(BGPState::Communities(BGPCommunities::Large))),
                    Err(e) => Err(e),
                }
            } else if str_eq(k4.as_str(), "ext_community") {
                match communities_line(&mut route.bgp, BGPCommunities::Extended, line) {
                    Ok(_) => Ok(State::BGP(BGPState::Communities(BGPCommunities::Extended))),
                    Err(e) => Err(e),
                }
            } else {
                Ok(State::BGP(BGPState::Attributes))
            }
        },
        None => {
            match state {
                BGPState::Communities(ct) => {
                    match communities_line(&mut route.bgp, ct, line) {
                        Ok(_) => Ok(State::BGP(BGPState::Communities(ct))),
                        Err(e) => Err(e),
                    }
                },
                BGPState::Attributes => Ok(State::BGP(BGPState::Attributes)),
            }
        },
    }
}

/// Parse one line, dispatching on the route parser state.
pub fn parse_line(route: &mut Route, state: State, line: &str) -> (r: Result<State, ParseError>)
    ensures
        match r {
            Ok(st) => spec_route_line(old(route)@, state, line@) == Some((final(route)@, st)),
            Err(_) => spec_route_line(old(route)@, state, line@) is None,
        },
{
    match state {
        State::Start => parse_route_header(route, line),
        State::Meta => parse_route_meta(route, line),
        State::BGP(b) => parse_route_bgp(route, b, line),
    }
}

impl Route {
    /// Parse one route block: fold the lines through the state machine
    /// from an empty record. Fails exactly when a metric or a community
    /// list carries a malformed number.
    pub fn parse(block: &Block) -> (r: Result<Route, ParseError>)
        ensures
            match r {
                Ok(rt) => spec_parse_route(lines_view(block@)) == Some(rt@),
                Err(_) => spec_parse_route(lines_view(block@)) is None,
            },
    {
        let ghost ls = lines_view(block@);
        let mut route = Route::empty();
        let mut state = State::Start;
        let mut i: usize = 0;
        while i < block.len()
            invariant
                i <= block@.len(),
                ls == lines_view(block@),
                spec_route_fold(ls, i as int, route@, state) == spec_route_fold(
                    ls,
                    0,
                    RouteView::init(),
                    State::Start,
                ),
            decreases block@.len() - i,
        {
            proof {
                assert(ls[i as int] == block@[i as int]@);
            }
            match parse_line(&mut route, state, block[i].as_str()) {
                Ok(st) => {
                    state = st;
                },
                Err(e) => {
                    return Err(e);
                },
            }
            i += 1;
        }
        Ok(route)
    }
}

// --- prefix groups ---

/// A routes group that shares one prefix: the lead route names it, the
/// following routes inherit it.
pub type PrefixGroup = Vec<Route>;

/// The inner marker that separates routes within a prefix group block.
pub open spec fn route_marker_view() -> crate::framer::MarkerView {
    crate::framer::MarkerView { token: "1007-"@, follow: Follow::Anything }
}

/// Folding the sub-blocks of a prefix group: blocks that restate the
/// greeting code are skipped, an empty network inherits the rolling
/// prefix, and routes without a neighbor id are dropped.
pub open spec fn group_fold(
    blocks: Seq<Seq<Seq<char>>>,
    i: int,
    prefix: Seq<char>,
    acc: Seq<RouteView>,
) -> Option<Seq<RouteView>>
    decreases blocks.len() - i,
{
    if !(0 <= i < blocks.len()) {
        Some(acc)
    } else {
        let b = blocks[i];
        if b.len() > 0 && match_at(b[0], 0, "0001"@) {
            group_fold(blocks, i + 1, prefix, acc)
        } else {
            match spec_parse_route(b) {
                None => None,
                Some(r) => {
                    let r2 = if r.network.len() == 0 {
                        RouteView { network: prefix, ..r }
                    } else {
                        r
                    };
                    let prefix2 = if r.network.len() == 0 {
                        prefix
                    } else {
                        r.network
                    };
                    if r2.neighbor_id is None {
                        group_fold(blocks, i + 1, prefix2, acc)
                    } else {
                        group_fold(blocks, i + 1, prefix2, acc.push(r2))
                    }
                },
            }
        }
    }
}

/// What a whole prefix-group block parses to.
pub open spec fn spec_prefix_group(lines: Seq<Seq<char>>) -> Option<Seq<RouteView>> {
    group_fold(
        crate::framer::spec_group_blocks(lines, route_marker_view(), 0, Seq::empty()),
        0,
        Seq::empty(),
        Seq::empty(),
    )
}

/// Parse a prefix-group block into its routes.
pub fn parse_prefix_group(block: &Block) -> (r: Result<PrefixGroup, ParseError>)
    ensures
        match r {
            Ok(routes) => spec_prefix_group(lines_view(block@)) == Some(routes_view(routes@)),
            Err(_) => spec_prefix_group(lines_view(block@)) is None,
        },
{
    proof {
        reveal_strlit("1007-");
        reveal_strlit("0001");
    }
    let marker = Marker::new("1007-", Follow::Anything);
    let blocks = split_group(block, &marker);
    let ghost bs = blocks_view(blocks@);
    let mut routes: Vec<Route> = Vec::new();
    let mut prefix = String::new();
    let mut i: usize = 0;
    proof {
        assert(routes_view(routes@) =~= Seq::<RouteView>::empty());
    }
    while i < blocks.len()
        invariant
            i <= blocks@.len(),
            bs == blocks_view(blocks@),
            spec_prefix_group(lines_view(block@)) == group_fold(bs, 0, Seq::empty(), Seq::empty()),
            group_fold(bs, i as int, prefix@, routes_view(routes@)) == group_fold(
                bs,
                0,
                Seq::empty(),
                Seq::empty(),
            ),
        decreases blocks@.len() - i,
    {
        proof {
            assert(bs[i as int] == lines_view(blocks@[i as int]@));
        }
        let b = &blocks[i];
        let skip_block = if b.len() > 0 {
            let l0 = chars_of(b[0].as_str());
            proof {
                assert(lines_view(b@)[0] == b@[0]@);
            }
            match_at_exec(&l0, 0, "0001")
        } else {
            false
        };
        if !skip_block {
            match Route::parse(b) {
                Ok(mut route) => {
                    if route.network.as_str().unicode_len() == 0 {
                        proof {
                            assert(route.network@.len() == 0);
                        }
                        route.network = prefix.clone();
                    } else {
                        prefix = route.network.clone();
                    }
                    if route.neighbor_id.is_some() {
                        let ghost old_routes = routes@;
                        let ghost rv = route@;
                        routes.push(route);
                        proof {
                            assert(routes_view(routes@) =~= routes_view(old_routes).push(rv));
                        }
                    }
                },
                Err(e) => {
                    return Err(e);
                },
            }
        }
        i += 1;
    }
    Ok(routes)
}

// --- laws of the emitted routes ---

/// Every route a prefix group emits carries a neighbor id.
pub proof fn lemma_group_routes_have_neighbor(
    blocks: Seq<Seq<Seq<char>>>,
    i: int,
    prefix: Seq<char>,
    acc: Seq<RouteView>,
)
    requires
        forall|j: int| 0 <= j < acc.len() ==> (#[trigger] acc[j].neighbor_id) is Some,
        group_fold(blocks, i, prefix, acc) is Some,
    ensures
        forall|j: int|
            0 <= j < group_fold(blocks, i, prefix, acc).unwrap().len() ==> (#[trigger] group_fold(
                blocks,
                i,
                prefix,
                acc,
            ).unwrap()[j].neighbor_id) is Some,
    decreases blocks.len() - i,
{
    if 0 <= i < blocks.len() {
        let b = blocks[i];
        if b.len() > 0 && match_at(b[0], 0, "0001"@) {
            lemma_group_routes_have_neighbor(blocks, i + 1, prefix, acc);
        } else {
            match spec_parse_route(b) {
                None => {},
                Some(r) => {
                    let r2 = if r.network.len() == 0 {
                        RouteView { network: prefix, ..r }
                    } else {
                        r
                    };
                    let prefix2 = if r.network.len() == 0 {
                        prefix
                    } else {
                        r.network
                    };
                    if r2.neighbor_id is None {
                        lemma_group_routes_have_neighbor(blocks, i + 1, prefix2, acc);
                    } else {
                        assert(forall|j: int|
                            0 <= j < acc.push(r2).len() ==> (#[trigger] acc.push(
                                r2,
                            )[j].neighbor_id) is Some);
                        lemma_group_routes_have_neighbor(blocks, i + 1, prefix2, acc.push(r2));
                    }
                },
            }
        }
    }
}

/// Every route a prefix group emits carries a neighbor id: the public
/// form, over a whole parsed block.
pub proof fn lemma_prefix_group_neighbor_present(lines: Seq<Seq<char>>)
    requires
        spec_prefix_group(lines) is Some,
    ensures
        forall|j: int|
            0 <= j < spec_prefix_group(lines).unwrap().len() ==> (#[trigger] spec_prefix_group(
                lines,
            ).unwrap()[j].neighbor_id) is Some,
{
    let blocks = crate::framer::spec_group_blocks(lines, route_marker_view(), 0, Seq::empty());
    lemma_group_routes_have_neighbor(blocks, 0, Seq::empty(), Seq::empty());
}

/// In a well-formed prefix group — the sub-blocks all parse, none restates
/// the greeting code, the lead route names a non-empty network and every
/// later route leaves it empty — every emitted route carries the lead
/// route's network.
pub proof fn lemma_group_prefix_inherited(
    blocks: Seq<Seq<Seq<char>>>,
    i: int,
    prefix: Seq<char>,
    acc: Seq<RouteView>,
)
    requires
        0 <= i <= blocks.len(),
        prefix.len() > 0,
        forall|j: int| 0 <= j < acc.len() ==> (#[trigger] acc[j].network) == prefix,
        forall|j: int|
            i <= j < blocks.len() ==> !(blocks[j].len() > 0 && match_at(
                #[trigger] blocks[j][0],
                0,
                "0001"@,
            )),
        forall|j: int| i <= j < blocks.len() ==> (#[trigger] spec_parse_route(blocks[j])) is Some,
        forall|j: int|
            i <= j < blocks.len() ==> (#[trigger] spec_parse_route(
                blocks[j],
            )).unwrap().network.len() == 0,
    ensures
        group_fold(blocks, i, prefix, acc) is Some,
        forall|j: int|
            0 <= j < group_fold(blocks, i, prefix, acc).unwrap().len() ==> (#[trigger] group_fold(
                blocks,
                i,
                prefix,
                acc,
            ).unwrap()[j].network) == prefix,
    decreases blocks.len() - i,
{
    if i < blocks.len() {
        let r = spec_parse_route(blocks[i]).unwrap();
        let r2 = RouteView { network: prefix, ..r };
        if r2.neighbor_id is None {
            lemma_group_prefix_inherited(blocks, i + 1, prefix, acc);
        } else {
            assert(forall|j: int|
                0 <= j < acc.push(r2).len() ==> (#[trigger] acc.push(r2)[j].network) == prefix);
            lemma_group_prefix_inherited(blocks, i + 1, prefix, acc.push(r2));
        }
    }
}

// --- the routes cutoff ---

/// Collecting route groups under a soft cutoff: groups are appended in
/// order until the collected count reaches the cutoff, where collection
/// stops (the group that crossed the bound is kept whole).
pub open spec fn cutoff_fold(
    gs: Seq<Seq<Route>>,
    i: int,
    acc: Seq<Route>,
    cutoff: Option<usize>,
) -> Seq<Route>
    decreases gs.len() - i,
{
    if !(0 <= i < gs.len()) {
        acc
    } else {
        let acc2 = acc + gs[i];
        if cutoff matches Some(n) && acc2.len() >= n {
            acc2
        } else {
            cutoff_fold(gs, i + 1, acc2, cutoff)
        }
    }
}

/// Append one parsed group to the collected routes; report whether the
/// cutoff has been reached and collection should stop.
pub fn extend_routes_with_cutoff(routes: &mut Vec<Route>, group: Vec<Route>, cutoff: Option<
    usize,
>) -> (stop: bool)
    ensures
        final(routes)@ == old(routes)@ + group@,
        stop == (cutoff matches Some(n) && final(routes)@.len() >= n),
{
    let ghost old_routes = routes@;
    let mut g = group;
    routes.append(&mut g);
    match cutoff {
        Some(n) => routes.len() >= n,
        None => false,
    }
}

/// Collect route groups under a soft cutoff.
pub fn collect_with_cutoff(groups: Vec<Vec<Route>>, cutoff: Option<usize>) -> (r: Vec<Route>)
    ensures
        r@ == cutoff_fold(groups@.map_values(|g: Vec<Route>| g@), 0, Seq::empty(), cutoff),
{
    let ghost gs = groups@.map_values(|g: Vec<Route>| g@);
    let mut rest = groups;
    let n0 = rest.len();
    let mut out: Vec<Route> = Vec::new();
    let mut i: usize = 0;
    proof {
        assert(rest@.map_values(|g: Vec<Route>| g@) =~= gs.skip(0));
    }
    while rest.len() > 0
        invariant
            i + rest@.len() == gs.len(),
            gs.len() == n0,
            gs == groups@.map_values(|g: Vec<Route>| g@),
            rest@.map_values(|g: Vec<Route>| g@) == gs.skip(i as int),
            cutoff_fold(gs, i as int, out@, cutoff) == cutoff_fold(gs, 0, Seq::empty(), cutoff),
        decreases rest@.len(),
    {
        let ghost old_groups = rest@;
        let g = rest.remove(0);
        proof {
            assert(old_groups.map_values(|g: Vec<Route>| g@)[0] == old_groups[0]@);
            assert(gs.skip(i as int)[0] == gs[i as int]);
            assert(g@ == gs[i as int]);
            let cur = rest@.map_values(|g: Vec<Route>| g@);
            assert forall|m: int| 0 <= m < cur.len() implies cur[m] == gs.skip(i as int + 1)[m] by {
                assert(cur[m] == rest@[m]@);
                assert(rest@[m] == old_groups[m + 1]);
                assert(old_groups.map_values(|g: Vec<Route>| g@)[m + 1] == old_groups[m + 1]@);
                assert(gs.skip(i as int)[m + 1] == gs[i + 1 + m]);
            }
            assert(cur =~= gs.skip(i as int + 1));
        }
        let ghost pre = out@;
        let stop = extend_routes_with_cutoff(&mut out, g, cutoff);
        if stop {
            proof {
                assert(out@ == pre + gs[i as int]);
                assert(cutoff_fold(gs, i as int, pre, cutoff) == out@);
            }
            return out;
        }
        i += 1;
    }
    out
}

/// The cutoff bound: when a cutoff of `n` is set and every group holds at
/// most `g_max` routes, collection stops with fewer than `n + g_max`
/// routes.
pub proof fn lemma_cutoff_bound(
    gs: Seq<Seq<Route>>,
    i: int,
    acc: Seq<Route>,
    n: usize,
    g_max: int,
)
    requires
        0 <= i <= gs.len(),
        0 <= g_max,
        acc.len() < n,
        forall|j: int| 0 <= j < gs.len() ==> (#[trigger] gs[j]).len() <= g_max,
    ensures
        cutoff_fold(gs, i, acc, Some(n)).len() < n + g_max,
    decreases gs.len() - i,
{
    if i < gs.len() {
        let acc2 = acc + gs[i];
        if !(acc2.len() >= n) {
            lemma_cutoff_bound(gs, i + 1, acc2, n, g_max);
        }
    }
}

/// Parsing is deterministic: one block parses to at most one route, so two
/// parses of the same block yield equal records.
pub proof fn lemma_route_parse_deterministic(lines: Seq<Seq<char>>, a: RouteView, b: RouteView)
    requires
        spec_parse_route(lines) == Some(a),
        spec_parse_route(lines) == Some(b),
    ensures
        a == b,
{
}

/// The prefix-inheritance law over a whole parsed block: when every
/// sub-block parses, none restates the greeting code, the lead route names
/// a non-empty network and every later route leaves its network empty,
/// the group parses and every emitted route carries the lead network.
pub proof fn lemma_prefix_group_network(lines: Seq<Seq<char>>)
    requires
        ({
            let blocks = crate::framer::spec_group_blocks(lines, route_marker_view(), 0, Seq::empty());
            &&& blocks.len() >= 1
            &&& forall|j: int|
                0 <= j < blocks.len() ==> !(blocks[j].len() > 0 && match_at(
                    #[trigger] blocks[j][0],
                    0,
                    "0001"@,
                ))
            &&& forall|j: int| 0 <= j < blocks.len() ==> (#[trigger] spec_parse_route(blocks[j])) is Some
            &&& spec_parse_route(blocks[0]).unwrap().network.len() > 0
            &&& forall|j: int|
                1 <= j < blocks.len() ==> (#[trigger] spec_parse_route(
                    blocks[j],
                )).unwrap().network.len() == 0
        }),
    ensures
        spec_prefix_group(lines) is Some,
        ({
            let blocks = crate::framer::spec_group_blocks(lines, route_marker_view(), 0, Seq::empty());
            let lead = spec_parse_route(blocks[0]).unwrap().network;
            forall|j: int|
                0 <= j < spec_prefix_group(lines).unwrap().len() ==> (#[trigger] spec_prefix_group(
                    lines,
                ).unwrap()[j].network) == lead
        }),
{
    let blocks = crate::framer::spec_group_blocks(lines, route_marker_view(), 0, Seq::empty());
    let r0 = spec_parse_route(blocks[0]).unwrap();
    let lead = r0.network;
    if r0.neighbor_id is None {
        assert(group_fold(blocks, 0, Seq::empty(), Seq::empty()) == group_fold(
            blocks,
            1,
            lead,
            Seq::empty(),
        ));
        lemma_group_prefix_inherited(blocks, 1, lead, Seq::empty());
    } else {
        let acc = Seq::empty().push(r0);
        assert(group_fold(blocks, 0, Seq::empty(), Seq::empty()) == group_fold(blocks, 1, lead, acc));
        assert(forall|j: int| 0 <= j < acc.len() ==> (#[trigger] acc[j].network) == lead);
        lemma_group_prefix_inherited(blocks, 1, lead, acc);
    }
}

} // verus!
