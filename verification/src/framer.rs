//! The block framer: turns a sequence of daemon lines into blocks. A block
//! runs from one start-marker match up to (but excluding) the next; a line
//! beginning with `0000` or `9001` ends the stream; an optional stop marker
//! ends the current block inclusively.

use vstd::prelude::*;

use crate::text::{chars_of, is_space, match_at, match_at_exec};

verus! {

/// A block is the ordered list of raw lines between two record starts.
pub type Block = Vec<String>;

pub open spec fn lines_view(ls: Seq<String>) -> Seq<Seq<char>> {
    ls.map_values(|l: String| l@)
}

pub open spec fn blocks_view(bs: Seq<Vec<String>>) -> Seq<Seq<Seq<char>>> {
    bs.map_values(|b: Vec<String>| lines_view(b@))
}

/// What must follow the token for a marker to match.
#[derive(Clone, Copy)]
pub enum Follow {
    /// Nothing is required after the token.
    Anything,
    /// The token must be followed by a non-whitespace character.
    NonSpace,
    /// The token must be followed by a whitespace character.
    Space,
}

/// A line marker: a literal token, plus a requirement on the character
/// after it. The start and stop conditions of the framer are markers.
pub struct Marker {
    pub token: String,
    pub follow: Follow,
}

pub struct MarkerView {
    pub token: Seq<char>,
    pub follow: Follow,
}

impl View for Marker {
    type V = MarkerView;

    open spec fn view(&self) -> MarkerView {
        MarkerView { token: self.token@, follow: self.follow }
    }
}

pub open spec fn follow_ok(f: Follow, line: Seq<char>, j: int) -> bool {
    match f {
        Follow::Anything => true,
        Follow::NonSpace => j < line.len() && !is_space(line[j]),
        Follow::Space => j < line.len() && is_space(line[j]),
    }
}

pub open spec fn marker_matches_from(m: MarkerView, line: Seq<char>, i: int) -> bool
    decreases line.len() + 1 - i,
{
    if !(0 <= i && i + m.token.len() <= line.len()) {
        false
    } else if match_at(line, i, m.token) && follow_ok(m.follow, line, i + m.token.len()) {
        true
    } else {
        marker_matches_from(m, line, i + 1)
    }
}

/// The marker matches the line anywhere.
pub open spec fn marker_matches(m: MarkerView, line: Seq<char>) -> bool {
    marker_matches_from(m, line, 0)
}

impl Marker {
    pub open spec fn wf(&self) -> bool {
        self@.token.len() >= 1
    }

    pub fn new(token: &str, follow: Follow) -> (r: Marker)
        requires
            token@.len() >= 1,
        ensures
            r@ == (MarkerView { token: token@, follow }),
            r.wf(),
    {
        Marker { token: token.to_owned(), follow }
    }

    pub fn matches(&self, line: &Vec<char>) -> (r: bool)
        requires
            self.wf(),
        ensures
            r == marker_matches(self@, line@),
    {
        let tlen = self.token.as_str().unicode_len();
        let llen = line.len();
        let mut i: usize = 0;
        loop
            invariant
                self.wf(),
                tlen == self@.token.len(),
                llen == line@.len(),
                0 <= i,
                marker_matches(self@, line@) == marker_matches_from(self@, line@, i as int),
            decreases llen + 1 - i,
        {
            if i > llen || llen - i < tlen {
                return false;
            }
            if match_at_exec(line, i, self.token.as_str()) {
                let j = i + tlen;
                let ok = match self.follow {
                    Follow::Anything => true,
                    Follow::NonSpace => j < llen && !crate::text::class_test(
                        crate::text::Cls::Space,
                        line[j],
                    ),
                    Follow::Space => j < llen && crate::text::class_test(
                        crate::text::Cls::Space,
                        line[j],
                    ),
                };
                if ok {
                    return true;
                }
            }
            i += 1;
        }
    }
}

pub open spec fn stop_matches(stop: Option<MarkerView>, l: Seq<char>) -> bool {
    match stop {
        Some(m) => marker_matches(m, l),
        None => false,
    }
}

/// A line that terminates the stream: the daemon's end-of-reply code
/// `0000`, or its error code `9001`.
pub open spec fn ends_stream(l: Seq<char>) -> bool {
    match_at(l, 0, "0000"@) || match_at(l, 0, "9001"@)
}

/// The blocks framed from `lines`, scanning from line `i` with the lines
/// of the unfinished block in `cur`. A stream terminator discards the
/// unfinished block and everything after it; a stop match ends the block
/// inclusively; a start match or the end-of-reply code on the next line
/// ends it exclusively.
pub open spec fn spec_blocks(
    lines: Seq<Seq<char>>,
    start: MarkerView,
    stop: Option<MarkerView>,
    i: int,
    cur: Seq<Seq<char>>,
) -> Seq<Seq<Seq<char>>>
    decreases lines.len() - i,
{
    if !(0 <= i < lines.len()) {
        if cur.len() == 0 {
            Seq::empty()
        } else {
            seq![cur]
        }
    } else {
        let l = lines[i];
        if ends_stream(l) {
            Seq::empty()
        } else {
            let cur2 = cur.push(l);
            if stop_matches(stop, l) {
                seq![cur2] + spec_blocks(lines, start, stop, i + 1, Seq::empty())
            } else if i + 1 < lines.len() && (marker_matches(start, lines[i + 1]) || match_at(
                lines[i + 1],
                0,
                "0000"@,
            )) {
                seq![cur2] + spec_blocks(lines, start, stop, i + 1, Seq::empty())
            } else {
                spec_blocks(lines, start, stop, i + 1, cur2)
            }
        }
    }
}

/// Frame `lines` into blocks using a start marker and an optional stop
/// marker.
pub fn split_blocks(lines: &Vec<String>, start: &Marker, stop: Option<&Marker>) -> (blocks: Vec<
    Block,
>)
    requires
        start.wf(),
        match stop {
            Some(m) => m.wf(),
            None => true,
        },
    ensures
        blocks_view(blocks@) == spec_blocks(
            lines_view(lines@),
            start@,
            match stop {
                Some(m) => Some(m@),
                None => None,
            },
            0,
            Seq::empty(),
        ),
{
    let ghost ls = lines_view(lines@);
    let ghost stopv: Option<MarkerView> = match stop {
        Some(m) => Some(m@),
        None => None,
    };
    let mut out: Vec<Block> = Vec::new();
    let mut cur: Vec<String> = Vec::new();
    let mut i: usize = 0;
    proof {
        assert(blocks_view(out@) =~= Seq::<Seq<Seq<char>>>::empty());
        assert(lines_view(cur@) =~= Seq::<Seq<char>>::empty());
    }
    while i < lines.len()
        invariant
            i <= lines@.len(),
            ls == lines_view(lines@),
            stopv == match stop {
                Some(m) => Some(m@),
                None => None,
            },
            start.wf(),
            match stop {
                Some(m) => m.wf(),
                None => true,
            },
            blocks_view(out@) + spec_blocks(ls, start@, stopv, i as int, lines_view(cur@))
                =~= spec_blocks(ls, start@, stopv, 0, Seq::empty()),
        decreases lines@.len() - i,
    {
        let lv = chars_of(lines[i].as_str());
        proof {
            assert(ls[i as int] == lines@[i as int]@);
        }
        if match_at_exec(&lv, 0, "0000") || match_at_exec(&lv, 0, "9001") {
            proof {
                assert(spec_blocks(ls, start@, stopv, i as int, lines_view(cur@))
                    =~= Seq::<Seq<Seq<char>>>::empty());
            }
            return out;
        }
        let ghost old_cur = cur@;
        cur.push(lines[i].clone());
        proof {
            assert(lines_view(cur@) =~= lines_view(old_cur).push(ls[i as int]));
        }
        let stop_hit = match stop {
            Some(m) => m.matches(&lv),
            None => false,
        };
        let flush = if stop_hit {
            true
        } else if i + 1 < lines.len() {
            let nl = chars_of(lines[i + 1].as_str());
            proof {
                assert(ls[i as int + 1] == lines@[i as int + 1]@);
            }
            start.matches(&nl) || match_at_exec(&nl, 0, "0000")
        } else {
            false
        };
        if flush {
            let finished = cur;
            cur = Vec::new();
            let ghost old_out = out@;
            out.push(finished);
            proof {
                assert(lines_view(cur@) =~= Seq::<Seq<char>>::empty());
                assert(blocks_view(out@) =~= blocks_view(old_out).push(lines_view(finished@)));
            }
        }
        i += 1;
    }
    if cur.len() > 0 {
        let finished = cur;
        let ghost old_out = out@;
        out.push(finished);
        proof {
            assert(blocks_view(out@) =~= blocks_view(old_out).push(lines_view(finished@)));
            assert(lines_view(finished@).len() > 0);
        }
    }
    out
}

/// The blocks of an already-framed block, split again at an inner start
/// marker: same mechanic as the framer but with no terminators and no stop.
pub open spec fn spec_group_blocks(
    lines: Seq<Seq<char>>,
    start: MarkerView,
    i: int,
    cur: Seq<Seq<char>>,
) -> Seq<Seq<Seq<char>>>
    decreases lines.len() - i,
{
    if !(0 <= i < lines.len()) {
        if cur.len() == 0 {
            Seq::empty()
        } else {
            seq![cur]
        }
    } else {
        let cur2 = cur.push(lines[i]);
        if i + 1 < lines.len() && marker_matches(start, lines[i + 1]) {
            seq![cur2] + spec_group_blocks(lines, start, i + 1, Seq::empty())
        } else {
            spec_group_blocks(lines, start, i + 1, cur2)
        }
    }
}

/// Split one block into sub-blocks at an inner start marker.
pub fn split_group(block: &Block, start: &Marker) -> (blocks: Vec<Block>)
    requires
        start.wf(),
    ensures
        blocks_view(blocks@) == spec_group_blocks(lines_view(block@), start@, 0, Seq::empty()),
{
    let ghost ls = lines_view(block@);
    let mut out: Vec<Block> = Vec::new();
    let mut cur: Vec<String> = Vec::new();
    let mut i: usize = 0;
    proof {
        assert(blocks_view(out@) =~= Seq::<Seq<Seq<char>>>::empty());
        assert(lines_view(cur@) =~= Seq::<Seq<char>>::empty());
    }
    while i < block.len()
        invariant
            i <= block@.len(),
            ls == lines_view(block@),
            start.wf(),
            blocks_view(out@) + spec_group_blocks(ls, start@, i as int, lines_view(cur@))
                =~= spec_group_blocks(ls, start@, 0, Seq::empty()),
        decreases block@.len() - i,
    {
        let ghost old_cur = cur@;
        cur.push(block[i].clone());
        proof {
            assert(ls[i as int] == block@[i as int]@);
            assert(lines_view(cur@) =~= lines_view(old_cur).push(ls[i as int]));
        }
        let flush = if i + 1 < block.len() {
            let nl = chars_of(block[i + 1].as_str());
            proof {
                assert(ls[i as int + 1] == block@[i as int + 1]@);
            }
            start.matches(&nl)
        } else {
            false
        };
        if flush {
            let finished = cur;
            cur = Vec::new();
            let ghost old_out = out@;
            out.push(finished);
            proof {
                assert(lines_view(cur@) =~= Seq::<Seq<char>>::empty());
                assert(blocks_view(out@) =~= blocks_view(old_out).push(lines_view(finished@)));
            }
        }
        i += 1;
    }
    if cur.len() > 0 {
        let finished = cur;
        let ghost old_out = out@;
        out.push(finished);
        proof {
            assert(blocks_view(out@) =~= blocks_view(old_out).push(lines_view(finished@)));
        }
    }
    out
}

/// An input whose first line is the end-of-reply code yields no blocks.
pub proof fn lemma_terminator_only(
    lines: Seq<Seq<char>>,
    start: MarkerView,
    stop: Option<MarkerView>,
)
    requires
        lines.len() >= 1,
        ends_stream(lines[0]),
    ensures
        spec_blocks(lines, start, stop, 0, Seq::empty()) == Seq::<Seq<Seq<char>>>::empty(),
{
}

/// Lines past a stream terminator contribute nothing: the blocks of the
/// whole input equal the blocks of the input cut right after the
/// terminator line.
pub proof fn lemma_blocks_ignore_after_terminator(
    lines: Seq<Seq<char>>,
    start: MarkerView,
    stop: Option<MarkerView>,
    k: int,
)
    requires
        0 <= k < lines.len(),
        ends_stream(lines[k]),
    ensures
        spec_blocks(lines, start, stop, 0, Seq::empty()) == spec_blocks(
            lines.subrange(0, k + 1),
            start,
            stop,
            0,
            Seq::empty(),
        ),
{
    lemma_blocks_truncate(lines, start, stop, k, 0, Seq::empty());
}

proof fn lemma_blocks_truncate(
    lines: Seq<Seq<char>>,
    start: MarkerView,
    stop: Option<MarkerView>,
    k: int,
    i: int,
    cur: Seq<Seq<char>>,
)
    requires
        0 <= k < lines.len(),
        ends_stream(lines[k]),
        0 <= i <= k,
    ensures
        spec_blocks(lines, start, stop, i, cur) == spec_blocks(
            lines.subrange(0, k + 1),
            start,
            stop,
            i,
            cur,
        ),
    decreases k - i,
{
    let t = lines.subrange(0, k + 1);
    assert(t[i] == lines[i]);
    if i == k {
        assert(ends_stream(t[i]));
    } else {
        assert(t[i + 1] == lines[i + 1]);
        if !ends_stream(lines[i]) {
            let cur2 = cur.push(lines[i]);
            if stop_matches(stop, lines[i]) {
                lemma_blocks_truncate(lines, start, stop, k, i + 1, Seq::empty());
            } else if i + 1 < lines.len() && (marker_matches(start, lines[i + 1]) || match_at(
                lines[i + 1],
                0,
                "0000"@,
            )) {
                lemma_blocks_truncate(lines, start, stop, k, i + 1, Seq::empty());
            } else {
                lemma_blocks_truncate(lines, start, stop, k, i + 1, cur2);
            }
        }
    }
}

} // verus!
