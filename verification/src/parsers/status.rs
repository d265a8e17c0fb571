//! The status parser: one framed block of the `show status` response
//! becomes a [`BirdStatus`]. Lines are classified by stable prefixes;
//! unknown lines are ignored and missing fields stay empty.

use vstd::prelude::*;

use crate::bird::{BirdStatus, BirdStatusView};
use crate::framer::{lines_view, spec_blocks, split_blocks, Block, Follow, Marker, MarkerView};
use crate::text::{chars_of, match_at, match_at_exec, spec_split_ws, split_ws, string_range, strings_view};

verus! {

/// The suffix of `l` after prefix `p`, or empty when `p` is not there.
pub open spec fn strip_or_empty(l: Seq<char>, p: Seq<char>) -> Seq<char> {
    if match_at(l, 0, p) {
        l.skip(p.len() as int)
    } else {
        Seq::empty()
    }
}

fn strip_or_empty_exec(v: &Vec<char>, p: &str) -> (r: String)
    ensures
        r@ == strip_or_empty(v@, p@),
{
    if match_at_exec(v, 0, p) {
        let r = string_range(v, p.unicode_len(), v.len());
        proof {
            assert(v@.subrange(p@.len() as int, v@.len() as int) =~= v@.skip(p@.len() as int));
        }
        r
    } else {
        String::new()
    }
}

/// Effect of a version line (`0001 ...`): the version is the third
/// whitespace token, when there are at least three.
pub open spec fn spec_version_line(st: BirdStatusView, l: Seq<char>) -> BirdStatusView {
    let toks = spec_split_ws(l, 0);
    if toks.len() >= 3 {
        BirdStatusView { version: toks[2], ..st }
    } else {
        st
    }
}

pub fn parse_version(status: &mut BirdStatus, line: &str)
    ensures
        final(status)@ == spec_version_line(old(status)@, line@),
{
    let v = chars_of(line);
    let toks = split_ws(&v);
    if toks.len() >= 3 {
        proof {
            assert(strings_view(toks@)[2] == toks@[2]@);
        }
        status.version = toks[2].clone();
    }
}

/// Effect of a router-id line (`1011-...`): the id is the last token.
pub open spec fn spec_router_id_line(st: BirdStatusView, l: Seq<char>) -> BirdStatusView {
    let toks = spec_split_ws(l, 0);
    if toks.len() >= 1 {
        BirdStatusView { router_id: toks[toks.len() - 1], ..st }
    } else {
        st
    }
}

pub fn parse_router_id(status: &mut BirdStatus, line: &str)
    ensures
        final(status)@ == spec_router_id_line(old(status)@, line@),
{
    let v = chars_of(line);
    let toks = split_ws(&v);
    if toks.len() >= 1 {
        proof {
            assert(strings_view(toks@)[toks@.len() - 1] == toks@[toks@.len() - 1]@);
        }
        status.router_id = toks[toks.len() - 1].clone();
    }
}

pub fn parse_server_time(status: &mut BirdStatus, line: &str)
    ensures
        final(status)@ == (BirdStatusView {
            current_server: strip_or_empty(line@, " Current server time is "@),
            ..old(status)@
        }),
{
    let v = chars_of(line);
    status.current_server = strip_or_empty_exec(&v, " Current server time is ");
}

pub fn parse_last_reboot(status: &mut BirdStatus, line: &str)
    ensures
        final(status)@ == (BirdStatusView {
            last_reboot: strip_or_empty(line@, " Last reboot on "@),
            ..old(status)@
        }),
{
    let v = chars_of(line);
    status.last_reboot = strip_or_empty_exec(&v, " Last reboot on ");
}

pub fn parse_last_reconfig(status: &mut BirdStatus, line: &str)
    ensures
        final(status)@ == (BirdStatusView {
            last_reconfig: strip_or_empty(line@, " Last reconfiguration on "@),
            ..old(status)@
        }),
{
    let v = chars_of(line);
    status.last_reconfig = strip_or_empty_exec(&v, " Last reconfiguration on ");
}

pub fn parse_message(status: &mut BirdStatus, line: &str)
    ensures
        final(status)@ == (BirdStatusView {
            message: strip_or_empty(line@, "0013 "@),
            ..old(status)@
        }),
{
    let v = chars_of(line);
    status.message = strip_or_empty_exec(&v, "0013 ");
}

/// Effect of one status line on the record: classification by prefix.
pub open spec fn spec_status_line(st: BirdStatusView, l: Seq<char>) -> BirdStatusView {
    if match_at(l, 0, "0001 "@) {
        spec_version_line(st, l)
    } else if match_at(l, 0, "1011-"@) {
        spec_router_id_line(st, l)
    } else if match_at(l, 0, " Current server time"@) {
        BirdStatusView { current_server: strip_or_empty(l, " Current server time is "@), ..st }
    } else if match_at(l, 0, " Last reboot"@) {
        BirdStatusView { last_reboot: strip_or_empty(l, " Last reboot on "@), ..st }
    } else if match_at(l, 0, " Last reconfiguration"@) {
        BirdStatusView { last_reconfig: strip_or_empty(l, " Last reconfiguration on "@), ..st }
    } else if match_at(l, 0, "0013 "@) {
        BirdStatusView { message: strip_or_empty(l, "0013 "@), ..st }
    } else {
        st
    }
}

pub fn parse_line(status: &mut BirdStatus, line: &str)
    ensures
        final(status)@ == spec_status_line(old(status)@, line@),
{
    let v = chars_of(line);
    if match_at_exec(&v, 0, "0001 ") {
        parse_version(status, line);
    } else if match_at_exec(&v, 0, "1011-") {
        parse_router_id(status, line);
    } else if match_at_exec(&v, 0, " Current server time") {
        parse_server_time(status, line);
    } else if match_at_exec(&v, 0, " Last reboot") {
        parse_last_reboot(status, line);
    } else if match_at_exec(&v, 0, " Last reconfiguration") {
        parse_last_reconfig(status, line);
    } else if match_at_exec(&v, 0, "0013 ") {
        parse_message(status, line);
    }
}

/// The record the whole block parses to, folding the lines from `i` over
/// the record so far.
pub open spec fn spec_status_lines(st: BirdStatusView, lines: Seq<Seq<char>>, i: int) -> BirdStatusView
    decreases lines.len() - i,
{
    if !(0 <= i < lines.len()) {
        st
    } else {
        spec_status_lines(spec_status_line(st, lines[i]), lines, i + 1)
    }
}

impl BirdStatus {
    /// Parse the status block: every line is applied in order to an
    /// initially empty record.
    pub fn parse(block: &Block) -> (r: BirdStatus)
        ensures
            r@ == spec_status_lines(BirdStatusView::init(), lines_view(block@), 0),
    {
        let mut status = BirdStatus::empty();
        let mut i: usize = 0;
        while i < block.len()
            invariant
                i <= block@.len(),
                spec_status_lines(status@, lines_view(block@), i as int) == spec_status_lines(
                    BirdStatusView::init(),
                    lines_view(block@),
                    0,
                ),
            decreases block@.len() - i,
        {
            proof {
                assert(lines_view(block@)[i as int] == block@[i as int]@);
            }
            parse_line(&mut status, block[i].as_str());
            i += 1;
        }
        status
    }
}

/// What a whole `show status` reply parses to: the first framed block
/// (start marker `EOF`, stop marker `0013` followed by whitespace), or an
/// empty record when the reply holds no block.
pub open spec fn spec_status_response(lines: Seq<Seq<char>>) -> BirdStatusView {
    let bs = spec_blocks(
        lines,
        MarkerView { token: "EOF"@, follow: Follow::Anything },
        Some(MarkerView { token: "0013"@, follow: Follow::Space }),
        0,
        Seq::empty(),
    );
    if bs.len() >= 1 {
        spec_status_lines(BirdStatusView::init(), bs[0], 0)
    } else {
        BirdStatusView::init()
    }
}

/// Parse the raw lines of a `show status` reply.
pub fn parse_status_response(lines: &Vec<String>) -> (r: BirdStatus)
    ensures
        r@ == spec_status_response(lines_view(lines@)),
{
    proof {
        reveal_strlit("EOF");
        reveal_strlit("0013");
    }
    let start = Marker::new("EOF", Follow::Anything);
    let stop = Marker::new("0013", Follow::Space);
    let blocks = split_blocks(lines, &start, Some(&stop));
    if blocks.len() >= 1 {
        proof {
            assert(crate::framer::blocks_view(blocks@)[0] == lines_view(blocks@[0]@));
        }
        BirdStatus::parse(&blocks[0])
    } else {
        BirdStatus::empty()
    }
}

} // verus!
