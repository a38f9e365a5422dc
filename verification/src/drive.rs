//! Drive strengths: the parser lists their keywords among its tokens, and a
//! continuous assignment has those that stand between `assign` and its targets.
use vstd::prelude::*;

use crate::ast::{DriveStrengthSpec, StrengthLevel};
use crate::cst::{find, found, has_tag, Node, NodeV};
use crate::syntax_check::{first_offset, offset_of};
use crate::verible::node_views;

verus! {

/// A strength keyword at its place in the source.
#[derive(Debug, Clone, Copy, PartialEq, Eq, Structural)]
pub struct StrengthMark {
    pub start: u64,
    pub level: StrengthLevel,
    /// Whether it is the strength of a one.
    pub one: bool,
}

/// The level of a strength keyword, and whether it is that of a one.
pub open spec fn keyword_level(t: Seq<char>) -> Option<(StrengthLevel, bool)> {
    if t == "supply0"@ {
        Some((StrengthLevel::Supply, false))
    } else if t == "supply1"@ {
        Some((StrengthLevel::Supply, true))
    } else if t == "strong0"@ {
        Some((StrengthLevel::Strong, false))
    } else if t == "strong1"@ {
        Some((StrengthLevel::Strong, true))
    } else if t == "pull0"@ {
        Some((StrengthLevel::Pull, false))
    } else if t == "pull1"@ {
        Some((StrengthLevel::Pull, true))
    } else if t == "weak0"@ {
        Some((StrengthLevel::Weak, false))
    } else if t == "weak1"@ {
        Some((StrengthLevel::Weak, true))
    } else if t == "highz0"@ {
        Some((StrengthLevel::HighZ, false))
    } else if t == "highz1"@ {
        Some((StrengthLevel::HighZ, true))
    } else {
        None
    }
}

/// The strength keyword that a token is.
pub open spec fn token_mark(token: NodeV) -> Option<StrengthMark> {
    match (keyword_level(token.tag), token.start) {
        (Some((level, one)), Some(start)) => Some(StrengthMark { start, level, one }),
        _ => None,
    }
}

/// The strength keywords among some tokens, in order.
pub open spec fn token_marks(tokens: Seq<NodeV>) -> Seq<StrengthMark>
    decreases tokens.len(),
{
    if tokens.len() == 0 {
        Seq::empty()
    } else {
        let before = token_marks(tokens.drop_last());
        match token_mark(tokens.last()) {
            Some(m) => before.push(m),
            None => before,
        }
    }
}

/// The first strength of a zero, or of a one, strictly between two places.
pub open spec fn level_between(
    marks: Seq<StrengthMark>,
    from: u64,
    to: u64,
    one: bool,
) -> Option<StrengthLevel>
    decreases marks.len(),
{
    if marks.len() == 0 {
        None
    } else if from < marks[0].start < to && marks[0].one == one {
        Some(marks[0].level)
    } else {
        level_between(marks.skip(1), from, to, one)
    }
}

/// The strength of a continuous assignment: the keywords between its start and its
/// list of assignments, where both a strength of zero and one of one are written.
pub open spec fn drive_strength(n: NodeV, marks: Seq<StrengthMark>) -> Option<DriveStrengthSpec> {
    match (first_offset(n), found(n, "kAssignmentList"@)) {
        (Some(from), Some(list)) => match first_offset(list) {
            Some(to) => match (
                level_between(marks, from, to, false),
                level_between(marks, from, to, true),
            ) {
                (Some(zero), Some(one)) => Some(DriveStrengthSpec { zero, one }),
                _ => None,
            },
            None => None,
        },
        _ => None,
    }
}

/// The strength keyword that a token is.
fn mark_of(token: &Node) -> (r: Option<StrengthMark>)
    ensures
        r == token_mark(token@),
{
    let start: u64 = match token.start {
        Some(start) => start,
        None => {
            return None;
        },
    };
    let found: Option<(StrengthLevel, bool)> = if has_tag(token, "supply0") {
        Some((StrengthLevel::Supply, false))
    } else if has_tag(token, "supply1") {
        Some((StrengthLevel::Supply, true))
    } else if has_tag(token, "strong0") {
        Some((StrengthLevel::Strong, false))
    } else if has_tag(token, "strong1") {
        Some((StrengthLevel::Strong, true))
    } else if has_tag(token, "pull0") {
        Some((StrengthLevel::Pull, false))
    } else if has_tag(token, "pull1") {
        Some((StrengthLevel::Pull, true))
    } else if has_tag(token, "weak0") {
        Some((StrengthLevel::Weak, false))
    } else if has_tag(token, "weak1") {
        Some((StrengthLevel::Weak, true))
    } else if has_tag(token, "highz0") {
        Some((StrengthLevel::HighZ, false))
    } else if has_tag(token, "highz1") {
        Some((StrengthLevel::HighZ, true))
    } else {
        None
    };
    match found {
        Some((level, one)) => Some(StrengthMark { start, level, one }),
        None => None,
    }
}

/// The strength keywords among some tokens.
pub fn strength_marks(tokens: &Vec<Node>) -> (r: Vec<StrengthMark>)
    ensures
        r@ == token_marks(node_views(tokens@)),
{
    let ghost all = node_views(tokens@);
    let mut out: Vec<StrengthMark> = Vec::new();
    let mut i: usize = 0;
    assert(out@ =~= token_marks(all.take(0)));
    while i < tokens.len()
        invariant
            i <= tokens@.len(),
            all == node_views(tokens@),
            out@ == token_marks(all.take(i as int)),
        decreases tokens@.len() - i,
    {
        let ghost upto = all.take(i + 1);
        assert(upto.drop_last() =~= all.take(i as int));
        assert(upto.last() == tokens@[i as int]@);
        if let Some(m) = mark_of(&tokens[i]) {
            out.push(m);
        }
        i = i + 1;
    }
    assert(all.take(i as int) =~= all);
    out
}

fn find_level(marks: &Vec<StrengthMark>, from: u64, to: u64, one: bool) -> (r: Option<StrengthLevel>)
    ensures
        r == level_between(marks@, from, to, one),
{
    let mut i: usize = 0;
    assert(marks@.skip(0) =~= marks@);
    while i < marks.len()
        invariant
            i <= marks@.len(),
            level_between(marks@, from, to, one) == level_between(
                marks@.skip(i as int),
                from,
                to,
                one,
            ),
        decreases marks@.len() - i,
    {
        assert(marks@.skip(i as int)[0] == marks@[i as int]);
        assert(marks@.skip(i as int).skip(1) =~= marks@.skip(i + 1));
        let m: StrengthMark = marks[i];
        if from < m.start && m.start < to && m.one == one {
            return Some(m.level);
        }
        i = i + 1;
    }
    None
}

/// The strength of a continuous assignment.
pub fn lower_strength(n: &Node, marks: &Vec<StrengthMark>) -> (r: Option<DriveStrengthSpec>)
    ensures
        r == drive_strength(n@, marks@),
{
    let from: u64 = match offset_of(n) {
        Some(from) => from,
        None => {
            return None;
        },
    };
    let list: &Node = match find(n, "kAssignmentList") {
        Some(list) => list,
        None => {
            return None;
        },
    };
    let to: u64 = match offset_of(list) {
        Some(to) => to,
        None => {
            return None;
        },
    };
    match (find_level(marks, from, to, false), find_level(marks, from, to, true)) {
        (Some(zero), Some(one)) => Some(DriveStrengthSpec { zero, one }),
        _ => None,
    }
}

} // verus!
