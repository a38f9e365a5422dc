//! Laws of the two orders: locals by register, and reasons by how often they
//! occur.
use vstd::prelude::*;

use crate::compile::{ranked, ranked_with, reason_before, text_before};
use crate::gen_stmt_model::{by_register, placed};

verus! {

// ---- locals ---------------------------------------------------------------------------

/// Whether locals stand in the order of their registers.
pub open spec fn in_register_order(s: Seq<(Seq<char>, (u32, u32))>) -> bool {
    forall|i: int, j: int| 0 <= i < j < s.len() ==> (#[trigger] s[i]).1.0 <= (#[trigger] s[j]).1.0
}

proof fn lemma_placed(s: Seq<(Seq<char>, (u32, u32))>, e: (Seq<char>, (u32, u32)))
    requires
        in_register_order(s),
    ensures
        in_register_order(placed(s, e)),
        placed(s, e).len() == s.len() + 1,
        placed(s, e).to_multiset() =~= s.to_multiset().insert(e),
        forall|i: int|
            0 <= i < placed(s, e).len() ==> (#[trigger] placed(s, e)[i]) == e || s.contains(
                placed(s, e)[i],
            ),
    decreases s.len(),
{
    broadcast use vstd::seq_lib::group_to_multiset_ensures;

    let r = placed(s, e);
    if s.len() == 0 || s.last().1.0 <= e.1.0 {
        assert forall|i: int| 0 <= i < r.len() implies (#[trigger] r[i]) == e || s.contains(r[i]) by {
            if i < s.len() {
                assert(r[i] == s[i]);
            }
        }
    } else {
        let rest = s.drop_last();
        lemma_placed(rest, e);
        let q = placed(rest, e);
        assert(s =~= rest.push(s.last()));
        assert(r.to_multiset() =~= s.to_multiset().insert(e));
        assert forall|i: int| 0 <= i < r.len() implies (#[trigger] r[i]) == e || s.contains(r[i]) by {
            if i < q.len() {
                assert(r[i] == q[i]);
                if q[i] != e {
                    let k = choose|k: int| 0 <= k < rest.len() && rest[k] == q[i];
                    assert(s[k] == r[i]);
                }
            } else {
                assert(s[s.len() - 1] == r[i]);
            }
        }
        assert forall|i: int, j: int| 0 <= i < j < r.len() implies (#[trigger] r[i]).1.0 <= (
        #[trigger] r[j]).1.0 by {
            assert(r[i] == q[i]);
            if j < q.len() {
                assert(r[j] == q[j]);
            } else if q[i] != e {
                let k = choose|k: int| 0 <= k < rest.len() && rest[k] == q[i];
                assert(s[k].1.0 <= s[s.len() - 1].1.0);
            }
        }
    }
}

/// A branch of a fork takes over the locals of its parent, each once, in the order
/// of their registers.
pub proof fn captures_follow_registers(s: Seq<(Seq<char>, (u32, u32))>)
    ensures
        in_register_order(by_register(s)),
        by_register(s).to_multiset() =~= s.to_multiset(),
    decreases s.len(),
{
    broadcast use vstd::seq_lib::group_to_multiset_ensures;

    if s.len() > 0 {
        captures_follow_registers(s.drop_last());
        lemma_placed(by_register(s.drop_last()), s.last());
        assert(s =~= s.drop_last().push(s.last()));
    }
}

// ---- texts ----------------------------------------------------------------------------

proof fn lemma_text_irreflexive(a: Seq<char>)
    ensures
        !text_before(a, a),
    decreases a.len(),
{
    if a.len() > 0 {
        lemma_text_irreflexive(a.drop_first());
    }
}

proof fn lemma_text_transitive(a: Seq<char>, b: Seq<char>, c: Seq<char>)
    requires
        text_before(a, b),
        text_before(b, c),
    ensures
        text_before(a, c),
    decreases a.len(),
{
    if a.len() > 0 && b.len() > 0 && c.len() > 0 && a[0] == b[0] && b[0] == c[0] {
        lemma_text_transitive(a.drop_first(), b.drop_first(), c.drop_first());
    }
}

proof fn lemma_text_total(a: Seq<char>, b: Seq<char>)
    ensures
        a == b || text_before(a, b) || text_before(b, a),
    decreases a.len(),
{
    if a.len() == 0 && b.len() == 0 {
        assert(a =~= b);
    } else if a.len() > 0 && b.len() > 0 && a[0] == b[0] {
        lemma_text_total(a.drop_first(), b.drop_first());
        if a.drop_first() == b.drop_first() {
            assert(a =~= seq![a[0]] + a.drop_first());
            assert(b =~= seq![b[0]] + b.drop_first());
        }
    }
}

/// Texts are ordered: no text stands before itself, the order carries over, and
/// of two texts one stands before the other.
pub proof fn text_order_is_total(a: Seq<char>, b: Seq<char>, c: Seq<char>)
    ensures
        !text_before(a, a),
        text_before(a, b) && text_before(b, c) ==> text_before(a, c),
        a == b || text_before(a, b) || text_before(b, a),
{
    lemma_text_irreflexive(a);
    lemma_text_total(a, b);
    if text_before(a, b) && text_before(b, c) {
        lemma_text_transitive(a, b, c);
    }
}

// ---- reasons --------------------------------------------------------------------------

/// Whether no reason stands behind one that it is to stand before.
pub open spec fn in_rank_order(s: Seq<(Seq<char>, usize)>) -> bool {
    forall|i: int, j: int|
        0 <= i < j < s.len() ==> !reason_before(#[trigger] s[j], #[trigger] s[i])
}

/// Where `b` does not stand before `a` nor `c` before `b`, `c` does not stand
/// before `a`.
proof fn lemma_rank_carries(a: (Seq<char>, usize), b: (Seq<char>, usize), c: (Seq<char>, usize))
    requires
        !reason_before(b, a),
        !reason_before(c, b),
    ensures
        !reason_before(c, a),
{
    if reason_before(c, a) {
        text_order_is_total(c.0, a.0, b.0);
        text_order_is_total(a.0, b.0, c.0);
        text_order_is_total(b.0, c.0, a.0);
        text_order_is_total(b.0, a.0, c.0);
        text_order_is_total(c.0, b.0, a.0);
        text_order_is_total(a.0, c.0, b.0);
    }
}

proof fn lemma_rank_one_way(a: (Seq<char>, usize), b: (Seq<char>, usize))
    requires
        reason_before(a, b),
    ensures
        !reason_before(b, a),
{
    if reason_before(b, a) {
        text_order_is_total(a.0, b.0, a.0);
    }
}

proof fn lemma_ranked_with(s: Seq<(Seq<char>, usize)>, e: (Seq<char>, usize))
    requires
        in_rank_order(s),
    ensures
        in_rank_order(ranked_with(s, e)),
        ranked_with(s, e).to_multiset() =~= s.to_multiset().insert(e),
        forall|i: int|
            0 <= i < ranked_with(s, e).len() ==> (#[trigger] ranked_with(s, e)[i]) == e
                || s.contains(ranked_with(s, e)[i]),
    decreases s.len(),
{
    broadcast use vstd::seq_lib::group_to_multiset_ensures;

    let r = ranked_with(s, e);
    if s.len() == 0 || !reason_before(e, s.last()) {
        assert forall|i: int| 0 <= i < r.len() implies (#[trigger] r[i]) == e || s.contains(r[i]) by {
            if i < s.len() {
                assert(r[i] == s[i]);
            }
        }
        assert forall|i: int, j: int| 0 <= i < j < r.len() implies !reason_before(
            #[trigger] r[j],
            #[trigger] r[i],
        ) by {
            assert(r[i] == s[i]);
            if j < s.len() {
                assert(r[j] == s[j]);
            } else if i < s.len() - 1 {
                assert(!reason_before(s[s.len() - 1], s[i]));
                lemma_rank_carries(s[i], s.last(), e);
            }
        }
    } else {
        let rest = s.drop_last();
        lemma_ranked_with(rest, e);
        let q = ranked_with(rest, e);
        assert(s =~= rest.push(s.last()));
        assert(r.to_multiset() =~= s.to_multiset().insert(e));
        assert forall|i: int| 0 <= i < r.len() implies (#[trigger] r[i]) == e || s.contains(r[i]) by {
            if i < q.len() {
                assert(r[i] == q[i]);
                if q[i] != e {
                    let k = choose|k: int| 0 <= k < rest.len() && rest[k] == q[i];
                    assert(s[k] == r[i]);
                }
            } else {
                assert(s[s.len() - 1] == r[i]);
            }
        }
        assert forall|i: int, j: int| 0 <= i < j < r.len() implies !reason_before(
            #[trigger] r[j],
            #[trigger] r[i],
        ) by {
            assert(r[i] == q[i]);
            if j < q.len() {
                assert(r[j] == q[j]);
            } else if q[i] == e {
                lemma_rank_one_way(e, s.last());
            } else {
                let k = choose|k: int| 0 <= k < rest.len() && rest[k] == q[i];
                assert(!reason_before(s[s.len() - 1], s[k]));
            }
        }
    }
}

/// The reasons are listed once each, the most frequent first, and equally
/// frequent ones by their text.
pub proof fn reasons_are_ranked(s: Seq<(Seq<char>, usize)>)
    ensures
        in_rank_order(ranked(s)),
        ranked(s).to_multiset() =~= s.to_multiset(),
    decreases s.len(),
{
    broadcast use vstd::seq_lib::group_to_multiset_ensures;

    if s.len() > 0 {
        reasons_are_ranked(s.drop_last());
        lemma_ranked_with(ranked(s.drop_last()), s.last());
        assert(s =~= s.drop_last().push(s.last()));
    }
}

} // verus!
