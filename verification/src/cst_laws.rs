//! Laws of the trees that the parser prints: what is kept of them, and what is found in them.
use vstd::prelude::*;

use crate::cst::{
    cleaned, cleaned_all, constant, first_constant, first_deep, first_tagged, tagged, NodeV,
    RawNode,
};

verus! {

// ---- holes ------------------------------------------------------------------------------------

/// A tree without holes has the tag, the text and the place of the tree, an empty tag where there
/// is none, and the trees below it in their order.
pub proof fn trees_keep_what_is_there(n: RawNode, a: Seq<Option<RawNode>>, b: Seq<Option<RawNode>>)
    ensures
        n.tag matches Some(t) ==> cleaned(n).tag == t@,
        n.tag is None ==> cleaned(n).tag.len() == 0,
        n.text matches Some(t) ==> cleaned(n).text == Some(t@),
        n.text is None ==> cleaned(n).text is None,
        cleaned(n).start == n.start,
        cleaned(n).kids == cleaned_all(n.children@),
        cleaned_all(a + b) == cleaned_all(a) + cleaned_all(b),
        cleaned_all(a.push(Some(n))) == cleaned_all(a).push(cleaned(n)),
        cleaned_all(a.push(None)) == cleaned_all(a),
        cleaned_all(Seq::empty()).len() == 0,
{
    lemma_cleaned_add(a, b);
    lemma_cleaned_add(a, seq![Some(n)]);
    let one = seq![Some(n)];
    assert(one[0] == Some(n));
    assert(one.drop_first() =~= Seq::<Option<RawNode>>::empty());
    assert(cleaned_all(Seq::<Option<RawNode>>::empty()) =~= Seq::<NodeV>::empty());
    assert(cleaned_all(one) == seq![cleaned(n)] + cleaned_all(one.drop_first()));
    assert(cleaned_all(one) =~= seq![cleaned(n)]);
    assert(a + seq![Some(n)] =~= a.push(Some(n)));
    lemma_cleaned_add(a, seq![None::<RawNode>]);
    assert(seq![None::<RawNode>].drop_first() =~= Seq::<Option<RawNode>>::empty());
    assert(cleaned_all(seq![None::<RawNode>]) =~= Seq::<NodeV>::empty());
    assert(a + seq![None::<RawNode>] =~= a.push(None));
    assert(cleaned_all(a) + seq![cleaned(n)] =~= cleaned_all(a).push(cleaned(n)));
    assert(cleaned_all(a) + Seq::<NodeV>::empty() =~= cleaned_all(a));
}

proof fn lemma_cleaned_add(a: Seq<Option<RawNode>>, b: Seq<Option<RawNode>>)
    ensures
        cleaned_all(a + b) == cleaned_all(a) + cleaned_all(b),
    decreases a.len(),
{
    if a.len() == 0 {
        assert(a + b =~= b);
        assert(Seq::<NodeV>::empty() + cleaned_all(b) =~= cleaned_all(b));
    } else {
        assert((a + b)[0] == a[0]);
        assert((a + b).drop_first() =~= a.drop_first() + b);
        lemma_cleaned_add(a.drop_first(), b);
        if let Some(n) = a[0] {
            assert(seq![cleaned(n)] + (cleaned_all(a.drop_first()) + cleaned_all(b)) =~= (
            seq![cleaned(n)] + cleaned_all(a.drop_first())) + cleaned_all(b));
        }
    }
}

// ---- searches -----------------------------------------------------------------------------------

/// The tree found among some is the first with the tag, and none is found only if none has it.
pub proof fn searches_find_the_first(ns: Seq<NodeV>, t: Seq<char>)
    ensures
        match first_tagged(ns, t) {
            Some(n) => exists|k: int|
                0 <= k < ns.len() && #[trigger] ns[k] == n && n.tag == t && forall|j: int|
                    0 <= j < k ==> (#[trigger] ns[j]).tag != t,
            None => forall|j: int| 0 <= j < ns.len() ==> (#[trigger] ns[j]).tag != t,
        },
    decreases ns.len(),
{
    if ns.len() > 0 {
        if ns[0].tag == t {
            assert(ns[0] == first_tagged(ns, t)->0);
        } else {
            let rest = ns.drop_first();
            searches_find_the_first(rest, t);
            match first_tagged(rest, t) {
                Some(n) => {
                    let k = choose|k: int|
                        0 <= k < rest.len() && #[trigger] rest[k] == n && n.tag == t && forall|j: int|
                            0 <= j < k ==> (#[trigger] rest[j]).tag != t;
                    assert(ns[k + 1] == n);
                    assert forall|j: int| 0 <= j < k + 1 implies (#[trigger] ns[j]).tag != t by {
                        if j > 0 {
                            assert(rest[j - 1] == ns[j]);
                        }
                    }
                },
                None => {
                    assert forall|j: int| 0 <= j < ns.len() implies (#[trigger] ns[j]).tag != t by {
                        if j > 0 {
                            assert(rest[j - 1] == ns[j]);
                        }
                    }
                },
            }
        }
    }
}

/// A deep search looks at a tree before those below it, at those below it before those behind
/// it, and finds a tree with the tag.
pub proof fn deep_searches_go_in_order(n: NodeV, a: Seq<NodeV>, b: Seq<NodeV>, t: Seq<char>)
    ensures
        n.tag == t ==> first_deep(seq![n], t) == Some(n),
        n.tag != t ==> first_deep(seq![n], t) == first_deep(n.kids, t),
        first_deep(a, t) is Some ==> first_deep(a + b, t) == first_deep(a, t),
        first_deep(a, t) is None ==> first_deep(a + b, t) == first_deep(b, t),
        first_deep(Seq::empty(), t) is None,
{
    assert(seq![n].drop_first() =~= Seq::<NodeV>::empty());
    lemma_deep_add(a, b, t);
}

proof fn lemma_deep_add(a: Seq<NodeV>, b: Seq<NodeV>, t: Seq<char>)
    ensures
        first_deep(a, t) is Some ==> first_deep(a + b, t) == first_deep(a, t),
        first_deep(a, t) is None ==> first_deep(a + b, t) == first_deep(b, t),
    decreases a.len(),
{
    if a.len() == 0 {
        assert(a + b =~= b);
    } else {
        assert((a + b)[0] == a[0]);
        assert((a + b).drop_first() =~= a.drop_first() + b);
        lemma_deep_add(a.drop_first(), b, t);
    }
}

/// The trees with a tag are all of those and no others, in their order.
pub proof fn tagged_trees_are_kept_in_order(a: Seq<NodeV>, b: Seq<NodeV>, n: NodeV, t: Seq<char>)
    ensures
        tagged(a + b, t) == tagged(a, t) + tagged(b, t),
        n.tag == t ==> tagged(a.push(n), t) == tagged(a, t).push(n),
        n.tag != t ==> tagged(a.push(n), t) == tagged(a, t),
        tagged(Seq::empty(), t).len() == 0,
{
    assert(a.push(n).drop_last() =~= a);
    lemma_tagged_add(a, b, t);
}

proof fn lemma_tagged_add(a: Seq<NodeV>, b: Seq<NodeV>, t: Seq<char>)
    ensures
        tagged(a + b, t) == tagged(a, t) + tagged(b, t),
    decreases b.len(),
{
    if b.len() == 0 {
        assert(a + b =~= a);
        assert(tagged(a, t) + tagged(b, t) =~= tagged(a, t));
    } else {
        assert((a + b).last() == b.last());
        assert((a + b).drop_last() =~= a + b.drop_last());
        lemma_tagged_add(a, b.drop_last(), t);
        if b.last().tag == t {
            assert((tagged(a, t) + tagged(b.drop_last(), t)).push(b.last()) =~= tagged(a, t)
                + tagged(b.drop_last(), t).push(b.last()));
        }
    }
}

/// The number of some trees is that of the first of them that has one, and the number of a tree
/// that is no number is that of the trees below it.
pub proof fn the_first_number_counts(n: NodeV, a: Seq<NodeV>, b: Seq<NodeV>)
    ensures
        n.tag != "TK_DecNumber"@ ==> constant(n) == first_constant(n.kids),
        first_constant(seq![n]) == constant(n),
        first_constant(a) is Some ==> first_constant(a + b) == first_constant(a),
        first_constant(a) is None ==> first_constant(a + b) == first_constant(b),
        first_constant(Seq::empty()) is None,
{
    assert(seq![n].drop_first() =~= Seq::<NodeV>::empty());
    assert(first_constant(Seq::<NodeV>::empty()) is None);
    lemma_constant_add(a, b);
}

proof fn lemma_constant_add(a: Seq<NodeV>, b: Seq<NodeV>)
    ensures
        first_constant(a) is Some ==> first_constant(a + b) == first_constant(a),
        first_constant(a) is None ==> first_constant(a + b) == first_constant(b),
    decreases a.len(),
{
    if a.len() == 0 {
        assert(a + b =~= b);
    } else {
        assert((a + b)[0] == a[0]);
        assert((a + b).drop_first() =~= a.drop_first() + b);
        lemma_constant_add(a.drop_first(), b);
    }
}

} // verus!
