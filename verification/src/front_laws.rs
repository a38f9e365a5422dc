//! Laws of checking and lowering.
use vstd::arithmetic::div_mod::lemma_add_mod_noop;
use vstd::arithmetic::power2::{lemma2_to64, lemma2_to64_rest, pow2};
use vstd::prelude::*;

use crate::bits::{bits_of, lemma_bits_of_mod, lemma_bits_of_value, value};
use crate::const_expr::{enum_fold, successor};
use crate::cst::{found, found_deep, lemma_size_all, size, tagged, NodeV};
use crate::drive::StrengthMark;
use crate::lower::{description, descriptions, descriptions_among, is_description, lowered_items};
use crate::lower_stmt::{delay_body, delay_complete};
use crate::lower_types::identifier;
use crate::subset::{listed, Place};
use crate::syntax_check::{
    first_offender, first_unlisted, lemma_offender, lemma_offenders_below, net_delay_offender,
    offender, offenders_below, own_offender, separated,
};

verus! {

// ---- checking -------------------------------------------------------------------------

/// Whether a tree stands in a tree.
pub open spec fn inside(n: NodeV, m: NodeV) -> bool
    decreases n,
{
    n == m || exists|i: int| 0 <= i < n.kids.len() && inside(#[trigger] n.kids[i], m)
}

proof fn lemma_none_offends(g: spec_fn(NodeV) -> Option<NodeV>, ns: Seq<NodeV>, i: int)
    requires
        first_offender(g, ns) is None,
        0 <= i < ns.len(),
    ensures
        g(ns[i]) is None,
    decreases ns.len(),
{
    if i > 0 {
        lemma_none_offends(g, ns.drop_first(), i - 1);
        assert(ns.drop_first()[i - 1] == ns[i]);
    }
}

/// Whatever stands in an accepted tree is accepted.
pub proof fn accepted_throughout(n: NodeV, m: NodeV)
    requires
        offender(n) is None,
        inside(n, m),
    ensures
        offender(m) is None,
    decreases size(n),
{
    if n != m {
        let i = choose|i: int| 0 <= i < n.kids.len() && inside(#[trigger] n.kids[i], m);
        lemma_size_all(n.kids, i);
        lemma_offender(n);
        lemma_none_offends(offenders_below(size(n)), n.kids, i);
        lemma_offenders_below(size(n), n.kids[i]);
        accepted_throughout(n.kids[i], m);
    }
}

/// Every system call in an accepted tree is one of the supported ones.
pub proof fn accepted_calls_are_known(n: NodeV, call: NodeV)
    requires
        offender(n) is None,
        inside(n, call),
        call.tag == "kSystemTFCall"@,
        found_deep(call, "SystemTFIdentifier"@) is Some,
    ensures
        listed(Place::SystemCall, (found_deep(call, "SystemTFIdentifier"@)->0).word()),
{
    accepted_throughout(n, call);
    lemma_offender(call);
    reveal_strlit("kDescriptionList");
    reveal_strlit("kModuleItemList");
    reveal_strlit("kPackageItemList");
    reveal_strlit("kModuleHeader");
    reveal_strlit("kDataDeclaration");
    reveal_strlit("kContinuousAssignmentStatement");
    reveal_strlit("kNetDeclaration");
    reveal_strlit("kPortDeclaration");
    reveal_strlit("kNetVariableAssignment");
    reveal_strlit("kPackedDimensions");
    reveal_strlit("kSystemTFCall");
    assert(own_offender(offenders_below(size(call)), call) is None);
    assert("kSystemTFCall"@.len() == 13);
    assert("kModuleHeader"@.len() == 13);
    assert("kSystemTFCall"@[1] != "kModuleHeader"@[1]);
}

/// No cast stands in an accepted tree.
pub proof fn accepted_trees_have_no_casts(n: NodeV, m: NodeV)
    requires
        offender(n) is None,
        inside(n, m),
    ensures
        m.tag != "kCast"@,
{
    accepted_throughout(n, m);
    lemma_offender(m);
    reveal_strlit("kDescriptionList");
    reveal_strlit("kModuleItemList");
    reveal_strlit("kPackageItemList");
    reveal_strlit("kModuleHeader");
    reveal_strlit("kDataDeclaration");
    reveal_strlit("kContinuousAssignmentStatement");
    reveal_strlit("kNetDeclaration");
    reveal_strlit("kPortDeclaration");
    reveal_strlit("kNetVariableAssignment");
    reveal_strlit("kPackedDimensions");
    reveal_strlit("kSystemTFCall");
    reveal_strlit("kPortActualList");
    reveal_strlit("kActualNamedPort");
    reveal_strlit("kActualPositionalPort");
    reveal_strlit("kCast");
    assert("kCast"@.len() == 5);
    assert(own_offender(offenders_below(size(m)), m) is None);
}

proof fn lemma_listed(place: Place, ns: Seq<NodeV>, i: int)
    requires
        first_unlisted(place, ns) is None,
        0 <= i < ns.len(),
    ensures
        listed(place, ns[i].tag),
    decreases ns.len(),
{
    if i > 0 {
        lemma_listed(place, ns.drop_first(), i - 1);
        assert(ns.drop_first()[i - 1] == ns[i]);
    }
}

proof fn lemma_each_described(ns: Seq<NodeV>, marks: Seq<StrengthMark>)
    requires
        forall|i: int| 0 <= i < ns.len() ==> is_description(#[trigger] ns[i]),
    ensures
        descriptions_among(ns, marks) == ns.map_values(|n: NodeV| description(n, marks)),
    decreases ns.len(),
{
    let f = |n: NodeV| description(n, marks);
    if ns.len() == 0 {
        assert(descriptions_among(ns, marks) =~= ns.map_values(f));
    } else {
        let rest = ns.drop_last();
        assert forall|i: int| 0 <= i < rest.len() implies is_description(#[trigger] rest[i]) by {
            assert(rest[i] == ns[i]);
        }
        lemma_each_described(rest, marks);
        assert(ns.last() == ns[ns.len() - 1]);
        assert(descriptions(ns.last(), marks) == seq![description(ns.last(), marks)]);
        assert(descriptions_among(ns, marks) =~= ns.map_values(f));
    }
}

/// Lowering drops nothing of an accepted list of descriptions: each becomes one
/// item, in order.
pub proof fn accepted_descriptions_are_kept(n: NodeV, marks: Seq<StrengthMark>)
    requires
        n.tag == "kDescriptionList"@,
        offender(n) is None,
    ensures
        descriptions(n, marks) == n.kids.map_values(|m: NodeV| description(m, marks)),
{
    lemma_offender(n);
    assert(first_unlisted(Place::Description, n.kids) is None);
    assert forall|i: int| 0 <= i < n.kids.len() implies is_description(#[trigger] n.kids[i]) by {
        lemma_listed(Place::Description, n.kids, i);
    }
    lemma_each_described(n.kids, marks);
    reveal_strlit("kDescriptionList");
    reveal_strlit("kModuleDeclaration");
    reveal_strlit("kPackageDeclaration");
    reveal_strlit("kClassDeclaration");
    reveal_strlit("kFunctionDeclaration");
    reveal_strlit("kTaskDeclaration");
    reveal_strlit("kDPIImportItem");
    assert("kTaskDeclaration"@.len() == 16);
    assert("kDescriptionList"@[1] != "kTaskDeclaration"@[1]);
    assert(!is_description(n));
}

proof fn lemma_separated_tagged(ns: Seq<NodeV>, k: int)
    requires
        separated(ns, "kExpression"@),
        0 <= k,
        2 * k + 1 <= ns.len(),
    ensures
        tagged(ns.take(2 * k + 1), "kExpression"@).len() == k + 1,
    decreases k,
{
    reveal_strlit("kExpression");
    reveal_strlit(",");
    let upto = ns.take(2 * k + 1);
    assert((2 * k) % 2 == 0);
    assert(upto.last() == ns[2 * k]);
    assert(upto.last().tag == "kExpression"@);
    if k == 0 {
        assert(upto.drop_last() =~= Seq::empty());
        assert(tagged(upto.drop_last(), "kExpression"@).len() == 0);
    } else {
        lemma_separated_tagged(ns, k - 1);
        let before = upto.drop_last();
        assert(before.last() == ns[2 * k - 1]);
        assert(before.drop_last() =~= ns.take(2 * (k - 1) + 1));
        assert(","@.len() != "kExpression"@.len());
        assert((2 * k - 1) % 2 == 1);
        assert(before.last().tag == ","@);
        assert(tagged(before, "kExpression"@) == tagged(before.drop_last(), "kExpression"@));
    }
}

/// The delay of a net that is accepted has one to three values, so that it can be
/// lowered. A group is taken to start with its parenthesis.
pub proof fn accepted_net_delays_are_complete(d: NodeV)
    requires
        net_delay_offender(d) is None,
        found(d, "kParenGroup"@) matches Some(group) ==> group.kids.len() > 0 && group.kids[0].tag
            == "("@,
    ensures
        delay_complete(d),
{
    reveal_strlit("(");
    reveal_strlit("kExpression");
    reveal_strlit("kUntagged");
    assert("("@.len() == 1 && "kExpression"@.len() == 11 && "kUntagged"@.len() == 9);
    if found(d, "kDelayValue"@) is None {
        let group = found(d, "kParenGroup"@)->0;
        let body = group.kids[1];
        assert(group.kids.drop_first()[0] == body);
        reveal_with_fuel(delay_body, 2);
        assert(delay_body(group.kids) == Some(body));
        if body.tag == "kUntagged"@ {
            let k = if body.kids.len() == 3 {
                1int
            } else {
                2int
            };
            lemma_separated_tagged(body.kids, k);
            assert(body.kids.take(2 * k + 1) =~= body.kids);
        }
    }
}

// ---- lowering -------------------------------------------------------------------------

/// Lowering items one after the other gives what they lower to, one after the
/// other.
pub proof fn items_lower_in_order(a: Seq<NodeV>, b: Seq<NodeV>, marks: Seq<StrengthMark>)
    ensures
        lowered_items(a + b, marks) == lowered_items(a, marks) + lowered_items(b, marks),
    decreases b.len(),
{
    if b.len() == 0 {
        assert(a + b =~= a);
        assert(lowered_items(a, marks) + lowered_items(b, marks) =~= lowered_items(a, marks));
    } else {
        items_lower_in_order(a, b.drop_last(), marks);
        assert((a + b).drop_last() =~= a + b.drop_last());
        assert((a + b).last() == b.last());
        assert(lowered_items(a + b, marks) =~= lowered_items(a, marks) + lowered_items(b, marks));
    }
}

/// Whether a tree is a member of an enumeration without a value.
pub open spec fn bare_member(n: NodeV) -> bool {
    &&& n.tag == "kEnumName"@
    &&& identifier(Some(n)) is Some
    &&& (identifier(Some(n))->0).len() > 0
    &&& found(n, "kTrailingAssign"@) is None
}

proof fn lemma_next_number(n: int)
    ensures
        successor(bits_of(n, 32)) == bits_of(n + 1, 32),
{
    let m = value(bits_of(n, 32)) as int;
    lemma2_to64();
    lemma2_to64_rest();
    lemma_bits_of_value(n, 32);
    lemma_bits_of_value(1, 32);
    lemma_add_mod_noop(n, 1, pow2(32) as int);
    lemma_bits_of_mod(m + 1, n + 1, 32);
}

/// The members of an enumeration that writes no values count up from zero.
pub proof fn bare_members_count_from_zero(ns: Seq<NodeV>, i: int)
    requires
        forall|k: int| 0 <= k < ns.len() ==> bare_member(#[trigger] ns[k]),
        0 <= i < ns.len(),
    ensures
        enum_fold(ns).0.len() == ns.len(),
        enum_fold(ns).0[i] == (identifier(Some(ns[i]))->0, bits_of(i, 32)),
        enum_fold(ns).1 == bits_of(ns.len() as int, 32),
    decreases ns.len(),
{
    let rest = ns.drop_last();
    assert(bare_member(ns[ns.len() - 1]));
    assert forall|k: int| 0 <= k < rest.len() implies bare_member(#[trigger] rest[k]) by {
        assert(rest[k] == ns[k]);
    }
    if rest.len() > 0 {
        let k = if i < rest.len() {
            i
        } else {
            0
        };
        bare_members_count_from_zero(rest, k);
        assert(rest[k] == ns[k]);
    } else {
        assert(enum_fold(rest).0 =~= Seq::empty());
    }
    lemma_next_number(rest.len() as int);
}

} // verus!
