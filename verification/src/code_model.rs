//! What holds of code: how often a label is bound, and where jumps go.
use vstd::prelude::*;

use crate::ir::{emit, no_code, with_label, with_reg, Code, InstV, ProgramV};

verus! {

/// How often a label is bound.
pub open spec fn binds(s: Seq<InstV>, l: u32) -> nat
    decreases s.len(),
{
    if s.len() == 0 {
        0
    } else {
        binds(s.drop_last(), l) + (if s.last() == (InstV::Bind { label: l }) {
            1nat
        } else {
            0nat
        })
    }
}

/// The label that an instruction speaks of.
pub open spec fn label_of(i: InstV) -> Option<u32> {
    match i {
        InstV::Bind { label } => Some(label),
        InstV::Jump { label } => Some(label),
        InstV::BranchFalse { cond, label } => Some(label),
        InstV::BranchTrue { cond, label } => Some(label),
        InstV::BranchArgProvided { formal, label } => Some(label),
        _ => None,
    }
}

/// Whether instructions speak only of labels below a number.
pub open spec fn labels_below(s: Seq<InstV>, labels: u32) -> bool {
    forall|k: int|
        0 <= k < s.len() && label_of(#[trigger] s[k]) is Some ==> label_of(s[k])->0 < labels
}

/// Whether only labels that were handed out are bound or jumped to.
pub open spec fn sound(b: Code) -> bool {
    &&& forall|l: u32| b.labels <= l ==> #[trigger] binds(b.insts, l) == 0
    &&& labels_below(b.insts, b.labels)
}

/// Whether code was added to code, and each label that was handed out meanwhile is
/// bound once, but for some that are still owed.
#[verifier::opaque]
pub open spec fn owes(a: Code, b: Code, owed: Set<u32>) -> bool {
    &&& a.insts.len() <= b.insts.len()
    &&& b.insts.take(a.insts.len() as int) == a.insts
    &&& a.regs <= b.regs
    &&& a.labels <= b.labels
    &&& a.full ==> b.full
    &&& !b.full && sound(a) ==> {
        &&& sound(b)
        &&& forall|l: u32| owed.contains(l) ==> a.labels <= l < b.labels
        &&& forall|l: u32|
            #[trigger] binds(b.insts, l) == (if owed.contains(l) {
                0
            } else if a.labels <= l < b.labels {
                1
            } else {
                binds(a.insts, l)
            })
    }
}

/// Whether code was added to code, and each label that was handed out meanwhile is
/// bound once.
pub open spec fn linked(a: Code, b: Code) -> bool {
    owes(a, b, Set::empty())
}

/// Whether each label of a program is bound once and each jump goes to one.
pub open spec fn program_linked(p: ProgramV) -> bool {
    &&& forall|l: u32| l < p.labels ==> #[trigger] binds(p.code, l) == 1
    &&& labels_below(p.code, p.labels)
}

proof fn lemma_binds_push(s: Seq<InstV>, i: InstV, l: u32)
    ensures
        binds(s.push(i), l) == binds(s, l) + (if i == (InstV::Bind { label: l }) {
            1nat
        } else {
            0nat
        }),
{
    assert(s.push(i).drop_last() =~= s);
}

/// Nothing added.
pub proof fn lemma_same(a: Code)
    ensures
        linked(a, a),
{
    reveal(owes);
    assert(a.insts.take(a.insts.len() as int) =~= a.insts);
}

/// More code behind code.
pub proof fn lemma_then(a: Code, b: Code, c: Code, owed: Set<u32>)
    requires
        owes(a, b, owed),
        linked(b, c),
    ensures
        owes(a, c, owed),
{
    reveal(owes);
    assert(c.insts.take(a.insts.len() as int) =~= c.insts.take(b.insts.len() as int).take(
        a.insts.len() as int,
    ));
    if !c.full && sound(a) {
        assert forall|l: u32| #[trigger] binds(c.insts, l) == (if owed.contains(l) {
            0
        } else if a.labels <= l < c.labels {
            1
        } else {
            binds(a.insts, l)
        }) by {
            assert(binds(b.insts, l) == binds(b.insts, l));
        }
    }
}

/// Code behind code is code.
pub broadcast proof fn lemma_chain(a: Code, b: Code, c: Code)
    requires
        #[trigger] linked(a, b),
        #[trigger] linked(b, c),
    ensures
        linked(a, c),
{
    lemma_then(a, b, c, Set::empty());
}

/// A new register.
pub broadcast proof fn lemma_reg(b: Code)
    ensures
        linked(b, #[trigger] with_reg(b)),
{
    reveal(owes);
    assert(b.insts.take(b.insts.len() as int) =~= b.insts);
}

/// An instruction that speaks of no label.
pub broadcast proof fn lemma_emit(b: Code, i: InstV)
    requires
        label_of(i) is None,
    ensures
        linked(b, #[trigger] emit(b, i)),
{
    lemma_emit_jump(b, i);
}

/// An instruction that jumps to a label that was handed out.
pub proof fn lemma_emit_jump(b: Code, i: InstV)
    requires
        label_of(i) is Some ==> b.full || label_of(i)->0 < b.labels,
        i !is Bind,
    ensures
        linked(b, emit(b, i)),
{
    reveal(owes);
    let c = emit(b, i);
    assert(c.insts.take(b.insts.len() as int) =~= b.insts);
    if !c.full && sound(b) {
        assert forall|l: u32| #[trigger] binds(c.insts, l) == binds(b.insts, l) by {
            lemma_binds_push(b.insts, i, l);
        }
        assert forall|k: int|
            0 <= k < c.insts.len() && label_of(#[trigger] c.insts[k]) is Some implies label_of(
            c.insts[k],
        )->0 < c.labels by {
            if k < b.insts.len() {
                assert(c.insts[k] == b.insts[k]);
            }
        }
    }
}

/// A new label, which is owed.
pub proof fn lemma_label(a: Code, b: Code, owed: Set<u32>)
    requires
        owes(a, b, owed),
    ensures
        owes(a, with_label(b), owed.insert(b.labels)),
{
    reveal(owes);
    let c = with_label(b);
    if !c.full && sound(a) {
        assert forall|l: u32| c.labels <= l implies #[trigger] binds(c.insts, l) == 0 by {
            assert(binds(b.insts, l) == 0);
        }
        assert(binds(b.insts, b.labels) == 0);
        assert forall|k: int|
            0 <= k < c.insts.len() && label_of(#[trigger] c.insts[k]) is Some implies label_of(
            c.insts[k],
        )->0 < c.labels by {
            assert(b.insts[k] == c.insts[k]);
        }
        assert forall|l: u32|
            #[trigger] binds(c.insts, l) == (if owed.insert(b.labels).contains(l) {
                0
            } else if a.labels <= l < c.labels {
                1
            } else {
                binds(a.insts, l)
            }) by {
            assert(binds(b.insts, l) == binds(c.insts, l));
        }
    }
}

/// An owed label is bound.
pub proof fn lemma_bind(a: Code, b: Code, owed: Set<u32>, l: u32)
    requires
        owes(a, b, owed),
        b.full || owed.contains(l),
    ensures
        owes(a, emit(b, InstV::Bind { label: l }), owed.remove(l)),
{
    reveal(owes);
    let i = InstV::Bind { label: l };
    let c = emit(b, i);
    assert(c.insts.take(a.insts.len() as int) =~= b.insts.take(a.insts.len() as int));
    if !c.full && sound(a) {
        assert forall|k: u32| #[trigger] binds(c.insts, k) == binds(b.insts, k) + (if k == l {
            1nat
        } else {
            0nat
        }) by {
            lemma_binds_push(b.insts, i, k);
        }
        assert forall|k: int|
            0 <= k < c.insts.len() && label_of(#[trigger] c.insts[k]) is Some implies label_of(
            c.insts[k],
        )->0 < c.labels by {
            if k < b.insts.len() {
                assert(c.insts[k] == b.insts[k]);
            }
        }
        assert(owed.contains(l));
        assert(binds(b.insts, l) == 0);
    }
}

/// A jump to a label that is owed, or that a loop around owes.
pub proof fn lemma_jump(a: Code, b: Code, owed: Set<u32>, i: InstV)
    requires
        owes(a, b, owed),
        label_of(i) is Some,
        i !is Bind,
        b.full || label_of(i)->0 < b.labels,
    ensures
        owes(a, emit(b, i), owed),
{
    lemma_emit_jump(b, i);
    lemma_then(a, b, emit(b, i), owed);
}

/// Code only grows.
pub proof fn lemma_grows(b: Code, c: Code, owed: Set<u32>)
    requires
        owes(b, c, owed),
    ensures
        b.labels <= c.labels,
        b.full ==> c.full,
        b.regs <= c.regs,
        b.insts.len() <= c.insts.len(),
        c.insts.take(b.insts.len() as int) == b.insts,
{
    reveal(owes);
}

/// Code that was started from nothing is a program in which each label is bound
/// once.
pub proof fn lemma_program(b: Code)
    requires
        linked(no_code(), b),
        !b.full,
    ensures
        forall|l: u32| l < b.labels ==> #[trigger] binds(b.insts, l) == 1,
        labels_below(b.insts, b.labels),
{
    reveal(owes);
}

pub broadcast group group_code {
    lemma_chain,
    lemma_reg,
    lemma_emit,
}

} // verus!
