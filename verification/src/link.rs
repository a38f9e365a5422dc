//! Laying out all classes of a design, each after its base.
use vstd::prelude::*;

use crate::ast::{const_views, views, ClassDecl, ParamDecl};
use crate::ast_model::{ClassDeclV, ParamDeclV};
use crate::class_layout::{
    build_class_info, class_layout, default_class, ClassFids, ClassFidsV,
};
use crate::const_fold::{Consts, Made};
use crate::ir::{Value, ValueV};
use crate::layout::{class_views, first_of, value_views, ClassInfo, ClassInfoV, CollInfo};
use crate::logic::LogicVec;
use crate::table::{lookup, put, removed, Table};
use crate::text::str_eq;

verus! {

/// What classes are laid out from.
pub struct Plan<'a> {
    pub classes: &'a Vec<ClassDecl>,
    pub fids: &'a Vec<ClassFids>,
    pub ids: &'a Table<u32>,
    pub consts: &'a Vec<(String, LogicVec)>,
}

/// The mathematical form of a [`Plan`].
pub struct PlanV {
    pub classes: Seq<ClassDeclV>,
    pub fids: Seq<ClassFidsV>,
    pub ids: Seq<(Seq<char>, u32)>,
    pub consts: Consts,
}

impl<'a> View for Plan<'a> {
    type V = PlanV;

    open spec fn view(&self) -> PlanV {
        PlanV {
            classes: views(self.classes@),
            fids: views(self.fids@),
            ids: self.ids@,
            consts: const_views(self.consts@),
        }
    }
}

/// The classes laid out so far, and the initial values of the shared storage.
pub struct LayingV {
    pub built: Seq<Option<ClassInfoV>>,
    pub statics: Seq<ValueV>,
}

/// The mathematical form of a layout, if there is one.
pub open spec fn built_view(o: Option<ClassInfo>) -> Option<ClassInfoV> {
    match o {
        Some(c) => Some(c@),
        None => None,
    }
}

/// The mathematical form of layouts.
pub open spec fn built_views(s: Seq<Option<ClassInfo>>) -> Seq<Option<ClassInfoV>> {
    s.map_values(|o: Option<ClassInfo>| built_view(o))
}

/// The mathematical form of the layouts and the shared storage.
pub open spec fn laying(built: Seq<Option<ClassInfo>>, statics: Seq<Value>) -> LayingV {
    LayingV { built: built_views(built), statics: value_views(statics) }
}

// ---- bases ----------------------------------------------------------------------------

/// The first type parameter of a name.
pub open spec fn type_param(params: Seq<ParamDeclV>, name: Seq<char>) -> Option<ParamDeclV>
    decreases params.len(),
{
    if params.len() == 0 {
        None
    } else if params[0].is_type && params[0].name == name {
        Some(params[0])
    } else {
        type_param(params.drop_first(), name)
    }
}

/// The class that a class extends: the class of that name, or the default of the
/// type parameter of that name. No class extends itself.
pub open spec fn base_number(d: ClassDeclV, cid: nat, ids: Seq<(Seq<char>, u32)>) -> Option<u32> {
    let base = match d.base {
        Some(name) => first_of(
            lookup(ids, name),
            match type_param(d.params, name) {
                Some(p) => default_class(p, ids),
                None => None,
            },
        ),
        None => None,
    };
    match base {
        Some(id) => if id == cid {
            None
        } else {
            base
        },
        None => None,
    }
}

/// The first type parameter of a name.
fn find_type_param<'a>(params: &'a Vec<ParamDecl>, name: &str) -> (r: Option<&'a ParamDecl>)
    ensures
        match r {
            Some(p) => type_param(views(params@), name@) == Some(p@),
            None => type_param(views(params@), name@) is None,
        },
{
    let ghost all = views(params@);
    let mut i: usize = 0;
    assert(all.skip(0) =~= all);
    while i < params.len()
        invariant
            i <= params@.len(),
            all == views(params@),
            type_param(all, name@) == type_param(all.skip(i as int), name@),
        decreases params@.len() - i,
    {
        assert(all.skip(i as int)[0] == params@[i as int]@);
        assert(all.skip(i as int).drop_first() =~= all.skip(i + 1));
        if params[i].is_type && str_eq(params[i].name.as_str(), name) {
            return Some(&params[i]);
        }
        i = i + 1;
    }
    None
}

/// The class that a class extends.
fn base_id(d: &ClassDecl, cid: usize, ids: &Table<u32>) -> (r: Option<u32>)
    ensures
        r == base_number(d@, cid as nat, ids@),
{
    let name: &String = match &d.base {
        Some(name) => name,
        None => {
            return None;
        },
    };
    let base: Option<u32> = match ids.get(name.as_str()) {
        Some(id) => Some(id),
        None => match find_type_param(&d.params, name.as_str()) {
            Some(p) => match &p.default {
                Some(class) => if p.is_type {
                    ids.get(class.as_str())
                } else {
                    None
                },
                None => None,
            },
            None => None,
        },
    };
    match base {
        Some(id) => if id as usize == cid {
            None
        } else {
            Some(id)
        },
        None => None,
    }
}

// ---- sweeps -----------------------------------------------------------------------------

/// The layouts with one more class.
pub open spec fn with_laid(
    p: PlanV,
    st: LayingV,
    cid: int,
    base: Option<(u32, ClassInfoV)>,
) -> Made<LayingV> {
    match class_layout(p.classes[cid], base, p.fids[cid], p.ids, p.consts, st.statics) {
        Err(m) => Err(m),
        Ok((c, statics)) => Ok(LayingV { built: st.built.update(cid, Some(c)), statics }),
    }
}

/// Lay out a class if that has not been done and its base, if it has one, is laid
/// out.
pub open spec fn step(p: PlanV, st: LayingV, cid: int) -> Made<LayingV> {
    if st.built[cid] is Some {
        Ok(st)
    } else {
        match base_number(p.classes[cid], cid as nat, p.ids) {
            None => with_laid(p, st, cid, None),
            Some(id) => if id < st.built.len() && st.built[id as int] is Some {
                with_laid(p, st, cid, Some((id, st.built[id as int]->0)))
            } else {
                Ok(st)
            },
        }
    }
}

/// Go through the first classes once.
pub open spec fn sweep(p: PlanV, st: LayingV, n: nat) -> Made<LayingV>
    decreases n,
{
    if n == 0 {
        Ok(st)
    } else {
        match sweep(p, st, (n - 1) as nat) {
            Err(m) => Err(m),
            Ok(s) => step(p, s, n - 1),
        }
    }
}

/// Go through all classes a number of times.
pub open spec fn sweeps(p: PlanV, st: LayingV, k: nat) -> Made<LayingV>
    decreases k,
{
    if k == 0 {
        Ok(st)
    } else {
        match sweeps(p, st, (k - 1) as nat) {
            Err(m) => Err(m),
            Ok(s) => sweep(p, s, p.classes.len()),
        }
    }
}

/// Lay out the classes that are left as if they had no base: theirs is missing,
/// or it is a class that extends them.
pub open spec fn leftovers(p: PlanV, st: LayingV, n: nat) -> Made<LayingV>
    decreases n,
{
    if n == 0 {
        Ok(st)
    } else {
        match leftovers(p, st, (n - 1) as nat) {
            Err(m) => Err(m),
            Ok(s) => if s.built[n - 1] is Some {
                Ok(s)
            } else {
                with_laid(p, s, n - 1, None)
            },
        }
    }
}

/// No class laid out yet.
pub open spec fn unlaid(n: nat) -> Seq<Option<ClassInfoV>> {
    Seq::new(n, |i: int| None)
}

/// The layouts of all classes, and the initial values of the shared storage. As
/// many sweeps as there are classes lay out every class whose base can be.
#[verifier::opaque]
pub open spec fn layouts(p: PlanV, statics: Seq<ValueV>) -> Made<(Seq<ClassInfoV>, Seq<ValueV>)> {
    let n = p.classes.len();
    match sweeps(p, LayingV { built: unlaid(n), statics }, n) {
        Err(m) => Err(m),
        Ok(st) => match leftovers(p, st, n) {
            Err(m) => Err(m),
            Ok(done) => Ok(
                (done.built.map_values(|o: Option<ClassInfoV>| o->0), done.statics),
            ),
        },
    }
}

/// Whether laying out gave what it is to give.
pub open spec fn stepped(r: Result<bool, String>, before: LayingV, after: LayingV, want: Made<LayingV>) -> bool {
    match r {
        Ok(changed) => want == Ok::<LayingV, Seq<char>>(after) && (!changed ==> after == before),
        Err(m) => want == Err::<LayingV, Seq<char>>(m@),
    }
}

/// Lay out a class.
fn lay(
    p: &Plan,
    built: &mut Vec<Option<ClassInfo>>,
    statics: &mut Vec<Value>,
    cid: usize,
    base: Option<u32>,
) -> (r: Result<bool, String>)
    requires
        cid < p.classes@.len(),
        p.fids@.len() == p.classes@.len(),
        old(built)@.len() == p.classes@.len(),
        match base {
            Some(id) => id < old(built)@.len() && old(built)@[id as int] is Some,
            None => true,
        },
    ensures
        final(built)@.len() == old(built)@.len(),
        r is Ok ==> final(built)@[cid as int] is Some,
        r is Ok ==> forall|i: int|
            0 <= i < final(built)@.len() && i != cid ==> final(built)@[i] == old(built)@[i],
        stepped(
            r,
            laying(old(built)@, old(statics)@),
            laying(final(built)@, final(statics)@),
            with_laid(
                p@,
                laying(old(built)@, old(statics)@),
                cid as int,
                match base {
                    Some(id) => Some((id, built_views(old(built)@)[id as int]->0)),
                    None => None,
                },
            ),
        ),
{
    let ghost before = built@;
    assert(views(p.classes@)[cid as int] == p.classes@[cid as int]@);
    assert(views(p.fids@)[cid as int] == p.fids@[cid as int]@);
    let of: Option<(u32, &ClassInfo)> = match base {
        Some(id) => match &built[id as usize] {
            Some(b) => {
                assert(built_views(before)[id as int] == Some(b@));
                Some((id, b))
            },
            None => None,
        },
        None => None,
    };
    let c: ClassInfo = match build_class_info(
        &p.classes[cid],
        of,
        &p.fids[cid],
        p.ids,
        p.consts,
        statics,
    ) {
        Ok(c) => c,
        Err(m) => {
            return Err(m);
        },
    };
    built.set(cid, Some(c));
    assert(built_views(built@) =~= built_views(before).update(cid as int, Some(c@)));
    Ok(true)
}

/// Lay out a class if its base is.
fn lay_step(
    p: &Plan,
    built: &mut Vec<Option<ClassInfo>>,
    statics: &mut Vec<Value>,
    cid: usize,
) -> (r: Result<bool, String>)
    requires
        cid < p.classes@.len(),
        p.fids@.len() == p.classes@.len(),
        old(built)@.len() == p.classes@.len(),
    ensures
        final(built)@.len() == old(built)@.len(),
        stepped(
            r,
            laying(old(built)@, old(statics)@),
            laying(final(built)@, final(statics)@),
            step(p@, laying(old(built)@, old(statics)@), cid as int),
        ),
{
    assert(built_views(built@)[cid as int] == built_view(built@[cid as int]));
    assert(views(p.classes@)[cid as int] == p.classes@[cid as int]@);
    if built[cid].is_some() {
        return Ok(false);
    }
    match base_id(&p.classes[cid], cid, p.ids) {
        None => lay(p, built, statics, cid, None),
        Some(id) => {
            if (id as usize) < built.len() {
                assert(built_views(built@)[id as int] == built_view(built@[id as int]));
                if built[id as usize].is_some() {
                    return lay(p, built, statics, cid, Some(id));
                }
            }
            Ok(false)
        },
    }
}

/// A sweep fails as its first failing step does.
proof fn lemma_sweep_error(p: PlanV, st: LayingV, k: nat, n: nat)
    requires
        k <= n,
        sweep(p, st, k) is Err,
    ensures
        sweep(p, st, n) == sweep(p, st, k),
    decreases n,
{
    if k < n {
        lemma_sweep_error(p, st, k, (n - 1) as nat);
    }
}

/// Sweeps fail as the first failing one does.
proof fn lemma_sweeps_error(p: PlanV, st: LayingV, k: nat, n: nat)
    requires
        k <= n,
        sweeps(p, st, k) is Err,
    ensures
        sweeps(p, st, n) == sweeps(p, st, k),
    decreases n,
{
    if k < n {
        lemma_sweeps_error(p, st, k, (n - 1) as nat);
    }
}

/// After a sweep that changes nothing no sweep does.
proof fn lemma_settled(p: PlanV, st: LayingV, s: LayingV, k: nat, n: nat)
    requires
        k <= n,
        sweeps(p, st, k) == Ok::<LayingV, Seq<char>>(s),
        sweep(p, s, p.classes.len()) == Ok::<LayingV, Seq<char>>(s),
    ensures
        sweeps(p, st, n) == Ok::<LayingV, Seq<char>>(s),
    decreases n,
{
    if k < n {
        lemma_settled(p, st, s, k, (n - 1) as nat);
    }
}

/// Go through all classes once.
fn lay_sweep(p: &Plan, built: &mut Vec<Option<ClassInfo>>, statics: &mut Vec<Value>) -> (r: Result<
    bool,
    String,
>)
    requires
        p.fids@.len() == p.classes@.len(),
        old(built)@.len() == p.classes@.len(),
    ensures
        final(built)@.len() == old(built)@.len(),
        stepped(
            r,
            laying(old(built)@, old(statics)@),
            laying(final(built)@, final(statics)@),
            sweep(p@, laying(old(built)@, old(statics)@), p.classes@.len()),
        ),
{
    let ghost start = laying(built@, statics@);
    let mut changed: bool = false;
    let mut i: usize = 0;
    while i < p.classes.len()
        invariant
            i <= p.classes@.len(),
            p.fids@.len() == p.classes@.len(),
            built@.len() == p.classes@.len(),
            built@.len() == old(built)@.len(),
            start == laying(old(built)@, old(statics)@),
            sweep(p@, start, i as nat) == Ok::<LayingV, Seq<char>>(laying(built@, statics@)),
            !changed ==> laying(built@, statics@) == start,
        decreases p.classes@.len() - i,
    {
        match lay_step(p, built, statics, i) {
            Ok(more) => {
                changed = changed || more;
            },
            Err(m) => {
                proof {
                    lemma_sweep_error(p@, start, (i + 1) as nat, p.classes@.len());
                }
                return Err(m);
            },
        }
        i = i + 1;
    }
    Ok(changed)
}

/// Lay out the classes that are left as if they had no base.
fn lay_leftovers(p: &Plan, built: &mut Vec<Option<ClassInfo>>, statics: &mut Vec<Value>) -> (r: Result<
    (),
    String,
>)
    requires
        p.fids@.len() == p.classes@.len(),
        old(built)@.len() == p.classes@.len(),
    ensures
        final(built)@.len() == old(built)@.len(),
        match r {
            Ok(_) => leftovers(
                p@,
                laying(old(built)@, old(statics)@),
                p.classes@.len(),
            ) == Ok::<LayingV, Seq<char>>(laying(final(built)@, final(statics)@)) && forall|i: int|
                0 <= i < final(built)@.len() ==> (#[trigger] final(built)@[i]) is Some,
            Err(m) => leftovers(p@, laying(old(built)@, old(statics)@), p.classes@.len()) == Err::<
                LayingV,
                Seq<char>,
            >(m@),
        },
{
    let ghost start = laying(built@, statics@);
    let mut i: usize = 0;
    while i < p.classes.len()
        invariant
            i <= p.classes@.len(),
            p.fids@.len() == p.classes@.len(),
            built@.len() == p.classes@.len(),
            built@.len() == old(built)@.len(),
            start == laying(old(built)@, old(statics)@),
            leftovers(p@, start, i as nat) == Ok::<LayingV, Seq<char>>(laying(built@, statics@)),
            forall|j: int| 0 <= j < i ==> (#[trigger] built@[j]) is Some,
        decreases p.classes@.len() - i,
    {
        let ghost before = built@;
        assert(built_views(built@)[i as int] == built_view(built@[i as int]));
        if built[i].is_none() {
            if let Err(m) = lay(p, built, statics, i, None) {
                proof {
                    lemma_leftovers_error(p@, start, (i + 1) as nat, p.classes@.len());
                }
                return Err(m);
            }
            assert forall|j: int| 0 <= j < i + 1 implies (#[trigger] built@[j]) is Some by {
                if j < i {
                    assert(before[j] is Some);
                }
            }
        }
        i = i + 1;
    }
    Ok(())
}

/// Laying out what is left fails as its first failing prefix does.
proof fn lemma_leftovers_error(p: PlanV, st: LayingV, k: nat, n: nat)
    requires
        k <= n,
        leftovers(p, st, k) is Err,
    ensures
        leftovers(p, st, n) == leftovers(p, st, k),
    decreases n,
{
    if k < n {
        lemma_leftovers_error(p, st, k, (n - 1) as nat);
    }
}

/// The layouts, all of which are there.
fn all_built(built: Vec<Option<ClassInfo>>) -> (r: Vec<ClassInfo>)
    requires
        forall|i: int| 0 <= i < built@.len() ==> (#[trigger] built@[i]) is Some,
    ensures
        class_views(r@) == built_views(built@).map_values(|o: Option<ClassInfoV>| o->0),
{
    let ghost all = built_views(built@).map_values(|o: Option<ClassInfoV>| o->0);
    let ghost start = built@;
    let mut built: Vec<Option<ClassInfo>> = built;
    let mut out: Vec<ClassInfo> = Vec::new();
    let mut i: usize = 0;
    assert(class_views(out@) =~= all.take(0));
    while i < built.len()
        invariant
            i <= built@.len(),
            built@.len() == start.len(),
            all == built_views(start).map_values(|o: Option<ClassInfoV>| o->0),
            forall|k: int| 0 <= k < start.len() ==> (#[trigger] start[k]) is Some,
            forall|k: int| i <= k < start.len() ==> (#[trigger] built@[k]) == start[k],
            class_views(out@) == all.take(i as int),
        decreases built@.len() - i,
    {
        let ghost before = out@;
        assert(start[i as int] is Some);
        assert(built@[i as int] == start[i as int]);
        if let Some(c) = built[i].take() {
            assert(built_views(start)[i as int] == Some(c@));
            out.push(c);
            assert(class_views(out@) =~= class_views(before).push(c@));
        }
        i = i + 1;
        assert(all.take(i as int) =~= all.take(i as int - 1).push(all[i as int - 1]));
    }
    assert(all.take(i as int) =~= all);
    out
}

/// Lay out all classes.
pub fn lay_out(p: &Plan, statics: &mut Vec<Value>) -> (r: Result<Vec<ClassInfo>, String>)
    requires
        p.fids@.len() == p.classes@.len(),
    ensures
        match r {
            Ok(classes) => layouts(p@, value_views(old(statics)@)) == Ok::<
                (Seq<ClassInfoV>, Seq<ValueV>),
                Seq<char>,
            >((class_views(classes@), value_views(final(statics)@))),
            Err(m) => layouts(p@, value_views(old(statics)@)) == Err::<
                (Seq<ClassInfoV>, Seq<ValueV>),
                Seq<char>,
            >(m@),
        },
{
    reveal(layouts);
    let n: usize = p.classes.len();
    let mut built: Vec<Option<ClassInfo>> = Vec::new();
    let mut i: usize = 0;
    while i < n
        invariant
            i <= n,
            built@.len() == i,
            forall|k: int| 0 <= k < i ==> (#[trigger] built@[k]) is None,
        decreases n - i,
    {
        built.push(None);
        i = i + 1;
    }
    let ghost start = laying(built@, statics@);
    assert(start.built =~= unlaid(n as nat));
    let mut k: usize = 0;
    let mut more: bool = true;
    while k < n && more
        invariant
            k <= n,
            n == p.classes@.len(),
            p.fids@.len() == p.classes@.len(),
            built@.len() == n,
            start == (LayingV { built: unlaid(n as nat), statics: value_views(old(statics)@) }),
            layouts(p@, value_views(old(statics)@)) == (match sweeps(p@, start, n as nat) {
                Err(m) => Err(m),
                Ok(st) => match leftovers(p@, st, n as nat) {
                    Err(m) => Err(m),
                    Ok(done) => Ok(
                        (done.built.map_values(|o: Option<ClassInfoV>| o->0), done.statics),
                    ),
                },
            }),
            sweeps(p@, start, k as nat) == Ok::<LayingV, Seq<char>>(laying(built@, statics@)),
            !more ==> sweeps(p@, start, n as nat) == Ok::<LayingV, Seq<char>>(
                laying(built@, statics@),
            ),
        decreases n - k,
    {
        let ghost before = laying(built@, statics@);
        match lay_sweep(p, &mut built, statics) {
            Ok(changed) => {
                more = changed;
                proof {
                    if !changed {
                        lemma_settled(p@, start, before, k as nat, n as nat);
                    }
                }
            },
            Err(m) => {
                proof {
                    lemma_sweeps_error(p@, start, (k + 1) as nat, n as nat);
                }
                return Err(m);
            },
        }
        k = k + 1;
    }
    if let Err(m) = lay_leftovers(p, &mut built, statics) {
        return Err(m);
    }
    Ok(all_built(built))
}

// ---- aliases that mean the same everywhere ------------------------------------------------

/// Values that can be told apart.
pub trait Same: Copy {
    /// Whether two values are equal.
    fn same(self, other: Self) -> (r: bool)
        ensures
            r == (self == other),
    ;
}

impl Same for u32 {
    fn same(self, other: u32) -> (r: bool) {
        self == other
    }
}

impl Same for CollInfo {
    fn same(self, other: CollInfo) -> (r: bool) {
        self == other
    }
}

/// The aliases that mean one thing so far, and those that mean several.
pub struct Agreed<V> {
    pub one: Seq<(Seq<char>, V)>,
    pub several: Seq<(Seq<char>, ())>,
}

/// The agreement with one more alias.
pub open spec fn agree_one<V>(a: Agreed<V>, alias: Seq<char>, v: V) -> Agreed<V> {
    if lookup(a.several, alias) is Some {
        a
    } else {
        match lookup(a.one, alias) {
            None => Agreed { one: put(a.one, alias, v), ..a },
            Some(old_v) => if old_v == v {
                a
            } else {
                Agreed { one: removed(a.one, alias), several: put(a.several, alias, ()) }
            },
        }
    }
}

/// The agreement with the aliases of one more class.
pub open spec fn agree_all<V>(a: Agreed<V>, aliases: Seq<(Seq<char>, V)>) -> Agreed<V>
    decreases aliases.len(),
{
    if aliases.len() == 0 {
        a
    } else {
        agree_one(agree_all(a, aliases.drop_last()), aliases.last().0, aliases.last().1)
    }
}

/// The agreement of classes, each with its aliases.
pub open spec fn agreed<V>(classes: Seq<Seq<(Seq<char>, V)>>) -> Agreed<V>
    decreases classes.len(),
{
    if classes.len() == 0 {
        Agreed { one: Seq::empty(), several: Seq::empty() }
    } else {
        agree_all(agreed(classes.drop_last()), classes.last())
    }
}

/// Note the aliases of one more class.
fn note_aliases<V: Same>(one: &mut Table<V>, several: &mut Table<()>, aliases: &Table<V>)
    ensures
        (Agreed { one: final(one)@, several: final(several)@ }) == agree_all(
            Agreed { one: old(one)@, several: old(several)@ },
            aliases@,
        ),
{
    let ghost all = aliases@;
    let ghost start = Agreed { one: one@, several: several@ };
    let mut i: usize = 0;
    assert(all.len() == aliases.entries@.len());
    while i < aliases.entries.len()
        invariant
            i <= aliases.entries@.len(),
            all == aliases@,
            all.len() == aliases.entries@.len(),
            (Agreed { one: one@, several: several@ }) == agree_all(start, all.take(i as int)),
        decreases aliases.entries@.len() - i,
    {
        let ghost upto = all.take(i + 1);
        assert(upto.drop_last() =~= all.take(i as int));
        assert(upto.last() == all[i as int]);
        assert(all[i as int].0 == aliases.entries@[i as int].0@);
        let alias: &String = &aliases.entries[i].0;
        let v: V = aliases.entries[i].1;
        if !several.has(alias.as_str()) {
            match one.get(alias.as_str()) {
                None => {
                    one.insert(alias.clone(), v);
                },
                Some(before) => {
                    if !before.same(v) {
                        one.remove(alias.as_str());
                        several.insert(alias.clone(), ());
                    }
                },
            }
        }
        i = i + 1;
    }
    assert(all.take(i as int) =~= all);
}

/// The type aliases of classes.
pub open spec fn type_aliases_of(classes: Seq<ClassInfoV>) -> Seq<Seq<(Seq<char>, u32)>> {
    classes.map_values(|c: ClassInfoV| c.type_aliases)
}

/// The collection aliases of classes.
pub open spec fn collection_aliases_of(classes: Seq<ClassInfoV>) -> Seq<
    Seq<(Seq<char>, CollInfo)>,
> {
    classes.map_values(|c: ClassInfoV| c.collection_aliases)
}

/// The type aliases that mean the same in every class that has them, and the
/// collection aliases that do.
pub fn shared_aliases(classes: &Vec<ClassInfo>) -> (r: (Table<u32>, Table<CollInfo>))
    ensures
        r.0@ == agreed(type_aliases_of(class_views(classes@))).one,
        r.1@ == agreed(collection_aliases_of(class_views(classes@))).one,
{
    let ghost types = type_aliases_of(class_views(classes@));
    let ghost colls = collection_aliases_of(class_views(classes@));
    let mut one: Table<u32> = Table::new();
    let mut several: Table<()> = Table::new();
    let mut one_coll: Table<CollInfo> = Table::new();
    let mut several_coll: Table<()> = Table::new();
    let mut i: usize = 0;
    assert(types.take(0) =~= Seq::empty());
    assert(colls.take(0) =~= Seq::empty());
    while i < classes.len()
        invariant
            i <= classes@.len(),
            types == type_aliases_of(class_views(classes@)),
            colls == collection_aliases_of(class_views(classes@)),
            (Agreed { one: one@, several: several@ }) == agreed(types.take(i as int)),
            (Agreed { one: one_coll@, several: several_coll@ }) == agreed(colls.take(i as int)),
        decreases classes@.len() - i,
    {
        assert(class_views(classes@)[i as int] == classes@[i as int]@);
        assert(types.take(i + 1).drop_last() =~= types.take(i as int));
        assert(colls.take(i + 1).drop_last() =~= colls.take(i as int));
        note_aliases(&mut one, &mut several, &classes[i].type_aliases);
        note_aliases(&mut one_coll, &mut several_coll, &classes[i].collection_aliases);
        i = i + 1;
    }
    assert(types.take(i as int) =~= types);
    assert(colls.take(i as int) =~= colls);
    (one, one_coll)
}

} // verus!
