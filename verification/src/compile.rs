//! Compiling all callables of a design, and what a class needs at run time.
use vstd::prelude::*;

use crate::ast::{views, CollKind, FuncDecl};
use crate::class_layout::{copy_ids, copy_values};
use crate::complaint::{CallableStub, CallableStubV};
use crate::const_fold::Made;
use crate::gen_program::{
    callable_code, category, default_constructor, dpi_program, foreign_code, gen_callable,
    panic_category, stub_code, stub_program, synth_default_ctor,
};
use crate::ir::{Program, ProgramV, Value, ValueV};
use crate::layout::{
    class_at, class_name_at, class_views, value_views, ClassInfo, ClassInfoV, CollInfo, Env, EnvV,
};
use crate::message::text3;
use crate::numbering::{job_views, JobV};
use crate::table::{entries_view, lookup, put, Table};
use crate::text::chars_of;

verus! {

/// The mathematical form of programs.
pub open spec fn program_views(s: Seq<Program>) -> Seq<ProgramV> {
    s.map_values(|p: Program| p@)
}

// ---- callables ------------------------------------------------------------------------

/// The programs of callables, which could not be compiled, and how often for
/// which reason.
pub struct CompiledV {
    pub funcs: Seq<ProgramV>,
    pub stubs: Seq<CallableStubV>,
    pub reasons: Seq<(Seq<char>, usize)>,
}

/// The name of a callable, with that of its class.
pub open spec fn qualified(env: EnvV, job: JobV) -> Seq<char> {
    match job.1 {
        Some(cid) => class_name_at(env, cid) + "::"@ + job.0.name,
        None => job.0.name,
    }
}

/// One more.
pub open spec fn counted(n: Option<usize>) -> usize {
    match n {
        Some(n) => if n < usize::MAX {
            (n + 1) as usize
        } else {
            n
        },
        None => 1,
    }
}

/// The programs with that of one more callable. A callable that cannot be
/// compiled is stubbed, so that it does not stop the others.
pub open spec fn with_job(env: EnvV, c: CompiledV, job: JobV) -> Made<CompiledV> {
    match job.0.dpi_name {
        Some(symbol) => match foreign_code(job.0, symbol) {
            Err(m) => Err(m),
            Ok(p) => Ok(CompiledV { funcs: c.funcs.push(p), ..c }),
        },
        None => match callable_code(env, job.0, job.1) {
            Ok(p) => Ok(CompiledV { funcs: c.funcs.push(p), ..c }),
            Err(why) => match stub_code(job.0, job.1 is Some) {
                Err(m) => Err(m),
                Ok(p) => Ok(
                    CompiledV {
                        funcs: c.funcs.push(p),
                        stubs: c.stubs.push(
                            CallableStubV {
                                callable: qualified(env, job),
                                reason: category(why),
                            },
                        ),
                        reasons: put(
                            c.reasons,
                            category(why),
                            counted(lookup(c.reasons, category(why))),
                        ),
                    },
                ),
            },
        },
    }
}

/// The programs of callables.
pub open spec fn compiled(env: EnvV, jobs: Seq<JobV>) -> Made<CompiledV>
    decreases jobs.len(),
{
    if jobs.len() == 0 {
        Ok(CompiledV { funcs: Seq::empty(), stubs: Seq::empty(), reasons: Seq::empty() })
    } else {
        match compiled(env, jobs.drop_last()) {
            Err(m) => Err(m),
            Ok(c) => with_job(env, c, jobs.last()),
        }
    }
}

/// The programs of callables, which could not be compiled, and how often for
/// which reason.
pub struct Compiled {
    pub funcs: Vec<Program>,
    pub stubs: Vec<CallableStub>,
    pub reasons: Table<usize>,
}

impl View for Compiled {
    type V = CompiledV;

    open spec fn view(&self) -> CompiledV {
        CompiledV {
            funcs: program_views(self.funcs@),
            stubs: views(self.stubs@),
            reasons: self.reasons@,
        }
    }
}

impl Compiled {
    /// Add a program.
    fn push(&mut self, p: Program)
        ensures
            final(self)@ == (CompiledV { funcs: old(self)@.funcs.push(p@), ..old(self)@ }),
    {
        let ghost before = self.funcs@;
        self.funcs.push(p);
        assert(program_views(self.funcs@) =~= program_views(before).push(p@));
    }

    /// Compile a callable.
    fn add(&mut self, env: &Env, f: &FuncDecl, class_ctx: Option<u32>) -> (r: Result<(), String>)
        ensures
            match r {
                Ok(_) => with_job(env@, old(self)@, (f@, class_ctx)) == Ok::<CompiledV, Seq<char>>(
                    final(self)@,
                ),
                Err(m) => with_job(env@, old(self)@, (f@, class_ctx)) == Err::<
                    CompiledV,
                    Seq<char>,
                >(m@),
            },
    {
        if let Some(symbol) = &f.dpi_name {
            return match dpi_program(f, symbol) {
                Err(m) => Err(m),
                Ok(p) => {
                    self.push(p);
                    Ok(())
                },
            };
        }
        match gen_callable(env, f, class_ctx) {
            Ok(p) => {
                self.push(p);
                Ok(())
            },
            Err(why) => match stub_program(f, class_ctx.is_some()) {
                Err(m) => Err(m),
                Ok(p) => {
                    self.push(p);
                    let reason: String = panic_category(why.as_str());
                    let callable: String = match class_ctx {
                        Some(cid) => text3(env.class_name(cid).as_str(), "::", f.name.as_str()),
                        None => f.name.clone(),
                    };
                    let ghost before = self.stubs@;
                    let stub = CallableStub { callable, reason: reason.clone() };
                    self.stubs.push(stub);
                    assert(views(self.stubs@) =~= views(before).push(stub@));
                    let n: usize = match self.reasons.get(reason.as_str()) {
                        Some(n) => if n < usize::MAX {
                            n + 1
                        } else {
                            n
                        },
                        None => 1,
                    };
                    self.reasons.insert(reason, n);
                    Ok(())
                },
            },
        }
    }
}

/// Callables fail as their first failing prefix does.
proof fn lemma_compiled_error(env: EnvV, all: Seq<JobV>, i: int)
    requires
        0 <= i < all.len(),
        compiled(env, all.take(i + 1)) is Err,
    ensures
        compiled(env, all) == compiled(env, all.take(i + 1)),
    decreases all.len() - i,
{
    if i + 1 == all.len() {
        assert(all.take(i + 1) =~= all);
    } else {
        assert(all.take(i + 2).drop_last() =~= all.take(i + 1));
        lemma_compiled_error(env, all, i + 1);
    }
}

/// Compile all callables.
pub fn compile_all(env: &Env, jobs: &Vec<(&FuncDecl, Option<u32>)>) -> (r: Result<Compiled, String>)
    ensures
        match r {
            Ok(c) => compiled(env@, job_views(jobs@)) == Ok::<CompiledV, Seq<char>>(c@),
            Err(m) => compiled(env@, job_views(jobs@)) == Err::<CompiledV, Seq<char>>(m@),
        },
{
    let ghost all = job_views(jobs@);
    let mut c = Compiled { funcs: Vec::new(), stubs: Vec::new(), reasons: Table::new() };
    let mut i: usize = 0;
    assert(c@.funcs =~= Seq::empty());
    assert(c@.stubs =~= Seq::empty());
    while i < jobs.len()
        invariant
            i <= jobs@.len(),
            all == job_views(jobs@),
            compiled(env@, all.take(i as int)) == Ok::<CompiledV, Seq<char>>(c@),
        decreases jobs@.len() - i,
    {
        let ghost upto = all.take(i + 1);
        assert(upto.drop_last() =~= all.take(i as int));
        assert(upto.last() == (jobs@[i as int].0@, jobs@[i as int].1));
        if let Err(m) = c.add(env, jobs[i].0, jobs[i].1) {
            proof {
                lemma_compiled_error(env@, all, i as int);
            }
            return Err(m);
        }
        i = i + 1;
    }
    assert(all.take(i as int) =~= all);
    Ok(c)
}

/// The programs with the made constructors of classes.
pub open spec fn with_made(funcs: Seq<ProgramV>, made: Seq<u32>, env: EnvV) -> Made<Seq<ProgramV>>
    decreases made.len(),
{
    if made.len() == 0 {
        Ok(funcs)
    } else {
        match with_made(funcs, made.drop_last(), env) {
            Err(m) => Err(m),
            Ok(done) => match default_constructor(base_constructor(env, made.last())) {
                Err(m) => Err(m),
                Ok(p) => Ok(done.push(p)),
            },
        }
    }
}

/// The constructor of the base of a class.
pub open spec fn base_constructor(env: EnvV, cid: u32) -> Option<u32> {
    match class_at(env, cid) {
        Some(c) => match c.base {
            Some(base) => match class_at(env, base) {
                Some(b) => b.ctor,
                None => None,
            },
            None => None,
        },
        None => None,
    }
}

/// Made constructors fail as their first failing prefix does.
proof fn lemma_made_error(funcs: Seq<ProgramV>, all: Seq<u32>, env: EnvV, i: int)
    requires
        0 <= i < all.len(),
        with_made(funcs, all.take(i + 1), env) is Err,
    ensures
        with_made(funcs, all, env) == with_made(funcs, all.take(i + 1), env),
    decreases all.len() - i,
{
    if i + 1 == all.len() {
        assert(all.take(i + 1) =~= all);
    } else {
        assert(all.take(i + 2).drop_last() =~= all.take(i + 1));
        lemma_made_error(funcs, all, env, i + 1);
    }
}

/// Add the made constructors of classes.
pub fn add_made(funcs: &mut Vec<Program>, made: &Vec<u32>, env: &Env) -> (r: Result<(), String>)
    ensures
        match r {
            Ok(_) => with_made(program_views(old(funcs)@), made@, env@) == Ok::<
                Seq<ProgramV>,
                Seq<char>,
            >(program_views(final(funcs)@)),
            Err(m) => with_made(program_views(old(funcs)@), made@, env@) == Err::<
                Seq<ProgramV>,
                Seq<char>,
            >(m@),
        },
{
    let ghost start = program_views(funcs@);
    let mut i: usize = 0;
    while i < made.len()
        invariant
            i <= made@.len(),
            start == program_views(old(funcs)@),
            with_made(start, made@.take(i as int), env@) == Ok::<Seq<ProgramV>, Seq<char>>(
                program_views(funcs@),
            ),
        decreases made@.len() - i,
    {
        let ghost upto = made@.take(i + 1);
        let ghost before = funcs@;
        assert(upto.drop_last() =~= made@.take(i as int));
        assert(upto.last() == made@[i as int]);
        let ctor: Option<u32> = match env.class(made[i]) {
            Some(c) => match c.base {
                Some(base) => match env.class(base) {
                    Some(b) => b.ctor,
                    None => None,
                },
                None => None,
            },
            None => None,
        };
        match synth_default_ctor(ctor) {
            Ok(p) => {
                funcs.push(p);
                assert(program_views(funcs@) =~= program_views(before).push(p@));
            },
            Err(m) => {
                proof {
                    lemma_made_error(start, made@, env@, i as int);
                }
                return Err(m);
            },
        }
        i = i + 1;
    }
    assert(made@.take(i as int) =~= made@);
    Ok(())
}

// ---- reasons ----------------------------------------------------------------------------

/// Whether a text stands before another, character by character.
pub open spec fn text_before(a: Seq<char>, b: Seq<char>) -> bool
    decreases a.len(),
{
    if b.len() == 0 {
        false
    } else if a.len() == 0 {
        true
    } else if a[0] == b[0] {
        text_before(a.drop_first(), b.drop_first())
    } else {
        a[0] < b[0]
    }
}

/// Whether a reason stands before another: the more frequent first, and of
/// equally frequent ones by their text.
pub open spec fn reason_before(a: (Seq<char>, usize), b: (Seq<char>, usize)) -> bool {
    a.1 > b.1 || (a.1 == b.1 && text_before(a.0, b.0))
}

/// Reasons with one more in its place.
pub open spec fn ranked_with(s: Seq<(Seq<char>, usize)>, e: (Seq<char>, usize)) -> Seq<
    (Seq<char>, usize),
>
    decreases s.len(),
{
    if s.len() == 0 || !reason_before(e, s.last()) {
        s.push(e)
    } else {
        ranked_with(s.drop_last(), e).push(s.last())
    }
}

/// Reasons in order.
pub open spec fn ranked(s: Seq<(Seq<char>, usize)>) -> Seq<(Seq<char>, usize)>
    decreases s.len(),
{
    if s.len() == 0 {
        s
    } else {
        ranked_with(ranked(s.drop_last()), s.last())
    }
}

/// Whether a text stands before another.
fn is_text_before(a: &str, b: &str) -> (r: bool)
    ensures
        r == text_before(a@, b@),
{
    let x: Vec<char> = chars_of(a);
    let y: Vec<char> = chars_of(b);
    let mut i: usize = 0;
    assert(x@.skip(0) =~= x@);
    assert(y@.skip(0) =~= y@);
    while i < x.len() && i < y.len() && x[i] == y[i]
        invariant
            i <= x@.len(),
            i <= y@.len(),
            text_before(x@, y@) == text_before(x@.skip(i as int), y@.skip(i as int)),
        decreases x@.len() - i,
    {
        assert(x@.skip(i as int).drop_first() =~= x@.skip(i + 1));
        assert(y@.skip(i as int).drop_first() =~= y@.skip(i + 1));
        i = i + 1;
    }
    if i == y.len() {
        return false;
    }
    if i == x.len() {
        return true;
    }
    assert(x@.skip(i as int)[0] == x@[i as int]);
    assert(y@.skip(i as int)[0] == y@[i as int]);
    x[i] < y[i]
}

/// Put a reason in its place.
fn rank(s: &mut Vec<(String, usize)>, reason: String, n: usize)
    ensures
        entries_view(final(s)@) == ranked_with(entries_view(old(s)@), (reason@, n)),
{
    let ghost all = entries_view(s@);
    let ghost e = (reason@, n);
    assert(all.len() == s@.len());
    let mut i: usize = s.len();
    assert(all.take(i as int) =~= all);
    assert(all.skip(i as int) =~= Seq::empty());
    assert(ranked_with(all, e) =~= ranked_with(all.take(i as int), e) + all.skip(i as int));
    let mut going: bool = true;
    while i > 0 && going
        invariant
            i <= s@.len(),
            all == entries_view(s@),
            all.len() == s@.len(),
            e == (reason@, n),
            ranked_with(all, e) == ranked_with(all.take(i as int), e) + all.skip(i as int),
            !going ==> i > 0 && !reason_before(e, all[i - 1]),
        decreases i + (if going { 1int } else { 0int }),
    {
        let ghost upto = all.take(i as int);
        assert(upto.drop_last() =~= all.take(i - 1));
        assert(upto.last() == all[i - 1]);
        assert(all[i - 1] == (s@[i - 1].0@, s@[i - 1].1));
        let last: &(String, usize) = &s[i - 1];
        going = n > last.1 || (n == last.1 && is_text_before(reason.as_str(), last.0.as_str()));
        if going {
            i = i - 1;
            assert(ranked_with(all.take(i as int), e).push(all[i as int]) + all.skip(i + 1)
                =~= ranked_with(all.take(i as int), e) + all.skip(i as int));
        }
    }
    proof {
        let upto = all.take(i as int);
        if i > 0 {
            assert(upto.last() == all[i - 1]);
        }
        assert(ranked_with(upto, e) == upto.push(e));
        assert(upto.push(e) + all.skip(i as int) =~= all.insert(i as int, e));
    }
    s.insert(i, (reason, n));
    assert(entries_view(s@) =~= all.insert(i as int, e));
}

/// Reasons in order.
pub fn rank_reasons(t: &Table<usize>) -> (r: Vec<(String, usize)>)
    ensures
        entries_view(r@) == ranked(t@),
{
    let ghost all = t@;
    let mut out: Vec<(String, usize)> = Vec::new();
    let mut i: usize = 0;
    assert(all.len() == t.entries@.len());
    assert(entries_view(out@) =~= ranked(all.take(0)));
    while i < t.entries.len()
        invariant
            i <= t.entries@.len(),
            all == t@,
            all.len() == t.entries@.len(),
            entries_view(out@) == ranked(all.take(i as int)),
        decreases t.entries@.len() - i,
    {
        let ghost upto = all.take(i + 1);
        assert(upto.drop_last() =~= all.take(i as int));
        assert(upto.last() == all[i as int]);
        let name: String = t.entries[i].0.clone();
        rank(&mut out, name, t.entries[i].1);
        i = i + 1;
    }
    assert(all.take(i as int) =~= all);
    out
}

// ---- classes at run time --------------------------------------------------------------------

/// What a class needs at run time.
#[derive(Debug)]
pub struct ClassDef {
    pub name: String,
    pub base: Option<u32>,
    /// The initial values of the fields, by slot.
    pub field_defaults: Vec<Value>,
    /// The functions of the virtual methods, by place.
    pub vtable: Vec<u32>,
    /// The slots of collections, each with whether it is associative.
    pub coll_fields: Vec<(u32, bool)>,
    /// The slots of events.
    pub event_fields: Vec<u32>,
    /// The slots of structures, each with its class.
    pub struct_fields: Vec<(u32, u32)>,
}

/// The mathematical form of a [`ClassDef`].
pub struct ClassDefV {
    pub name: Seq<char>,
    pub base: Option<u32>,
    pub field_defaults: Seq<ValueV>,
    pub vtable: Seq<u32>,
    pub coll_fields: Seq<(u32, bool)>,
    pub event_fields: Seq<u32>,
    pub struct_fields: Seq<(u32, u32)>,
}

impl View for ClassDef {
    type V = ClassDefV;

    open spec fn view(&self) -> ClassDefV {
        ClassDefV {
            name: self.name@,
            base: self.base,
            field_defaults: value_views(self.field_defaults@),
            vtable: self.vtable@,
            coll_fields: self.coll_fields@,
            event_fields: self.event_fields@,
            struct_fields: self.struct_fields@,
        }
    }
}

/// The slots of collections.
pub open spec fn collection_slots(
    slots: Seq<(Seq<char>, (u32, u32))>,
    fields: Seq<(Seq<char>, CollInfo)>,
) -> Seq<(u32, bool)>
    decreases fields.len(),
{
    if fields.len() == 0 {
        Seq::empty()
    } else {
        let before = collection_slots(slots, fields.drop_last());
        match lookup(slots, fields.last().0) {
            Some(slot) => before.push((slot.0, fields.last().1.kind == CollKind::Assoc)),
            None => before,
        }
    }
}

/// The slots of events.
pub open spec fn event_slots(
    slots: Seq<(Seq<char>, (u32, u32))>,
    fields: Seq<(Seq<char>, ())>,
) -> Seq<u32>
    decreases fields.len(),
{
    if fields.len() == 0 {
        Seq::empty()
    } else {
        let before = event_slots(slots, fields.drop_last());
        match lookup(slots, fields.last().0) {
            Some(slot) => before.push(slot.0),
            None => before,
        }
    }
}

/// Whether a class is a structure.
pub open spec fn is_structure(classes: Seq<ClassInfoV>, cid: u32) -> bool {
    cid < classes.len() && classes[cid as int].is_struct
}

/// The slots of structures.
pub open spec fn struct_slots(
    classes: Seq<ClassInfoV>,
    slots: Seq<(Seq<char>, (u32, u32))>,
    fields: Seq<(Seq<char>, u32)>,
) -> Seq<(u32, u32)>
    decreases fields.len(),
{
    if fields.len() == 0 {
        Seq::empty()
    } else {
        let before = struct_slots(classes, slots, fields.drop_last());
        match lookup(slots, fields.last().0) {
            Some(slot) => if is_structure(classes, fields.last().1) {
                before.push((slot.0, fields.last().1))
            } else {
                before
            },
            None => before,
        }
    }
}

/// What a class needs at run time.
pub open spec fn class_def(classes: Seq<ClassInfoV>, c: ClassInfoV) -> ClassDefV {
    ClassDefV {
        name: c.name,
        base: c.base,
        field_defaults: c.field_defaults,
        vtable: c.vtable,
        coll_fields: collection_slots(c.field_slot, c.field_coll),
        event_fields: event_slots(c.field_slot, c.field_events),
        struct_fields: struct_slots(classes, c.field_slot, c.field_class),
    }
}

/// The slots of collections.
fn find_collections(c: &ClassInfo) -> (r: Vec<(u32, bool)>)
    ensures
        r@ == collection_slots(c@.field_slot, c@.field_coll),
{
    let ghost all = c.field_coll@;
    let mut out: Vec<(u32, bool)> = Vec::new();
    let mut i: usize = 0;
    assert(all.len() == c.field_coll.entries@.len());
    assert(out@ =~= Seq::<(u32, bool)>::empty());
    while i < c.field_coll.entries.len()
        invariant
            i <= c.field_coll.entries@.len(),
            all == c.field_coll@,
            all.len() == c.field_coll.entries@.len(),
            out@ == collection_slots(c.field_slot@, all.take(i as int)),
        decreases c.field_coll.entries@.len() - i,
    {
        let ghost upto = all.take(i + 1);
        assert(upto.drop_last() =~= all.take(i as int));
        assert(upto.last() == all[i as int]);
        let e: &(String, CollInfo) = &c.field_coll.entries[i];
        assert(all[i as int] == (e.0@, e.1));
        if let Some(slot) = c.field_slot.get(e.0.as_str()) {
            out.push((slot.0, e.1.kind == CollKind::Assoc));
        }
        i = i + 1;
    }
    assert(all.take(i as int) =~= all);
    out
}

/// The slots of events.
fn find_events(c: &ClassInfo) -> (r: Vec<u32>)
    ensures
        r@ == event_slots(c@.field_slot, c@.field_events),
{
    let ghost all = c.field_events@;
    let mut out: Vec<u32> = Vec::new();
    let mut i: usize = 0;
    assert(all.len() == c.field_events.entries@.len());
    assert(out@ =~= Seq::<u32>::empty());
    while i < c.field_events.entries.len()
        invariant
            i <= c.field_events.entries@.len(),
            all == c.field_events@,
            all.len() == c.field_events.entries@.len(),
            out@ == event_slots(c.field_slot@, all.take(i as int)),
        decreases c.field_events.entries@.len() - i,
    {
        let ghost upto = all.take(i + 1);
        assert(upto.drop_last() =~= all.take(i as int));
        assert(upto.last() == all[i as int]);
        let e: &(String, ()) = &c.field_events.entries[i];
        assert(all[i as int] == (e.0@, e.1));
        if let Some(slot) = c.field_slot.get(e.0.as_str()) {
            out.push(slot.0);
        }
        i = i + 1;
    }
    assert(all.take(i as int) =~= all);
    out
}

/// The slots of structures.
fn find_structs(classes: &Vec<ClassInfo>, c: &ClassInfo) -> (r: Vec<(u32, u32)>)
    ensures
        r@ == struct_slots(class_views(classes@), c@.field_slot, c@.field_class),
{
    let ghost all = c.field_class@;
    let mut out: Vec<(u32, u32)> = Vec::new();
    let mut i: usize = 0;
    assert(all.len() == c.field_class.entries@.len());
    assert(out@ =~= Seq::<(u32, u32)>::empty());
    while i < c.field_class.entries.len()
        invariant
            i <= c.field_class.entries@.len(),
            all == c.field_class@,
            all.len() == c.field_class.entries@.len(),
            out@ == struct_slots(class_views(classes@), c.field_slot@, all.take(i as int)),
        decreases c.field_class.entries@.len() - i,
    {
        let ghost upto = all.take(i + 1);
        assert(upto.drop_last() =~= all.take(i as int));
        assert(upto.last() == all[i as int]);
        let e: &(String, u32) = &c.field_class.entries[i];
        assert(all[i as int] == (e.0@, e.1));
        let is_struct: bool = (e.1 as usize) < classes.len() && classes[e.1 as usize].is_struct;
        assert(is_struct == is_structure(class_views(classes@), e.1));
        if let Some(slot) = c.field_slot.get(e.0.as_str()) {
            if is_struct {
                out.push((slot.0, e.1));
            }
        }
        i = i + 1;
    }
    assert(all.take(i as int) =~= all);
    out
}

/// The mathematical form of classes at run time.
pub open spec fn def_views(s: Seq<ClassDef>) -> Seq<ClassDefV> {
    s.map_values(|d: ClassDef| d@)
}

/// What classes need at run time.
pub fn class_defs(classes: &Vec<ClassInfo>) -> (r: Vec<ClassDef>)
    ensures
        def_views(r@) == class_views(classes@).map_values(
            |c: ClassInfoV| class_def(class_views(classes@), c),
        ),
{
    let ghost all = class_views(classes@);
    let ghost f = |c: ClassInfoV| class_def(all, c);
    let mut out: Vec<ClassDef> = Vec::new();
    let mut i: usize = 0;
    assert(def_views(out@) =~= all.take(0).map_values(f));
    while i < classes.len()
        invariant
            i <= classes@.len(),
            all == class_views(classes@),
            f == (|c: ClassInfoV| class_def(all, c)),
            def_views(out@) == all.take(i as int).map_values(f),
        decreases classes@.len() - i,
    {
        let ghost before = out@;
        let c: &ClassInfo = &classes[i];
        assert(all[i as int] == c@);
        let d = ClassDef {
            name: c.name.clone(),
            base: c.base,
            field_defaults: copy_values(&c.field_defaults),
            vtable: copy_ids(&c.vtable),
            coll_fields: find_collections(c),
            event_fields: find_events(c),
            struct_fields: find_structs(classes, c),
        };
        assert(d@ == class_def(all, c@));
        out.push(d);
        i = i + 1;
        assert(def_views(out@) =~= def_views(before).push(d@));
        assert(all.take(i as int).map_values(f) =~= all.take(i as int - 1).map_values(f).push(d@));
    }
    assert(all.take(i as int) =~= all);
    out
}

} // verus!
