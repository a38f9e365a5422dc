//! Numbering the classes and functions of a design, and the global variables.
use vstd::prelude::*;

use crate::ast::{const_views, views, ClassDecl, FuncDecl, VarDecl};
use crate::ast_model::{ClassDeclV, FuncDeclV, VarDeclV};
use crate::class_layout::{shared_default, shared_value, ClassFids, ClassFidsV, MethodId, MethodIdV};
use crate::const_fold::{Consts, Made};
use crate::ir::{Value, ValueV};
use crate::layout::{name_view, value_views, CollInfo};
use crate::logic::LogicVec;
use crate::mono_names::pair_views;
use crate::table::{lookup, put, put_new, removed, Table};
use crate::text::str_eq;

verus! {

// ---- classes --------------------------------------------------------------------------

/// The numbers of classes: their places. The first class of a name counts.
pub open spec fn class_numbers(classes: Seq<ClassDeclV>) -> Seq<(Seq<char>, u32)>
    decreases classes.len(),
{
    if classes.len() == 0 {
        Seq::empty()
    } else {
        put_new(
            class_numbers(classes.drop_last()),
            classes.last().name,
            (classes.len() - 1) as u32,
        )
    }
}

/// Number the classes.
pub fn number_classes(classes: &Vec<ClassDecl>) -> (r: Table<u32>)
    ensures
        r@ == class_numbers(views(classes@)),
{
    let ghost all = views(classes@);
    let mut t: Table<u32> = Table::new();
    let mut i: usize = 0;
    assert(t@ =~= class_numbers(all.take(0)));
    while i < classes.len()
        invariant
            i <= classes@.len(),
            all == views(classes@),
            t@ == class_numbers(all.take(i as int)),
        decreases classes@.len() - i,
    {
        let ghost upto = all.take(i + 1);
        assert(upto.drop_last() =~= all.take(i as int));
        assert(upto.last() == classes@[i as int]@);
        t.insert_new(&classes[i].name, i as u32);
        i = i + 1;
    }
    assert(all.take(i as int) =~= all);
    t
}

/// The classes that aliases mean. The last alias of a name counts.
pub open spec fn alias_numbers(
    aliases: Seq<(Seq<char>, Seq<char>)>,
    ids: Seq<(Seq<char>, u32)>,
) -> Seq<(Seq<char>, u32)>
    decreases aliases.len(),
{
    if aliases.len() == 0 {
        Seq::empty()
    } else {
        let before = alias_numbers(aliases.drop_last(), ids);
        match lookup(ids, aliases.last().1) {
            Some(cid) => put(before, aliases.last().0, cid),
            None => removed(before, aliases.last().0),
        }
    }
}

/// Number the aliases.
pub fn number_aliases(aliases: &Vec<(String, String)>, ids: &Table<u32>) -> (r: Table<u32>)
    ensures
        r@ == alias_numbers(pair_views(aliases@), ids@),
{
    let ghost all = pair_views(aliases@);
    let mut t: Table<u32> = Table::new();
    let mut i: usize = 0;
    assert(t@ =~= alias_numbers(all.take(0), ids@));
    while i < aliases.len()
        invariant
            i <= aliases@.len(),
            all == pair_views(aliases@),
            t@ == alias_numbers(all.take(i as int), ids@),
        decreases aliases@.len() - i,
    {
        let ghost upto = all.take(i + 1);
        assert(upto.drop_last() =~= all.take(i as int));
        assert(upto.last() == (aliases@[i as int].0@, aliases@[i as int].1@));
        match ids.get(aliases[i].1.as_str()) {
            Some(cid) => {
                t.insert(aliases[i].0.clone(), cid);
            },
            None => {
                t.remove(aliases[i].0.as_str());
            },
        }
        i = i + 1;
    }
    assert(all.take(i as int) =~= all);
    t
}

// ---- functions ------------------------------------------------------------------------

/// A callable, with the class that it is a method of. Its number is its place.
pub type JobV = (FuncDeclV, Option<u32>);

/// The mathematical form of callables.
pub open spec fn job_views(s: Seq<(&FuncDecl, Option<u32>)>) -> Seq<JobV> {
    s.map_values(|j: (&FuncDecl, Option<u32>)| (j.0@, j.1))
}

/// The callables of a class: its methods, then its constructor.
pub open spec fn class_jobs(c: ClassDeclV, cid: u32) -> Seq<JobV> {
    c.methods.map_values(|m: FuncDeclV| (m, Some(cid))) + (match c.constructor {
        Some(ctor) => seq![(ctor, Some(cid))],
        None => Seq::empty(),
    })
}

/// The callables of a design: the functions, then those of each class.
pub open spec fn all_jobs(funcs: Seq<FuncDeclV>, classes: Seq<ClassDeclV>) -> Seq<JobV>
    decreases classes.len(),
{
    if classes.len() == 0 {
        funcs.map_values(|f: FuncDeclV| (f, None))
    } else {
        all_jobs(funcs, classes.drop_last()) + class_jobs(
            classes.last(),
            (classes.len() - 1) as u32,
        )
    }
}

/// The numbers of functions. The first function of a name counts.
pub open spec fn func_numbers(funcs: Seq<FuncDeclV>) -> Seq<(Seq<char>, u32)>
    decreases funcs.len(),
{
    if funcs.len() == 0 {
        Seq::empty()
    } else {
        put_new(func_numbers(funcs.drop_last()), funcs.last().name, (funcs.len() - 1) as u32)
    }
}

/// A method and its number.
pub open spec fn method_number(m: FuncDeclV, func: u32, ids: Seq<(Seq<char>, u32)>) -> MethodIdV {
    MethodIdV {
        name: m.name,
        func,
        is_virtual: m.is_virtual,
        ret_class: match m.ret_class {
            Some(name) => lookup(ids, name),
            None => None,
        },
    }
}

/// The methods of a class and their numbers, from one on.
pub open spec fn method_numbers(
    methods: Seq<FuncDeclV>,
    first: nat,
    ids: Seq<(Seq<char>, u32)>,
) -> Seq<MethodIdV>
    decreases methods.len(),
{
    if methods.len() == 0 {
        Seq::empty()
    } else {
        method_numbers(methods.drop_last(), first, ids).push(
            method_number(methods.last(), (first + methods.len() - 1) as u32, ids),
        )
    }
}

/// The first method called `new`.
pub open spec fn method_new(methods: Seq<MethodIdV>) -> Option<u32>
    decreases methods.len(),
{
    if methods.len() == 0 {
        None
    } else if methods[0].name == "new"@ {
        Some(methods[0].func)
    } else {
        method_new(methods.drop_first())
    }
}

/// The functions of a class, from a number on. A class without a constructor is
/// constructed by its method `new`.
pub open spec fn class_functions(c: ClassDeclV, first: nat, ids: Seq<(Seq<char>, u32)>) -> ClassFidsV {
    let methods = method_numbers(c.methods, first, ids);
    ClassFidsV {
        methods,
        ctor: match c.constructor {
            Some(ctor) => Some((first + c.methods.len()) as u32),
            None => method_new(methods),
        },
    }
}

/// The functions of all classes.
pub open spec fn functions(
    funcs: Seq<FuncDeclV>,
    classes: Seq<ClassDeclV>,
    ids: Seq<(Seq<char>, u32)>,
) -> Seq<ClassFidsV>
    decreases classes.len(),
{
    if classes.len() == 0 {
        Seq::empty()
    } else {
        functions(funcs, classes.drop_last(), ids).push(
            class_functions(classes.last(), all_jobs(funcs, classes.drop_last()).len(), ids),
        )
    }
}

/// The functions of classes in which every class has a constructor, and the
/// classes that get a made one. The numbers of those follow all others.
pub open spec fn with_constructors(fids: Seq<ClassFidsV>, jobs: nat) -> (Seq<ClassFidsV>, Seq<u32>)
    decreases fids.len(),
{
    if fids.len() == 0 {
        (Seq::empty(), Seq::empty())
    } else {
        let (done, made) = with_constructors(fids.drop_last(), jobs);
        let c = fids.last();
        if c.ctor is Some {
            (done.push(c), made)
        } else {
            (
                done.push(ClassFidsV { ctor: Some((jobs + made.len()) as u32), ..c }),
                made.push((fids.len() - 1) as u32),
            )
        }
    }
}

/// The functions outside classes.
fn number_funcs<'a>(funcs: &'a Vec<FuncDecl>) -> (r: (Vec<(&'a FuncDecl, Option<u32>)>, Table<u32>))
    ensures
        job_views(r.0@) == all_jobs(views(funcs@), Seq::empty()),
        r.1@ == func_numbers(views(funcs@)),
{
    let ghost all = views(funcs@);
    let ghost f = |f: FuncDeclV| (f, None::<u32>);
    let mut jobs: Vec<(&'a FuncDecl, Option<u32>)> = Vec::new();
    let mut t: Table<u32> = Table::new();
    let mut i: usize = 0;
    assert(t@ =~= func_numbers(all.take(0)));
    assert(job_views(jobs@) =~= all.take(0).map_values(f));
    while i < funcs.len()
        invariant
            i <= funcs@.len(),
            all == views(funcs@),
            f == (|f: FuncDeclV| (f, None::<u32>)),
            job_views(jobs@) == all.take(i as int).map_values(f),
            t@ == func_numbers(all.take(i as int)),
        decreases funcs@.len() - i,
    {
        let ghost upto = all.take(i + 1);
        let ghost before = jobs@;
        assert(upto.drop_last() =~= all.take(i as int));
        assert(upto.last() == funcs@[i as int]@);
        t.insert_new(&funcs[i].name, i as u32);
        jobs.push((&funcs[i], None));
        assert(job_views(jobs@) =~= job_views(before).push((funcs@[i as int]@, None::<u32>)));
        assert(upto.map_values(f) =~= all.take(i as int).map_values(f).push(
            (funcs@[i as int]@, None::<u32>),
        ));
        i = i + 1;
    }
    assert(all.take(i as int) =~= all);
    assert(all_jobs(all, Seq::empty()) == all.map_values(f));
    (jobs, t)
}

/// The first method called `new`.
fn find_new(methods: &Vec<MethodId>) -> (r: Option<u32>)
    ensures
        r == method_new(views(methods@)),
{
    let ghost all = views(methods@);
    let mut i: usize = 0;
    assert(all.skip(0) =~= all);
    while i < methods.len()
        invariant
            i <= methods@.len(),
            all == views(methods@),
            method_new(all) == method_new(all.skip(i as int)),
        decreases methods@.len() - i,
    {
        assert(all.skip(i as int)[0] == methods@[i as int]@);
        assert(all.skip(i as int).drop_first() =~= all.skip(i + 1));
        if str_eq(methods[i].name.as_str(), "new") {
            return Some(methods[i].func);
        }
        i = i + 1;
    }
    None
}

/// Number the callables of a class.
fn number_class<'a>(
    jobs: &mut Vec<(&'a FuncDecl, Option<u32>)>,
    c: &'a ClassDecl,
    cid: u32,
    ids: &Table<u32>,
) -> (r: ClassFids)
    ensures
        job_views(final(jobs)@) == job_views(old(jobs)@) + class_jobs(c@, cid),
        r@ == class_functions(c@, old(jobs)@.len(), ids@),
{
    let ghost all = c@.methods;
    let ghost start = jobs@;
    let ghost f = |m: FuncDeclV| (m, Some(cid));
    let mut methods: Vec<MethodId> = Vec::new();
    let mut i: usize = 0;
    assert(all == views(c.methods@));
    assert(job_views(jobs@) =~= job_views(start) + all.take(0).map_values(f));
    assert(views(methods@) =~= method_numbers(all.take(0), start.len(), ids@));
    while i < c.methods.len()
        invariant
            i <= c.methods@.len(),
            all == views(c.methods@),
            f == (|m: FuncDeclV| (m, Some(cid))),
            jobs@.len() == start.len() + i,
            job_views(jobs@) == job_views(start) + all.take(i as int).map_values(f),
            views(methods@) == method_numbers(all.take(i as int), start.len(), ids@),
        decreases c.methods@.len() - i,
    {
        let ghost upto = all.take(i + 1);
        let ghost before = jobs@;
        let ghost named = methods@;
        assert(upto.drop_last() =~= all.take(i as int));
        assert(upto.last() == c.methods@[i as int]@);
        let m: &FuncDecl = &c.methods[i];
        let id = MethodId {
            name: m.name.clone(),
            func: jobs.len() as u32,
            is_virtual: m.is_virtual,
            ret_class: match &m.ret_class {
                Some(name) => ids.get(name.as_str()),
                None => None,
            },
        };
        methods.push(id);
        assert(id@ == method_number(m@, (start.len() + upto.len() - 1) as u32, ids@));
        assert(views(methods@) =~= views(named).push(id@));
        jobs.push((m, Some(cid)));
        assert(job_views(jobs@) =~= job_views(before).push((m@, Some(cid))));
        assert(job_views(start) + upto.map_values(f) =~= (job_views(start) + all.take(
            i as int,
        ).map_values(f)).push((m@, Some(cid))));
        i = i + 1;
    }
    assert(all.take(i as int) =~= all);
    let ghost before = jobs@;
    let ctor: Option<u32> = match &c.constructor {
        Some(f) => {
            let id: u32 = jobs.len() as u32;
            jobs.push((f, Some(cid)));
            assert(job_views(jobs@) =~= job_views(before).push((f@, Some(cid))));
            Some(id)
        },
        None => find_new(&methods),
    };
    assert(job_views(jobs@) =~= job_views(start) + class_jobs(c@, cid));
    ClassFids { methods, ctor }
}

/// Number all callables: the callables in order, the numbers of the functions
/// outside classes, and the functions of the classes.
pub fn number_callables<'a>(
    funcs: &'a Vec<FuncDecl>,
    classes: &'a Vec<ClassDecl>,
    ids: &Table<u32>,
) -> (r: (Vec<(&'a FuncDecl, Option<u32>)>, Table<u32>, Vec<ClassFids>))
    ensures
        job_views(r.0@) == all_jobs(views(funcs@), views(classes@)),
        r.1@ == func_numbers(views(funcs@)),
        views(r.2@) == functions(views(funcs@), views(classes@), ids@),
{
    let ghost fs = views(funcs@);
    let ghost all = views(classes@);
    let (mut jobs, t): (Vec<(&'a FuncDecl, Option<u32>)>, Table<u32>) = number_funcs(funcs);
    let mut fids: Vec<ClassFids> = Vec::new();
    let mut i: usize = 0;
    assert(all.take(0) =~= Seq::empty());
    assert(views(fids@) =~= functions(fs, all.take(0), ids@));
    while i < classes.len()
        invariant
            i <= classes@.len(),
            fs == views(funcs@),
            all == views(classes@),
            job_views(jobs@) == all_jobs(fs, all.take(i as int)),
            views(fids@) == functions(fs, all.take(i as int), ids@),
        decreases classes@.len() - i,
    {
        let ghost upto = all.take(i + 1);
        let ghost before = fids@;
        assert(upto.drop_last() =~= all.take(i as int));
        assert(upto.last() == classes@[i as int]@);
        assert(job_views(jobs@).len() == jobs@.len());
        let c: ClassFids = number_class(&mut jobs, &classes[i], i as u32, ids);
        fids.push(c);
        assert(views(fids@) =~= views(before).push(c@));
        i = i + 1;
    }
    assert(all.take(i as int) =~= all);
    (jobs, t, fids)
}

/// Give every class a constructor; the result is the classes that get a made
/// one.
pub fn add_constructors(fids: &mut Vec<ClassFids>, jobs: usize) -> (r: Vec<u32>)
    ensures
        (views(final(fids)@), r@) == with_constructors(views(old(fids)@), jobs as nat),
        final(fids)@.len() == old(fids)@.len(),
{
    let ghost all = views(fids@);
    let mut made: Vec<u32> = Vec::new();
    let mut i: usize = 0;
    assert(made@ =~= Seq::<u32>::empty());
    assert(views(fids@).take(0) =~= Seq::empty());
    while i < fids.len()
        invariant
            i <= fids@.len(),
            fids@.len() == old(fids)@.len(),
            all.len() == fids@.len(),
            made@.len() <= i,
            forall|k: int| i <= k < all.len() ==> (#[trigger] fids@[k])@ == all[k],
            (views(fids@).take(i as int), made@) == with_constructors(
                all.take(i as int),
                jobs as nat,
            ),
        decreases fids@.len() - i,
    {
        let ghost upto = all.take(i + 1);
        let ghost before = fids@;
        assert(upto.drop_last() =~= all.take(i as int));
        assert(upto.last() == fids@[i as int]@);
        if fids[i].ctor.is_none() {
            let number: u128 = jobs as u128 + made.len() as u128;
            fids[i].ctor = Some(number as u32);
            made.push(i as u32);
        }
        i = i + 1;
        assert(views(fids@).take(i as int) =~= views(before).take(i as int - 1).push(
            fids@[i as int - 1]@,
        ));
    }
    assert(all.take(i as int) =~= all);
    assert(views(fids@).take(i as int) =~= views(fids@));
    made
}

// ---- global variables -------------------------------------------------------------------

/// The global variables: their places in shared storage, those that are
/// collections, those that hold handles, and the shared storage.
pub struct GlobalsV {
    pub vars: Seq<(Seq<char>, u32)>,
    pub colls: Seq<(Seq<char>, CollInfo)>,
    pub classes: Seq<(Seq<char>, u32)>,
    pub statics: Seq<ValueV>,
}

/// The global variables.
#[derive(Debug)]
pub struct Globals {
    pub vars: Table<u32>,
    pub colls: Table<CollInfo>,
    pub classes: Table<u32>,
    pub statics: Vec<Value>,
}

impl View for Globals {
    type V = GlobalsV;

    open spec fn view(&self) -> GlobalsV {
        GlobalsV {
            vars: self.vars@,
            colls: self.colls@,
            classes: self.classes@,
            statics: value_views(self.statics@),
        }
    }
}

/// The class of a name, if there is one.
pub open spec fn numbered(ids: Seq<(Seq<char>, u32)>, name: Option<Seq<char>>) -> Option<u32> {
    match name {
        Some(n) => lookup(ids, n),
        None => None,
    }
}

/// The class of a name, if there is one.
fn number_of(ids: &Table<u32>, name: &Option<String>) -> (r: Option<u32>)
    ensures
        r == numbered(ids@, name_view(*name)),
{
    match name {
        Some(n) => ids.get(n.as_str()),
        None => None,
    }
}

/// The global variables with one more. The first variable of a name counts.
pub open spec fn with_global(
    g: GlobalsV,
    v: VarDeclV,
    ids: Seq<(Seq<char>, u32)>,
    consts: Consts,
) -> Made<GlobalsV> {
    if lookup(g.vars, v.name) is Some {
        Ok(g)
    } else {
        match shared_value(v, consts) {
            Err(m) => Err(m),
            Ok(value) => {
                let elem_class = numbered(ids, v.class_name);
                Ok(
                    GlobalsV {
                        vars: put(g.vars, v.name, g.statics.len() as u32),
                        colls: match v.coll {
                            Some(kind) => put(
                                g.colls,
                                v.name,
                                CollInfo {
                                    kind,
                                    elem_class,
                                    key_class: numbered(ids, v.key_class_name),
                                },
                            ),
                            None => g.colls,
                        },
                        classes: if v.coll is None && elem_class is Some {
                            put(g.classes, v.name, elem_class->0)
                        } else {
                            g.classes
                        },
                        statics: g.statics.push(value),
                    },
                )
            },
        }
    }
}

/// The global variables.
pub open spec fn globals_of(vars: Seq<VarDeclV>, ids: Seq<(Seq<char>, u32)>, consts: Consts) -> Made<
    GlobalsV,
>
    decreases vars.len(),
{
    if vars.len() == 0 {
        Ok(
            GlobalsV {
                vars: Seq::empty(),
                colls: Seq::empty(),
                classes: Seq::empty(),
                statics: Seq::empty(),
            },
        )
    } else {
        match globals_of(vars.drop_last(), ids, consts) {
            Err(m) => Err(m),
            Ok(g) => with_global(g, vars.last(), ids, consts),
        }
    }
}

impl Globals {
    /// Add a global variable.
    fn add(&mut self, v: &VarDecl, ids: &Table<u32>, consts: &Vec<(String, LogicVec)>) -> (r: Result<
        (),
        String,
    >)
        ensures
            match r {
                Ok(_) => with_global(old(self)@, v@, ids@, const_views(consts@)) == Ok::<
                    GlobalsV,
                    Seq<char>,
                >(final(self)@),
                Err(m) => with_global(old(self)@, v@, ids@, const_views(consts@)) == Err::<
                    GlobalsV,
                    Seq<char>,
                >(m@),
            },
    {
        if self.vars.has(v.name.as_str()) {
            return Ok(());
        }
        let value: Value = match shared_default(v, consts) {
            Ok(value) => value,
            Err(m) => {
                return Err(m);
            },
        };
        let ghost before = self.statics@;
        assert(value_views(self.statics@).len() == self.statics@.len());
        let place: u32 = self.statics.len() as u32;
        self.statics.push(value);
        assert(value_views(self.statics@) =~= value_views(before).push(value@));
        self.vars.insert(v.name.clone(), place);
        let elem_class: Option<u32> = number_of(ids, &v.class_name);
        match v.coll {
            Some(kind) => {
                let info = CollInfo {
                    kind,
                    elem_class,
                    key_class: number_of(ids, &v.key_class_name),
                };
                self.colls.insert(v.name.clone(), info);
            },
            None => {
                if let Some(cid) = elem_class {
                    self.classes.insert(v.name.clone(), cid);
                }
            },
        }
        Ok(())
    }
}

/// Variables fail as their first failing prefix does.
proof fn lemma_globals_error(
    all: Seq<VarDeclV>,
    ids: Seq<(Seq<char>, u32)>,
    consts: Consts,
    i: int,
)
    requires
        0 <= i < all.len(),
        globals_of(all.take(i + 1), ids, consts) is Err,
    ensures
        globals_of(all, ids, consts) == globals_of(all.take(i + 1), ids, consts),
    decreases all.len() - i,
{
    if i + 1 == all.len() {
        assert(all.take(i + 1) =~= all);
    } else {
        assert(all.take(i + 2).drop_last() =~= all.take(i + 1));
        lemma_globals_error(all, ids, consts, i + 1);
    }
}

/// Number the global variables.
pub fn number_globals(vars: &Vec<VarDecl>, ids: &Table<u32>, consts: &Vec<(String, LogicVec)>) -> (r:
    Result<Globals, String>)
    ensures
        match r {
            Ok(g) => globals_of(views(vars@), ids@, const_views(consts@)) == Ok::<
                GlobalsV,
                Seq<char>,
            >(g@),
            Err(m) => globals_of(views(vars@), ids@, const_views(consts@)) == Err::<
                GlobalsV,
                Seq<char>,
            >(m@),
        },
{
    let ghost all = views(vars@);
    let mut g = Globals {
        vars: Table::new(),
        colls: Table::new(),
        classes: Table::new(),
        statics: Vec::new(),
    };
    let mut i: usize = 0;
    assert(g@.statics =~= Seq::empty());
    while i < vars.len()
        invariant
            i <= vars@.len(),
            all == views(vars@),
            globals_of(all.take(i as int), ids@, const_views(consts@)) == Ok::<
                GlobalsV,
                Seq<char>,
            >(g@),
        decreases vars@.len() - i,
    {
        let ghost upto = all.take(i + 1);
        assert(upto.drop_last() =~= all.take(i as int));
        assert(upto.last() == vars@[i as int]@);
        if let Err(m) = g.add(&vars[i], ids, consts) {
            proof {
                lemma_globals_error(all, ids@, const_views(consts@), i as int);
            }
            return Err(m);
        }
        i = i + 1;
    }
    assert(all.take(i as int) =~= all);
    Ok(g)
}

} // verus!
