//! Elaboration: from a syntax tree to classes, programs, nets and processes.
//!
//! Names are resolved here, once: a program speaks of registers, slots, places
//! and numbers only.
use vstd::prelude::*;

use crate::ast::{clone_consts, const_views, views, ClassDecl, FuncDecl, SourceFile};
use crate::ast_model::{ClassDeclV, FuncDeclV, SourceFileV};
use crate::class_layout::ClassFids;
use crate::compile::{
    add_made, class_def, class_defs, compile_all, compiled, def_views, program_views, rank_reasons,
    ranked, with_made, ClassDef, ClassDefV, Compiled,
};
use crate::complaint::{CallableStub, CallableStubV, ElabError, ElabErrorV};
use crate::const_fold::{Consts, Made};
use crate::design_check::{design_complaint, validate};
use crate::gather::{
    add_builtins, expand_classes, expanded, free_funcs, free_functions, gather, gathered,
    tables_view, with_builtins, Gathered, GatheredV,
};
use crate::hierarchy::{run_modules, running, Driver, DriverV, Net, NetV, Running};
use crate::ir::{Program, ProgramV, Value, ValueV};
use crate::layout::{class_views, value_views, ClassInfo, ClassInfoV, Env, EnvV};
use crate::link::{
    agreed, collection_aliases_of, lay_out, layouts, shared_aliases, type_aliases_of, Plan, PlanV,
};
use crate::logic::LogicVec;
use crate::mono_names::pair_views;
use crate::numbering::{
    add_constructors, alias_numbers, all_jobs, class_numbers, func_numbers, functions, globals_of,
    job_views, number_aliases, number_callables, number_classes, number_globals, with_constructors,
    Globals, GlobalsV,
};
use crate::table::{add_const, entries_view, put_new, Table};

verus! {

/// How much of a design was compiled.
#[derive(Debug)]
pub struct ElabStats {
    /// Classes laid out.
    pub classes: usize,
    /// Functions, methods and constructors seen.
    pub callables: usize,
    /// Callables that could not be compiled.
    pub callables_stubbed: usize,
    /// Why callables could not be compiled, the most frequent reason first.
    pub stub_reasons: Vec<(String, usize)>,
}

/// The mathematical form of [`ElabStats`].
pub struct ElabStatsV {
    pub classes: nat,
    pub callables: nat,
    pub callables_stubbed: nat,
    pub stub_reasons: Seq<(Seq<char>, usize)>,
}

impl View for ElabStats {
    type V = ElabStatsV;

    open spec fn view(&self) -> ElabStatsV {
        ElabStatsV {
            classes: self.classes as nat,
            callables: self.callables as nat,
            callables_stubbed: self.callables_stubbed as nat,
            stub_reasons: entries_view(self.stub_reasons@),
        }
    }
}

/// An elaborated design.
#[derive(Debug)]
pub struct Design {
    pub classes: Vec<ClassDef>,
    pub funcs: Vec<Program>,
    /// The initial values of the shared storage.
    pub statics: Vec<Value>,
    /// The names of enumeration members by number, a table for each type.
    pub enum_tables: Vec<Vec<(i64, String)>>,
    pub nets: Vec<Net>,
    pub drivers: Vec<Driver>,
    pub processes: Vec<Program>,
}

/// The mathematical form of a [`Design`].
pub struct DesignV {
    pub classes: Seq<ClassDefV>,
    pub funcs: Seq<ProgramV>,
    pub statics: Seq<ValueV>,
    pub enum_tables: Seq<Seq<(i64, Seq<char>)>>,
    pub nets: Seq<NetV>,
    pub drivers: Seq<DriverV>,
    pub processes: Seq<ProgramV>,
}

impl View for Design {
    type V = DesignV;

    open spec fn view(&self) -> DesignV {
        DesignV {
            classes: def_views(self.classes@),
            funcs: program_views(self.funcs@),
            statics: value_views(self.statics@),
            enum_tables: tables_view(self.enum_tables@),
            nets: views(self.nets@),
            drivers: views(self.drivers@),
            processes: program_views(self.processes@),
        }
    }
}

// ---- constants of classes ---------------------------------------------------------------

/// Constants with more of them. The first of a name counts.
pub open spec fn with_consts(consts: Consts, more: Consts) -> Consts
    decreases more.len(),
{
    if more.len() == 0 {
        consts
    } else {
        put_new(with_consts(consts, more.drop_last()), more.last().0, more.last().1)
    }
}

/// Constants with those of classes.
pub open spec fn with_class_consts(consts: Consts, classes: Seq<ClassDeclV>) -> Consts
    decreases classes.len(),
{
    if classes.len() == 0 {
        consts
    } else {
        with_consts(with_class_consts(consts, classes.drop_last()), classes.last().consts)
    }
}

/// Add constants.
fn add_consts(consts: &mut Vec<(String, LogicVec)>, more: &Vec<(String, LogicVec)>)
    ensures
        const_views(final(consts)@) == with_consts(const_views(old(consts)@), const_views(more@)),
{
    let ghost all = const_views(more@);
    let ghost start = const_views(consts@);
    let mut i: usize = 0;
    while i < more.len()
        invariant
            i <= more@.len(),
            all == const_views(more@),
            const_views(consts@) == with_consts(start, all.take(i as int)),
        decreases more@.len() - i,
    {
        let ghost upto = all.take(i + 1);
        assert(upto.drop_last() =~= all.take(i as int));
        assert(upto.last() == (more@[i as int].0@, more@[i as int].1@));
        add_const(consts, &more[i].0, &more[i].1);
        i = i + 1;
    }
    assert(all.take(i as int) =~= all);
}

/// Add the constants of classes.
fn add_class_consts(consts: &mut Vec<(String, LogicVec)>, classes: &Vec<ClassDecl>)
    ensures
        const_views(final(consts)@) == with_class_consts(
            const_views(old(consts)@),
            views(classes@),
        ),
{
    let ghost all = views(classes@);
    let ghost start = const_views(consts@);
    let mut i: usize = 0;
    while i < classes.len()
        invariant
            i <= classes@.len(),
            all == views(classes@),
            const_views(consts@) == with_class_consts(start, all.take(i as int)),
        decreases classes@.len() - i,
    {
        let ghost upto = all.take(i + 1);
        assert(upto.drop_last() =~= all.take(i as int));
        assert(upto.last() == classes@[i as int]@);
        add_consts(consts, &classes[i].consts);
        i = i + 1;
    }
    assert(all.take(i as int) =~= all);
}

// ---- the global part ----------------------------------------------------------------------

/// The classes, callables and shared storage of a design, and what processes are
/// compiled against.
pub struct GlobalV {
    pub env: EnvV,
    pub funcs: Seq<ProgramV>,
    pub statics: Seq<ValueV>,
    pub stats: ElabStatsV,
    pub stubs: Seq<CallableStubV>,
}

/// What callables are compiled against: there are no nets in scope.
pub open spec fn global_env(
    g: GatheredV,
    classes: Seq<ClassDeclV>,
    aliases: Seq<(Seq<char>, Seq<char>)>,
    consts: Consts,
    globals: GlobalsV,
    infos: Seq<ClassInfoV>,
) -> EnvV {
    let ids = class_numbers(classes);
    EnvV {
        nets: Seq::empty(),
        funcs: func_numbers(free_functions(g.funcs)),
        class_ids: ids,
        classes: infos,
        consts,
        vars: globals.vars,
        var_coll: globals.colls,
        var_class: globals.classes,
        type_aliases: alias_numbers(aliases, ids),
        enums: g.enums,
        class_typedefs: agreed(type_aliases_of(infos)).one,
        class_collection_typedefs: agreed(collection_aliases_of(infos)).one,
    }
}

/// The global part of a design, given its concrete classes and its constants.
#[verifier::opaque]
pub open spec fn global_part(
    g: GatheredV,
    classes: Seq<ClassDeclV>,
    aliases: Seq<(Seq<char>, Seq<char>)>,
    consts: Consts,
) -> Made<GlobalV> {
    let ids = class_numbers(classes);
    let free = free_functions(g.funcs);
    let jobs = all_jobs(free, classes);
    let (fids, made) = with_constructors(functions(free, classes, ids), jobs.len());
    match globals_of(g.vars, ids, consts) {
        Err(m) => Err(m),
        Ok(globals) => match layouts(PlanV { classes, fids, ids, consts }, globals.statics) {
            Err(m) => Err(m),
            Ok((infos, statics)) => {
                let env = global_env(g, classes, aliases, consts, globals, infos);
                match compiled(env, jobs) {
                    Err(m) => Err(m),
                    Ok(c) => match with_made(c.funcs, made, env) {
                        Err(m) => Err(m),
                        Ok(funcs) => Ok(
                            GlobalV {
                                env,
                                funcs,
                                statics,
                                stats: ElabStatsV {
                                    classes: infos.len(),
                                    callables: jobs.len(),
                                    callables_stubbed: c.stubs.len(),
                                    stub_reasons: ranked(c.reasons),
                                },
                                stubs: c.stubs,
                            },
                        ),
                    },
                }
            },
        },
    }
}

/// The global part of a design.
pub struct Global {
    pub env: Env,
    pub funcs: Vec<Program>,
    pub statics: Vec<Value>,
    pub stats: ElabStats,
    pub stubs: Vec<CallableStub>,
}

impl View for Global {
    type V = GlobalV;

    open spec fn view(&self) -> GlobalV {
        GlobalV {
            env: self.env@,
            funcs: program_views(self.funcs@),
            statics: value_views(self.statics@),
            stats: self.stats@,
            stubs: views(self.stubs@),
        }
    }
}

/// Classes keep their count when they get their constructors.
proof fn lemma_functions_len(
    funcs: Seq<FuncDeclV>,
    classes: Seq<ClassDeclV>,
    ids: Seq<(Seq<char>, u32)>,
)
    ensures
        functions(funcs, classes, ids).len() == classes.len(),
    decreases classes.len(),
{
    if classes.len() > 0 {
        lemma_functions_len(funcs, classes.drop_last(), ids);
    }
}

/// Build the global part of a design.
pub fn build_global(
    g: &Gathered,
    classes: &Vec<ClassDecl>,
    free: &Vec<FuncDecl>,
    aliases: &Vec<(String, String)>,
    consts: Vec<(String, LogicVec)>,
) -> (r: Result<Global, String>)
    requires
        views(free@) == free_functions(g@.funcs),
    ensures
        match r {
            Ok(global) => global_part(
                g@,
                views(classes@),
                pair_views(aliases@),
                const_views(consts@),
            ) == Ok::<GlobalV, Seq<char>>(global@),
            Err(m) => global_part(
                g@,
                views(classes@),
                pair_views(aliases@),
                const_views(consts@),
            ) == Err::<GlobalV, Seq<char>>(m@),
        },
{
    reveal(global_part);
    let ids: Table<u32> = number_classes(classes);
    let type_aliases: Table<u32> = number_aliases(aliases, &ids);
    let (jobs, funcs, mut fids): (Vec<(&FuncDecl, Option<u32>)>, Table<u32>, Vec<ClassFids>) =
        number_callables(free, classes, &ids);
    proof {
        lemma_functions_len(views(free@), views(classes@), ids@);
        assert(views(fids@).len() == fids@.len());
        assert(views(classes@).len() == classes@.len());
        assert(job_views(jobs@).len() == jobs@.len());
    }
    let made: Vec<u32> = add_constructors(&mut fids, jobs.len());
    let globals: Globals = match number_globals(&g.vars, &ids, &consts) {
        Ok(globals) => globals,
        Err(m) => {
            return Err(m);
        },
    };
    let mut statics: Vec<Value> = globals.statics;
    let plan = Plan { classes, fids: &fids, ids: &ids, consts: &consts };
    let infos: Vec<ClassInfo> = match lay_out(&plan, &mut statics) {
        Ok(infos) => infos,
        Err(m) => {
            return Err(m);
        },
    };
    let (class_typedefs, class_collection_typedefs) = shared_aliases(&infos);
    let count: usize = infos.len();
    assert(class_views(infos@).len() == infos@.len());
    let env = Env {
        nets: Table::new(),
        funcs,
        class_ids: ids,
        classes: infos,
        consts,
        vars: globals.vars,
        var_coll: globals.colls,
        var_class: globals.classes,
        type_aliases,
        enums: g.enums.copy(),
        class_typedefs,
        class_collection_typedefs,
    };
    let c: Compiled = match compile_all(&env, &jobs) {
        Ok(c) => c,
        Err(m) => {
            return Err(m);
        },
    };
    let mut programs: Vec<Program> = c.funcs;
    if let Err(m) = add_made(&mut programs, &made, &env) {
        return Err(m);
    }
    let stats = ElabStats {
        classes: count,
        callables: jobs.len(),
        callables_stubbed: c.stubs.len(),
        stub_reasons: rank_reasons(&c.reasons),
    };
    assert(views(c.stubs@).len() == c.stubs@.len());
    Ok(Global { env, funcs: programs, statics, stats, stubs: c.stubs })
}

// ---- designs ----------------------------------------------------------------------------------

/// A design, how much of it was compiled, and what was not.
pub type Elaborated = (DesignV, ElabStatsV, Seq<CallableStubV>);

/// The design of a file, how much of it was compiled, and what was not.
#[verifier::opaque]
pub open spec fn elaborated(file: SourceFileV) -> Made<Elaborated> {
    let g = gathered(file.items);
    match expanded(with_builtins(g.classes), g.funcs, g.aliases) {
        None => Err("type references have no end"@),
        Some((classes, aliases)) => match global_part(
            g,
            classes,
            aliases,
            with_class_consts(g.consts, classes),
        ) {
            Err(m) => Err(m),
            Ok(global) => match running(global.env, file.items) {
                Err(m) => Err(m),
                Ok(r) => {
                    let infos = global.env.classes;
                    Ok(
                        (
                            DesignV {
                                classes: infos.map_values(|c: ClassInfoV| class_def(infos, c)),
                                funcs: global.funcs,
                                statics: global.statics,
                                enum_tables: g.tables,
                                nets: r.nets,
                                drivers: r.drivers,
                                processes: r.processes,
                            },
                            global.stats,
                            global.stubs,
                        ),
                    )
                },
            },
        },
    }
}

/// Elaborate a source file; say how much of it was compiled and what was not.
fn elaborate_all(file: &SourceFile) -> (r: Result<
    (Design, ElabStats, Vec<CallableStub>),
    String,
>)
    ensures
        match r {
            Ok((design, stats, stubs)) => elaborated(file@) == Ok::<Elaborated, Seq<char>>(
                (design@, stats@, views(stubs@)),
            ),
            Err(m) => elaborated(file@) == Err::<Elaborated, Seq<char>>(m@),
        },
{
    reveal(elaborated);
    let mut g: Gathered = gather(file);
    add_builtins(&mut g.classes);
    let (classes, aliases): (Vec<ClassDecl>, Vec<(String, String)>) = match expand_classes(
        &g.classes,
        &g.funcs,
        &g.aliases,
    ) {
        Some(e) => e,
        None => {
            return Err("type references have no end".to_owned());
        },
    };
    let mut consts: Vec<(String, LogicVec)> = clone_consts(&g.consts);
    add_class_consts(&mut consts, &classes);
    let free: Vec<FuncDecl> = free_funcs(&g.funcs);
    proof {
        reveal(global_part);
    }
    let mut global: Global = match build_global(&g, &classes, &free, &aliases, consts) {
        Ok(global) => global,
        Err(m) => {
            return Err(m);
        },
    };
    let running: Running = match run_modules(&mut global.env, file) {
        Ok(running) => running,
        Err(m) => {
            return Err(m);
        },
    };
    let design = Design {
        classes: class_defs(&global.env.classes),
        funcs: global.funcs,
        statics: global.statics,
        enum_tables: g.tables,
        nets: running.nets,
        drivers: running.drivers,
        processes: running.processes,
    };
    Ok((design, global.stats, global.stubs))
}

/// Elaborate a source file, and say how much of it was compiled.
///
/// A function or method that cannot be compiled is stubbed and counted. A
/// process that cannot be compiled, or a constant that cannot be evaluated, is an
/// error.
pub fn elaborate_with_stats(file: &SourceFile) -> (r: Result<(Design, ElabStats), String>)
    ensures
        match r {
            Ok((design, stats)) => match elaborated(file@) {
                Ok(e) => e.0 == design@ && e.1 == stats@,
                Err(_) => false,
            },
            Err(m) => elaborated(file@) == Err::<Elaborated, Seq<char>>(m@),
        },
{
    match elaborate_all(file) {
        Ok((design, stats, _)) => Ok((design, stats)),
        Err(m) => Err(m),
    }
}

/// Elaborate a source file.
pub fn elaborate(file: &SourceFile) -> (r: Result<Design, String>)
    ensures
        match r {
            Ok(design) => match elaborated(file@) {
                Ok(e) => e.0 == design@,
                Err(_) => false,
            },
            Err(m) => elaborated(file@) == Err::<Elaborated, Seq<char>>(m@),
        },
{
    match elaborate_all(file) {
        Ok((design, _, _)) => Ok(design),
        Err(m) => Err(m),
    }
}

/// The design of a file in which everything is supported and compiled.
pub open spec fn conformant(file: SourceFileV) -> Result<DesignV, ElabErrorV> {
    match design_complaint(file) {
        Some(m) => Err(ElabErrorV::UnsupportedSemantic(m)),
        None => match elaborated(file) {
            Err(m) => Err(ElabErrorV::Failed(m)),
            Ok(e) => if e.2.len() > 0 {
                Err(ElabErrorV::CallableStubs(e.2))
            } else {
                Ok(e.0)
            },
        },
    }
}

/// Elaborate a source file, rejecting what is not supported and what cannot be
/// compiled.
pub fn elaborate_conformant(file: &SourceFile) -> (r: Result<Design, ElabError>)
    ensures
        match r {
            Ok(design) => conformant(file@) == Ok::<DesignV, ElabErrorV>(design@),
            Err(e) => conformant(file@) == Err::<DesignV, ElabErrorV>(e@),
        },
{
    if let Err(e) = validate(file) {
        return Err(e);
    }
    match elaborate_all(file) {
        Err(message) => Err(ElabError::Failed { message }),
        Ok((design, _, stubs)) => {
            assert(views(stubs@).len() == stubs@.len());
            if stubs.len() > 0 {
                Err(ElabError::CallableStubs { stubs })
            } else {
                Ok(design)
            }
        },
    }
}

} // verus!
