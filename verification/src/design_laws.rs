//! Laws of elaborated designs.
use vstd::prelude::*;

use crate::ast_model::{
    ClassDeclV, ExprV, FuncDeclV, ModuleItemV, ModuleV, ParameterOverrideV, PortConnectionV,
    SourceFileV,
};
use crate::code_model::{group_code, lemma_program, lemma_same, linked, program_linked};
use crate::bit::Bit;
use crate::bits::fill;
use crate::compile::{base_constructor, compiled, with_made};
use crate::const_fold::Consts;
use crate::design_check::{design_complaint, module_index, modules_of};
use crate::elaborate::{
    conformant, elaborated, global_part, with_class_consts,
};
use crate::gather::{
    expanded, free_functions, gathered, has_class, process_class, with_builtin, with_builtins,
};
use crate::gen_program::{
    callable_code, default_constructor, driver_code, foreign_code, result_width, stub_code, with_regs,
};
use crate::gen_laws::expressions_link;
use crate::gen_model::expr_code;
use crate::hierarchy::{
    inner_path, is_root, with_instance, with_items, with_parameters, with_ports, with_roots,
    with_signals, RunningV,
};
use crate::ir::{called, emit, loaded, no_code, with_reg, Code, InstV, ProgramV, ValueV};
use crate::layout::{no_scope, EnvV};
use crate::layout_laws::{
    made_constructors_follow, occurrences, one_program_for_each_callable, one_reason_for_each_stub,
    ranking_keeps_occurrences,
};
use crate::numbering::{all_jobs, class_numbers, functions, with_constructors, JobV};
use crate::stmt_laws::{always_blocks_are_linked, callables_are_linked, initial_blocks_are_linked};

verus! {

broadcast use group_code;

/// Whether each of some programs is linked.
pub open spec fn all_linked(s: Seq<ProgramV>) -> bool {
    forall|i: int| 0 <= i < s.len() ==> program_linked(#[trigger] s[i])
}

proof fn lemma_regs(b: Code, n: nat)
    ensures
        linked(b, with_regs(b, n).0),
    decreases n,
{
    if n == 0 {
        lemma_same(b);
    } else {
        lemma_regs(b, (n - 1) as nat);
    }
}

proof fn lemma_stub(f: FuncDeclV, has_this: bool)
    requires
        stub_code(f, has_this) is Ok,
    ensures
        program_linked(stub_code(f, has_this)->Ok_0),
{
    lemma_same(no_code());
    let b0 = if has_this {
        with_reg(no_code())
    } else {
        no_code()
    };
    lemma_regs(b0, f.params.len());
    let b1 = with_regs(b0, f.params.len()).0;
    assert(linked(no_code(), b1));
    let b2 = if f.is_void {
        emit(b1, InstV::ReturnVoid)
    } else {
        emit(
            loaded(
                b1,
                ValueV::Logic(
                    fill(
                        Bit::Zero,
                        result_width(f) as nat,
                    ),
                ),
            ),
            InstV::Return { value: b1.regs },
        )
    };
    assert(linked(no_code(), b2));
    lemma_program(b2);
}

proof fn lemma_foreign(f: FuncDeclV, symbol: Seq<char>)
    requires
        foreign_code(f, symbol) is Ok,
    ensures
        program_linked(foreign_code(f, symbol)->Ok_0),
{
    lemma_same(no_code());
    lemma_regs(no_code(), f.params.len());
    let (b1, args) = with_regs(no_code(), f.params.len());
    let b2 = emit(with_reg(b1), InstV::DpiCall { dst: b1.regs, name: symbol, args });
    let b3 = emit(
        b2,
        if f.is_void {
            InstV::ReturnVoid
        } else {
            InstV::Return { value: b1.regs }
        },
    );
    assert(linked(no_code(), b3));
    lemma_program(b3);
}

proof fn lemma_default(base_ctor: Option<u32>)
    requires
        default_constructor(base_ctor) is Ok,
    ensures
        program_linked(default_constructor(base_ctor)->Ok_0),
{
    lemma_same(no_code());
    let b0 = with_reg(no_code());
    let b1 = match base_ctor {
        Some(func) => called(b0, func, seq![no_code().regs]),
        None => b0,
    };
    let b2 = emit(b1, InstV::ReturnVoid);
    assert(linked(no_code(), b2));
    lemma_program(b2);
}

proof fn lemma_compiled(env: EnvV, jobs: Seq<JobV>)
    requires
        compiled(env, jobs) is Ok,
    ensures
        all_linked(compiled(env, jobs)->Ok_0.funcs),
    decreases jobs.len(),
{
    if jobs.len() > 0 {
        lemma_compiled(env, jobs.drop_last());
        let job = jobs.last();
        match job.0.dpi_name {
            Some(symbol) => lemma_foreign(job.0, symbol),
            None => {
                if callable_code(env, job.0, job.1) is Ok {
                    callables_are_linked(env, job.0, job.1);
                } else {
                    lemma_stub(job.0, job.1 is Some);
                }
            },
        }
    }
}

proof fn lemma_made(funcs: Seq<ProgramV>, made: Seq<u32>, env: EnvV)
    requires
        all_linked(funcs),
        with_made(funcs, made, env) is Ok,
    ensures
        all_linked(with_made(funcs, made, env)->Ok_0),
    decreases made.len(),
{
    if made.len() > 0 {
        lemma_made(funcs, made.drop_last(), env);
        lemma_default(base_constructor(env, made.last()));
    }
}

/// Whether each process and each driver is linked.
pub open spec fn running_linked(r: RunningV) -> bool {
    &&& all_linked(r.processes)
    &&& forall|i: int| 0 <= i < r.drivers.len() ==> program_linked((#[trigger] r.drivers[i]).value)
}

proof fn lemma_driver(env: EnvV, rhs: ExprV)
    requires
        driver_code(env, rhs) is Ok,
    ensures
        program_linked(driver_code(env, rhs)->Ok_0),
{
    reveal(driver_code);
    expressions_link(env, no_scope(), no_code(), rhs);
    let (b, value) = expr_code(env, no_scope(), no_code(), rhs)->Ok_0;
    lemma_program(emit(b, InstV::Return { value }));
}

proof fn lemma_instance(
    depth: nat,
    base: Consts,
    mods: Seq<ModuleV>,
    outer: EnvV,
    done: RunningV,
    m: ModuleV,
    path: Seq<char>,
    conns: Seq<PortConnectionV>,
    overrides: Seq<ParameterOverrideV>,
)
    requires
        running_linked(done),
        with_instance(depth, base, mods, outer, done, m, path, conns, overrides) is Ok,
    ensures
        running_linked(
            with_instance(depth, base, mods, outer, done, m, path, conns, overrides)->Ok_0,
        ),
    decreases depth, 1nat, 0nat,
{
    let consts = with_parameters(base, outer.consts, m.parameters, overrides)->Ok_0;
    let ports = with_ports(done.nets, path, m.ports, outer.nets, conns)->Ok_0;
    let n = with_signals(ports, path, m.items, consts)->Ok_0;
    lemma_items(
        depth,
        base,
        mods,
        EnvV { nets: n.scope, consts, ..outer },
        RunningV { nets: n.nets, ..done },
        m.items,
        path,
    );
}

proof fn lemma_items(
    depth: nat,
    base: Consts,
    mods: Seq<ModuleV>,
    env: EnvV,
    done: RunningV,
    items: Seq<ModuleItemV>,
    path: Seq<char>,
)
    requires
        running_linked(done),
        with_items(depth, base, mods, env, done, items, path) is Ok,
    ensures
        running_linked(with_items(depth, base, mods, env, done, items, path)->Ok_0),
    decreases depth, 0nat, items.len(),
{
    if items.len() > 0 {
        lemma_items(depth, base, mods, env, done, items.drop_last(), path);
        let r = with_items(depth, base, mods, env, done, items.drop_last(), path)->Ok_0;
        match items.last() {
            ModuleItemV::Always(a) => always_blocks_are_linked(env, a.body),
            ModuleItemV::Initial(body) => initial_blocks_are_linked(env, body),
            ModuleItemV::ContinuousAssign { rhs, .. } => lemma_driver(env, rhs),
            ModuleItemV::Instance(inst) => {
                if let Some(k) = module_index(mods, inst.module_name, 0) {
                    lemma_instance(
                        (depth - 1) as nat,
                        base,
                        mods,
                        env,
                        r,
                        mods[k as int],
                        inner_path(path, inst.name),
                        inst.connections,
                        inst.parameters,
                    );
                }
            },
            _ => {},
        }
    }
}

proof fn lemma_roots(env: EnvV, mods: Seq<ModuleV>, roots: Seq<ModuleV>)
    requires
        with_roots(env, mods, roots) is Ok,
    ensures
        running_linked(with_roots(env, mods, roots)->Ok_0),
    decreases roots.len(),
{
    if roots.len() > 0 {
        lemma_roots(env, mods, roots.drop_last());
        if is_root(mods, roots.last().name) {
            lemma_instance(
                mods.len(),
                env.consts,
                mods,
                env,
                with_roots(env, mods, roots.drop_last())->Ok_0,
                roots.last(),
                Seq::empty(),
                Seq::empty(),
                Seq::empty(),
            );
        }
    }
}

/// In every program of a design each label is bound once, and each jump goes to
/// one.
pub proof fn designs_are_linked(file: SourceFileV)
    requires
        elaborated(file) is Ok,
    ensures
        all_linked(elaborated(file)->Ok_0.0.funcs),
        all_linked(elaborated(file)->Ok_0.0.processes),
        forall|i: int|
            0 <= i < elaborated(file)->Ok_0.0.drivers.len() ==> program_linked(
                (#[trigger] elaborated(file)->Ok_0.0.drivers[i]).value,
            ),
{
    reveal(elaborated);
    reveal(global_part);
    let g = gathered(file.items);
    let (classes, aliases) = expanded(with_builtins(g.classes), g.funcs, g.aliases)->0;
    let consts = with_class_consts(g.consts, classes);
    let global = global_part(g, classes, aliases, consts)->Ok_0;
    lemma_roots(global.env, modules_of(file.items), modules_of(file.items));
    let free = free_functions(g.funcs);
    let ids = class_numbers(classes);
    let jobs = all_jobs(free, classes);
    let made = with_constructors(
        functions(free, classes, ids),
        jobs.len(),
    ).1;
    lemma_compiled(global.env, jobs);
    lemma_made(compiled(global.env, jobs)->Ok_0.funcs, made, global.env);
}

/// A design that is accepted as conformant has nothing to complain about, and all
/// of its callables are compiled.
pub proof fn conformant_designs_are_whole(file: SourceFileV)
    requires
        conformant(file) is Ok,
    ensures
        design_complaint(file) is None,
        elaborated(file) is Ok,
        elaborated(file)->Ok_0.0 == conformant(file)->Ok_0,
        elaborated(file)->Ok_0.1.callables_stubbed == 0,
{
    reveal(elaborated);
    reveal(global_part);
}

/// The statistics count what was compiled: a callable counts as stubbed exactly if
/// it is among the stubs, and each stub counts for one reason.
pub proof fn statistics_count_stubs(file: SourceFileV)
    requires
        elaborated(file) is Ok,
    ensures
        elaborated(file)->Ok_0.1.callables_stubbed == elaborated(file)->Ok_0.2.len(),
        elaborated(file)->Ok_0.1.classes == elaborated(file)->Ok_0.0.classes.len(),
        elaborated(file)->Ok_0.1.callables <= elaborated(file)->Ok_0.0.funcs.len(),
        elaborated(file)->Ok_0.1.callables_stubbed <= elaborated(file)->Ok_0.1.callables,
        elaborated(file)->Ok_0.1.callables_stubbed <= usize::MAX ==> occurrences(
            elaborated(file)->Ok_0.1.stub_reasons,
        ) == elaborated(file)->Ok_0.1.callables_stubbed,
{
    reveal(elaborated);
    reveal(global_part);
    let g = gathered(file.items);
    let (classes, aliases) = expanded(with_builtins(g.classes), g.funcs, g.aliases)->0;
    let consts = with_class_consts(g.consts, classes);
    let global = global_part(g, classes, aliases, consts)->Ok_0;
    let free = free_functions(g.funcs);
    let ids = class_numbers(classes);
    let jobs = all_jobs(free, classes);
    let made = with_constructors(
        functions(free, classes, ids),
        jobs.len(),
    ).1;
    one_program_for_each_callable(global.env, jobs);
    let c = compiled(global.env, jobs)->Ok_0;
    ranking_keeps_occurrences(c.reasons);
    if c.stubs.len() <= usize::MAX {
        one_reason_for_each_stub(global.env, jobs);
    }
    made_constructors_follow(
        compiled(global.env, jobs)->Ok_0.funcs,
        made,
        global.env,
    );
}

/// The built-in classes are there, and a class of the user comes before a built-in
/// one of its name.
pub proof fn builtin_classes_are_there(classes: Seq<ClassDeclV>)
    ensures
        has_class(with_builtins(classes), "process"@),
        has_class(with_builtins(classes), "mailbox"@),
        with_builtins(classes).len() >= classes.len(),
        with_builtins(classes).take(classes.len() as int) == classes,
        has_class(classes, "process"@) && has_class(classes, "mailbox"@) ==> with_builtins(classes)
            == classes,
{
    let one = with_builtin(classes, process_class());
    let two = with_builtins(classes);
    assert(has_class(one, "process"@)) by {
        if !has_class(classes, "process"@) {
            assert(one[one.len() - 1].name == "process"@);
        }
    }
    assert(has_class(two, "process"@)) by {
        let i = choose|i: int| 0 <= i < one.len() && (#[trigger] one[i]).name == "process"@;
        assert(two[i] == one[i]);
        assert(two[i].name == "process"@);
    }
    assert(has_class(two, "mailbox"@)) by {
        if !has_class(one, "mailbox"@) {
            assert(two[two.len() - 1].name == "mailbox"@);
        }
    }
    assert(two.take(classes.len() as int) =~= classes);
}

} // verus!
