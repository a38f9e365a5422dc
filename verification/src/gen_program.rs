//! Compiling functions, methods and processes to programs.
use vstd::prelude::*;

use crate::ast::{views, Expr, FuncDecl, Param, PortDir, Stmt};
use crate::ast_model::{ExprV, FuncDeclV, ParamV, StmtV};
use crate::bit::Bit;
use crate::bits::fill;
use crate::const_fold::Made;
use crate::gen_expr::{gen_expr, gives_code};
use crate::gen_model::expr_code;
use crate::gen_simple::{collection_type, note_type};
use crate::gen_stmt::gen_stmt;
use crate::gen_stmt_model::{declared_collection, stmt_code, with_typed};
use crate::ir::{
    built, called, emit, loaded, no_code, with_label, with_reg, ArgMode, Builder, Code, Inst, InstV,
    Program, ProgramV, Value, ValueV,
};
use crate::layout::{class_name_at, no_scope, opt_class, Env, EnvV, Scope, ScopeV};
use crate::logic::LogicVec;
use crate::message::{text2, text3};
use crate::table::put;
use crate::text::{chars_of, find_char, first_at, is_text, string_of, trim, trimmed};

verus! {

/// Whether compiling gave the program that it is to give.
pub open spec fn makes(r: Result<Program, String>, want: Made<ProgramV>) -> bool {
    match r {
        Ok(p) => want == Ok::<ProgramV, Seq<char>>(p@),
        Err(m) => want == Err::<ProgramV, Seq<char>>(m@),
    }
}

// ---- formals ------------------------------------------------------------------------

/// How an argument is passed.
pub open spec fn mode_of(dir: PortDir) -> ArgMode {
    match dir {
        PortDir::Input => ArgMode::Input,
        PortDir::Output => ArgMode::Output,
        PortDir::Inout => ArgMode::Inout,
        PortDir::Ref => ArgMode::Ref,
    }
}

/// How an argument is passed.
pub fn arg_mode(dir: PortDir) -> (r: ArgMode)
    ensures
        r == mode_of(dir),
{
    match dir {
        PortDir::Input => ArgMode::Input,
        PortDir::Output => ArgMode::Output,
        PortDir::Inout => ArgMode::Inout,
        PortDir::Ref => ArgMode::Ref,
    }
}

/// How the arguments of a callable are passed, `this` first.
pub open spec fn modes_of(has_this: bool, params: Seq<ParamV>) -> Seq<ArgMode> {
    (if has_this {
        seq![ArgMode::Input]
    } else {
        Seq::empty()
    }) + params.map_values(|p: ParamV| mode_of(p.dir))
}

/// How the arguments of a callable are passed, `this` first.
fn arg_modes(has_this: bool, params: &Vec<Param>) -> (r: Vec<ArgMode>)
    ensures
        r@ == modes_of(has_this, views(params@)),
{
    let ghost all = views(params@);
    let ghost f = |p: ParamV| mode_of(p.dir);
    let mut out: Vec<ArgMode> = Vec::new();
    if has_this {
        out.push(ArgMode::Input);
    }
    let ghost first = out@;
    assert(first =~= (if has_this {
        seq![ArgMode::Input]
    } else {
        Seq::empty()
    }));
    let mut i: usize = 0;
    assert(first + all.take(0).map_values(f) =~= out@);
    while i < params.len()
        invariant
            i <= params@.len(),
            all == views(params@),
            f == (|p: ParamV| mode_of(p.dir)),
            out@ == first + all.take(i as int).map_values(f),
        decreases params@.len() - i,
    {
        let ghost before = out@;
        out.push(arg_mode(params[i].dir));
        assert(all[i as int] == params@[i as int]@);
        i = i + 1;
        assert(out@ =~= first + all.take(i as int).map_values(f));
    }
    assert(all.take(i as int) =~= all);
    out
}

/// The names of a callable with one more formal, in a register.
pub open spec fn with_formal(env: EnvV, sc: ScopeV, reg: u32, p: ParamV) -> ScopeV {
    let sc1 = ScopeV { locals: put(sc.locals, p.name, (reg, p.width)), ..sc };
    match declared_collection(
        env,
        sc1,
        p.coll,
        p.class_name,
        p.type_scope,
        p.key_class_name,
    ) {
        Some(info) => ScopeV { colls: put(sc1.colls, p.name, info), ..sc1 },
        None => match p.class_name {
            Some(of) => with_typed(env, sc1, p.name, of),
            None => sc1,
        },
    }
}

/// The names of a callable, its code and the registers of its formals, each
/// formal in a new register.
pub open spec fn with_formals(env: EnvV, sc: ScopeV, b: Code, params: Seq<ParamV>) -> (
    ScopeV,
    Code,
    Seq<u32>,
)
    decreases params.len(),
{
    if params.len() == 0 {
        (sc, b, Seq::empty())
    } else {
        let (sc1, b1, regs) = with_formals(env, sc, b, params.drop_last());
        (with_formal(env, sc1, b1.regs, params.last()), with_reg(b1), regs.push(b1.regs))
    }
}

/// Declare formals.
fn gen_formals(env: &Env, sc: &mut Scope, b: &mut Builder, params: &Vec<Param>) -> (r: Vec<u32>)
    ensures
        (final(sc)@, final(b)@, r@) == with_formals(env@, old(sc)@, old(b)@, views(params@)),
        r@.len() == params@.len(),
{
    let ghost all = views(params@);
    let ghost names = sc@;
    let ghost start = b@;
    let mut regs: Vec<u32> = Vec::new();
    let mut i: usize = 0;
    assert(regs@ =~= Seq::<u32>::empty());
    while i < params.len()
        invariant
            i <= params@.len(),
            all == views(params@),
            names == old(sc)@,
            start == old(b)@,
            (sc@, b@, regs@) == with_formals(env@, names, start, all.take(i as int)),
            regs@.len() == i,
        decreases params@.len() - i,
    {
        let ghost upto = all.take(i + 1);
        assert(upto.drop_last() =~= all.take(i as int));
        assert(upto.last() == params@[i as int]@);
        let p: &Param = &params[i];
        let reg: u32 = b.reg();
        sc.locals.insert(p.name.clone(), (reg, p.width));
        match collection_type(
            env,
            sc,
            p.coll,
            &p.class_name,
            &p.type_scope,
            &p.key_class_name,
        ) {
            Some(info) => {
                sc.colls.insert(p.name.clone(), info);
            },
            None => {
                if let Some(of) = &p.class_name {
                    note_type(env, sc, &p.name, of);
                }
            },
        }
        regs.push(reg);
        i = i + 1;
    }
    assert(all.take(i as int) =~= all);
    regs
}

/// The code that gives omitted arguments their defaults.
pub open spec fn defaults_code(
    env: EnvV,
    sc: ScopeV,
    b: Code,
    params: Seq<ParamV>,
    regs: Seq<u32>,
) -> Made<Code>
    decreases params.len(),
{
    if params.len() == 0 {
        Ok(b)
    } else {
        match defaults_code(env, sc, b, params.drop_last(), regs) {
            Err(m) => Err(m),
            Ok(b1) => match params.last().default {
                None => Ok(b1),
                Some(e) => {
                    let formal = regs[params.len() - 1];
                    let supplied = b1.labels;
                    let b2 = emit(
                        with_label(b1),
                        InstV::BranchArgProvided { formal, label: supplied },
                    );
                    match expr_code(env, sc, b2, e) {
                        Err(m) => Err(m),
                        Ok((b3, src)) => Ok(
                            emit(
                                emit(b3, InstV::Assign { dst: formal, src }),
                                InstV::Bind { label: supplied },
                            ),
                        ),
                    }
                },
            },
        }
    }
}

/// Defaults fail as their first failing prefix does.
proof fn lemma_defaults_error(
    env: EnvV,
    sc: ScopeV,
    b: Code,
    all: Seq<ParamV>,
    regs: Seq<u32>,
    i: int,
)
    requires
        0 <= i < all.len(),
        defaults_code(env, sc, b, all.take(i + 1), regs) is Err,
    ensures
        defaults_code(env, sc, b, all, regs) == defaults_code(env, sc, b, all.take(i + 1), regs),
    decreases all.len() - i,
{
    if i + 1 == all.len() {
        assert(all.take(i + 1) =~= all);
    } else {
        assert(all.take(i + 2).drop_last() =~= all.take(i + 1));
        lemma_defaults_error(env, sc, b, all, regs, i + 1);
    }
}

/// Give omitted arguments their defaults.
fn gen_defaults(env: &Env, sc: &Scope, b: &mut Builder, params: &Vec<Param>, regs: &Vec<u32>) -> (r:
    Result<(), String>)
    requires
        regs@.len() == params@.len(),
    ensures
        gives_code(r, final(b)@, defaults_code(env@, sc@, old(b)@, views(params@), regs@)),
{
    let ghost all = views(params@);
    let ghost start = b@;
    let mut i: usize = 0;
    while i < params.len()
        invariant
            i <= params@.len(),
            all == views(params@),
            start == old(b)@,
            regs@.len() == params@.len(),
            defaults_code(env@, sc@, start, all.take(i as int), regs@) == Ok::<Code, Seq<char>>(b@),
        decreases params@.len() - i,
    {
        let ghost upto = all.take(i + 1);
        assert(upto.drop_last() =~= all.take(i as int));
        assert(upto.last() == params@[i as int]@);
        if let Some(e) = &params[i].default {
            let supplied: u32 = b.label();
            b.emit(Inst::BranchArgProvided { formal: regs[i], label: supplied });
            let src: u32 = match gen_expr(env, sc, b, e) {
                Ok(r) => r,
                Err(m) => {
                    proof {
                        lemma_defaults_error(env@, sc@, start, all, regs@, i as int);
                    }
                    return Err(m);
                },
            };
            b.emit(Inst::Assign { dst: regs[i], src });
            b.emit(Inst::Bind { label: supplied });
        }
        i = i + 1;
    }
    assert(all.take(i as int) =~= all);
    Ok(())
}

// ---- callables ----------------------------------------------------------------------

/// The name of the program of a callable.
pub open spec fn callable_name(env: EnvV, f: FuncDeclV, class_ctx: Option<u32>) -> Seq<char> {
    match class_ctx {
        Some(cid) => class_name_at(env, cid) + "::"@ + f.name,
        None => "func "@ + f.name,
    }
}

/// The width of the result of a callable.
pub open spec fn result_width(f: FuncDeclV) -> u32 {
    if f.ret_width == 0 {
        1
    } else {
        f.ret_width
    }
}

/// The code of a callable before its body, and the register of its result. The
/// result is bound to the name of the callable.
pub open spec fn callable_start(env: EnvV, f: FuncDeclV, class_ctx: Option<u32>) -> Made<
    (ScopeV, Code, u32),
> {
    let b0 = if class_ctx is Some {
        with_reg(no_code())
    } else {
        no_code()
    };
    let (sc1, b1, regs) = with_formals(env, ScopeV { class_ctx, ..no_scope() }, b0, f.params);
    match defaults_code(env, sc1, b1, f.params, regs) {
        Err(m) => Err(m),
        Ok(b2) => {
            let width = result_width(f);
            let sc2 = ScopeV { locals: put(sc1.locals, f.name, (b2.regs, width)), ..sc1 };
            let sc3 = match opt_class(env, sc2, f.ret_class) {
                Some(cid) => ScopeV { classes: put(sc2.classes, f.name, cid), ..sc2 },
                None => sc2,
            };
            Ok((sc3, loaded(b2, ValueV::Logic(fill(Bit::Zero, width as nat))), b2.regs))
        },
    }
}

/// The program of a function, task, method or constructor. In a method the
/// first register is `this`.
#[verifier::opaque]
pub open spec fn callable_code(env: EnvV, f: FuncDeclV, class_ctx: Option<u32>) -> Made<ProgramV> {
    match callable_start(env, f, class_ctx) {
        Err(m) => Err(m),
        Ok((sc, b, ret)) => match stmt_code(env, sc, b, f.body) {
            Err(m) => Err(m),
            Ok((sc1, b1)) => built(
                callable_name(env, f, class_ctx),
                emit(
                    b1,
                    if f.is_void {
                        InstV::ReturnVoid
                    } else {
                        InstV::Return { value: ret }
                    },
                ),
                modes_of(class_ctx is Some, f.params),
            ),
        },
    }
}

/// Compile a function, task, method or constructor.
pub fn gen_callable(env: &Env, f: &FuncDecl, class_ctx: Option<u32>) -> (r: Result<Program, String>)
    ensures
        makes(r, callable_code(env@, f@, class_ctx)),
{
    reveal(callable_code);
    let mut b: Builder = Builder::new();
    let mut sc: Scope = Scope::new();
    sc.class_ctx = class_ctx;
    if class_ctx.is_some() {
        sc.this_reg = b.reg();
    }
    assert(sc@ == ScopeV { class_ctx, ..no_scope() });
    let regs: Vec<u32> = gen_formals(env, &mut sc, &mut b, &f.params);
    if let Err(m) = gen_defaults(env, &sc, &mut b, &f.params, &regs) {
        return Err(m);
    }
    let width: u32 = if f.ret_width == 0 {
        1
    } else {
        f.ret_width
    };
    let ret: u32 = b.reg();
    sc.locals.insert(f.name.clone(), (ret, width));
    if let Some(cid) = env.resolve_opt(&sc, &f.ret_class) {
        sc.classes.insert(f.name.clone(), cid);
    }
    b.emit(Inst::Load { dst: ret, value: Value::Logic(LogicVec::zero(width)) });
    if let Err(m) = gen_stmt(env, &mut sc, &mut b, &f.body) {
        return Err(m);
    }
    if f.is_void {
        b.emit(Inst::ReturnVoid);
    } else {
        b.emit(Inst::Return { value: ret });
    }
    let name: String = match class_ctx {
        Some(cid) => text3(env.class_name(cid).as_str(), "::", f.name.as_str()),
        None => text2("func ", f.name.as_str()),
    };
    b.build(name, arg_modes(class_ctx.is_some(), &f.params))
}

/// The code with a new register for each of a number.
pub open spec fn with_regs(b: Code, n: nat) -> (Code, Seq<u32>)
    decreases n,
{
    if n == 0 {
        (b, Seq::empty())
    } else {
        let (b1, regs) = with_regs(b, (n - 1) as nat);
        (with_reg(b1), regs.push(b1.regs))
    }
}

/// New registers.
fn gen_regs(b: &mut Builder, n: usize) -> (r: Vec<u32>)
    ensures
        (final(b)@, r@) == with_regs(old(b)@, n as nat),
{
    let ghost start = b@;
    let mut regs: Vec<u32> = Vec::new();
    let mut i: usize = 0;
    assert(regs@ =~= Seq::<u32>::empty());
    while i < n
        invariant
            i <= n,
            start == old(b)@,
            (b@, regs@) == with_regs(start, i as nat),
        decreases n - i,
    {
        let r: u32 = b.reg();
        regs.push(r);
        i = i + 1;
    }
    regs
}

/// The program that stands for a callable that cannot be compiled: it returns
/// zero.
pub open spec fn stub_code(f: FuncDeclV, has_this: bool) -> Made<ProgramV> {
    let b0 = if has_this {
        with_reg(no_code())
    } else {
        no_code()
    };
    let b1 = with_regs(b0, f.params.len()).0;
    built(
        "stub "@ + f.name,
        if f.is_void {
            emit(b1, InstV::ReturnVoid)
        } else {
            emit(
                loaded(b1, ValueV::Logic(fill(Bit::Zero, result_width(f) as nat))),
                InstV::Return { value: b1.regs },
            )
        },
        modes_of(has_this, f.params),
    )
}

/// The program that stands for a callable that cannot be compiled.
pub fn stub_program(f: &FuncDecl, has_this: bool) -> (r: Result<Program, String>)
    ensures
        makes(r, stub_code(f@, has_this)),
{
    let mut b: Builder = Builder::new();
    if has_this {
        b.reg();
    }
    assert(views(f.params@).len() == f.params@.len());
    gen_regs(&mut b, f.params.len());
    if f.is_void {
        b.emit(Inst::ReturnVoid);
    } else {
        let width: u32 = if f.ret_width == 0 {
            1
        } else {
            f.ret_width
        };
        let r: u32 = b.load(Value::Logic(LogicVec::zero(width)));
        b.emit(Inst::Return { value: r });
    }
    b.build(text2("stub ", f.name.as_str()), arg_modes(has_this, &f.params))
}

/// The program of an imported function: it calls the foreign symbol.
pub open spec fn foreign_code(f: FuncDeclV, symbol: Seq<char>) -> Made<ProgramV> {
    let (b1, args) = with_regs(no_code(), f.params.len());
    let b2 = emit(with_reg(b1), InstV::DpiCall { dst: b1.regs, name: symbol, args });
    built(
        "dpi "@ + symbol,
        emit(
            b2,
            if f.is_void {
                InstV::ReturnVoid
            } else {
                InstV::Return { value: b1.regs }
            },
        ),
        modes_of(false, f.params),
    )
}

/// The program of an imported function.
pub fn dpi_program(f: &FuncDecl, symbol: &String) -> (r: Result<Program, String>)
    ensures
        makes(r, foreign_code(f@, symbol@)),
{
    let mut b: Builder = Builder::new();
    assert(views(f.params@).len() == f.params@.len());
    let args: Vec<u32> = gen_regs(&mut b, f.params.len());
    let dst: u32 = b.reg();
    b.emit(Inst::DpiCall { dst, name: symbol.clone(), args });
    if f.is_void {
        b.emit(Inst::ReturnVoid);
    } else {
        b.emit(Inst::Return { value: dst });
    }
    b.build(text2("dpi ", symbol.as_str()), arg_modes(false, &f.params))
}

/// The constructor of a class that declares none: it runs that of the base.
pub open spec fn default_constructor(base_ctor: Option<u32>) -> Made<ProgramV> {
    let b0 = with_reg(no_code());
    let b1 = match base_ctor {
        Some(func) => called(b0, func, seq![no_code().regs]),
        None => b0,
    };
    built("default new"@, emit(b1, InstV::ReturnVoid), seq![ArgMode::Input])
}

/// The constructor of a class that declares none.
pub fn synth_default_ctor(base_ctor: Option<u32>) -> (r: Result<Program, String>)
    ensures
        makes(r, default_constructor(base_ctor)),
{
    let mut b: Builder = Builder::new();
    let this: u32 = b.reg();
    if let Some(func) = base_ctor {
        let args: Vec<u32> = vec![this];
        assert(args@ =~= seq![this]);
        b.call(func, args);
    }
    b.emit(Inst::ReturnVoid);
    let modes: Vec<ArgMode> = vec![ArgMode::Input];
    assert(modes@ =~= seq![ArgMode::Input]);
    b.build("default new".to_owned(), modes)
}

// ---- processes ----------------------------------------------------------------------

/// The program of an `always` block: its body without end.
#[verifier::opaque]
pub open spec fn always_code(env: EnvV, body: StmtV) -> Made<ProgramV> {
    let b0 = no_code();
    let b1 = emit(with_label(b0), InstV::Bind { label: b0.labels });
    match stmt_code(env, no_scope(), b1, body) {
        Err(m) => Err(m),
        Ok((sc, b2)) => built(
            "always"@,
            emit(b2, InstV::Jump { label: b0.labels }),
            Seq::empty(),
        ),
    }
}

/// Compile an `always` block.
pub fn gen_always(env: &Env, body: &Stmt) -> (r: Result<Program, String>)
    ensures
        makes(r, always_code(env@, body@)),
{
    reveal(always_code);
    let mut b: Builder = Builder::new();
    let mut sc: Scope = Scope::new();
    let top: u32 = b.label();
    b.emit(Inst::Bind { label: top });
    if let Err(m) = gen_stmt(env, &mut sc, &mut b, body) {
        return Err(m);
    }
    b.emit(Inst::Jump { label: top });
    let none: Vec<ArgMode> = Vec::new();
    assert(none@ =~= Seq::empty());
    b.build("always".to_owned(), none)
}

/// The program of an `initial` block: its body once.
#[verifier::opaque]
pub open spec fn initial_code(env: EnvV, body: StmtV) -> Made<ProgramV> {
    match stmt_code(env, no_scope(), no_code(), body) {
        Err(m) => Err(m),
        Ok((sc, b)) => built("initial"@, emit(b, InstV::Finish), Seq::empty()),
    }
}

/// Compile an `initial` block.
pub fn gen_initial(env: &Env, body: &Stmt) -> (r: Result<Program, String>)
    ensures
        makes(r, initial_code(env@, body@)),
{
    reveal(initial_code);
    let mut b: Builder = Builder::new();
    let mut sc: Scope = Scope::new();
    if let Err(m) = gen_stmt(env, &mut sc, &mut b, body) {
        return Err(m);
    }
    b.emit(Inst::Finish);
    let none: Vec<ArgMode> = Vec::new();
    assert(none@ =~= Seq::empty());
    b.build("initial".to_owned(), none)
}

/// The program that computes the value of a continuous assignment.
#[verifier::opaque]
pub open spec fn driver_code(env: EnvV, rhs: ExprV) -> Made<ProgramV> {
    match expr_code(env, no_scope(), no_code(), rhs) {
        Err(m) => Err(m),
        Ok((b, value)) => built("assign"@, emit(b, InstV::Return { value }), Seq::empty()),
    }
}

/// Compile the value of a continuous assignment.
pub fn gen_driver(env: &Env, rhs: &Expr) -> (r: Result<Program, String>)
    ensures
        makes(r, driver_code(env@, rhs@)),
{
    reveal(driver_code);
    let mut b: Builder = Builder::new();
    let sc: Scope = Scope::new();
    let value: u32 = match gen_expr(env, &sc, &mut b, rhs) {
        Ok(value) => value,
        Err(m) => {
            return Err(m);
        },
    };
    b.emit(Inst::Return { value });
    let none: Vec<ArgMode> = Vec::new();
    assert(none@ =~= Seq::empty());
    b.build("assign".to_owned(), none)
}

// ---- reasons ------------------------------------------------------------------------

/// The first characters of a text.
pub open spec fn at_most(s: Seq<char>, n: int) -> Seq<char> {
    if s.len() <= n {
        s
    } else {
        s.take(n)
    }
}

/// The group that a failure belongs to: what stands before the first colon, but
/// the whole message where that is `elaboration`.
pub open spec fn category(m: Seq<char>) -> Seq<char> {
    let head = trimmed(m.take(first_at(m, ':', 0)));
    let c = if head == "elaboration"@ {
        at_most(m, 70)
    } else {
        at_most(head, 60)
    };
    if c.len() == 0 {
        "<empty>"@
    } else {
        c
    }
}

/// The first characters of a text.
fn first_chars(s: &[char], n: usize) -> (r: String)
    ensures
        r@ == at_most(s@, n as int),
{
    if s.len() <= n {
        string_of(s)
    } else {
        let part = vstd::slice::slice_subrange(s, 0, n);
        assert(part@ =~= s@.take(n as int));
        string_of(part)
    }
}

/// The group that a failure belongs to.
pub fn panic_category(m: &str) -> (r: String)
    ensures
        r@ == category(m@),
{
    let all: Vec<char> = chars_of(m);
    let end: usize = find_char(all.as_slice(), ':', 0);
    let before = vstd::slice::slice_subrange(all.as_slice(), 0, end);
    assert(before@ =~= m@.take(first_at(m@, ':', 0)));
    let head: &[char] = trim(before);
    let c: String = if is_text(head, "elaboration") {
        first_chars(all.as_slice(), 70)
    } else {
        first_chars(head, 60)
    };
    let chars: Vec<char> = chars_of(c.as_str());
    if chars.len() == 0 {
        "<empty>".to_owned()
    } else {
        c
    }
}

} // verus!
