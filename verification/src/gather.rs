//! Collecting the declarations of a source file.
//!
//! The declarations of all packages and modules go into one scope.
use vstd::prelude::*;

use crate::ast::{
    const_views, stmt_view, views, ClassDecl, Expr, FuncDecl, Item, ModuleItem, Param, PortDir,
    SourceFile, Stmt, TypeAlias, VarDecl,
};
use crate::ast_model::{
    ClassDeclV, ExprV, FuncDeclV, ItemV, ModuleItemV, ParamV, StmtV, TypeAliasV, VarDeclV,
};
use crate::bit::Bit;
use crate::bits::{fill, signed_value, value};
use crate::const_fold::Consts;
use crate::layout::name_view;
use crate::logic::LogicVec;
use crate::mono::{monomorphize, MAX_TYPE_DEPTH};
use crate::mono_model::{monomorphized, Env as MonoEnv};
use crate::mono_names::pair_views;
use crate::table::{add_const, lookup, put, put_new, Table};
use crate::text::str_eq;
use vstd::arithmetic::power2::pow2;

verus! {

// ---- enumerations ---------------------------------------------------------------------

/// The number that an enumeration member stands for.
pub open spec fn member_number(bits: Seq<Bit>) -> i64 {
    signed_value(
        value(bits) % pow2(64),
        if bits.len() < 64 {
            bits.len()
        } else {
            64
        },
    ) as i64
}

/// Whether a table of member names has a number.
pub open spec fn has_number(t: Seq<(i64, Seq<char>)>, n: i64) -> bool {
    exists|i: int| 0 <= i < t.len() && (#[trigger] t[i]).0 == n
}

/// The names of the members of an enumeration by number. Of members with the
/// same number the first gives the name.
pub open spec fn member_names(members: Consts) -> Seq<(i64, Seq<char>)>
    decreases members.len(),
{
    if members.len() == 0 {
        Seq::empty()
    } else {
        let before = member_names(members.drop_last());
        let n = member_number(members.last().1);
        if has_number(before, n) {
            before
        } else {
            before.push((n, members.last().0))
        }
    }
}

/// The mathematical form of a table of member names.
pub open spec fn names_view(s: Seq<(i64, String)>) -> Seq<(i64, Seq<char>)> {
    s.map_values(|e: (i64, String)| (e.0, e.1@))
}

/// The mathematical form of tables of member names.
pub open spec fn tables_view(s: Seq<Vec<(i64, String)>>) -> Seq<Seq<(i64, Seq<char>)>> {
    s.map_values(|t: Vec<(i64, String)>| names_view(t@))
}

/// The names of the members of an enumeration by number.
pub fn enum_table(members: &Vec<(String, LogicVec)>) -> (r: Vec<(i64, String)>)
    ensures
        names_view(r@) == member_names(const_views(members@)),
{
    let ghost all = const_views(members@);
    let mut out: Vec<(i64, String)> = Vec::new();
    let mut i: usize = 0;
    assert(names_view(out@) =~= member_names(all.take(0)));
    while i < members.len()
        invariant
            i <= members@.len(),
            all == const_views(members@),
            names_view(out@) == member_names(all.take(i as int)),
        decreases members@.len() - i,
    {
        let ghost upto = all.take(i + 1);
        assert(upto.drop_last() =~= all.take(i as int));
        assert(upto.last() == (members@[i as int].0@, members@[i as int].1@));
        let n: i64 = members[i].1.to_i64();
        assert(n == member_number(members@[i as int].1@));
        let mut found: bool = false;
        let mut j: usize = 0;
        while j < out.len()
            invariant
                j <= out@.len(),
                found == exists|k: int| 0 <= k < j && (#[trigger] names_view(out@)[k]).0 == n,
            decreases out@.len() - j,
        {
            assert(names_view(out@)[j as int].0 == out@[j as int].0);
            if out[j].0 == n {
                found = true;
            }
            j = j + 1;
        }
        assert(found == has_number(names_view(out@), n));
        if !found {
            let ghost before = out@;
            out.push((n, members[i].0.clone()));
            assert(names_view(out@) =~= names_view(before).push((n, members@[i as int].0@)));
        }
        i = i + 1;
    }
    assert(all.take(i as int) =~= all);
    out
}

// ---- gathering ------------------------------------------------------------------------

/// The declarations of a source file.
pub struct Gathered {
    pub classes: Vec<ClassDecl>,
    pub funcs: Vec<FuncDecl>,
    /// Variables outside modules and classes.
    pub vars: Vec<VarDecl>,
    pub aliases: Vec<TypeAlias>,
    pub consts: Vec<(String, LogicVec)>,
    /// Enumeration types: the place of their table.
    pub enums: Table<u32>,
    pub tables: Vec<Vec<(i64, String)>>,
}

/// The mathematical form of [`Gathered`].
pub struct GatheredV {
    pub classes: Seq<ClassDeclV>,
    pub funcs: Seq<FuncDeclV>,
    pub vars: Seq<VarDeclV>,
    pub aliases: Seq<TypeAliasV>,
    pub consts: Consts,
    pub enums: Seq<(Seq<char>, u32)>,
    pub tables: Seq<Seq<(i64, Seq<char>)>>,
}

impl View for Gathered {
    type V = GatheredV;

    open spec fn view(&self) -> GatheredV {
        GatheredV {
            classes: views(self.classes@),
            funcs: views(self.funcs@),
            vars: views(self.vars@),
            aliases: views(self.aliases@),
            consts: const_views(self.consts@),
            enums: self.enums@,
            tables: tables_view(self.tables@),
        }
    }
}

/// No declarations.
pub open spec fn nothing_gathered() -> GatheredV {
    GatheredV {
        classes: Seq::empty(),
        funcs: Seq::empty(),
        vars: Seq::empty(),
        aliases: Seq::empty(),
        consts: Seq::empty(),
        enums: Seq::empty(),
        tables: Seq::empty(),
    }
}

/// Declarations with one more. A variable counts only outside modules: in a
/// module it is a net. The first constant and the first enumeration type of a
/// name count.
pub open spec fn with_item(g: GatheredV, in_package: bool, i: ModuleItemV) -> GatheredV {
    match i {
        ModuleItemV::Class(c) => GatheredV { classes: g.classes.push(*c), ..g },
        ModuleItemV::Func(f) => GatheredV { funcs: g.funcs.push(f), ..g },
        ModuleItemV::Var(v) => if in_package {
            GatheredV { vars: g.vars.push(v), ..g }
        } else {
            g
        },
        ModuleItemV::TypeAlias(a) => GatheredV { aliases: g.aliases.push(a), ..g },
        ModuleItemV::EnumConst { name, value } => GatheredV {
            consts: put_new(g.consts, name, value),
            ..g
        },
        ModuleItemV::EnumType { name, members } => if lookup(g.enums, name) is Some {
            g
        } else {
            GatheredV {
                enums: put(g.enums, name, g.tables.len() as u32),
                tables: g.tables.push(member_names(members)),
                ..g
            }
        },
        _ => g,
    }
}

/// Declarations with those of a package or a module.
pub open spec fn with_items(g: GatheredV, in_package: bool, items: Seq<ModuleItemV>) -> GatheredV
    decreases items.len(),
{
    if items.len() == 0 {
        g
    } else {
        with_item(with_items(g, in_package, items.drop_last()), in_package, items.last())
    }
}

/// The declarations of a source file.
pub open spec fn gathered(items: Seq<ItemV>) -> GatheredV
    decreases items.len(),
{
    if items.len() == 0 {
        nothing_gathered()
    } else {
        let g = gathered(items.drop_last());
        match items.last() {
            ItemV::Package(p) => with_items(g, true, p.items),
            ItemV::Module(m) => with_items(g, false, m.items),
            ItemV::Class(c) => GatheredV { classes: g.classes.push(*c), ..g },
            ItemV::Func(f) => GatheredV { funcs: g.funcs.push(*f), ..g },
        }
    }
}

impl Gathered {
    /// Add a class.
    fn add_class(&mut self, c: &ClassDecl)
        ensures
            final(self)@ == (GatheredV { classes: old(self)@.classes.push(c@), ..old(self)@ }),
    {
        let ghost before = self.classes@;
        self.classes.push(c.clone());
        assert(views(self.classes@) =~= views(before).push(c@));
    }

    /// Add a function.
    fn add_func(&mut self, f: &FuncDecl)
        ensures
            final(self)@ == (GatheredV { funcs: old(self)@.funcs.push(f@), ..old(self)@ }),
    {
        let ghost before = self.funcs@;
        self.funcs.push(f.clone());
        assert(views(self.funcs@) =~= views(before).push(f@));
    }

    /// Add an item of a package or a module.
    fn add_item(&mut self, in_package: bool, i: &ModuleItem)
        ensures
            final(self)@ == with_item(old(self)@, in_package, i@),
    {
        let ghost start = *self;
        match i {
            ModuleItem::Class(c) => self.add_class(c),
            ModuleItem::Func(f) => self.add_func(f),
            ModuleItem::Var(v) => {
                if in_package {
                    self.vars.push(v.clone());
                    assert(views(self.vars@) =~= views(start.vars@).push(v@));
                }
            },
            ModuleItem::TypeAlias(a) => {
                self.aliases.push(a.clone());
                assert(views(self.aliases@) =~= views(start.aliases@).push(a@));
            },
            ModuleItem::EnumConst { name, value } => {
                add_const(&mut self.consts, name, value);
            },
            ModuleItem::EnumType { name, members } => {
                if !self.enums.has(name.as_str()) {
                    assert(self@.tables.len() == self.tables@.len());
                    let id: u32 = self.tables.len() as u32;
                    self.enums.insert(name.clone(), id);
                    let table = enum_table(members);
                    self.tables.push(table);
                    assert(tables_view(self.tables@) =~= tables_view(start.tables@).push(
                        names_view(table@),
                    ));
                }
            },
            _ => {},
        }
    }

    /// Add the items of a package or a module.
    fn add_items(&mut self, in_package: bool, items: &Vec<ModuleItem>)
        ensures
            final(self)@ == with_items(old(self)@, in_package, views(items@)),
    {
        let ghost all = views(items@);
        let ghost start = self@;
        let mut i: usize = 0;
        while i < items.len()
            invariant
                i <= items@.len(),
                all == views(items@),
                self@ == with_items(start, in_package, all.take(i as int)),
            decreases items@.len() - i,
        {
            let ghost upto = all.take(i + 1);
            assert(upto.drop_last() =~= all.take(i as int));
            assert(upto.last() == items@[i as int]@);
            self.add_item(in_package, &items[i]);
            i = i + 1;
        }
        assert(all.take(i as int) =~= all);
    }
}

/// Collect the declarations of a source file.
pub fn gather(file: &SourceFile) -> (r: Gathered)
    ensures
        r@ == gathered(file@.items),
{
    let ghost all = file@.items;
    let mut g = Gathered {
        classes: Vec::new(),
        funcs: Vec::new(),
        vars: Vec::new(),
        aliases: Vec::new(),
        consts: Vec::new(),
        enums: Table::new(),
        tables: Vec::new(),
    };
    assert(g@.classes =~= Seq::empty());
    assert(g@.funcs =~= Seq::empty());
    assert(g@.vars =~= Seq::empty());
    assert(g@.aliases =~= Seq::empty());
    assert(g@.consts =~= Seq::empty());
    assert(g@.tables =~= Seq::empty());
    let mut i: usize = 0;
    assert(all.len() == file.items@.len());
    while i < file.items.len()
        invariant
            i <= file.items@.len(),
            all == file@.items,
            all == views(file.items@),
            g@ == gathered(all.take(i as int)),
        decreases file.items@.len() - i,
    {
        let ghost upto = all.take(i + 1);
        assert(upto.drop_last() =~= all.take(i as int));
        assert(upto.last() == file.items@[i as int]@);
        match &file.items[i] {
            Item::Package(p) => g.add_items(true, &p.items),
            Item::Module(m) => g.add_items(false, &m.items),
            Item::Class(c) => g.add_class(c),
            Item::Func(f) => g.add_func(f),
        }
        i = i + 1;
    }
    assert(all.take(i as int) =~= all);
    g
}

// ---- built-in classes -------------------------------------------------------------------

/// A method of a built-in class.
pub open spec fn builtin_method(
    name: Seq<char>,
    is_void: bool,
    ret_class: Option<Seq<char>>,
    params: Seq<ParamV>,
    body: StmtV,
) -> FuncDeclV {
    FuncDeclV {
        name,
        ret_width: 32,
        ret_class,
        class_scope: None,
        dpi_name: None,
        is_void,
        is_virtual: false,
        params,
        body,
    }
}

/// A formal of a method of a built-in class.
pub open spec fn builtin_param(name: Seq<char>) -> ParamV {
    ParamV {
        name,
        dir: PortDir::Input,
        width: 32,
        class_name: None,
        type_scope: None,
        type_args: Seq::empty(),
        coll: None,
        key_class_name: None,
        default: None,
    }
}

/// A built-in class.
pub open spec fn builtin_class(name: Seq<char>, methods: Seq<FuncDeclV>) -> ClassDeclV {
    ClassDeclV {
        name,
        base: None,
        fields: Seq::empty(),
        methods,
        constructor: None,
        type_aliases: Seq::empty(),
        collection_aliases: Seq::empty(),
        params: Seq::empty(),
        base_args: Seq::empty(),
        consts: Seq::empty(),
        is_struct: false,
    }
}

/// `return 0;`
pub open spec fn return_zero() -> StmtV {
    StmtV::Return(Some(ExprV::Literal(fill(Bit::Zero, 32))))
}

/// A built-in method that does nothing.
pub open spec fn idle(name: Seq<char>, params: Seq<ParamV>) -> FuncDeclV {
    builtin_method(name, true, None, params, StmtV::Null)
}

/// A built-in method that returns zero.
pub open spec fn zero(name: Seq<char>, params: Seq<ParamV>) -> FuncDeclV {
    builtin_method(name, false, None, params, return_zero())
}

/// The class `process`. There is no handle of the current process: `self` gives
/// the null handle.
pub open spec fn process_class() -> ClassDeclV {
    builtin_class(
        "process"@,
        seq![
            builtin_method(
                "self"@,
                false,
                Some("process"@),
                Seq::empty(),
                StmtV::Return(Some(ExprV::Null)),
            ),
            zero("status"@, Seq::empty()),
            idle("kill"@, Seq::empty()),
            idle("await"@, Seq::empty()),
            idle("suspend"@, Seq::empty()),
            idle("resume"@, Seq::empty()),
            builtin_method(
                "get_randstate"@,
                false,
                None,
                Seq::empty(),
                StmtV::Return(Some(ExprV::Str(Seq::empty()))),
            ),
            idle("set_randstate"@, seq![builtin_param("state"@)]),
            idle("srandom"@, seq![builtin_param("seed"@)]),
        ],
    )
}

/// The class `mailbox`. It holds nothing: a `put` is dropped and a `try_get`
/// fails.
pub open spec fn mailbox_class() -> ClassDeclV {
    let item = seq![builtin_param("item"@)];
    builtin_class(
        "mailbox"@,
        seq![
            zero("num"@, Seq::empty()),
            idle("put"@, item),
            idle("get"@, item),
            idle("peek"@, item),
            zero("try_put"@, item),
            zero("try_get"@, item),
            zero("try_peek"@, item),
        ],
    )
}

/// Whether one of some classes has a name.
pub open spec fn has_class(classes: Seq<ClassDeclV>, name: Seq<char>) -> bool {
    exists|i: int| 0 <= i < classes.len() && (#[trigger] classes[i]).name == name
}

/// Classes with a built-in one, unless they have one of its name.
pub open spec fn with_builtin(classes: Seq<ClassDeclV>, c: ClassDeclV) -> Seq<ClassDeclV> {
    if has_class(classes, c.name) {
        classes
    } else {
        classes.push(c)
    }
}

/// Classes with the built-in ones.
pub open spec fn with_builtins(classes: Seq<ClassDeclV>) -> Seq<ClassDeclV> {
    with_builtin(with_builtin(classes, process_class()), mailbox_class())
}

/// A method of a built-in class.
fn make_method(
    name: &str,
    is_void: bool,
    ret_class: Option<String>,
    params: Vec<Param>,
    body: Stmt,
) -> (r: FuncDecl)
    ensures
        r@ == builtin_method(
            name@,
            is_void,
            name_view(ret_class),
            views(params@),
            stmt_view(body),
        ),
{
    FuncDecl {
        name: name.to_owned(),
        ret_width: 32,
        ret_class,
        class_scope: None,
        dpi_name: None,
        is_void,
        is_virtual: false,
        params,
        body,
    }
}

/// No formals.
fn no_params() -> (r: Vec<Param>)
    ensures
        views(r@) == Seq::<ParamV>::empty(),
{
    let v: Vec<Param> = Vec::new();
    assert(views(v@) =~= Seq::<ParamV>::empty());
    v
}

/// One formal.
fn one_param(name: &str) -> (r: Vec<Param>)
    ensures
        views(r@) == seq![builtin_param(name@)],
{
    let p = Param {
        name: name.to_owned(),
        dir: PortDir::Input,
        width: 32,
        class_name: None,
        type_scope: None,
        type_args: Vec::new(),
        coll: None,
        key_class_name: None,
        default: None,
    };
    assert(p@.type_args =~= Seq::empty());
    let mut v: Vec<Param> = Vec::new();
    v.push(p);
    assert(views(v@) =~= seq![builtin_param(name@)]);
    v
}

/// A built-in method that does nothing.
fn make_idle(name: &str, params: Vec<Param>) -> (r: FuncDecl)
    ensures
        r@ == idle(name@, views(params@)),
{
    make_method(name, true, None, params, Stmt::Null)
}

/// A built-in method that returns zero.
fn make_zero(name: &str, params: Vec<Param>) -> (r: FuncDecl)
    ensures
        r@ == zero(name@, views(params@)),
{
    make_method(name, false, None, params, Stmt::Return(Some(Expr::Literal(LogicVec::zero(32)))))
}

/// A built-in class.
fn make_class(name: &str, methods: Vec<FuncDecl>) -> (r: ClassDecl)
    ensures
        r@ == builtin_class(name@, views(methods@)),
{
    let c = ClassDecl {
        name: name.to_owned(),
        base: None,
        fields: Vec::new(),
        methods,
        constructor: None,
        type_aliases: Vec::new(),
        collection_aliases: Vec::new(),
        params: Vec::new(),
        base_args: Vec::new(),
        consts: Vec::new(),
        is_struct: false,
    };
    assert(c@.fields =~= Seq::empty());
    assert(c@.type_aliases =~= Seq::empty());
    assert(c@.collection_aliases =~= Seq::empty());
    assert(c@.params =~= Seq::empty());
    assert(c@.base_args =~= Seq::empty());
    assert(c@.consts =~= Seq::empty());
    c
}

/// The class `process`.
fn make_process() -> (r: ClassDecl)
    ensures
        r@ == process_class(),
{
    let empty: String = String::new();
    assert(empty@ =~= Seq::<char>::empty());
    let methods: Vec<FuncDecl> = vec![
        make_method(
            "self",
            false,
            Some("process".to_owned()),
            no_params(),
            Stmt::Return(Some(Expr::Null)),
        ),
        make_zero("status", no_params()),
        make_idle("kill", no_params()),
        make_idle("await", no_params()),
        make_idle("suspend", no_params()),
        make_idle("resume", no_params()),
        make_method(
            "get_randstate",
            false,
            None,
            no_params(),
            Stmt::Return(Some(Expr::Str(empty))),
        ),
        make_idle("set_randstate", one_param("state")),
        make_idle("srandom", one_param("seed")),
    ];
    assert(views(methods@) =~= process_class().methods);
    make_class("process", methods)
}

/// The class `mailbox`.
fn make_mailbox() -> (r: ClassDecl)
    ensures
        r@ == mailbox_class(),
{
    let methods: Vec<FuncDecl> = vec![
        make_zero("num", no_params()),
        make_idle("put", one_param("item")),
        make_idle("get", one_param("item")),
        make_idle("peek", one_param("item")),
        make_zero("try_put", one_param("item")),
        make_zero("try_get", one_param("item")),
        make_zero("try_peek", one_param("item")),
    ];
    assert(views(methods@) =~= mailbox_class().methods);
    make_class("mailbox", methods)
}

/// Add a built-in class, unless there is one of its name.
fn add_builtin(classes: &mut Vec<ClassDecl>, c: ClassDecl)
    ensures
        views(final(classes)@) == with_builtin(views(old(classes)@), c@),
{
    let ghost all = views(classes@);
    let mut i: usize = 0;
    while i < classes.len()
        invariant
            i <= classes@.len(),
            all == views(classes@),
            classes@ == old(classes)@,
            forall|j: int| 0 <= j < i ==> (#[trigger] all[j]).name != c@.name,
        decreases classes@.len() - i,
    {
        assert(all[i as int] == classes@[i as int]@);
        if str_eq(classes[i].name.as_str(), c.name.as_str()) {
            return ;
        }
        i = i + 1;
    }
    classes.push(c);
    assert(views(classes@) =~= all.push(c@));
}

/// Add the built-in classes.
pub fn add_builtins(classes: &mut Vec<ClassDecl>)
    ensures
        views(final(classes)@) == with_builtins(views(old(classes)@)),
{
    add_builtin(classes, make_process());
    add_builtin(classes, make_mailbox());
}

// ---- bodies outside classes ---------------------------------------------------------------

/// The last method of a name, or -1.
pub open spec fn last_method(methods: Seq<FuncDeclV>, name: Seq<char>) -> int
    decreases methods.len(),
{
    if methods.len() == 0 {
        -1
    } else if methods.last().name == name {
        methods.len() - 1
    } else {
        last_method(methods.drop_last(), name)
    }
}

/// A body given outside its class, with what only the prototype says.
pub open spec fn with_prototype(f: FuncDeclV, prototype: FuncDeclV) -> FuncDeclV {
    FuncDeclV {
        is_virtual: f.is_virtual || prototype.is_virtual,
        ret_class: if f.ret_class is Some {
            f.ret_class
        } else {
            prototype.ret_class
        },
        ..f
    }
}

/// A class with a body given outside it.
pub open spec fn with_body(c: ClassDeclV, f: FuncDeclV) -> ClassDeclV {
    let i = last_method(c.methods, f.name);
    if f.name == "new"@ {
        ClassDeclV { constructor: Some(f), ..c }
    } else if i >= 0 {
        ClassDeclV { methods: c.methods.update(i, with_prototype(f, c.methods[i])), ..c }
    } else {
        ClassDeclV { methods: c.methods.push(f), ..c }
    }
}

/// A class with the bodies given outside it.
pub open spec fn merged(c: ClassDeclV, funcs: Seq<FuncDeclV>) -> ClassDeclV
    decreases funcs.len(),
{
    if funcs.len() == 0 {
        c
    } else {
        let m = merged(c, funcs.drop_last());
        if funcs.last().class_scope == Some(c.name) {
            with_body(m, funcs.last())
        } else {
            m
        }
    }
}

/// The functions that belong to no class.
pub open spec fn free_functions(funcs: Seq<FuncDeclV>) -> Seq<FuncDeclV>
    decreases funcs.len(),
{
    if funcs.len() == 0 {
        funcs
    } else {
        let before = free_functions(funcs.drop_last());
        if funcs.last().class_scope is None {
            before.push(funcs.last())
        } else {
            before
        }
    }
}

/// The concrete classes of some declarations, and the aliases with the names of
/// the concrete classes that they mean.
pub open spec fn expanded(
    classes: Seq<ClassDeclV>,
    funcs: Seq<FuncDeclV>,
    aliases: Seq<TypeAliasV>,
) -> Option<(Seq<ClassDeclV>, Seq<(Seq<char>, Seq<char>)>)> {
    monomorphized(
        MAX_TYPE_DEPTH as nat,
        MonoEnv { classes: classes.map_values(|c: ClassDeclV| merged(c, funcs)), aliases },
    )
}

/// The last method of a name.
fn find_method(methods: &Vec<FuncDecl>, name: &str) -> (r: Option<usize>)
    ensures
        match r {
            Some(i) => i < methods@.len() && last_method(views(methods@), name@) == i,
            None => last_method(views(methods@), name@) == -1,
        },
{
    let ghost all = views(methods@);
    let mut i: usize = methods.len();
    assert(all.take(i as int) =~= all);
    while i > 0
        invariant
            i <= methods@.len(),
            all == views(methods@),
            last_method(all, name@) == last_method(all.take(i as int), name@),
        decreases i,
    {
        let ghost upto = all.take(i as int);
        assert(upto.drop_last() =~= all.take(i - 1));
        assert(upto.last() == methods@[i - 1]@);
        if str_eq(methods[i - 1].name.as_str(), name) {
            return Some(i - 1);
        }
        i = i - 1;
    }
    None
}

/// Give a class a body from outside it.
fn add_body(c: &mut ClassDecl, f: &FuncDecl)
    ensures
        final(c)@ == with_body(old(c)@, f@),
{
    let ghost start = *c;
    let mut m: FuncDecl = f.clone();
    if str_eq(f.name.as_str(), "new") {
        c.constructor = Some(m);
        return ;
    }
    match find_method(&c.methods, f.name.as_str()) {
        Some(i) => {
            m.is_virtual = m.is_virtual || c.methods[i].is_virtual;
            if m.ret_class.is_none() {
                m.ret_class = c.methods[i].ret_class.clone();
            }
            assert(m@ == with_prototype(f@, start.methods@[i as int]@));
            c.methods.set(i, m);
            assert(views(c.methods@) =~= views(start.methods@).update(i as int, m@));
        },
        None => {
            c.methods.push(m);
            assert(views(c.methods@) =~= views(start.methods@).push(m@));
        },
    }
}

/// A class with the bodies given outside it.
pub fn merge_bodies(c: &ClassDecl, funcs: &Vec<FuncDecl>) -> (r: ClassDecl)
    ensures
        r@ == merged(c@, views(funcs@)),
{
    let ghost all = views(funcs@);
    let mut m: ClassDecl = c.clone();
    let mut i: usize = 0;
    while i < funcs.len()
        invariant
            i <= funcs@.len(),
            all == views(funcs@),
            m@ == merged(c@, all.take(i as int)),
        decreases funcs@.len() - i,
    {
        let ghost upto = all.take(i + 1);
        assert(upto.drop_last() =~= all.take(i as int));
        assert(upto.last() == funcs@[i as int]@);
        if let Some(scope) = &funcs[i].class_scope {
            if str_eq(scope.as_str(), c.name.as_str()) {
                add_body(&mut m, &funcs[i]);
            }
        }
        i = i + 1;
    }
    assert(all.take(i as int) =~= all);
    m
}

/// The functions that belong to no class.
pub fn free_funcs(funcs: &Vec<FuncDecl>) -> (r: Vec<FuncDecl>)
    ensures
        views(r@) == free_functions(views(funcs@)),
{
    let ghost all = views(funcs@);
    let mut out: Vec<FuncDecl> = Vec::new();
    let mut i: usize = 0;
    assert(views(out@) =~= free_functions(all.take(0)));
    while i < funcs.len()
        invariant
            i <= funcs@.len(),
            all == views(funcs@),
            views(out@) == free_functions(all.take(i as int)),
        decreases funcs@.len() - i,
    {
        let ghost upto = all.take(i + 1);
        assert(upto.drop_last() =~= all.take(i as int));
        assert(upto.last() == funcs@[i as int]@);
        if funcs[i].class_scope.is_none() {
            let ghost before = out@;
            out.push(funcs[i].clone());
            assert(views(out@) =~= views(before).push(funcs@[i as int]@));
        }
        i = i + 1;
    }
    assert(all.take(i as int) =~= all);
    out
}

/// The concrete classes of some declarations, and what the aliases mean; `None`
/// where type references have no end.
pub fn expand_classes(
    classes: &Vec<ClassDecl>,
    funcs: &Vec<FuncDecl>,
    aliases: &Vec<TypeAlias>,
) -> (r: Option<(Vec<ClassDecl>, Vec<(String, String)>)>)
    ensures
        match r {
            Some((out, names)) => expanded(
                views(classes@),
                views(funcs@),
                views(aliases@),
            ) == Some((views(out@), pair_views(names@))),
            None => expanded(views(classes@), views(funcs@), views(aliases@)) is None,
        },
{
    let ghost all = views(classes@);
    let ghost f = |c: ClassDeclV| merged(c, views(funcs@));
    let mut whole: Vec<ClassDecl> = Vec::new();
    let mut i: usize = 0;
    assert(views(whole@) =~= all.take(0).map_values(f));
    while i < classes.len()
        invariant
            i <= classes@.len(),
            all == views(classes@),
            f == (|c: ClassDeclV| merged(c, views(funcs@))),
            views(whole@) == all.take(i as int).map_values(f),
        decreases classes@.len() - i,
    {
        let ghost before = whole@;
        let c: ClassDecl = merge_bodies(&classes[i], funcs);
        whole.push(c);
        assert(all[i as int] == classes@[i as int]@);
        i = i + 1;
        assert(views(whole@) =~= views(before).push(c@));
        assert(all.take(i as int).map_values(f) =~= all.take(i as int - 1).map_values(f).push(c@));
    }
    assert(all.take(i as int) =~= all);
    monomorphize(&whole, aliases)
}

} // verus!
