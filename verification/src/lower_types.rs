//! Reading names, types, dimensions and numbers off the concrete syntax tree.
use vstd::prelude::*;

use crate::ast::{BinOp, CollKind, PortDir, TypeRef, UnaryOp};
use crate::ast::{type_refs_view, views};
use crate::ast_model::TypeRefV;
use crate::bit::Bit;
use crate::bits::bits_of;
use crate::cst::{
    const_int, constant, find, find_deep, find_deep_in, find_in, find_or, first_kid, first_kid_of,
    found, found_deep, found_deep_in, found_in, group_cst, has_tag, kid_tagged, kids_tagged,
    lemma_size_last, opt_node, opt_text, or_else, refs_view, size, size_all, tagged, text, text_of,
    word_of, Node, NodeV,
};
use crate::literal::{sized_literal, strip_underscores, without_underscores};
use crate::logic::LogicVec;
use crate::message::text3;
use crate::text::{chars_of, decimal, number_text, parse_unsigned, parsed_unsigned, str_eq, string_of};

verus! {

broadcast use group_cst;

// ---- names ------------------------------------------------------------------

/// The text of the first identifier child.
pub open spec fn identifier(o: Option<NodeV>) -> Option<Seq<char>> {
    match found_in(o, "SymbolIdentifier"@) {
        Some(id) => Some(id.word()),
        None => None,
    }
}

/// The text of the first identifier child.
pub fn identifier_of(o: Option<&Node>) -> (r: Option<String>)
    ensures
        opt_text(r) == identifier(opt_node(o)),
{
    match find_in(o, "SymbolIdentifier") {
        Some(id) => Some(text(id)),
        None => None,
    }
}

/// The text of the first identifier below a node.
pub open spec fn deep_identifier(o: Option<NodeV>) -> Option<Seq<char>> {
    match found_deep_in(o, "SymbolIdentifier"@) {
        Some(id) => Some(id.word()),
        None => None,
    }
}

/// The text of the first identifier below a node.
pub fn deep_identifier_of(o: Option<&Node>) -> (r: Option<String>)
    ensures
        opt_text(r) == deep_identifier(opt_node(o)),
{
    match find_deep_in(o, "SymbolIdentifier") {
        Some(id) => Some(text(id)),
        None => None,
    }
}

/// A text that may be absent, empty where it is.
pub open spec fn or_empty(o: Option<Seq<char>>) -> Seq<char> {
    match o {
        Some(t) => t,
        None => Seq::empty(),
    }
}

/// A text that may be absent, empty where it is.
pub fn unwrap_text(o: Option<String>) -> (r: String)
    ensures
        r@ == or_empty(opt_text(o)),
{
    match o {
        Some(t) => t,
        None => {
            let s = String::new();
            assert(s@ =~= Seq::<char>::empty());
            s
        },
    }
}

/// The text of the first identifier child, empty where there is none.
pub fn name_of(o: Option<&Node>) -> (r: String)
    ensures
        r@ == or_empty(identifier(opt_node(o))),
{
    unwrap_text(identifier_of(o))
}

/// The identifiers of the segments of a scoped name; `#(...)` arguments are
/// left out.
pub open spec fn segments(ns: Seq<NodeV>) -> Seq<Seq<char>>
    decreases ns.len(),
{
    if ns.len() == 0 {
        Seq::empty()
    } else {
        let before = segments(ns.drop_last());
        match identifier(Some(ns.last())) {
            Some(t) => if ns.last().tag == "kUnqualifiedId"@ {
                before.push(t)
            } else {
                before
            },
            None => before,
        }
    }
}

/// The identifiers of the segments of a scoped name.
pub fn segments_of(n: &Node) -> (r: Vec<String>)
    ensures
        views(r@) == segments(n@.kids),
{
    let mut out: Vec<String> = Vec::new();
    let mut i: usize = 0;
    assert(views(out@) =~= segments(n@.kids.take(0)));
    while i < n.kids.len()
        invariant
            i <= n.kids@.len(),
            views(out@) == segments(n@.kids.take(i as int)),
        decreases n.kids@.len() - i,
    {
        let ghost before = out@;
        let ghost next = n@.kids.take(i as int + 1);
        assert(next.drop_last() =~= n@.kids.take(i as int));
        assert(next.last() == n.kids[i as int]@);
        if has_tag(&n.kids[i], "kUnqualifiedId") {
            if let Some(t) = identifier_of(Some(&n.kids[i])) {
                out.push(t);
                assert(views(out@) =~= views(before).push(t@));
            }
        }
        i = i + 1;
    }
    assert(n@.kids.take(i as int) =~= n@.kids);
    out
}

/// The scoped name that belongs to a reference itself, not to one of its
/// arguments.
pub open spec fn own_qualified(n: NodeV) -> Option<NodeV> {
    let q = "kQualifiedId"@;
    if n.tag == q {
        Some(n)
    } else if n.tag == "kLocalRoot"@ {
        found(n, q)
    } else if n.tag == "kReference"@ {
        found_in(found(n, "kLocalRoot"@), q)
    } else {
        or_else(
            found(n, q),
            or_else(
                found_in(found(n, "kLocalRoot"@), q),
                found_in(found_in(found(n, "kReference"@), "kLocalRoot"@), q),
            ),
        )
    }
}

/// The scoped name that belongs to a reference itself.
///
/// A search of the whole tree would find the scoped names of the arguments too:
/// in `common.find(P::get())` the reference has none of its own.
pub fn own_qualified_id(n: &Node) -> (r: Option<&Node>)
    ensures
        opt_node(r) == own_qualified(n@),
{
    if has_tag(n, "kQualifiedId") {
        Some(n)
    } else if has_tag(n, "kLocalRoot") {
        find(n, "kQualifiedId")
    } else if has_tag(n, "kReference") {
        find_in(find(n, "kLocalRoot"), "kQualifiedId")
    } else {
        find_or(
            find(n, "kQualifiedId"),
            find_or(
                find_in(find(n, "kLocalRoot"), "kQualifiedId"),
                find_in(find_in(find(n, "kReference"), "kLocalRoot"), "kQualifiedId"),
            ),
        )
    }
}

/// The last segment of the scoped name that belongs to a reference.
pub open spec fn last_segment(n: NodeV) -> Option<Seq<char>> {
    match own_qualified(n) {
        Some(q) => if segments(q.kids).len() > 0 {
            Some(segments(q.kids).last())
        } else {
            None
        },
        None => None,
    }
}

/// The last segment of the scoped name that belongs to a reference.
pub fn last_qualified_segment(n: &Node) -> (r: Option<String>)
    ensures
        opt_text(r) == last_segment(n@),
{
    match own_qualified_id(n) {
        Some(q) => {
            let mut all: Vec<String> = segments_of(q);
            assert(views(all@).len() == all@.len());
            let ghost before = all@;
            let last: Option<String> = all.pop();
            proof {
                if before.len() > 0 {
                    assert(views(before).last() == before.last()@);
                }
            }
            last
        },
        None => None,
    }
}

/// The segments of the scoped name that belongs to a reference, if there are
/// two or more.
pub open spec fn scoped(n: NodeV) -> Option<Seq<Seq<char>>> {
    match own_qualified(n) {
        Some(q) => if segments(q.kids).len() >= 2 {
            Some(segments(q.kids))
        } else {
            None
        },
        None => None,
    }
}

/// The segments of the scoped name that belongs to a reference, if there are
/// two or more.
pub fn qualified_segments(reference: &Node) -> (r: Option<Vec<String>>)
    ensures
        match r {
            Some(v) => scoped(reference@) == Some(views(v@)) && v@.len() >= 2,
            None => scoped(reference@) is None,
        },
{
    match own_qualified_id(reference) {
        Some(q) => {
            let all: Vec<String> = segments_of(q);
            assert(views(all@).len() == all@.len());
            if all.len() >= 2 {
                Some(all)
            } else {
                None
            }
        },
        None => None,
    }
}

/// Segments with `::` between them.
pub open spec fn scope_path(segs: Seq<Seq<char>>) -> Seq<char>
    decreases segs.len(),
{
    if segs.len() == 0 {
        Seq::empty()
    } else if segs.len() == 1 {
        segs[0]
    } else {
        scope_path(segs.drop_last()) + "::"@ + segs.last()
    }
}

/// The scope of a scoped name: its segments but the last, with `::` between
/// them.
pub fn scope_of(segs: &Vec<String>) -> (r: String)
    requires
        segs@.len() >= 2,
    ensures
        r@ == scope_path(views(segs@).drop_last()),
{
    let mut out: String = segs[0].clone();
    let mut i: usize = 1;
    let ghost all = views(segs@);
    assert(all.take(1).len() == 1);
    while i < segs.len() - 1
        invariant
            1 <= i < segs@.len(),
            all == views(segs@),
            out@ == scope_path(all.take(i as int)),
        decreases segs@.len() - i,
    {
        out = text3(out.as_str(), "::", segs[i].as_str());
        assert(all.take(i as int + 1).drop_last() =~= all.take(i as int));
        assert(all.take(i as int + 1).last() == segs@[i as int]@);
        i = i + 1;
    }
    assert(all.take(i as int) =~= all.drop_last());
    out
}

// ---- types ------------------------------------------------------------------

/// The class or user type that a data type names; of a scoped name, the last
/// segment. `None` for a primitive type.
pub open spec fn user_type(dtype: NodeV) -> Option<Seq<char>> {
    if found(dtype, "kDataTypePrimitive"@) is Some {
        None
    } else {
        match found_deep(dtype, "kQualifiedId"@) {
            Some(q) => if segments(q.kids).len() > 0 {
                Some(segments(q.kids).last())
            } else {
                deep_identifier(Some(dtype))
            },
            None => deep_identifier(Some(dtype)),
        }
    }
}

/// The class or user type that a data type that may be absent names.
pub open spec fn user_type_in(o: Option<NodeV>) -> Option<Seq<char>> {
    match o {
        Some(dtype) => user_type(dtype),
        None => None,
    }
}

/// The class or user type that a data type names.
pub fn class_type_name(dtype: &Node) -> (r: Option<String>)
    ensures
        opt_text(r) == user_type(dtype@),
{
    if find(dtype, "kDataTypePrimitive").is_some() {
        return None;
    }
    if let Some(q) = find_deep(dtype, "kQualifiedId") {
        let mut all: Vec<String> = segments_of(q);
        assert(views(all@).len() == all@.len());
        let ghost before = all@;
        if let Some(last) = all.pop() {
            assert(views(before).last() == before.last()@);
            return Some(last);
        }
    }
    deep_identifier_of(Some(dtype))
}

/// The class or user type that a data type that may be absent names.
pub fn class_type_name_in(o: Option<&Node>) -> (r: Option<String>)
    ensures
        opt_text(r) == user_type_in(opt_node(o)),
{
    match o {
        Some(dtype) => class_type_name(dtype),
        None => None,
    }
}

/// The scope in front of the user type that a data type names.
pub open spec fn type_scope_in(o: Option<NodeV>) -> Option<Seq<char>> {
    match found_deep_in(o, "kQualifiedId"@) {
        Some(q) => if segments(q.kids).len() < 2 {
            None
        } else {
            Some(scope_path(segments(q.kids).drop_last()))
        },
        None => None,
    }
}

/// The scope in front of the user type that a data type names.
pub fn class_type_scope(o: Option<&Node>) -> (r: Option<String>)
    ensures
        opt_text(r) == type_scope_in(opt_node(o)),
{
    match find_deep_in(o, "kQualifiedId") {
        Some(q) => {
            let all: Vec<String> = segments_of(q);
            assert(views(all@).len() == all@.len());
            if all.len() < 2 {
                None
            } else {
                Some(scope_of(&all))
            }
        },
        None => None,
    }
}

/// Whether a data type is the primitive `string`.
pub open spec fn string_type(o: Option<NodeV>) -> bool {
    kid_tagged(found_deep_in(o, "kDataTypePrimitive"@), "string"@)
}

/// Whether a data type is the primitive `string`.
pub fn is_string_type(o: Option<&Node>) -> (r: bool)
    ensures
        r == string_type(opt_node(o)),
{
    find_in(find_deep_in(o, "kDataTypePrimitive"), "string").is_some()
}

/// The width of a primitive type without packed dimensions.
pub open spec fn natural_width(keyword: Seq<char>) -> u32 {
    if keyword == "byte"@ {
        8
    } else if keyword == "shortint"@ {
        16
    } else if keyword == "int"@ || keyword == "integer"@ {
        32
    } else if keyword == "longint"@ || keyword == "time"@ {
        64
    } else {
        1
    }
}

/// The width of a primitive type without packed dimensions.
pub fn width_of_keyword(keyword: &str) -> (r: u32)
    ensures
        r == natural_width(keyword@),
{
    if str_eq(keyword, "byte") {
        8
    } else if str_eq(keyword, "shortint") {
        16
    } else if str_eq(keyword, "int") || str_eq(keyword, "integer") {
        32
    } else if str_eq(keyword, "longint") || str_eq(keyword, "time") {
        64
    } else {
        1
    }
}

/// The numbers of the nodes that hold one.
pub open spec fn constants(ns: Seq<NodeV>) -> Seq<int>
    decreases ns.len(),
{
    if ns.len() == 0 {
        Seq::empty()
    } else {
        match constant(ns.last()) {
            Some(v) => constants(ns.drop_last()).push(v),
            None => constants(ns.drop_last()),
        }
    }
}

/// The numbers of the nodes that hold one.
fn constants_of(ns: &Vec<&Node>) -> (r: Vec<i64>)
    ensures
        r@.map_values(|v: i64| v as int) == constants(refs_view(ns@)),
{
    let mut out: Vec<i64> = Vec::new();
    let mut i: usize = 0;
    let ghost all = refs_view(ns@);
    assert(out@.map_values(|v: i64| v as int) =~= constants(all.take(0)));
    while i < ns.len()
        invariant
            i <= ns@.len(),
            all == refs_view(ns@),
            out@.map_values(|v: i64| v as int) == constants(all.take(i as int)),
        decreases ns@.len() - i,
    {
        let ghost before = out@;
        let ghost next = all.take(i as int + 1);
        assert(next.drop_last() =~= all.take(i as int));
        assert(next.last() == ns[i as int]@);
        if let Some(v) = const_int(ns[i]) {
            out.push(v);
            assert(out@.map_values(|v: i64| v as int) =~= before.map_values(
                |v: i64| v as int,
            ).push(v as int));
        }
        i = i + 1;
    }
    assert(all.take(i as int) =~= all);
    out
}

/// The number of bits from `high` to `low`, in 64-bit and 32-bit arithmetic.
pub open spec fn range_width(high: int, low: int) -> u32 {
    let d = high - low;
    let wrapped = if d > i64::MAX {
        d - 0x1_0000_0000_0000_0000
    } else if d < i64::MIN {
        d + 0x1_0000_0000_0000_0000
    } else {
        d
    };
    (((if wrapped < 0 {
        -wrapped
    } else {
        wrapped
    }) + 1) % 0x1_0000_0000) as u32
}

/// The number of bits from `high` to `low`.
fn width_of_range(high: i64, low: i64) -> (r: u32)
    ensures
        r == range_width(high as int, low as int),
{
    let d: i128 = high as i128 - low as i128;
    let wrapped: i128 = if d > 0x7fff_ffff_ffff_ffff {
        d - 0x1_0000_0000_0000_0000
    } else if d < -0x8000_0000_0000_0000 {
        d + 0x1_0000_0000_0000_0000
    } else {
        d
    };
    let size: i128 = if wrapped < 0 {
        0 - wrapped
    } else {
        wrapped
    };
    let count: u128 = (size + 1) as u128;
    (count % 0x1_0000_0000) as u32
}

/// The width of a data type: that of its first packed dimension, or the natural
/// width of the primitive type.
pub open spec fn data_width(dtype: NodeV) -> u32 {
    let bounds = match found_deep_in(found(dtype, "kPackedDimensions"@), "kDimensionRange"@) {
        Some(range) => constants(tagged(range.kids, "kExpression"@)),
        None => Seq::empty(),
    };
    if bounds.len() == 2 {
        range_width(bounds[0], bounds[1])
    } else {
        match first_kid(found_deep(dtype, "kDataTypePrimitive"@)) {
            Some(keyword) => natural_width(keyword.tag),
            None => 1,
        }
    }
}

/// The width of a data type that may be absent.
pub open spec fn data_width_or(o: Option<NodeV>, default: u32) -> u32 {
    match o {
        Some(dtype) => data_width(dtype),
        None => default,
    }
}

/// The width of a data type: that of its first packed dimension, or the natural
/// width of the primitive type.
pub fn packed_width(dtype: &Node) -> (r: u32)
    ensures
        r == data_width(dtype@),
{
    if let Some(range) = find_deep_in(find(dtype, "kPackedDimensions"), "kDimensionRange") {
        let bounds: Vec<i64> = constants_of(&kids_tagged(range, "kExpression"));
        let ghost numbers = bounds@.map_values(|v: i64| v as int);
        assert(numbers.len() == bounds@.len());
        if bounds.len() == 2 {
            assert(numbers[0] == bounds@[0] && numbers[1] == bounds@[1]);
            return width_of_range(bounds[0], bounds[1]);
        }
    }
    match first_kid_of(find_deep(dtype, "kDataTypePrimitive")) {
        Some(keyword) => width_of_keyword(keyword.tag.as_str()),
        None => 1,
    }
}

/// The width of a data type that may be absent.
pub fn packed_width_or(o: Option<&Node>, default: u32) -> (r: u32)
    ensures
        r == data_width_or(opt_node(o), default),
{
    match o {
        Some(dtype) => packed_width(dtype),
        None => default,
    }
}

/// Where the `#(...)` arguments of a parameter list stand.
pub open spec fn positional(list: NodeV) -> Option<NodeV> {
    found_in(found(list, "kParenGroup"@), "kActualParameterPositionalList"@)
}

/// The type that one `#(...)` argument names.
pub open spec fn argument_type(arg: NodeV) -> Option<TypeRefV>
    decreases size(arg), 1int,
{
    if arg.tag == "kDataType"@ {
        Some(type_ref_of(arg))
    } else if arg.tag == "kExpression"@ || arg.tag == "kParamByName"@ {
        let simple = |name: Seq<char>| TypeRefV { name, args: Seq::empty() };
        match found_deep(arg, "TK_StringLiteral"@) {
            Some(s) => Some(simple(unquoted(s.word()))),
            None => match found_deep(arg, "SymbolIdentifier"@) {
                Some(id) => Some(simple(id.word())),
                None => match found_deep(arg, "TK_DecNumber"@) {
                    Some(num) => Some(simple(num.word())),
                    None => None,
                },
            },
        }
    } else {
        None
    }
}

/// The types that `#(...)` arguments name.
pub open spec fn argument_types(ns: Seq<NodeV>) -> Seq<TypeRefV>
    decreases size_all(ns), 2int,
{
    if ns.len() == 0 {
        Seq::empty()
    } else {
        proof {
            lemma_size_last(ns);
        }
        match argument_type(ns.last()) {
            Some(t) => argument_types(ns.drop_last()).push(t),
            None => argument_types(ns.drop_last()),
        }
    }
}

/// The types in a `#(...)` parameter list.
pub open spec fn actual_args(list: NodeV) -> Seq<TypeRefV>
    decreases size(list), 0int,
{
    match positional(list) {
        Some(args) => argument_types(args.kids),
        None => Seq::empty(),
    }
}

/// The types in a `#(...)` parameter list that may be absent.
pub open spec fn actual_args_in(o: Option<NodeV>) -> Seq<TypeRefV> {
    match o {
        Some(list) => actual_args(list),
        None => Seq::empty(),
    }
}

/// The type that a data type names, with its `#(...)` arguments.
pub open spec fn type_ref_of(dtype: NodeV) -> TypeRefV
    decreases size(dtype), 0int,
{
    TypeRefV {
        name: match found_deep(dtype, "kDataTypePrimitive"@) {
            Some(prim) => match first_kid(Some(prim)) {
                Some(keyword) => keyword.tag,
                None => Seq::empty(),
            },
            None => or_empty(deep_identifier(Some(dtype))),
        },
        args: match found_deep(dtype, "kActualParameterList"@) {
            Some(list) => actual_args(list),
            None => Seq::empty(),
        },
    }
}

/// The `#(...)` arguments of a data type that may be absent.
pub open spec fn type_args_in(o: Option<NodeV>) -> Seq<TypeRefV> {
    actual_args_in(found_deep_in(o, "kActualParameterList"@))
}

/// The type that one `#(...)` argument names.
fn argument_type_of(arg: &Node) -> (r: Option<TypeRef>)
    ensures
        match r {
            Some(t) => argument_type(arg@) == Some(t@),
            None => argument_type(arg@) is None,
        },
    decreases size(arg@), 1int,
{
    if has_tag(arg, "kDataType") {
        Some(type_ref_of_datatype(arg))
    } else if has_tag(arg, "kExpression") || has_tag(arg, "kParamByName") {
        if let Some(s) = find_deep(arg, "TK_StringLiteral") {
            Some(TypeRef::simple(unquote(text(s).as_str())))
        } else if let Some(id) = find_deep(arg, "SymbolIdentifier") {
            Some(TypeRef::simple(text(id)))
        } else if let Some(num) = find_deep(arg, "TK_DecNumber") {
            Some(TypeRef::simple(text(num)))
        } else {
            None
        }
    } else {
        None
    }
}

/// The types in a `#(...)` parameter list. Type arguments are data types; value
/// arguments and references to type parameters are expressions.
pub fn lower_actual_args(list: &Node) -> (r: Vec<TypeRef>)
    ensures
        type_refs_view(r@) == actual_args(list@),
    decreases size(list@), 0int,
{
    let mut out: Vec<TypeRef> = Vec::new();
    assert(type_refs_view(out@) =~= Seq::<TypeRefV>::empty());
    let args: &Node = match find_in(find(list, "kParenGroup"), "kActualParameterPositionalList") {
        Some(args) => args,
        None => {
            return out;
        },
    };
    let mut i: usize = 0;
    assert(type_refs_view(out@) == argument_types(args@.kids.take(0)));
    assert(size(args@) < size(list@));
    while i < args.kids.len()
        invariant
            i <= args.kids@.len(),
            type_refs_view(out@) == argument_types(args@.kids.take(i as int)),
            size(args@) < size(list@),
        decreases args.kids@.len() - i,
    {
        let ghost before = out@;
        let ghost next = args@.kids.take(i as int + 1);
        assert(next.drop_last() =~= args@.kids.take(i as int));
        assert(next.last() == args@.kids[i as int]);
        if let Some(t) = argument_type_of(&args.kids[i]) {
            out.push(t);
            assert(type_refs_view(out@) =~= type_refs_view(before).push(t@));
        }
        i = i + 1;
    }
    assert(args@.kids.take(i as int) =~= args@.kids);
    out
}

/// The types in a `#(...)` parameter list that may be absent.
pub fn lower_actual_args_in(o: Option<&Node>) -> (r: Vec<TypeRef>)
    ensures
        type_refs_view(r@) == actual_args_in(opt_node(o)),
{
    match o {
        Some(list) => lower_actual_args(list),
        None => {
            let out: Vec<TypeRef> = Vec::new();
            assert(type_refs_view(out@) =~= Seq::<TypeRefV>::empty());
            out
        },
    }
}

/// The type that a data type names: the primitive keyword or the identifier,
/// with its `#(...)` arguments.
pub fn type_ref_of_datatype(dtype: &Node) -> (r: TypeRef)
    ensures
        r@ == type_ref_of(dtype@),
    decreases size(dtype@), 0int,
{
    let name: String = match find_deep(dtype, "kDataTypePrimitive") {
        Some(prim) => match first_kid_of(Some(prim)) {
            Some(keyword) => keyword.tag.clone(),
            None => unwrap_text(None),
        },
        None => unwrap_text(deep_identifier_of(Some(dtype))),
    };
    let args: Vec<TypeRef> = match find_deep(dtype, "kActualParameterList") {
        Some(list) => lower_actual_args(list),
        None => {
            let out: Vec<TypeRef> = Vec::new();
            assert(type_refs_view(out@) =~= Seq::<TypeRefV>::empty());
            out
        },
    };
    TypeRef { name, args }
}

/// The `#(...)` arguments of a data type that may be absent.
pub fn type_args_of(o: Option<&Node>) -> (r: Vec<TypeRef>)
    ensures
        type_refs_view(r@) == type_args_in(opt_node(o)),
{
    lower_actual_args_in(find_deep_in(o, "kActualParameterList"))
}

// ---- unpacked dimensions ----------------------------------------------------

/// The unpacked dimensions of a declared name.
pub open spec fn unpacked(n: NodeV) -> Option<NodeV> {
    or_else(
        found_in(found(n, "kUnpackedDimensions"@), "kDeclarationDimensions"@),
        found(n, "kDeclarationDimensions"@),
    )
}

/// The unpacked dimensions of a declared name.
fn unpacked_of(n: &Node) -> (r: Option<&Node>)
    ensures
        opt_node(r) == unpacked(n@),
{
    find_or(
        find_in(find(n, "kUnpackedDimensions"), "kDeclarationDimensions"),
        find(n, "kDeclarationDimensions"),
    )
}

/// The collection that one dimension makes: `[*]`-style types and a bare
/// identifier make an associative array; a range, `[$]`, `[]` and `[N]` make a
/// list.
pub open spec fn dimension_kind(dim: NodeV) -> Option<CollKind> {
    if dim.tag == "kDimensionAssociativeType"@ {
        Some(CollKind::Assoc)
    } else if dim.tag == "kDimensionRange"@ {
        Some(CollKind::Queue)
    } else if dim.tag == "kDimensionScalar"@ {
        match found(dim, "kExpressionList"@) {
            Some(list) => if found_deep(list, "$"@) is None && found_deep(
                list,
                "TK_DecNumber"@,
            ) is None && found_deep(list, "SymbolIdentifier"@) is Some {
                Some(CollKind::Assoc)
            } else {
                Some(CollKind::Queue)
            },
            None => Some(CollKind::Queue),
        }
    } else {
        None
    }
}

/// The collection that the first dimension that makes one makes.
pub open spec fn first_kind(ns: Seq<NodeV>) -> Option<CollKind>
    decreases ns.len(),
{
    if ns.len() == 0 {
        None
    } else {
        match dimension_kind(ns[0]) {
            Some(kind) => Some(kind),
            None => first_kind(ns.drop_first()),
        }
    }
}

/// The collection that a declared name is, if any.
pub open spec fn collection(n: NodeV) -> Option<CollKind> {
    match unpacked(n) {
        Some(dims) => first_kind(dims.kids),
        None => None,
    }
}

/// The collection that one dimension makes.
fn dimension_kind_of(dim: &Node) -> (r: Option<CollKind>)
    ensures
        r == dimension_kind(dim@),
{
    if has_tag(dim, "kDimensionAssociativeType") {
        Some(CollKind::Assoc)
    } else if has_tag(dim, "kDimensionRange") {
        Some(CollKind::Queue)
    } else if has_tag(dim, "kDimensionScalar") {
        match find(dim, "kExpressionList") {
            Some(list) => if find_deep(list, "$").is_none() && find_deep(
                list,
                "TK_DecNumber",
            ).is_none() && find_deep(list, "SymbolIdentifier").is_some() {
                Some(CollKind::Assoc)
            } else {
                Some(CollKind::Queue)
            },
            None => Some(CollKind::Queue),
        }
    } else {
        None
    }
}

/// Classify the unpacked dimension of a declared name: a list-backed array, an
/// associative array, or a scalar.
pub fn classify_coll(n: &Node) -> (r: Option<CollKind>)
    ensures
        r == collection(n@),
{
    let dims: &Node = match unpacked_of(n) {
        Some(dims) => dims,
        None => {
            return None;
        },
    };
    let mut i: usize = 0;
    assert(dims@.kids.skip(0) =~= dims@.kids);
    while i < dims.kids.len()
        invariant
            i <= dims.kids@.len(),
            unpacked(n@) == Some(dims@),
            first_kind(dims@.kids) == first_kind(dims@.kids.skip(i as int)),
        decreases dims.kids@.len() - i,
    {
        let ghost rest = dims@.kids.skip(i as int);
        assert(rest[0] == dims.kids[i as int]@);
        assert(rest.drop_first() =~= dims@.kids.skip(i as int + 1));
        let kind: Option<CollKind> = dimension_kind_of(&dims.kids[i]);
        if kind.is_some() {
            return kind;
        }
        i = i + 1;
    }
    None
}

/// The class that keys an associative array, if it is keyed by one.
pub open spec fn key_class(n: NodeV) -> Option<Seq<char>> {
    if collection(n) == Some(CollKind::Assoc) {
        deep_identifier(found_in(unpacked(n), "kDimensionScalar"@))
    } else {
        None
    }
}

/// The class that keys an associative array, if it is keyed by one.
pub fn assoc_key_class_name(n: &Node) -> (r: Option<String>)
    ensures
        opt_text(r) == key_class(n@),
{
    match classify_coll(n) {
        Some(CollKind::Assoc) => deep_identifier_of(find_in(unpacked_of(n), "kDimensionScalar")),
        _ => None,
    }
}

// ---- directions and operators -----------------------------------------------

/// The direction that a port is declared with.
pub open spec fn direction(n: NodeV) -> PortDir {
    if found_deep(n, "output"@) is Some {
        PortDir::Output
    } else if found_deep(n, "inout"@) is Some {
        PortDir::Inout
    } else if found_deep(n, "ref"@) is Some {
        PortDir::Ref
    } else {
        PortDir::Input
    }
}

/// The direction that a port is declared with.
pub fn direction_of(n: &Node) -> (r: PortDir)
    ensures
        r == direction(n@),
{
    if find_deep(n, "output").is_some() {
        PortDir::Output
    } else if find_deep(n, "inout").is_some() {
        PortDir::Inout
    } else if find_deep(n, "ref").is_some() {
        PortDir::Ref
    } else {
        PortDir::Input
    }
}

/// The binary operator of a symbol.
pub open spec fn binary_operator(op: Seq<char>) -> BinOp {
    if op == "+"@ {
        BinOp::Add
    } else if op == "-"@ {
        BinOp::Sub
    } else if op == "*"@ {
        BinOp::Mul
    } else if op == "&"@ {
        BinOp::And
    } else if op == "|"@ {
        BinOp::Or
    } else if op == "^"@ {
        BinOp::Xor
    } else if op == "=="@ {
        BinOp::Eq
    } else if op == "!="@ {
        BinOp::Neq
    } else if op == "<"@ {
        BinOp::Lt
    } else if op == ">"@ {
        BinOp::Gt
    } else if op == "<="@ {
        BinOp::Le
    } else if op == ">="@ {
        BinOp::Ge
    } else if op == "<<"@ {
        BinOp::Shl
    } else if op == ">>"@ {
        BinOp::Shr
    } else if op == "&&"@ {
        BinOp::LogAnd
    } else if op == "||"@ {
        BinOp::LogOr
    } else {
        BinOp::Add
    }
}

/// The binary operator of a symbol; addition for a symbol of none.
pub fn lower_binop(op: &str) -> (r: BinOp)
    ensures
        r == binary_operator(op@),
{
    if str_eq(op, "+") {
        BinOp::Add
    } else if str_eq(op, "-") {
        BinOp::Sub
    } else if str_eq(op, "*") {
        BinOp::Mul
    } else if str_eq(op, "&") {
        BinOp::And
    } else if str_eq(op, "|") {
        BinOp::Or
    } else if str_eq(op, "^") {
        BinOp::Xor
    } else if str_eq(op, "==") {
        BinOp::Eq
    } else if str_eq(op, "!=") {
        BinOp::Neq
    } else if str_eq(op, "<") {
        BinOp::Lt
    } else if str_eq(op, ">") {
        BinOp::Gt
    } else if str_eq(op, "<=") {
        BinOp::Le
    } else if str_eq(op, ">=") {
        BinOp::Ge
    } else if str_eq(op, "<<") {
        BinOp::Shl
    } else if str_eq(op, ">>") {
        BinOp::Shr
    } else if str_eq(op, "&&") {
        BinOp::LogAnd
    } else if str_eq(op, "||") {
        BinOp::LogOr
    } else {
        BinOp::Add
    }
}

/// The unary operator of a symbol.
pub open spec fn unary_operator(op: Seq<char>) -> UnaryOp {
    if op == "~"@ {
        UnaryOp::BitNot
    } else if op == "!"@ {
        UnaryOp::LogNot
    } else if op == "-"@ {
        UnaryOp::Neg
    } else if op == "+"@ {
        UnaryOp::Plus
    } else if op == "&"@ {
        UnaryOp::ReduceAnd
    } else if op == "|"@ {
        UnaryOp::ReduceOr
    } else if op == "^"@ {
        UnaryOp::ReduceXor
    } else {
        UnaryOp::BitNot
    }
}

/// The unary operator of a symbol; bitwise negation for a symbol of none.
pub fn lower_unop(op: &str) -> (r: UnaryOp)
    ensures
        r == unary_operator(op@),
{
    if str_eq(op, "~") {
        UnaryOp::BitNot
    } else if str_eq(op, "!") {
        UnaryOp::LogNot
    } else if str_eq(op, "-") {
        UnaryOp::Neg
    } else if str_eq(op, "+") {
        UnaryOp::Plus
    } else if str_eq(op, "&") {
        UnaryOp::ReduceAnd
    } else if str_eq(op, "|") {
        UnaryOp::ReduceOr
    } else if str_eq(op, "^") {
        UnaryOp::ReduceXor
    } else {
        UnaryOp::BitNot
    }
}

// ---- literals ---------------------------------------------------------------

/// The character that a backslash and a character stand for.
pub open spec fn escape(c: char) -> char {
    if c == 'n' {
        '\n'
    } else if c == 't' {
        '\t'
    } else {
        c
    }
}

/// The text with its backslash escapes resolved.
pub open spec fn unescaped(s: Seq<char>) -> Seq<char>
    decreases s.len(),
{
    if s.len() == 0 {
        s
    } else if s[0] != '\\' {
        seq![s[0]] + unescaped(s.skip(1))
    } else if s.len() == 1 {
        Seq::empty()
    } else {
        seq![escape(s[1])] + unescaped(s.skip(2))
    }
}

/// The text without a quote at its start.
pub open spec fn without_opening(s: Seq<char>) -> Seq<char> {
    if s.len() > 0 && s[0] == '"' {
        s.skip(1)
    } else {
        s
    }
}

/// The text without a quote at its end.
pub open spec fn without_closing(s: Seq<char>) -> Seq<char> {
    if s.len() > 0 && s.last() == '"' {
        s.drop_last()
    } else {
        s
    }
}

/// What a string literal stands for.
pub open spec fn unquoted(s: Seq<char>) -> Seq<char> {
    unescaped(without_closing(without_opening(s)))
}

/// Strip the quotes around a string literal and resolve its backslash escapes.
pub fn unquote(s: &str) -> (r: String)
    ensures
        r@ == unquoted(s@),
{
    let all: Vec<char> = chars_of(s);
    let mut from: usize = 0;
    let mut to: usize = all.len();
    if all.len() > 0 && all[0] == '"' {
        from = 1;
    }
    if to > from && all[to - 1] == '"' {
        to = to - 1;
    }
    let ghost body = all@.subrange(from as int, to as int);
    assert(body =~= without_closing(without_opening(s@)));
    let mut out: Vec<char> = Vec::new();
    let mut i: usize = from;
    assert(body.skip(0) =~= body);
    assert(out@ + unescaped(body) =~= unescaped(body));
    while i < to
        invariant
            from <= i <= to <= all@.len(),
            body == all@.subrange(from as int, to as int),
            unescaped(body) == out@ + unescaped(body.skip(i - from)),
        decreases to - i,
    {
        let c: char = all[i];
        let ghost before = out@;
        let ghost rest = body.skip(i - from);
        assert(rest[0] == c);
        if c == '\\' {
            if i + 1 < to {
                let d: char = all[i + 1];
                assert(rest[1] == d);
                let e: char = if d == 'n' {
                    '\n'
                } else if d == 't' {
                    '\t'
                } else {
                    d
                };
                out.push(e);
                i = i + 2;
                assert(rest.skip(2) =~= body.skip(i - from));
                assert(before + (seq![e] + unescaped(rest.skip(2))) =~= out@ + unescaped(
                    rest.skip(2),
                ));
            } else {
                i = i + 1;
                assert(body.skip(i - from) =~= Seq::<char>::empty());
                assert(before + Seq::<char>::empty() =~= before + unescaped(body.skip(i - from)));
            }
        } else {
            out.push(c);
            i = i + 1;
            assert(rest.skip(1) =~= body.skip(i - from));
            assert(before + (seq![c] + unescaped(rest.skip(1))) =~= out@ + unescaped(rest.skip(1)));
        }
    }
    assert(body.skip(i - from) =~= Seq::<char>::empty());
    assert(out@ + Seq::<char>::empty() =~= out@);
    string_of(out.as_slice())
}

/// The first node whose tag ends as given.
pub open spec fn first_ending(ns: Seq<NodeV>, end: Seq<char>) -> Option<NodeV>
    decreases ns.len(),
{
    if ns.len() == 0 {
        None
    } else if end.is_suffix_of(ns[0].tag) {
        Some(ns[0])
    } else {
        first_ending(ns.drop_first(), end)
    }
}

/// Whether a text ends as given.
pub fn ends_with(s: &str, end: &str) -> (r: bool)
    ensures
        r == end@.is_suffix_of(s@),
{
    let a: Vec<char> = chars_of(s);
    let b: Vec<char> = chars_of(end);
    if b.len() > a.len() {
        return false;
    }
    let gap: usize = a.len() - b.len();
    let mut i: usize = 0;
    while i < b.len()
        invariant
            i <= b@.len(),
            a@ == s@,
            b@ == end@,
            gap == a@.len() - b@.len(),
            gap + b@.len() <= usize::MAX,
            forall|j: int| 0 <= j < i ==> #[trigger] b@[j] == a@[gap + j],
        decreases b@.len() - i,
    {
        if b[i] != a[gap + i] {
            assert(s@.subrange(s@.len() - end@.len(), s@.len() as int)[i as int] != end@[i as int]);
            return false;
        }
        i = i + 1;
    }
    assert(end@ =~= s@.subrange(s@.len() - end@.len(), s@.len() as int));
    true
}

/// The first child whose tag ends as given.
fn find_ending<'a>(n: &'a Node, end: &str) -> (r: Option<&'a Node>)
    ensures
        opt_node(r) == first_ending(n@.kids, end@),
{
    let mut i: usize = 0;
    assert(n@.kids.skip(0) =~= n@.kids);
    while i < n.kids.len()
        invariant
            i <= n.kids@.len(),
            first_ending(n@.kids, end@) == first_ending(n@.kids.skip(i as int), end@),
        decreases n.kids@.len() - i,
    {
        let ghost rest = n@.kids.skip(i as int);
        assert(rest[0] == n.kids[i as int]@);
        assert(rest.drop_first() =~= n@.kids.skip(i as int + 1));
        if ends_with(n.kids[i].tag.as_str(), end) {
            return Some(&n.kids[i]);
        }
        i = i + 1;
    }
    None
}

/// The width written in front of a based literal, in decimal; empty where none
/// is written.
pub open spec fn written_size(n: NodeV) -> Seq<char> {
    match found(n, "TK_DecNumber"@) {
        Some(size) => match parsed_unsigned(without_underscores(size.word()), u32::MAX as nat) {
            Some(w) => decimal(w),
            None => Seq::empty(),
        },
        None => Seq::empty(),
    }
}

/// The value of a number: a sized literal, or a 32-bit decimal.
pub open spec fn number(n: NodeV) -> Seq<Bit> {
    let decimal_value = match constant(n) {
        Some(v) => bits_of(v, 32),
        None => bits_of(0, 32),
    };
    match found(n, "kBaseDigits"@) {
        Some(based) => {
            let literal = written_size(n) + word_of(first_ending(based.kids, "Base"@)) + word_of(
                first_ending(based.kids, "Digits"@),
            );
            match sized_literal(literal) {
                Some(bits) => bits,
                None => decimal_value,
            }
        },
        None => decimal_value,
    }
}

/// The value of a number: a sized literal, or a 32-bit decimal.
pub fn lower_number(n: &Node) -> (r: LogicVec)
    ensures
        r@ == number(n@),
{
    if let Some(based) = find(n, "kBaseDigits") {
        let size: String = match find(n, "TK_DecNumber") {
            Some(leaf) => {
                let digits: Vec<char> = strip_underscores(text(leaf).as_str());
                match parse_unsigned(digits.as_slice(), 0xffff_ffff) {
                    Some(w) => number_text(w),
                    None => unwrap_text(None),
                }
            },
            None => unwrap_text(None),
        };
        let base: String = text_of(find_ending(based, "Base"));
        let digits: String = text_of(find_ending(based, "Digits"));
        let literal: String = text3(size.as_str(), base.as_str(), digits.as_str());
        if let Some(v) = LogicVec::parse_sized(literal.as_str()) {
            return v;
        }
    }
    match const_int(n) {
        Some(v) => LogicVec::from_i64(v, 32),
        None => LogicVec::from_i64(0, 32),
    }
}

} // verus!
