//! Laws of source text: macros and their arguments, files, string literals and widths.
use vstd::prelude::*;

use crate::ast_model::ExprV;
use crate::cst::{found, found_deep, found_deep_in, first_kid, tagged, NodeV};
use crate::layout::{class_of, collection_of, element_class, receiver, EnvV, ScopeV};
use crate::lower_types::{
    constants, data_width, natural_width, range_width, unescaped, unquoted,
    without_closing, without_opening,
};
use crate::macros::{
    applied, argument_list, bindings, blank_len, expanded, substituted, MacroMap, ParamText,
    MAX_EXPAND_DEPTH,
};
use crate::preprocess::{first_present, table_entry, HeaderText, LookupText};
use crate::scan::{ident_len, ident_start, top_pieces};
use crate::text::{decimal, joined, trimmed};

verus! {

// ---- macros -----------------------------------------------------------------------------------

/// Each parameter of a macro is bound to the argument at its place, without the blanks
/// around it; where that is missing or blank, to its default, or to nothing.
pub proof fn parameters_are_bound_by_place(params: Seq<ParamText>, args: Seq<Seq<char>>, k: int)
    requires
        0 <= k < params.len(),
        forall|j: int| k < j < params.len() ==> (#[trigger] params[j]).name != params[k].name,
    ensures
        bindings(params, args).dom().contains(params[k].name),
        bindings(params, args)[params[k].name] == (if k < args.len() && trimmed(args[k]).len() > 0 {
            trimmed(args[k])
        } else if params[k].default is Some {
            params[k].default->0
        } else {
            Seq::empty()
        }),
    decreases params.len(),
{
    let front = params.drop_last();
    if k < front.len() {
        assert(front[k] == params[k]);
        assert(params[params.len() - 1].name != params[k].name);
        assert forall|j: int| k < j < front.len() implies (#[trigger] front[j]).name
            != front[k].name by {
            assert(front[j] == params[j]);
        }
        parameters_are_bound_by_place(front, args, k);
    }
}

/// Only the names of parameters are bound.
pub proof fn only_parameters_are_bound(params: Seq<ParamText>, args: Seq<Seq<char>>, name: Seq<char>)
    requires
        forall|j: int| 0 <= j < params.len() ==> (#[trigger] params[j]).name != name,
    ensures
        !bindings(params, args).dom().contains(name),
    decreases params.len(),
{
    if params.len() > 0 {
        let front = params.drop_last();
        assert(params[params.len() - 1].name != name);
        assert forall|j: int| 0 <= j < front.len() implies (#[trigger] front[j]).name != name by {
            assert(front[j] == params[j]);
        }
        only_parameters_are_bound(front, args, name);
    }
}

/// In the body of a macro a whole word that is bound is replaced by its text, and any other
/// word and any other character stays.
pub proof fn bound_words_are_replaced(
    word: Seq<char>,
    rest: Seq<char>,
    bound: Map<Seq<char>, Seq<char>>,
    c: char,
)
    ensures
        word.len() > 0 && ident_start(word[0]) && ident_len(word + rest) == word.len() ==> substituted(
            word + rest,
            bound,
        ) == (if bound.dom().contains(word) {
            bound[word]
        } else {
            word
        }) + substituted(rest, bound),
        !ident_start(c) ==> substituted(seq![c] + rest, bound) == seq![c] + substituted(rest, bound),
{
    if word.len() > 0 && ident_start(word[0]) && ident_len(word + rest) == word.len() {
        let s = word + rest;
        assert(s.take(word.len() as int) =~= word);
        assert(s.skip(word.len() as int) =~= rest);
    }
    let t = seq![c] + rest;
    assert(t.skip(1) =~= rest);
}

/// Outside string literals `__LINE__` is the number of the line, a name without a definition
/// stays as it is written, and a macro with parameters is its body for the arguments in the
/// parentheses behind it, itself expanded; what follows is expanded too.
pub proof fn macro_uses_expand(
    m: MacroMap,
    file: Seq<char>,
    line: nat,
    name: Seq<char>,
    rest: Seq<char>,
    depth: nat,
)
    requires
        depth < MAX_EXPAND_DEPTH,
        name.len() > 0,
        ident_start(name[0]),
        ident_len(name + rest) == name.len(),
    ensures
        ({
            let s = seq!['`'] + name + rest;
            let all = expanded(m, file, line, s, false, depth);
            let plain = name != "__FILE__"@ && name != "__LINE__"@;
            &&& name == "__LINE__"@ ==> all == decimal(line) + expanded(
                m,
                file,
                line,
                rest,
                false,
                depth,
            )
            &&& plain && !m.dom().contains(name) ==> all == seq!['`'] + name + expanded(
                m,
                file,
                line,
                rest,
                false,
                depth,
            )
            &&& plain && m.dom().contains(name) && m[name].params is None ==> all == expanded(
                m,
                file,
                line,
                m[name].body,
                false,
                depth + 1,
            ) + expanded(m, file, line, rest, false, depth)
            &&& plain && m.dom().contains(name) && m[name].params is Some && argument_list(
                rest,
            ) is Some ==> ({
                let e = argument_list(rest)->0;
                let args = top_pieces(
                    rest.subrange(blank_len(rest) as int + 1, e),
                    ',',
                    0,
                    false,
                    Seq::empty(),
                );
                all == expanded(m, file, line, applied(m[name], args), false, depth + 1) + expanded(
                    m,
                    file,
                    line,
                    rest.skip(e + 1),
                    false,
                    depth,
                )
            })
        }),
{
    let s = seq!['`'] + name + rest;
    let n = name.len() as int;
    assert(s.skip(1) =~= name + rest);
    assert(s.skip(1).take(n) =~= name);
    assert(s.skip(1 + n) =~= rest);
    assert(s.take(1 + n) =~= seq!['`'] + name);
    assert(s[0] == '`');
    assert(s[1] == name[0]);
    reveal_strlit("__FILE__");
    reveal_strlit("__LINE__");
    assert("__FILE__"@[2] == 'F' && "__LINE__"@[2] == 'L');
}

/// Text inside a string literal stays, up to its end.
pub proof fn literals_are_not_expanded(
    m: MacroMap,
    file: Seq<char>,
    line: nat,
    inside: Seq<char>,
    rest: Seq<char>,
    depth: nat,
)
    requires
        depth < MAX_EXPAND_DEPTH,
        forall|i: int| 0 <= i < inside.len() ==> #[trigger] inside[i] != '"',
    ensures
        expanded(m, file, line, inside + (seq!['"'] + rest), true, depth) == inside + seq!['"']
            + expanded(m, file, line, rest, false, depth),
    decreases inside.len(),
{
    let s = inside + (seq!['"'] + rest);
    if inside.len() == 0 {
        assert(s =~= seq!['"'] + rest);
        assert(s.skip(1) =~= rest);
        assert(inside + seq!['"'] =~= seq!['"']);
    } else {
        let less = inside.skip(1);
        assert forall|i: int| 0 <= i < less.len() implies #[trigger] less[i] != '"' by {
            assert(less[i] == inside[i + 1]);
        }
        literals_are_not_expanded(m, file, line, less, rest, depth);
        assert(s[0] == inside[0]);
        assert(s.skip(1) =~= less + (seq!['"'] + rest));
        assert(seq![inside[0]] + (less + seq!['"'] + expanded(m, file, line, rest, false, depth))
            =~= inside + seq!['"'] + expanded(m, file, line, rest, false, depth));
    }
}

proof fn lemma_joined_first(a: Seq<char>, t: Seq<Seq<char>>, c: char)
    requires
        t.len() > 0,
    ensures
        joined(seq![a] + t, c) == a.push(c) + joined(t, c),
    decreases t.len(),
{
    let all = seq![a] + t;
    assert(all.last() == t.last());
    if t.len() == 1 {
        assert(all.drop_last() =~= seq![a]);
        assert(joined(all.drop_last(), c) == a);
    } else {
        assert(all.drop_last() =~= seq![a] + t.drop_last());
        lemma_joined_first(a, t.drop_last(), c);
        assert((a.push(c) + joined(t.drop_last(), c)).push(c) + t.last() =~= a.push(c) + (joined(
            t.drop_last(),
            c,
        ).push(c) + t.last()));
    }
}

/// Splitting arguments loses nothing: joined again they are the text that was split.
pub proof fn split_arguments_join_back(
    s: Seq<char>,
    sep: char,
    depth: int,
    quoted: bool,
    piece: Seq<char>,
)
    ensures
        top_pieces(s, sep, depth, quoted, piece).len() > 0,
        joined(top_pieces(s, sep, depth, quoted, piece), sep) == piece + s,
    decreases s.len(),
{
    if s.len() == 0 {
        assert(joined(seq![piece], sep) == piece);
        assert(piece + s =~= piece);
    } else if quoted && s[0] == '\\' && s.len() > 1 {
        let next = piece + seq![s[0], s[1]];
        split_arguments_join_back(s.skip(2), sep, depth, true, next);
        assert(next + s.skip(2) =~= piece + s);
    } else if !quoted && s[0] == sep && depth == 0 && s[0] != '"' && s[0] != '(' && s[0] != '['
        && s[0] != '{' && s[0] != ')' && s[0] != ']' && s[0] != '}' {
        let rest = top_pieces(s.skip(1), sep, depth, false, Seq::empty());
        split_arguments_join_back(s.skip(1), sep, depth, false, Seq::empty());
        lemma_joined_first(piece, rest, sep);
        assert(piece.push(sep) + (Seq::empty() + s.skip(1)) =~= piece + s);
    } else {
        let next = piece.push(s[0]);
        let inside = if quoted {
            s[0] != '"'
        } else {
            s[0] == '"'
        };
        let deeper = if quoted || s[0] == '"' {
            depth
        } else if s[0] == '(' || s[0] == '[' || s[0] == '{' {
            depth + 1
        } else if s[0] == ')' || s[0] == ']' || s[0] == '}' {
            depth - 1
        } else {
            depth
        };
        split_arguments_join_back(s.skip(1), sep, deeper, inside, next);
        assert(next + s.skip(1) =~= piece + s);
    }
}

// ---- files ------------------------------------------------------------------------------------

/// The file that is read is the first candidate that is there.
pub proof fn the_first_file_there_is_read(candidates: Seq<Option<HeaderText>>, i: int)
    requires
        0 <= i < candidates.len(),
        candidates[i] is Some,
        forall|j: int| 0 <= j < i ==> (#[trigger] candidates[j]) is None,
    ensures
        first_present(candidates) == candidates[i],
    decreases candidates.len(),
{
    if i > 0 {
        let rest = candidates.skip(1);
        assert(candidates[0] is None);
        assert(rest[i - 1] == candidates[i]);
        assert forall|j: int| 0 <= j < i - 1 implies (#[trigger] rest[j]) is None by {
            assert(rest[j] == candidates[j + 1]);
        }
        the_first_file_there_is_read(rest, i - 1);
    }
}

/// A lookup is the first of the table for its name and the file that names it.
pub proof fn lookups_go_by_name_and_source(
    table: Seq<LookupText>,
    name: Seq<char>,
    source: Seq<char>,
    i: int,
)
    requires
        0 <= i < table.len(),
        table[i].name == name && table[i].source == source,
        forall|j: int|
            0 <= j < i ==> !((#[trigger] table[j]).name == name && table[j].source == source),
    ensures
        table_entry(table, name, source) == Some(table[i]),
    decreases table.len(),
{
    if i > 0 {
        let rest = table.skip(1);
        assert(!(table[0].name == name && table[0].source == source));
        assert(rest[i - 1] == table[i]);
        assert forall|j: int| 0 <= j < i - 1 implies !((#[trigger] rest[j]).name == name
            && rest[j].source == source) by {
            assert(rest[j] == table[j + 1]);
        }
        lookups_go_by_name_and_source(rest, name, source, i - 1);
    }
}

// ---- string literals ------------------------------------------------------------------------------

/// How a character is written in a string literal.
pub open spec fn written_char(c: char) -> Seq<char> {
    if c == '\n' {
        seq!['\\', 'n']
    } else if c == '\t' {
        seq!['\\', 't']
    } else if c == '\\' || c == '"' {
        seq!['\\', c]
    } else {
        seq![c]
    }
}

/// How a text is written between the quotes of a string literal.
pub open spec fn written_text(s: Seq<char>) -> Seq<char>
    decreases s.len(),
{
    if s.len() == 0 {
        s
    } else {
        written_char(s[0]) + written_text(s.skip(1))
    }
}

proof fn lemma_written(s: Seq<char>)
    ensures
        unescaped(written_text(s)) == s,
    decreases s.len(),
{
    if s.len() > 0 {
        let w = written_text(s);
        let rest = written_text(s.skip(1));
        lemma_written(s.skip(1));
        let c = written_char(s[0]);
        if c.len() == 1 {
            assert(w[0] == s[0]);
            assert(w.skip(1) =~= rest);
        } else {
            assert(w[0] == '\\' && w[1] == c[1] && w.len() >= 2);
            assert(w.skip(2) =~= rest);
        }
        assert(seq![s[0]] + s.skip(1) =~= s);
    }
}

/// A string literal stands for the text that was written into it: between quotes, with
/// quotes, backslashes, line ends and tabs behind a backslash.
pub proof fn string_literals_stand_for_their_text(s: Seq<char>)
    ensures
        unquoted(seq!['"'] + written_text(s) + seq!['"']) == s,
{
    let w = written_text(s);
    let q = seq!['"'] + w + seq!['"'];
    assert(q[0] == '"');
    assert(without_opening(q) =~= w + seq!['"']);
    let r = without_opening(q);
    assert(r.last() == '"');
    assert(without_closing(r) =~= w);
    lemma_written(s);
}

// ---- widths -----------------------------------------------------------------------------------------

/// A range has as many bits as there are numbers from one bound to the other, whichever is
/// written first.
pub proof fn ranges_count_their_bits(high: int, low: int)
    requires
        -0x7fff_ffff <= high <= 0x7fff_ffff,
        -0x7fff_ffff <= low <= 0x7fff_ffff,
    ensures
        high >= low ==> range_width(high, low) == high - low + 1,
        range_width(high, low) == range_width(low, high),
{
}

/// A type with a packed dimension has the width of its range; a type without one that of its
/// keyword.
pub proof fn types_have_the_width_of_their_range(dtype: NodeV, range: NodeV, keyword: NodeV)
    ensures
        found_deep_in(found(dtype, "kPackedDimensions"@), "kDimensionRange"@) == Some(range)
            && constants(tagged(range.kids, "kExpression"@)).len() == 2 ==> data_width(dtype)
            == range_width(
            constants(tagged(range.kids, "kExpression"@))[0],
            constants(tagged(range.kids, "kExpression"@))[1],
        ),
        found(dtype, "kPackedDimensions"@) is None && first_kid(
            found_deep(dtype, "kDataTypePrimitive"@),
        ) == Some(keyword) ==> data_width(dtype) == natural_width(keyword.tag),
{
}

// ---- classes of expressions --------------------------------------------------------------------------

/// The class that an expression is known to be of is the class that its members are looked up
/// in; an element is of the class of the elements of its collection.
pub proof fn members_are_looked_up_in_the_class(env: EnvV, sc: ScopeV, e: ExprV)
    ensures
        class_of(env, sc, e) matches Some(cid) ==> receiver(env, sc, e) == Ok::<u32, Seq<char>>(cid),
        e matches ExprV::Index { base, index } ==> (receiver(env, sc, e) is Ok <==> element_class(
            env,
            sc,
            *base,
        ) is Some),
        e matches ExprV::Index { base, index } ==> (receiver(env, sc, e) is Ok ==> collection_of(
            env,
            sc,
            *base,
        ) is Some && Some(receiver(env, sc, e)->Ok_0) == (collection_of(env, sc, *base)->0).elem_class),
    decreases e,
{
    if let ExprV::Field { obj, field } = e {
        members_are_looked_up_in_the_class(env, sc, *obj);
    }
}

} // verus!
