//! The words and symbols of the language, and what they lower to.
//!
//! Each table here says how a thing is written. That lowering what is written gives the
//! thing back is a law.
use vstd::prelude::*;

use crate::ast::{
    AlwaysKind, BinOp, Edge, ForkJoin, NetKind, PortDir, StrengthLevel, UnaryOp,
};
use crate::ast_model::StmtV;
use crate::cst::{found_deep, NodeV};
use crate::drive::keyword_level;
use crate::gen_model::collection_method;
use crate::ir::CollOp;
use crate::lower::always;
use crate::lower_body::{join_of, jump};
use crate::lower_module::{net_keyword, signed_keyword};
use crate::lower_stmt::{compound_operator, event_expr};
use crate::lower_types::{binary_operator, direction, natural_width, unary_operator};

verus! {

/// How a binary operator is written.
pub open spec fn binary_symbol(op: BinOp) -> Seq<char> {
    match op {
        BinOp::Add => "+"@,
        BinOp::Sub => "-"@,
        BinOp::Mul => "*"@,
        BinOp::And => "&"@,
        BinOp::Or => "|"@,
        BinOp::Xor => "^"@,
        BinOp::Eq => "=="@,
        BinOp::Neq => "!="@,
        BinOp::Lt => "<"@,
        BinOp::Gt => ">"@,
        BinOp::Le => "<="@,
        BinOp::Ge => ">="@,
        BinOp::Shl => "<<"@,
        BinOp::Shr => ">>"@,
        BinOp::LogAnd => "&&"@,
        BinOp::LogOr => "||"@,
    }
}

/// How a unary operator is written.
pub open spec fn unary_symbol(op: UnaryOp) -> Seq<char> {
    match op {
        UnaryOp::BitNot => "~"@,
        UnaryOp::LogNot => "!"@,
        UnaryOp::Neg => "-"@,
        UnaryOp::Plus => "+"@,
        UnaryOp::ReduceAnd => "&"@,
        UnaryOp::ReduceOr => "|"@,
        UnaryOp::ReduceXor => "^"@,
    }
}

/// The symbol of a binary operator lowers to the operator, and no two operators have the
/// same symbol.
pub proof fn binary_symbols_lower_back(op: BinOp)
    ensures
        binary_operator(binary_symbol(op)) == op,
        forall|other: BinOp| #[trigger] binary_symbol(other) == binary_symbol(op) ==> other == op,
{
    reveal_strlit("+");
    reveal_strlit("-");
    reveal_strlit("*");
    reveal_strlit("&");
    reveal_strlit("|");
    reveal_strlit("^");
    reveal_strlit("==");
    reveal_strlit("!=");
    reveal_strlit("<");
    reveal_strlit(">");
    reveal_strlit("<=");
    reveal_strlit(">=");
    reveal_strlit("<<");
    reveal_strlit(">>");
    reveal_strlit("&&");
    reveal_strlit("||");
    assert("+"@.len() == 1);
    assert("+"@[0] == '+');
    assert("-"@.len() == 1);
    assert("-"@[0] == '-');
    assert("*"@.len() == 1);
    assert("*"@[0] == '*');
    assert("&"@.len() == 1);
    assert("&"@[0] == '&');
    assert("|"@.len() == 1);
    assert("|"@[0] == '|');
    assert("^"@.len() == 1);
    assert("^"@[0] == '^');
    assert("=="@.len() == 2);
    assert("=="@[0] == '=');
    assert("=="@[1] == '=');
    assert("!="@.len() == 2);
    assert("!="@[0] == '!');
    assert("!="@[1] == '=');
    assert("<"@.len() == 1);
    assert("<"@[0] == '<');
    assert(">"@.len() == 1);
    assert(">"@[0] == '>');
    assert("<="@.len() == 2);
    assert("<="@[0] == '<');
    assert("<="@[1] == '=');
    assert(">="@.len() == 2);
    assert(">="@[0] == '>');
    assert(">="@[1] == '=');
    assert("<<"@.len() == 2);
    assert("<<"@[0] == '<');
    assert("<<"@[1] == '<');
    assert(">>"@.len() == 2);
    assert(">>"@[0] == '>');
    assert(">>"@[1] == '>');
    assert("&&"@.len() == 2);
    assert("&&"@[0] == '&');
    assert("&&"@[1] == '&');
    assert("||"@.len() == 2);
    assert("||"@[0] == '|');
    assert("||"@[1] == '|');
    assert forall|other: BinOp| #[trigger] binary_symbol(other) == binary_symbol(op) implies other
        == op by {
        assert(binary_operator(binary_symbol(other)) == other);
    }
}

/// The symbol of a unary operator lowers to the operator.
pub proof fn unary_symbols_lower_back(op: UnaryOp)
    ensures
        unary_operator(unary_symbol(op)) == op,
{
    reveal_strlit("~");
    reveal_strlit("!");
    reveal_strlit("-");
    reveal_strlit("+");
    reveal_strlit("&");
    reveal_strlit("|");
    reveal_strlit("^");
    assert("~"@.len() == 1);
    assert("~"@[0] == '~');
    assert("!"@.len() == 1);
    assert("!"@[0] == '!');
    assert("-"@.len() == 1);
    assert("-"@[0] == '-');
    assert("+"@.len() == 1);
    assert("+"@[0] == '+');
    assert("&"@.len() == 1);
    assert("&"@[0] == '&');
    assert("|"@.len() == 1);
    assert("|"@[0] == '|');
    assert("^"@.len() == 1);
    assert("^"@[0] == '^');
}

/// Each symbol of an operation and `=` together is the assignment by that operation.
pub proof fn compound_symbols_lower_back(op: BinOp)
    ensures
        op == BinOp::Add || op == BinOp::Sub || op == BinOp::Mul || op == BinOp::And || op
            == BinOp::Or || op == BinOp::Xor || op == BinOp::Shl || op == BinOp::Shr
            ==> compound_operator(binary_symbol(op) + "="@) == Some(op),
{
    reveal_strlit("+=");
    reveal_strlit("-=");
    reveal_strlit("*=");
    reveal_strlit("&=");
    reveal_strlit("|=");
    reveal_strlit("^=");
    reveal_strlit("<<=");
    reveal_strlit(">>=");
    reveal_strlit("=");
    reveal_strlit("+");
    reveal_strlit("-");
    reveal_strlit("*");
    reveal_strlit("&");
    reveal_strlit("|");
    reveal_strlit("^");
    reveal_strlit("<<");
    reveal_strlit(">>");
    assert("+"@ + "="@ =~= "+="@);
    assert("-"@ + "="@ =~= "-="@);
    assert("*"@ + "="@ =~= "*="@);
    assert("&"@ + "="@ =~= "&="@);
    assert("|"@ + "="@ =~= "|="@);
    assert("^"@ + "="@ =~= "^="@);
    assert("<<"@ + "="@ =~= "<<="@);
    assert(">>"@ + "="@ =~= ">>="@);
    assert("+="@.len() == 2);
    assert("+="@[0] == '+');
    assert("+="@[1] == '=');
    assert("-="@.len() == 2);
    assert("-="@[0] == '-');
    assert("-="@[1] == '=');
    assert("*="@.len() == 2);
    assert("*="@[0] == '*');
    assert("*="@[1] == '=');
    assert("&="@.len() == 2);
    assert("&="@[0] == '&');
    assert("&="@[1] == '=');
    assert("|="@.len() == 2);
    assert("|="@[0] == '|');
    assert("|="@[1] == '=');
    assert("^="@.len() == 2);
    assert("^="@[0] == '^');
    assert("^="@[1] == '=');
    assert("<<="@.len() == 3);
    assert("<<="@[0] == '<');
    assert("<<="@[1] == '<');
    assert("<<="@[2] == '=');
    assert(">>="@.len() == 3);
    assert(">>="@[0] == '>');
    assert(">>="@[1] == '>');
    assert(">>="@[2] == '=');
}

/// Each net keyword lowers to its kind; `tri`, `triand` and `trior` are other names of
/// `wire`, `wand` and `wor`.
pub proof fn net_keywords_lower_back(kind: NetKind)
    ensures
        net_keyword(net_word(kind)) == Some(kind),
        net_keyword("tri"@) == Some(NetKind::Wire),
        net_keyword("triand"@) == Some(NetKind::Wand),
        net_keyword("trior"@) == Some(NetKind::Wor),
{
    reveal_strlit("wire");
    reveal_strlit("wand");
    reveal_strlit("wor");
    reveal_strlit("tri0");
    reveal_strlit("tri1");
    reveal_strlit("supply0");
    reveal_strlit("supply1");
    reveal_strlit("tri");
    reveal_strlit("triand");
    reveal_strlit("trior");
    assert("wire"@.len() == 4);
    assert("wire"@[0] == 'w');
    assert("wire"@[1] == 'i');
    assert("wire"@[2] == 'r');
    assert("wire"@[3] == 'e');
    assert("wand"@.len() == 4);
    assert("wand"@[0] == 'w');
    assert("wand"@[1] == 'a');
    assert("wand"@[2] == 'n');
    assert("wand"@[3] == 'd');
    assert("wor"@.len() == 3);
    assert("wor"@[0] == 'w');
    assert("wor"@[1] == 'o');
    assert("wor"@[2] == 'r');
    assert("tri0"@.len() == 4);
    assert("tri0"@[0] == 't');
    assert("tri0"@[1] == 'r');
    assert("tri0"@[2] == 'i');
    assert("tri0"@[3] == '0');
    assert("tri1"@.len() == 4);
    assert("tri1"@[0] == 't');
    assert("tri1"@[1] == 'r');
    assert("tri1"@[2] == 'i');
    assert("tri1"@[3] == '1');
    assert("supply0"@.len() == 7);
    assert("supply0"@[0] == 's');
    assert("supply0"@[1] == 'u');
    assert("supply0"@[2] == 'p');
    assert("supply0"@[3] == 'p');
    assert("supply0"@[4] == 'l');
    assert("supply0"@[5] == 'y');
    assert("supply0"@[6] == '0');
    assert("supply1"@.len() == 7);
    assert("supply1"@[0] == 's');
    assert("supply1"@[1] == 'u');
    assert("supply1"@[2] == 'p');
    assert("supply1"@[3] == 'p');
    assert("supply1"@[4] == 'l');
    assert("supply1"@[5] == 'y');
    assert("supply1"@[6] == '1');
    assert("tri"@.len() == 3);
    assert("tri"@[0] == 't');
    assert("tri"@[1] == 'r');
    assert("tri"@[2] == 'i');
    assert("triand"@.len() == 6);
    assert("triand"@[0] == 't');
    assert("triand"@[1] == 'r');
    assert("triand"@[2] == 'i');
    assert("triand"@[3] == 'a');
    assert("triand"@[4] == 'n');
    assert("triand"@[5] == 'd');
    assert("trior"@.len() == 5);
    assert("trior"@[0] == 't');
    assert("trior"@[1] == 'r');
    assert("trior"@[2] == 'i');
    assert("trior"@[3] == 'o');
    assert("trior"@[4] == 'r');
}

/// How a kind of net is written.
pub open spec fn net_word(kind: NetKind) -> Seq<char> {
    match kind {
        NetKind::Wire => "wire"@,
        NetKind::Wand => "wand"@,
        NetKind::Wor => "wor"@,
        NetKind::Tri0 => "tri0"@,
        NetKind::Tri1 => "tri1"@,
        NetKind::Supply0 => "supply0"@,
        NetKind::Supply1 => "supply1"@,
    }
}

/// How a strength is written.
pub open spec fn strength_word(level: StrengthLevel) -> Seq<char> {
    match level {
        StrengthLevel::Supply => "supply"@,
        StrengthLevel::Strong => "strong"@,
        StrengthLevel::Pull => "pull"@,
        StrengthLevel::Weak => "weak"@,
        StrengthLevel::HighZ => "highz"@,
    }
}

/// A strength and `0` is that strength of a zero, a strength and `1` that of a one.
pub proof fn strength_words_lower_back(level: StrengthLevel)
    ensures
        keyword_level(strength_word(level) + "0"@) == Some((level, false)),
        keyword_level(strength_word(level) + "1"@) == Some((level, true)),
{
    reveal_strlit("supply");
    reveal_strlit("strong");
    reveal_strlit("pull");
    reveal_strlit("weak");
    reveal_strlit("highz");
    reveal_strlit("0");
    reveal_strlit("1");
    reveal_strlit("supply0");
    reveal_strlit("supply1");
    reveal_strlit("strong0");
    reveal_strlit("strong1");
    reveal_strlit("pull0");
    reveal_strlit("pull1");
    reveal_strlit("weak0");
    reveal_strlit("weak1");
    reveal_strlit("highz0");
    reveal_strlit("highz1");
    assert("supply"@ + "0"@ =~= "supply0"@);
    assert("supply"@ + "1"@ =~= "supply1"@);
    assert("strong"@ + "0"@ =~= "strong0"@);
    assert("strong"@ + "1"@ =~= "strong1"@);
    assert("pull"@ + "0"@ =~= "pull0"@);
    assert("pull"@ + "1"@ =~= "pull1"@);
    assert("weak"@ + "0"@ =~= "weak0"@);
    assert("weak"@ + "1"@ =~= "weak1"@);
    assert("highz"@ + "0"@ =~= "highz0"@);
    assert("highz"@ + "1"@ =~= "highz1"@);
    assert("supply0"@.len() == 7);
    assert("supply0"@[0] == 's');
    assert("supply0"@[1] == 'u');
    assert("supply0"@[2] == 'p');
    assert("supply0"@[3] == 'p');
    assert("supply0"@[4] == 'l');
    assert("supply0"@[5] == 'y');
    assert("supply0"@[6] == '0');
    assert("supply1"@.len() == 7);
    assert("supply1"@[0] == 's');
    assert("supply1"@[1] == 'u');
    assert("supply1"@[2] == 'p');
    assert("supply1"@[3] == 'p');
    assert("supply1"@[4] == 'l');
    assert("supply1"@[5] == 'y');
    assert("supply1"@[6] == '1');
    assert("strong0"@.len() == 7);
    assert("strong0"@[0] == 's');
    assert("strong0"@[1] == 't');
    assert("strong0"@[2] == 'r');
    assert("strong0"@[3] == 'o');
    assert("strong0"@[4] == 'n');
    assert("strong0"@[5] == 'g');
    assert("strong0"@[6] == '0');
    assert("strong1"@.len() == 7);
    assert("strong1"@[0] == 's');
    assert("strong1"@[1] == 't');
    assert("strong1"@[2] == 'r');
    assert("strong1"@[3] == 'o');
    assert("strong1"@[4] == 'n');
    assert("strong1"@[5] == 'g');
    assert("strong1"@[6] == '1');
    assert("pull0"@.len() == 5);
    assert("pull0"@[0] == 'p');
    assert("pull0"@[1] == 'u');
    assert("pull0"@[2] == 'l');
    assert("pull0"@[3] == 'l');
    assert("pull0"@[4] == '0');
    assert("pull1"@.len() == 5);
    assert("pull1"@[0] == 'p');
    assert("pull1"@[1] == 'u');
    assert("pull1"@[2] == 'l');
    assert("pull1"@[3] == 'l');
    assert("pull1"@[4] == '1');
    assert("weak0"@.len() == 5);
    assert("weak0"@[0] == 'w');
    assert("weak0"@[1] == 'e');
    assert("weak0"@[2] == 'a');
    assert("weak0"@[3] == 'k');
    assert("weak0"@[4] == '0');
    assert("weak1"@.len() == 5);
    assert("weak1"@[0] == 'w');
    assert("weak1"@[1] == 'e');
    assert("weak1"@[2] == 'a');
    assert("weak1"@[3] == 'k');
    assert("weak1"@[4] == '1');
    assert("highz0"@.len() == 6);
    assert("highz0"@[0] == 'h');
    assert("highz0"@[1] == 'i');
    assert("highz0"@[2] == 'g');
    assert("highz0"@[3] == 'h');
    assert("highz0"@[4] == 'z');
    assert("highz0"@[5] == '0');
    assert("highz1"@.len() == 6);
    assert("highz1"@[0] == 'h');
    assert("highz1"@[1] == 'i');
    assert("highz1"@[2] == 'g');
    assert("highz1"@[3] == 'h');
    assert("highz1"@[4] == 'z');
    assert("highz1"@[5] == '1');
}

/// The words before a block, an event, a jump and behind a fork lower to what they say.
pub proof fn keywords_lower_back(n: NodeV, word: Seq<char>)
    requires
        n.kids.len() > 0,
        n.kids[0].tag == word,
    ensures
        word == "always"@ ==> always(n).kind == AlwaysKind::Plain,
        word == "always_comb"@ ==> always(n).kind == AlwaysKind::Comb,
        word == "always_ff"@ ==> always(n).kind == AlwaysKind::Ff,
        word == "always_latch"@ ==> always(n).kind == AlwaysKind::Latch,
        event_expr(n).edge == (if word == "posedge"@ {
            Edge::Posedge
        } else if word == "negedge"@ {
            Edge::Negedge
        } else {
            Edge::AnyChange
        }),
        word == "break"@ ==> jump(n) == StmtV::Break,
        word == "continue"@ ==> jump(n) == StmtV::Continue,
        word == "return"@ ==> jump(n) is Return,
{
    reveal_strlit("always");
    reveal_strlit("always_comb");
    reveal_strlit("always_ff");
    reveal_strlit("always_latch");
    reveal_strlit("posedge");
    reveal_strlit("negedge");
    reveal_strlit("break");
    reveal_strlit("continue");
    reveal_strlit("return");
    assert("always"@.len() == 6);
    assert("always_comb"@.len() == 11);
    assert("always_ff"@.len() == 9);
    assert("always_latch"@.len() == 12);
    assert("break"@.len() == 5);
    assert("continue"@.len() == 8);
    assert("return"@.len() == 6);
    assert("posedge"@[0] == 'p');
    assert("negedge"@[0] == 'n');
}

/// The keyword behind the branches of a fork says how it is joined.
pub proof fn fork_keywords_lower_back(ns: Seq<NodeV>, last: NodeV)
    ensures
        last.tag == "join"@ ==> join_of(ns.push(last)) == ForkJoin::All,
        last.tag == "join_any"@ ==> join_of(ns.push(last)) == ForkJoin::Any,
        last.tag == "join_none"@ ==> join_of(ns.push(last)) == ForkJoin::Detached,
{
    reveal_strlit("join");
    reveal_strlit("join_any");
    reveal_strlit("join_none");
    assert("join"@.len() == 4);
    assert("join_any"@.len() == 8);
    assert("join_none"@.len() == 9);
    assert(ns.push(last).last() == last);
}

/// The widths of the integer types, and which of them are signed.
pub proof fn integer_types_have_their_widths()
    ensures
        natural_width("byte"@) == 8 && signed_keyword("byte"@),
        natural_width("shortint"@) == 16 && signed_keyword("shortint"@),
        natural_width("int"@) == 32 && signed_keyword("int"@),
        natural_width("integer"@) == 32 && signed_keyword("integer"@),
        natural_width("longint"@) == 64 && signed_keyword("longint"@),
        natural_width("time"@) == 64 && !signed_keyword("time"@),
        natural_width("bit"@) == 1 && !signed_keyword("bit"@),
        natural_width("logic"@) == 1 && !signed_keyword("logic"@),
        natural_width("reg"@) == 1 && !signed_keyword("reg"@),
{
    reveal_strlit("byte");
    reveal_strlit("shortint");
    reveal_strlit("int");
    reveal_strlit("integer");
    reveal_strlit("longint");
    reveal_strlit("time");
    reveal_strlit("bit");
    reveal_strlit("logic");
    reveal_strlit("reg");
    assert("byte"@.len() == 4);
    assert("byte"@[0] == 'b');
    assert("byte"@[1] == 'y');
    assert("shortint"@.len() == 8);
    assert("shortint"@[0] == 's');
    assert("shortint"@[1] == 'h');
    assert("int"@.len() == 3);
    assert("int"@[0] == 'i');
    assert("int"@[1] == 'n');
    assert("integer"@.len() == 7);
    assert("integer"@[0] == 'i');
    assert("integer"@[1] == 'n');
    assert("longint"@.len() == 7);
    assert("longint"@[0] == 'l');
    assert("longint"@[1] == 'o');
    assert("time"@.len() == 4);
    assert("time"@[0] == 't');
    assert("time"@[1] == 'i');
    assert("bit"@.len() == 3);
    assert("bit"@[0] == 'b');
    assert("bit"@[1] == 'i');
    assert("logic"@.len() == 5);
    assert("logic"@[0] == 'l');
    assert("logic"@[1] == 'o');
    assert("reg"@.len() == 3);
    assert("reg"@[0] == 'r');
    assert("reg"@[1] == 'e');
}

/// How the method of a collection is written.
pub open spec fn collection_word(op: CollOp) -> Seq<char> {
    match op {
        CollOp::PushBack => "push_back"@,
        CollOp::PushFront => "push_front"@,
        CollOp::PopBack => "pop_back"@,
        CollOp::PopFront => "pop_front"@,
        CollOp::Size => "size"@,
        CollOp::Insert => "insert"@,
        CollOp::Delete => "delete"@,
        CollOp::Exists => "exists"@,
        CollOp::Num => "num"@,
        CollOp::First => "first"@,
        CollOp::Last => "last"@,
        CollOp::Next => "next"@,
        CollOp::Prev => "prev"@,
    }
}

/// The name of a method of a collection calls that method.
pub proof fn collection_words_call_back(op: CollOp)
    ensures
        collection_method(collection_word(op)) == Some(op),
{
    reveal_strlit("push_back");
    reveal_strlit("push_front");
    reveal_strlit("pop_back");
    reveal_strlit("pop_front");
    reveal_strlit("size");
    reveal_strlit("insert");
    reveal_strlit("delete");
    reveal_strlit("exists");
    reveal_strlit("num");
    reveal_strlit("first");
    reveal_strlit("last");
    reveal_strlit("next");
    reveal_strlit("prev");
    assert("push_back"@.len() == 9);
    assert("push_back"@[0] == 'p');
    assert("push_back"@[2] == 's');
    assert("push_back"@[5] == 'b');
    assert("push_front"@.len() == 10);
    assert("push_front"@[0] == 'p');
    assert("push_front"@[2] == 's');
    assert("push_front"@[5] == 'f');
    assert("pop_back"@.len() == 8);
    assert("pop_back"@[0] == 'p');
    assert("pop_back"@[2] == 'p');
    assert("pop_back"@[5] == 'a');
    assert("pop_front"@.len() == 9);
    assert("pop_front"@[0] == 'p');
    assert("pop_front"@[2] == 'p');
    assert("pop_front"@[5] == 'r');
    assert("size"@.len() == 4);
    assert("size"@[0] == 's');
    assert("size"@[2] == 'z');
    assert("insert"@.len() == 6);
    assert("insert"@[0] == 'i');
    assert("insert"@[2] == 's');
    assert("delete"@.len() == 6);
    assert("delete"@[0] == 'd');
    assert("delete"@[2] == 'l');
    assert("exists"@.len() == 6);
    assert("exists"@[0] == 'e');
    assert("exists"@[2] == 'i');
    assert("num"@.len() == 3);
    assert("num"@[0] == 'n');
    assert("num"@[2] == 'm');
    assert("first"@.len() == 5);
    assert("first"@[0] == 'f');
    assert("first"@[2] == 'r');
    assert("last"@.len() == 4);
    assert("last"@[0] == 'l');
    assert("last"@[2] == 's');
    assert("next"@.len() == 4);
    assert("next"@[0] == 'n');
    assert("next"@[2] == 'x');
    assert("prev"@.len() == 4);
    assert("prev"@[0] == 'p');
    assert("prev"@[2] == 'e');
}

/// How a direction is written.
pub open spec fn direction_word(dir: PortDir) -> Seq<char> {
    match dir {
        PortDir::Input => "input"@,
        PortDir::Output => "output"@,
        PortDir::Inout => "inout"@,
        PortDir::Ref => "ref"@,
    }
}

/// A port with one direction word has that direction, and one without has the first.
pub proof fn direction_words_lower_back(n: NodeV, dir: PortDir)
    requires
        forall|other: PortDir|
            (#[trigger] found_deep(n, direction_word(other))) is Some ==> other == dir,
        dir != PortDir::Input ==> found_deep(n, direction_word(dir)) is Some,
    ensures
        direction(n) == dir,
{
    assert(found_deep(n, direction_word(PortDir::Output)) == found_deep(n, "output"@));
    assert(found_deep(n, direction_word(PortDir::Inout)) == found_deep(n, "inout"@));
    assert(found_deep(n, direction_word(PortDir::Ref)) == found_deep(n, "ref"@));
}

} // verus!
