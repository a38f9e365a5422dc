//! Laws of the accepted words: what a list accepts is what the rest of the library knows.
use vstd::prelude::*;

use crate::ast::{BinOp, UnaryOp};
use crate::ast_model::ExprV;
use crate::drive::keyword_level;
use crate::lower_module::net_keyword;
use crate::lower_types::{binary_operator, unary_operator};
use crate::stmt_check::{system_function, system_task};
use crate::strength::strength_keyword;
use crate::subset::{listed, Place};
use crate::symbol_laws::{
    binary_symbol, binary_symbols_lower_back, unary_symbol, unary_symbols_lower_back,
};

verus! {

/// The accepted symbols are those of the operators, and each lowers to the operator that it
/// is the symbol of.
pub proof fn accepted_symbols_are_operators(t: Seq<char>, op: BinOp, un: UnaryOp)
    ensures
        listed(Place::BinarySymbol, binary_symbol(op)),
        listed(Place::BinarySymbol, t) ==> binary_symbol(binary_operator(t)) == t,
        listed(Place::UnarySymbol, unary_symbol(un)),
        listed(Place::UnarySymbol, t) ==> unary_symbol(unary_operator(t)) == t,
{
    binary_symbols_lower_back(BinOp::Add);
    binary_symbols_lower_back(BinOp::Sub);
    binary_symbols_lower_back(BinOp::Mul);
    binary_symbols_lower_back(BinOp::And);
    binary_symbols_lower_back(BinOp::Or);
    binary_symbols_lower_back(BinOp::Xor);
    binary_symbols_lower_back(BinOp::Eq);
    binary_symbols_lower_back(BinOp::Neq);
    binary_symbols_lower_back(BinOp::Lt);
    binary_symbols_lower_back(BinOp::Gt);
    binary_symbols_lower_back(BinOp::Le);
    binary_symbols_lower_back(BinOp::Ge);
    binary_symbols_lower_back(BinOp::Shl);
    binary_symbols_lower_back(BinOp::Shr);
    binary_symbols_lower_back(BinOp::LogAnd);
    binary_symbols_lower_back(BinOp::LogOr);
    unary_symbols_lower_back(UnaryOp::BitNot);
    unary_symbols_lower_back(UnaryOp::LogNot);
    unary_symbols_lower_back(UnaryOp::Neg);
    unary_symbols_lower_back(UnaryOp::Plus);
    unary_symbols_lower_back(UnaryOp::ReduceAnd);
    unary_symbols_lower_back(UnaryOp::ReduceOr);
    unary_symbols_lower_back(UnaryOp::ReduceXor);
}

/// The accepted net types are the keywords of the kinds of nets.
pub proof fn accepted_net_types_are_kinds(t: Seq<char>)
    ensures
        listed(Place::NetType, t) <==> net_keyword(t) is Some,
        listed(Place::ResolvedNet, t) <==> net_keyword(t) is Some && t != "wire"@,
{
    reveal_strlit("wire");
    reveal_strlit("tri");
    reveal_strlit("wand");
    reveal_strlit("triand");
    reveal_strlit("wor");
    reveal_strlit("trior");
    reveal_strlit("tri0");
    reveal_strlit("tri1");
    reveal_strlit("supply0");
    reveal_strlit("supply1");
    assert("wire"@.len() == 4 && "wire"@[1] == 'i');
    assert("wand"@.len() == 4 && "wand"@[1] == 'a');
    assert("tri0"@.len() == 4 && "tri0"@[1] == 'r');
    assert("tri1"@.len() == 4 && "tri1"@[1] == 'r');
    assert("tri"@.len() == 3 && "wor"@.len() == 3 && "triand"@.len() == 6 && "trior"@.len() == 5);
    assert("supply0"@.len() == 7 && "supply1"@.len() == 7);
}

/// The strength keywords are the words that stand for a strength.
pub proof fn strength_keywords_are_strengths(t: Seq<char>)
    ensures
        strength_keyword(t) <==> keyword_level(t) is Some,
        strength_keyword(t) ==> listed(Place::StrengthToken, t),
{
}

/// The accepted system calls are those that are a system function or a system task for some
/// arguments.
pub proof fn accepted_system_calls_are_known(t: Seq<char>)
    ensures
        listed(Place::SystemCall, t) <==> (exists|n: nat| #[trigger] system_function(t, n)) || (exists|
            args: Seq<ExprV>,
        | #[trigger] system_task(t, args)),
{
    let some = seq![ExprV::Ref(Seq::empty())];
    let two = seq![ExprV::Null, ExprV::Null];
    assert(some[0] is Ref && some.len() == 1 && two.len() == 2);
    if listed(Place::SystemCall, t) {
        if t == "$display"@ || t == "$write"@ || t == "$swrite"@ || t == "$sformat"@ {
            assert(system_task(t, some));
        } else if t == "$cast"@ {
            lemma_cast();
            assert(system_task(t, two));
        } else if t == "$typename"@ {
            lemma_cast();
            assert(system_function(t, 1));
        } else {
            assert(system_function(t, 0));
        }
    }
    if exists|n: nat| #[trigger] system_function(t, n) {
        let n = choose|n: nat| #[trigger] system_function(t, n);
        assert(system_function(t, n));
    }
    if exists|args: Seq<ExprV>| #[trigger] system_task(t, args) {
        let args = choose|args: Seq<ExprV>| #[trigger] system_task(t, args);
        assert(system_task(t, args));
    }
}

proof fn lemma_cast()
    ensures
        "$cast"@ != "$display"@ && "$cast"@ != "$write"@ && "$cast"@ != "$swrite"@ && "$cast"@
            != "$sformat"@,
        "$typename"@ != "$sformatf"@ && "$typename"@ != "$psprintf"@ && "$typename"@
            != "$realtime"@ && "$typename"@ != "$time"@ && "$typename"@ != "$stime"@,
{
    reveal_strlit("$cast");
    reveal_strlit("$display");
    reveal_strlit("$write");
    reveal_strlit("$swrite");
    reveal_strlit("$sformat");
    reveal_strlit("$typename");
    reveal_strlit("$sformatf");
    reveal_strlit("$psprintf");
    reveal_strlit("$realtime");
    reveal_strlit("$time");
    reveal_strlit("$stime");
    assert("$cast"@[1] == 'c' && "$cast"@.len() == 5);
    assert("$display"@.len() == 8 && "$write"@.len() == 6 && "$swrite"@.len() == 7);
    assert("$sformat"@.len() == 8);
    assert("$typename"@[1] == 't' && "$typename"@.len() == 9);
    assert("$sformatf"@[1] == 's' && "$psprintf"@[1] == 'p' && "$realtime"@[1] == 'r');
    assert("$time"@.len() == 5 && "$stime"@.len() == 6);
}

} // verus!
