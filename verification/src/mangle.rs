//! Names of specializations.
//!
//! A name is the class and its arguments joined by double underscores, as in
//! `queue__int__4`. Different arguments can join to one text, and a declared class can
//! have it for a name. Where it is taken, each text stands behind its length instead,
//! after more dollar signs than start any declared name.
use vstd::prelude::*;

use crate::message::text3;
use crate::mono_names::opt_view;
use crate::text::{all_digits, chars_of, decimal, decimal_round_trip, push_decimal, string_of};

verus! {

/// A character of a joined name.
pub open spec fn sanitized_char(c: char) -> char {
    if ('a' <= c <= 'z') || ('A' <= c <= 'Z') || ('0' <= c <= '9') || c == '_' {
        c
    } else {
        '_'
    }
}

/// A text with every character outside identifiers replaced by an underscore; a lone
/// underscore for no text.
pub open spec fn sanitized(s: Seq<char>) -> Seq<char> {
    if s.len() == 0 {
        seq!['_']
    } else {
        s.map_values(|c: char| sanitized_char(c))
    }
}

/// The text of an argument in a joined name; an underscore for none.
pub open spec fn part_text(p: Option<Seq<char>>) -> Seq<char> {
    match p {
        Some(v) => sanitized(v),
        None => seq!['_'],
    }
}

/// A class and its arguments, joined by double underscores.
pub open spec fn joined(base: Seq<char>, parts: Seq<Option<Seq<char>>>) -> Seq<char>
    decreases parts.len(),
{
    if parts.len() == 0 {
        base
    } else {
        joined(base, parts.drop_last()) + seq!['_', '_'] + part_text(parts.last())
    }
}

/// A text behind its length, or a mark for none.
pub open spec fn counted(p: Option<Seq<char>>) -> Seq<char> {
    match p {
        Some(v) => decimal(v.len()) + seq!['$'] + v,
        None => seq!['$'],
    }
}

/// Texts, each behind its length.
pub open spec fn all_counted(parts: Seq<Option<Seq<char>>>) -> Seq<char>
    decreases parts.len(),
{
    if parts.len() == 0 {
        Seq::empty()
    } else {
        counted(parts[0]) + all_counted(parts.drop_first())
    }
}

/// Dollar signs.
pub open spec fn dollars(n: nat) -> Seq<char> {
    Seq::new(n, |i: int| '$')
}

/// How many dollar signs start a text.
pub open spec fn lead(s: Seq<char>) -> nat
    decreases s.len(),
{
    if s.len() > 0 && s[0] == '$' {
        1 + lead(s.skip(1))
    } else {
        0
    }
}

/// A class and its arguments, each behind its length, after some dollar signs.
pub open spec fn counted_name(
    n: nat,
    base: Seq<char>,
    parts: Seq<Option<Seq<char>>>,
) -> Seq<char> {
    dollars(n) + (counted(Some(base)) + all_counted(parts))
}

/// The views of a list of arguments.
pub open spec fn part_views(s: Seq<Option<String>>) -> Seq<Option<Seq<char>>> {
    s.map_values(|p: Option<String>| opt_view(p))
}

/// A text with every character outside identifiers replaced.
fn sanitize(s: &String) -> (r: String)
    ensures
        r@ == sanitized(s@),
{
    let text: Vec<char> = chars_of(s.as_str());
    let mut out: Vec<char> = Vec::new();
    if text.len() == 0 {
        out.push('_');
        assert(out@ =~= seq!['_']);
        return string_of(out.as_slice());
    }
    let mut i: usize = 0;
    while i < text.len()
        invariant
            i <= text@.len(),
            out@ == text@.take(i as int).map_values(|c: char| sanitized_char(c)),
        decreases text@.len() - i,
    {
        let c: char = text[i];
        let keep: bool = ('a' <= c && c <= 'z') || ('A' <= c && c <= 'Z') || ('0' <= c && c <= '9')
            || c == '_';
        out.push(if keep { c } else { '_' });
        i = i + 1;
        assert(out@ =~= text@.take(i as int).map_values(|c: char| sanitized_char(c)));
    }
    assert(text@.take(i as int) =~= text@);
    string_of(out.as_slice())
}

/// How many dollar signs start a text.
pub fn lead_of(s: &String) -> (r: usize)
    ensures
        r == lead(s@),
{
    let text: Vec<char> = chars_of(s.as_str());
    let mut i: usize = 0;
    assert(text@.skip(0) =~= text@);
    while i < text.len() && text[i] == '$'
        invariant
            i <= text@.len(),
            lead(text@) == i + lead(text@.skip(i as int)),
        decreases text@.len() - i,
    {
        assert(text@.skip(i as int).skip(1) =~= text@.skip(i + 1));
        assert(text@.skip(i as int)[0] == text@[i as int]);
        i = i + 1;
    }
    assert(i < text@.len() ==> text@.skip(i as int)[0] == text@[i as int]);
    i
}

/// A class and its arguments, joined by double underscores.
pub fn join_parts(base: &String, parts: &Vec<Option<String>>) -> (r: String)
    ensures
        r@ == joined(base@, part_views(parts@)),
{
    let ghost all = part_views(parts@);
    let mut out: String = base.clone();
    let mut i: usize = 0;
    assert(all.take(0) =~= Seq::empty());
    while i < parts.len()
        invariant
            i <= parts@.len(),
            all == part_views(parts@),
            out@ == joined(base@, all.take(i as int)),
        decreases parts@.len() - i,
    {
        let ghost before = out@;
        let ghost upto = all.take(i + 1);
        assert(upto.drop_last() =~= all.take(i as int));
        assert(upto.last() == opt_view(parts@[i as int]));
        match &parts[i] {
            Some(v) => {
                out = text3(out.as_str(), "__", sanitize(v).as_str());
            },
            None => {
                out = text3(out.as_str(), "__", "_");
            },
        }
        proof {
            reveal_strlit("__");
            reveal_strlit("_");
            assert("__"@ =~= seq!['_', '_']);
            assert("_"@ =~= seq!['_']);
            assert(out@ =~= before + seq!['_', '_'] + part_text(upto.last()));
        }
        i = i + 1;
    }
    assert(all.take(i as int) =~= all);
    out
}

/// A class and its arguments, each behind its length, after one more dollar sign than
/// is given.
pub fn count_parts(few: usize, base: &String, parts: &Vec<Option<String>>) -> (r: String)
    ensures
        r@ == counted_name(few as nat + 1, base@, part_views(parts@)),
{
    let ghost all = part_views(parts@);
    let ghost n = few as nat + 1;
    let mut out: String = "$".to_string();
    let mut k: usize = 0;
    proof {
        reveal_strlit("$");
    }
    assert(out@ =~= dollars(1));
    while k < few
        invariant
            k <= few,
            out@ == dollars(k as nat + 1),
        decreases few - k,
    {
        out.push('$');
        k = k + 1;
        assert(out@ =~= dollars(k as nat + 1));
    }
    push_decimal(&mut out, chars_of(base.as_str()).len() as u64);
    out = text3(out.as_str(), "$", base.as_str());
    proof {
        reveal_strlit("$");
        assert("$"@ =~= seq!['$']);
        assert(out@ =~= dollars(n) + counted(Some(base@)));
    }
    let mut i: usize = 0;
    assert(all.skip(0) =~= all);
    assert(out@ + all_counted(all.skip(0)) =~= counted_name(n, base@, all));
    while i < parts.len()
        invariant
            i <= parts@.len(),
            all == part_views(parts@),
            out@ + all_counted(all.skip(i as int)) == counted_name(n, base@, all),
        decreases parts@.len() - i,
    {
        let ghost before = out@;
        let ghost rest = all.skip(i as int);
        assert(rest[0] == opt_view(parts@[i as int]));
        assert(rest.drop_first() =~= all.skip(i + 1));
        if let Some(v) = &parts[i] {
            push_decimal(&mut out, chars_of(v.as_str()).len() as u64);
            out = text3(out.as_str(), "$", v.as_str());
        } else {
            out.push('$');
        }
        proof {
            reveal_strlit("$");
            assert("$"@ =~= seq!['$']);
            assert(out@ =~= before + counted(rest[0]));
            assert(out@ + all_counted(rest.drop_first()) =~= before + all_counted(rest));
        }
        i = i + 1;
    }
    assert(all.skip(i as int) =~= Seq::empty());
    assert(out@ =~= out@ + all_counted(all.skip(i as int)));
    out
}

// ---- what a name tells --------------------------------------------------------------

/// A text behind its length can be told from what follows it.
proof fn lemma_counted(p: Option<Seq<char>>, q: Option<Seq<char>>, a: Seq<char>, b: Seq<char>)
    requires
        counted(p) + a == counted(q) + b,
    ensures
        p == q,
        a == b,
{
    let s = counted(p) + a;
    let t = counted(q) + b;
    if let Some(v) = p {
        decimal_round_trip(v.len());
    }
    if let Some(w) = q {
        decimal_round_trip(w.len());
    }
    match (p, q) {
        (Some(v), Some(w)) => {
            let m = decimal(v.len());
            let n = decimal(w.len());
            assert(all_digits(m) && all_digits(n));
            assert(s[m.len() as int] == '$');
            assert(t[n.len() as int] == '$');
            if m.len() < n.len() {
                assert(t[m.len() as int] == n[m.len() as int]);
                assert(false);
            }
            if n.len() < m.len() {
                assert(s[n.len() as int] == m[n.len() as int]);
                assert(false);
            }
            assert(m =~= s.take(m.len() as int));
            assert(n =~= t.take(m.len() as int));
            assert(v.len() == w.len());
            assert(v =~= s.subrange(m.len() as int + 1, m.len() as int + 1 + v.len()));
            assert(w =~= t.subrange(m.len() as int + 1, m.len() as int + 1 + v.len()));
            assert(a =~= s.skip(m.len() as int + 1 + v.len()));
            assert(b =~= t.skip(m.len() as int + 1 + v.len()));
        },
        (Some(v), None) => {
            assert(s[0] == decimal(v.len())[0]);
            assert(t[0] == '$');
            assert(false);
        },
        (None, Some(w)) => {
            assert(t[0] == decimal(w.len())[0]);
            assert(s[0] == '$');
            assert(false);
        },
        (None, None) => {
            assert(a =~= s.skip(1));
            assert(b =~= t.skip(1));
        },
    }
}

/// Texts behind their lengths that read the same are the same.
proof fn lemma_all_counted(p: Seq<Option<Seq<char>>>, q: Seq<Option<Seq<char>>>)
    requires
        all_counted(p) == all_counted(q),
    ensures
        p == q,
    decreases p.len(),
{
    if p.len() > 0 && q.len() > 0 {
        lemma_counted(p[0], q[0], all_counted(p.drop_first()), all_counted(q.drop_first()));
        lemma_all_counted(p.drop_first(), q.drop_first());
        assert(p =~= seq![p[0]] + p.drop_first());
        assert(q =~= seq![q[0]] + q.drop_first());
    } else {
        if p.len() > 0 {
            lemma_some_counted(p);
        }
        if q.len() > 0 {
            lemma_some_counted(q);
        }
        assert(p =~= q);
    }
}

proof fn lemma_some_counted(p: Seq<Option<Seq<char>>>)
    requires
        p.len() > 0,
    ensures
        all_counted(p).len() > 0,
{
    assert(counted(p[0]).len() > 0);
}

/// A counted name tells the class and its arguments.
pub proof fn counted_names_tell_arguments(
    n: nat,
    base: Seq<char>,
    parts: Seq<Option<Seq<char>>>,
    other: Seq<char>,
    others: Seq<Option<Seq<char>>>,
)
    requires
        counted_name(n, base, parts) == counted_name(n, other, others),
    ensures
        base == other,
        parts == others,
{
    let x = counted_name(n, base, parts);
    let y = counted_name(n, other, others);
    assert(counted(Some(base)) + all_counted(parts) =~= x.skip(n as int));
    assert(counted(Some(other)) + all_counted(others) =~= y.skip(n as int));
    lemma_counted(Some(base), Some(other), all_counted(parts), all_counted(others));
    lemma_all_counted(parts, others);
}

proof fn lemma_lead(n: nat, rest: Seq<char>)
    requires
        rest.len() > 0,
        rest[0] != '$',
    ensures
        lead(dollars(n) + rest) == n,
    decreases n,
{
    let s = dollars(n) + rest;
    if n == 0 {
        assert(s =~= rest);
    } else {
        lemma_lead((n - 1) as nat, rest);
        assert(s.skip(1) =~= dollars((n - 1) as nat) + rest);
        assert(s[0] == '$');
    }
}

/// A counted name starts with its dollar signs and no more.
pub proof fn lemma_counted_lead(n: nat, base: Seq<char>, parts: Seq<Option<Seq<char>>>)
    ensures
        lead(counted_name(n, base, parts)) == n,
{
    decimal_round_trip(base.len());
    let rest = counted(Some(base)) + all_counted(parts);
    assert(rest[0] == decimal(base.len())[0]);
    lemma_lead(n, rest);
}

proof fn lemma_lead_kept(s: Seq<char>, rest: Seq<char>)
    requires
        rest.len() > 0,
        rest[0] != '$',
    ensures
        lead(s + rest) == lead(s),
    decreases s.len(),
{
    if s.len() == 0 {
        assert(s + rest =~= rest);
    } else {
        assert((s + rest)[0] == s[0]);
        assert((s + rest).skip(1) =~= s.skip(1) + rest);
        lemma_lead_kept(s.skip(1), rest);
    }
}

/// A joined name starts with as many dollar signs as its class.
pub proof fn lemma_joined_lead(base: Seq<char>, parts: Seq<Option<Seq<char>>>)
    ensures
        lead(joined(base, parts)) == lead(base),
    decreases parts.len(),
{
    if parts.len() > 0 {
        lemma_joined_lead(base, parts.drop_last());
        let before = joined(base, parts.drop_last());
        let rest = seq!['_', '_'] + part_text(parts.last());
        lemma_lead_kept(before, rest);
        assert(joined(base, parts) =~= before + rest);
    }
}

} // verus!
