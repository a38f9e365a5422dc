//! What preprocessing promises as a whole.
use vstd::prelude::*;

use crate::macros::{defined_macro, expanded, MacroMap, MAX_EXPAND_DEPTH};
use crate::preprocess::{
    cond_step, conditional, emitting, line_step, lines_from, preprocessed, source_lines, Cond,
    LookupText, Progress,
};
use crate::scan::{first_word, ident_len, ident_start, uncommented, Scan};
use crate::text::{pieces, replaced, split_join_round_trip, trimmed_start};

verus! {

/// Every source line yields exactly one piece of output, so line positions
/// outside inserted files survive.
pub proof fn each_line_yields_one_piece(
    table: Seq<LookupText>,
    open: Seq<usize>,
    st: Progress,
    cond: Seq<Cond>,
    lines: Seq<Seq<char>>,
    i: nat,
    path: Seq<char>,
)
    requires
        i <= lines.len(),
    ensures
        lines_from(table, open, st, cond, lines, i, path).1.len() == lines.len() - i,
    decreases lines.len() - i,
{
    if i < lines.len() {
        let (next, ncond, out) = line_step(
            table,
            open,
            Progress { line: i + 1, ..st },
            cond,
            lines[i as int],
            path,
        );
        each_line_yields_one_piece(table, open, next, ncond, lines, i + 1, path);
    }
}

/// A level emits only inside an emitting context and in the branch it took.
pub open spec fn cond_sound(c: Cond) -> bool {
    c.active ==> c.parent_active && c.taken
}

/// Conditional directives keep every open level sound.
pub proof fn conditionals_stay_sound(m: MacroMap, cond: Seq<Cond>, d: Seq<char>, rest: Seq<char>)
    requires
        forall|i: int| 0 <= i < cond.len() ==> cond_sound(#[trigger] cond[i]),
    ensures
        ({
            let next = cond_step(m, cond, d, rest);
            forall|i: int| 0 <= i < next.len() ==> cond_sound(#[trigger] next[i])
        }),
{
}

/// At most one branch of a chain emits: once a branch was taken, every later
/// `elsif` and `else` of the chain is silent.
pub proof fn first_branch_wins(m: MacroMap, cond: Seq<Cond>, d: Seq<char>, rest: Seq<char>)
    requires
        cond.len() > 0,
        cond.last().taken,
        d == "elsif"@ || d == "else"@,
    ensures
        !emitting(cond_step(m, cond, d, rest)),
        cond_step(m, cond, d, rest).last().taken,
{
    reveal_strlit("elsif");
    reveal_strlit("else");
    reveal_strlit("endif");
    reveal_strlit("ifdef");
    reveal_strlit("ifndef");
    assert("else"@.len() == 4 && "elsif"@.len() == 5 && "endif"@.len() == 5);
    assert("elsif"@[1] == 'l' && "endif"@[1] == 'n' && "ifdef"@[1] == 'f');
}

/// Inside a silent branch a line that is not a conditional directive changes
/// nothing and emits nothing.
pub proof fn silent_lines_do_nothing(
    table: Seq<LookupText>,
    open: Seq<usize>,
    st: Progress,
    cond: Seq<Cond>,
    line: Seq<char>,
    path: Seq<char>,
)
    requires
        !emitting(cond),
        ({
            let after = trimmed_start(line).skip(1);
            !conditional(after.take(ident_len(after) as int))
        }),
    ensures
        line_step(table, open, st, cond, line, path) == (st, cond, Seq::<char>::empty()),
{
}

/// Whether a line is a directive: what it is called and what follows.
pub open spec fn is_directive(line: Seq<char>, d: Seq<char>, rest: Seq<char>) -> bool {
    let stripped = trimmed_start(line);
    &&& stripped == seq!['`'] + d + rest
    &&& ident_len(d + rest) == d.len()
}

/// The words of conditionals differ.
proof fn lemma_words()
    ensures
        "ifdef"@ != "ifndef"@,
        "elsif"@ != "ifdef"@ && "elsif"@ != "ifndef"@,
        "else"@ != "ifdef"@ && "else"@ != "ifndef"@ && "else"@ != "elsif"@,
        "endif"@ != "ifdef"@ && "endif"@ != "ifndef"@ && "endif"@ != "elsif"@ && "endif"@
            != "else"@,
{
    reveal_strlit("elsif");
    reveal_strlit("else");
    reveal_strlit("endif");
    reveal_strlit("ifdef");
    reveal_strlit("ifndef");
    assert("else"@.len() == 4 && "elsif"@.len() == 5 && "endif"@.len() == 5);
    assert("ifdef"@.len() == 5 && "ifndef"@.len() == 6);
    assert("elsif"@[1] == 'l' && "endif"@[1] == 'n' && "ifdef"@[1] == 'f');
}

/// The parts of a directive are found.
proof fn lemma_directive(line: Seq<char>, d: Seq<char>, rest: Seq<char>)
    requires
        is_directive(line, d, rest),
    ensures
        ({
            let after = trimmed_start(line).skip(1);
            let n = ident_len(after) as int;
            &&& trimmed_start(line).len() > 0 && trimmed_start(line)[0] == '`'
            &&& after.take(n) == d
            &&& after.skip(n) == rest
        }),
{
    let after = trimmed_start(line).skip(1);
    assert(after =~= d + rest);
    assert(after.take(d.len() as int) =~= d);
    assert(after.skip(d.len() as int) =~= rest);
}

/// Behind an `ifdef` lines are emitted where they were and the name is defined; behind an
/// `ifndef` where they were and it is not. The line itself emits nothing and changes no
/// definition.
pub proof fn ifdef_asks_for_a_definition(
    table: Seq<LookupText>,
    open: Seq<usize>,
    st: Progress,
    cond: Seq<Cond>,
    line: Seq<char>,
    rest: Seq<char>,
    path: Seq<char>,
)
    ensures
        ({
            let (next, ncond, out) = line_step(table, open, st, cond, line, path);
            let defined = st.macros.dom().contains(first_word(rest));
            &&& is_directive(line, "ifdef"@, rest) ==> {
                &&& emitting(ncond) <==> emitting(cond) && defined
                &&& ncond.len() == cond.len() + 1
                &&& next == st && out.len() == 0
            }
            &&& is_directive(line, "ifndef"@, rest) ==> {
                &&& emitting(ncond) <==> emitting(cond) && !defined
                &&& ncond.len() == cond.len() + 1
                &&& next == st && out.len() == 0
            }
        }),
{
    lemma_words();
    if is_directive(line, "ifdef"@, rest) {
        lemma_directive(line, "ifdef"@, rest);
    }
    if is_directive(line, "ifndef"@, rest) {
        lemma_directive(line, "ifndef"@, rest);
    }
}

/// The conditionals behind an opening directive, an `elsif`, an `else` and an `endif`, each
/// with the definitions that are then in force.
pub open spec fn chain_of(
    cond: Seq<Cond>,
    d: Seq<char>,
    first: (MacroMap, Seq<char>),
    second: (MacroMap, Seq<char>),
    third: (MacroMap, Seq<char>),
) -> (Seq<Cond>, Seq<Cond>, Seq<Cond>, Seq<Cond>) {
    let c1 = cond_step(first.0, cond, d, first.1);
    let c2 = cond_step(second.0, c1, "elsif"@, second.1);
    let c3 = cond_step(third.0, c2, "else"@, third.1);
    (c1, c2, c3, cond_step(third.0, c3, "endif"@, third.1))
}

/// Of a chain of branches within text that is emitted exactly one is emitted: the first
/// whose condition holds, or else the `else`. Within silent text none is. Behind the
/// `endif` all is as it was before the chain.
pub proof fn a_chain_takes_one_branch(
    cond: Seq<Cond>,
    d: Seq<char>,
    first: (MacroMap, Seq<char>),
    second: (MacroMap, Seq<char>),
    third: (MacroMap, Seq<char>),
)
    requires
        d == "ifdef"@ || d == "ifndef"@,
    ensures
        ({
            let (c1, c2, c3, c4) = chain_of(cond, d, first, second, third);
            let a = if d == "ifdef"@ {
                first.0.dom().contains(first_word(first.1))
            } else {
                !first.0.dom().contains(first_word(first.1))
            };
            let b = second.0.dom().contains(first_word(second.1));
            &&& emitting(c1) <==> emitting(cond) && a
            &&& emitting(c2) <==> emitting(cond) && !a && b
            &&& emitting(c3) <==> emitting(cond) && !a && !b
            &&& c4 == cond
        }),
{
    lemma_words();
    let (c1, c2, c3, c4) = chain_of(cond, d, first, second, third);
    assert(c1.drop_last() =~= cond);
    assert(c2.drop_last() =~= cond);
    assert(c3.drop_last() =~= cond);
}

/// Without an `elsif`, what an `else` emits is what the opening directive does not, and an
/// `endif` closes either branch.
pub proof fn an_else_is_the_other_branch(
    m: MacroMap,
    cond: Seq<Cond>,
    d: Seq<char>,
    name: Seq<char>,
    now: MacroMap,
    rest: Seq<char>,
)
    requires
        d == "ifdef"@ || d == "ifndef"@,
    ensures
        ({
            let c1 = cond_step(m, cond, d, name);
            let c2 = cond_step(now, c1, "else"@, rest);
            &&& emitting(cond) ==> emitting(c2) == !emitting(c1)
            &&& !emitting(cond) ==> !emitting(c1) && !emitting(c2)
            &&& cond_step(now, c1, "endif"@, rest) == cond
            &&& cond_step(now, c2, "endif"@, rest) == cond
        }),
{
    lemma_words();
    let c1 = cond_step(m, cond, d, name);
    let c2 = cond_step(now, c1, "else"@, rest);
    assert(c1.drop_last() =~= cond);
    assert(c2.drop_last() =~= cond);
}

/// Behind each `elsif` and `else` of a chain lines are emitted exactly if the chain stands
/// in emitted text, no branch was taken before, and, for an `elsif`, the name is defined;
/// the branch then counts as taken. A directive without a chain does nothing.
pub proof fn later_branches_ask_the_chain(
    m: MacroMap,
    cond: Seq<Cond>,
    rest: Seq<char>,
)
    ensures
        cond.len() > 0 ==> {
            let top = cond.last();
            let defined = m.dom().contains(first_word(rest));
            let by_name = cond_step(m, cond, "elsif"@, rest);
            let other = cond_step(m, cond, "else"@, rest);
            &&& emitting(by_name) <==> top.parent_active && !top.taken && defined
            &&& emitting(other) <==> top.parent_active && !top.taken
            &&& by_name.last().taken == (top.taken || emitting(by_name))
            &&& other.last().taken == (top.taken || emitting(other))
            &&& by_name.last().parent_active == top.parent_active
            &&& other.last().parent_active == top.parent_active
            &&& by_name.drop_last() == cond.drop_last()
            &&& other.drop_last() == cond.drop_last()
        },
        cond.len() == 0 ==> {
            &&& cond_step(m, cond, "elsif"@, rest) == cond
            &&& cond_step(m, cond, "else"@, rest) == cond
            &&& cond_step(m, cond, "endif"@, rest) == cond
        },
{
    lemma_words();
    if cond.len() > 0 {
        assert(cond_step(m, cond, "elsif"@, rest).drop_last() =~= cond.drop_last());
        assert(cond_step(m, cond, "else"@, rest).drop_last() =~= cond.drop_last());
    }
}

/// In emitted text a `define` puts its definition in force and an `undef` takes the one of
/// its name out; every other name keeps what it has. Both emit nothing.
pub proof fn definitions_are_put_in_force(
    table: Seq<LookupText>,
    open: Seq<usize>,
    st: Progress,
    cond: Seq<Cond>,
    line: Seq<char>,
    rest: Seq<char>,
    path: Seq<char>,
    name: Seq<char>,
)
    requires
        emitting(cond),
    ensures
        ({
            let (next, ncond, out) = line_step(table, open, st, cond, line, path);
            let was = st.macros.dom().contains(name);
            let is = next.macros.dom().contains(name);
            &&& is_directive(line, "define"@, rest) ==> {
                &&& ncond == cond && out.len() == 0
                &&& match defined_macro(rest) {
                    Some((defined, def)) => is == (was || name == defined) && (is
                        ==> next.macros[name] == (if name == defined {
                        def
                    } else {
                        st.macros[name]
                    })),
                    None => next.macros == st.macros,
                }
            }
            &&& is_directive(line, "undef"@, rest) ==> {
                &&& ncond == cond && out.len() == 0
                &&& is == (was && name != first_word(rest))
                &&& is ==> next.macros[name] == st.macros[name]
            }
        }),
{
    lemma_words();
    reveal_strlit("define");
    reveal_strlit("undef");
    reveal_strlit("elsif");
    reveal_strlit("else");
    reveal_strlit("endif");
    reveal_strlit("ifdef");
    reveal_strlit("ifndef");
    assert("define"@[0] == 'd' && "undef"@[0] == 'u');
    assert("elsif"@[0] == 'e' && "else"@[0] == 'e' && "endif"@[0] == 'e');
    assert("ifdef"@[0] == 'i' && "ifndef"@[0] == 'i');
    if is_directive(line, "define"@, rest) {
        lemma_directive(line, "define"@, rest);
    }
    if is_directive(line, "undef"@, rest) {
        lemma_directive(line, "undef"@, rest);
    }
}

/// A use of an object-like macro expands to its expanded body.
pub proof fn object_macro_use(
    m: MacroMap,
    file: Seq<char>,
    line: nat,
    name: Seq<char>,
    depth: nat,
)
    requires
        depth < MAX_EXPAND_DEPTH,
        name.len() > 0,
        ident_start(name[0]),
        ident_len(name) == name.len(),
        name != "__FILE__"@,
        name != "__LINE__"@,
        m.dom().contains(name),
        m[name].params is None,
    ensures
        expanded(m, file, line, seq!['`'] + name, false, depth) == expanded(
            m,
            file,
            line,
            m[name].body,
            false,
            depth + 1,
        ),
{
    let s = seq!['`'] + name;
    assert(s.skip(1) =~= name);
    assert(name.take(name.len() as int) =~= name);
    let rest = s.skip(1 + name.len() as int);
    assert(rest =~= Seq::<char>::empty());
    assert(expanded(m, file, line, rest, false, depth) == rest);
    let body = expanded(m, file, line, m[name].body, false, depth + 1);
    assert(body + rest =~= body);
}

/// Without a backtick there is nothing to expand.
pub proof fn text_without_uses_stays(
    m: MacroMap,
    file: Seq<char>,
    line: nat,
    s: Seq<char>,
    quoted: bool,
    depth: nat,
)
    requires
        !s.contains('`'),
    ensures
        expanded(m, file, line, s, quoted, depth) == s,
    decreases s.len(),
{
    if depth < MAX_EXPAND_DEPTH && s.len() > 0 {
        assert(s.contains(s[0]));
        assert(!s.skip(1).contains('`')) by {
            if s.skip(1).contains('`') {
                let i = choose|i: int| 0 <= i < s.skip(1).len() && s.skip(1)[i] == '`';
                assert(s[i + 1] == '`');
            }
        }
        text_without_uses_stays(m, file, line, s.skip(1), quoted, depth);
        text_without_uses_stays(m, file, line, s.skip(1), !quoted, depth);
        assert(seq![s[0]] + s.skip(1) =~= s);
    }
}

/// Text without any of the characters that preprocessing looks at.
pub open spec fn plain(s: Seq<char>) -> bool {
    forall|i: int|
        0 <= i < s.len() ==> s[i] != '`' && s[i] != '\\' && s[i] != '\r' && (#[trigger] s[i])
            != '/'
}

proof fn lemma_nothing_replaced(s: Seq<char>, pat: Seq<char>, with: Seq<char>)
    requires
        pat.len() > 0,
        forall|i: int| 0 <= i < s.len() ==> s[i] != pat[0],
    ensures
        replaced(s, pat, with) == s,
    decreases s.len(),
{
    if s.len() > 0 {
        assert(s[0] != pat[0]);
        assert forall|i: int| 0 <= i < s.drop_first().len() implies s.drop_first()[i] != pat[0] by {
            assert(s[i + 1] != pat[0]);
        }
        assert(!pat.is_prefix_of(s)) by {
            if pat.is_prefix_of(s) {
                assert(s.subrange(0, pat.len() as int)[0] == s[0]);
            }
        }
        lemma_nothing_replaced(s.drop_first(), pat, with);
        assert(seq![s[0]] + s.drop_first() =~= s);
    }
}

proof fn lemma_nothing_blanked(s: Seq<char>, quoted: bool)
    requires
        plain(s),
    ensures
        uncommented(
            s,
            if quoted {
                Scan::Quoted
            } else {
                Scan::Code
            },
        ) == s,
    decreases s.len(),
{
    if s.len() > 0 {
        assert(s[0] != '/' && s[0] != '\\');
        assert(plain(s.skip(1))) by {
            assert forall|i: int| 0 <= i < s.skip(1).len() implies s.skip(1)[i] != '`' && s.skip(
                1,
            )[i] != '\\' && s.skip(1)[i] != '\r' && (#[trigger] s.skip(1)[i]) != '/' by {
                assert(s[i + 1] != '/');
            }
        }
        lemma_nothing_blanked(s.skip(1), quoted);
        lemma_nothing_blanked(s.skip(1), !quoted);
        assert(seq![s[0]] + s.skip(1) =~= s);
    }
}

proof fn lemma_plain_pieces(s: Seq<char>, c: char)
    requires
        !s.contains('`'),
    ensures
        forall|i: int| 0 <= i < pieces(s, c).len() ==> !(#[trigger] pieces(s, c)[i]).contains('`'),
        pieces(s, c).len() >= 1,
    decreases s.len(),
{
    if s.len() > 0 {
        let t = s.drop_first();
        assert(!t.contains('`')) by {
            if t.contains('`') {
                let i = choose|i: int| 0 <= i < t.len() && t[i] == '`';
                assert(s[i + 1] == '`');
            }
        }
        lemma_plain_pieces(t, c);
        assert(s.contains(s[0]));
        let rest = pieces(t, c);
        assert forall|i: int| 0 <= i < pieces(s, c).len() implies !(#[trigger] pieces(
            s,
            c,
        )[i]).contains('`') by {
            let p = pieces(s, c)[i];
            if s[0] == c {
                if i > 0 {
                    assert(p == rest[i - 1]);
                }
            } else if i == 0 {
                if p.contains('`') {
                    let k = choose|k: int| 0 <= k < p.len() && p[k] == '`';
                    assert(k > 0);
                    assert(rest[0][k - 1] == '`');
                }
            }
        }
    }
}

proof fn lemma_trimmed_start_chars(s: Seq<char>)
    ensures
        trimmed_start(s).len() > 0 ==> s.contains(trimmed_start(s)[0]),
    decreases s.len(),
{
    if s.len() > 0 {
        lemma_trimmed_start_chars(s.drop_first());
        assert(s.contains(s[0]));
        let t = trimmed_start(s.drop_first());
        if t.len() > 0 {
            let i = choose|i: int| 0 <= i < s.drop_first().len() && s.drop_first()[i] == t[0];
            assert(s[i + 1] == t[0]);
        }
    }
}

proof fn lemma_plain_lines(
    table: Seq<LookupText>,
    open: Seq<usize>,
    st: Progress,
    lines: Seq<Seq<char>>,
    i: nat,
    path: Seq<char>,
)
    requires
        forall|k: int| 0 <= k < lines.len() ==> !(#[trigger] lines[k]).contains('`'),
        i <= lines.len(),
    ensures
        lines_from(table, open, st, Seq::empty(), lines, i, path).1 == lines.skip(i as int),
        lines_from(table, open, st, Seq::empty(), lines, i, path).0.macros == st.macros,
        lines_from(table, open, st, Seq::empty(), lines, i, path).0.missed == st.missed,
    decreases lines.len() - i,
{
    if i < lines.len() {
        let line = lines[i as int];
        let now = Progress { line: i + 1, ..st };
        lemma_trimmed_start_chars(line);
        text_without_uses_stays(now.macros, now.file, now.line, line, false, 0);
        assert(line_step(table, open, now, Seq::empty(), line, path) == (
            now,
            Seq::<Cond>::empty(),
            line,
        ));
        lemma_plain_lines(table, open, now, lines, i + 1, path);
        assert(seq![line] + lines.skip(i as int + 1) =~= lines.skip(i as int));
    } else {
        assert(lines.skip(i as int) =~= Seq::empty());
    }
}

/// Plain text comes out as it went in and leaves the definitions alone.
pub proof fn plain_text_is_kept(
    table: Seq<LookupText>,
    open: Seq<usize>,
    st: Progress,
    text: Seq<char>,
    path: Seq<char>,
)
    requires
        plain(text),
    ensures
        preprocessed(table, open, st, text, path).1 == text,
        preprocessed(table, open, st, text, path).0.macros == st.macros,
        preprocessed(table, open, st, text, path).0.missed == st.missed,
{
    reveal_strlit("\r\n");
    reveal_strlit("\r");
    reveal_strlit("\\\n");
    assert("\r\n"@[0] == '\r' && "\r"@[0] == '\r' && "\\\n"@[0] == '\\');
    lemma_nothing_replaced(text, "\r\n"@, "\n"@);
    lemma_nothing_replaced(text, "\r"@, "\n"@);
    lemma_nothing_replaced(text, "\\\n"@, " "@);
    lemma_nothing_blanked(text, false);
    let lines = source_lines(text);
    assert(lines == pieces(text, '\n'));
    assert(!text.contains('`')) by {
        if text.contains('`') {
            let i = choose|i: int| 0 <= i < text.len() && text[i] == '`';
            assert(text[i] != '/');
        }
    }
    lemma_plain_pieces(text, '\n');
    lemma_plain_lines(table, open, Progress { file: path, ..st }, lines, 0, path);
    assert(lines.skip(0) =~= lines);
    split_join_round_trip(text, '\n');
}

} // verus!
