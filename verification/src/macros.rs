//! Macro definitions and macro expansion.
use vstd::prelude::*;
use vstd::slice::slice_subrange;

use crate::scan::{
    find_matching_paren, ident_end, ident_len, ident_start, is_ident_start, lemma_ident_len,
    lemma_paren_close, paren_close, split_top_level, texts, top_pieces,
};
use crate::text::{
    copied, decimal, find_char, first_at, is_text, push_all, push_number, replace, replaced,
    same_chars, trim, trim_start, trimmed, trimmed_start,
};

verus! {

/// How deep macro bodies may expand into each other.
pub const MAX_EXPAND_DEPTH: usize = 64;

/// A macro parameter: its name and its default.
pub struct MacroParam {
    pub name: Vec<char>,
    pub default: Option<Vec<char>>,
}

/// A macro definition: object-like (no parameter list) or function-like.
pub struct Macro {
    pub params: Option<Vec<MacroParam>>,
    pub body: Vec<char>,
}

/// The name and the default of a parameter.
pub struct ParamText {
    pub name: Seq<char>,
    pub default: Option<Seq<char>>,
}

/// The parameters and the body of a definition.
pub struct MacroText {
    pub params: Option<Seq<ParamText>>,
    pub body: Seq<char>,
}

/// The definitions in force, by name.
pub type MacroMap = Map<Seq<char>, MacroText>;

impl View for MacroParam {
    type V = ParamText;

    open spec fn view(&self) -> ParamText {
        ParamText {
            name: self.name@,
            default: match self.default {
                Some(d) => Some(d@),
                None => None,
            },
        }
    }
}

/// The views of a parameter list.
pub open spec fn param_texts(v: Seq<MacroParam>) -> Seq<ParamText> {
    v.map_values(|p: MacroParam| p@)
}

impl View for Macro {
    type V = MacroText;

    open spec fn view(&self) -> MacroText {
        MacroText {
            params: match self.params {
                Some(p) => Some(param_texts(p@)),
                None => None,
            },
            body: self.body@,
        }
    }
}

/// One change of a definition: `None` takes the name out of force.
struct Change {
    name: Vec<char>,
    def: Option<Macro>,
}

/// The definitions in force, kept as the changes that led to them.
pub struct MacroTable {
    changes: Vec<Change>,
}

/// The definitions after a series of changes.
spec fn replayed(log: Seq<Change>) -> MacroMap
    decreases log.len(),
{
    if log.len() == 0 {
        Map::empty()
    } else {
        let before = replayed(log.drop_last());
        match log.last().def {
            Some(def) => before.insert(log.last().name@, def@),
            None => before.remove(log.last().name@),
        }
    }
}

impl View for MacroTable {
    type V = MacroMap;

    closed spec fn view(&self) -> MacroMap {
        replayed(self.changes@)
    }
}

impl MacroTable {
    /// No definitions.
    pub fn new() -> (r: MacroTable)
        ensures
            r@ == Map::<Seq<char>, MacroText>::empty(),
    {
        MacroTable { changes: Vec::new() }
    }

    /// The definition of a name, if one is in force.
    pub fn get(&self, name: &[char]) -> (r: Option<&Macro>)
        ensures
            match r {
                Some(def) => self@.dom().contains(name@) && self@[name@] == def@,
                None => !self@.dom().contains(name@),
            },
    {
        let mut i: usize = self.changes.len();
        assert(self.changes@.take(i as int) =~= self.changes@);
        while i > 0
            invariant
                i <= self.changes@.len(),
                self@.dom().contains(name@) == replayed(self.changes@.take(i as int)).dom().contains(
                    name@,
                ),
                self@[name@] == replayed(self.changes@.take(i as int))[name@] || !self@.dom().contains(
                    name@,
                ),
            decreases i,
        {
            i = i - 1;
            let ghost t = self.changes@.take(i + 1);
            assert(t.drop_last() =~= self.changes@.take(i as int));
            assert(t.last() == self.changes@[i as int]);
            if same_chars(self.changes[i].name.as_slice(), name) {
                return self.changes[i].def.as_ref();
            }
        }
        assert(self.changes@.take(0) =~= Seq::<Change>::empty());
        None
    }

    /// Put a definition in force.
    pub fn insert(&mut self, name: Vec<char>, def: Macro)
        ensures
            final(self)@ == old(self)@.insert(name@, def@),
    {
        let ghost before = self.changes@;
        self.changes.push(Change { name, def: Some(def) });
        assert(self.changes@.drop_last() =~= before);
    }

    /// Take a name out of force.
    pub fn remove(&mut self, name: Vec<char>)
        ensures
            final(self)@ == old(self)@.remove(name@),
    {
        let ghost before = self.changes@;
        self.changes.push(Change { name, def: None });
        assert(self.changes@.drop_last() =~= before);
    }
}

/// The parameter a piece of a parameter list declares: `name` or
/// `name = default`; none for a blank piece.
pub open spec fn declared_param(piece: Seq<char>) -> Option<ParamText> {
    let t = trimmed(piece);
    let e = first_at(t, '=', 0);
    if t.len() == 0 {
        None
    } else if e < t.len() {
        Some(ParamText { name: trimmed(t.take(e)), default: Some(trimmed(t.skip(e + 1))) })
    } else {
        Some(ParamText { name: t, default: None })
    }
}

/// The parameters the pieces of a parameter list declare.
pub open spec fn declared_params(pieces: Seq<Seq<char>>) -> Seq<ParamText>
    decreases pieces.len(),
{
    if pieces.len() == 0 {
        Seq::empty()
    } else {
        let before = declared_params(pieces.drop_last());
        match declared_param(pieces.last()) {
            Some(p) => before.push(p),
            None => before,
        }
    }
}

/// Read a macro parameter list.
fn parse_params(src: &[char]) -> (r: Vec<MacroParam>)
    ensures
        param_texts(r@) == declared_params(top_pieces(src@, ',', 0, false, Seq::empty())),
{
    let pieces: Vec<Vec<char>> = split_top_level(src, ',');
    let ghost all = texts(pieces@);
    let mut out: Vec<MacroParam> = Vec::new();
    let mut i: usize = 0;
    assert(param_texts(out@) =~= declared_params(all.take(0)));
    while i < pieces.len()
        invariant
            all == texts(pieces@),
            i <= pieces@.len(),
            param_texts(out@) == declared_params(all.take(i as int)),
        decreases pieces@.len() - i,
    {
        let ghost before = out@;
        proof {
            let next = all.take(i + 1);
            assert(next.drop_last() =~= all.take(i as int));
            assert(next.last() == pieces@[i as int]@);
        }
        let t: &[char] = trim(pieces[i].as_slice());
        let n: usize = t.len();
        if n > 0 {
            let e: usize = find_char(t, '=', 0);
            if e < n {
                assert(t@.subrange(0, e as int) =~= t@.take(e as int));
                assert(t@.subrange(e + 1, n as int) =~= t@.skip(e + 1));
                let name: Vec<char> = copied(trim(slice_subrange(t, 0, e)));
                let default: Vec<char> = copied(trim(slice_subrange(t, e + 1, n)));
                out.push(MacroParam { name, default: Some(default) });
            } else {
                out.push(MacroParam { name: copied(t), default: None });
            }
            assert(param_texts(out@) =~= param_texts(before).push(out@.last()@));
        }
        i = i + 1;
    }
    assert(all.take(i as int) =~= all);
    out
}

/// The name and the definition that follow a `define` directive, or none
/// without a name. A `(` right after the name starts a parameter list.
pub open spec fn defined_macro(rest: Seq<char>) -> Option<(Seq<char>, MacroText)> {
    let t = trimmed_start(rest);
    let n = ident_len(t) as int;
    let after = t.skip(n);
    if n == 0 {
        None
    } else if after.len() > 0 && after[0] == '(' && paren_close(after, 0, 0, false) is Some {
        let e = paren_close(after, 0, 0, false)->0;
        Some(
            (
                t.take(n),
                MacroText {
                    params: Some(
                        declared_params(
                            top_pieces(after.subrange(1, e), ',', 0, false, Seq::empty()),
                        ),
                    ),
                    body: trimmed(after.skip(e + 1)),
                },
            ),
        )
    } else {
        Some((t.take(n), MacroText { params: None, body: trimmed(after) }))
    }
}

/// Read what follows a `define` directive.
pub fn parse_define(rest: &[char]) -> (r: Option<(Vec<char>, Macro)>)
    ensures
        match r {
            Some((name, def)) => defined_macro(rest@) == Some((name@, def@)),
            None => defined_macro(rest@) is None,
        },
{
    let t: &[char] = trim_start(rest);
    let len: usize = t.len();
    assert(t@.skip(0) =~= t@);
    let n: usize = ident_end(t, 0);
    if n == 0 {
        return None;
    }
    assert(t@.subrange(0, n as int) =~= t@.take(n as int));
    assert(t@.subrange(n as int, len as int) =~= t@.skip(n as int));
    let name: Vec<char> = copied(slice_subrange(t, 0, n));
    let after: &[char] = slice_subrange(t, n, len);
    if after.len() > 0 && after[0] == '(' {
        if let Some(e) = find_matching_paren(after, 0) {
            assert(after@.subrange(e + 1, after@.len() as int) =~= after@.skip(e + 1));
            let params: Vec<MacroParam> = parse_params(slice_subrange(after, 1, e));
            let body: Vec<char> = copied(trim(slice_subrange(after, e + 1, after.len())));
            return Some((name, Macro { params: Some(params), body }));
        }
    }
    let body: Vec<char> = copied(trim(after));
    Some((name, Macro { params: None, body }))
}

/// What parameter `k` is bound to: its argument, or its default where the
/// argument is blank or missing.
pub open spec fn bound_text(p: ParamText, args: Seq<Seq<char>>, k: int) -> Seq<char> {
    if k < args.len() && trimmed(args[k]).len() > 0 {
        trimmed(args[k])
    } else {
        match p.default {
            Some(d) => d,
            None => Seq::empty(),
        }
    }
}

/// The binding of parameters to arguments; a repeated name takes its last
/// binding.
pub open spec fn bindings(params: Seq<ParamText>, args: Seq<Seq<char>>) -> Map<Seq<char>, Seq<char>>
    decreases params.len(),
{
    if params.len() == 0 {
        Map::empty()
    } else {
        bindings(params.drop_last(), args).insert(
            params.last().name,
            bound_text(params.last(), args, params.len() - 1),
        )
    }
}

/// A body with whole identifiers replaced by their bindings.
pub open spec fn substituted(s: Seq<char>, bound: Map<Seq<char>, Seq<char>>) -> Seq<char>
    decreases s.len(),
{
    if s.len() == 0 {
        s
    } else if ident_start(s[0]) {
        let n = ident_len(s) as int;
        let word = s.take(n);
        proof {
            lemma_ident_len(s);
        }
        (if bound.dom().contains(word) {
            bound[word]
        } else {
            word
        }) + substituted(s.skip(n), bound)
    } else {
        seq![s[0]] + substituted(s.skip(1), bound)
    }
}

/// The body of a function-like macro for the given arguments: parameters
/// substituted, then token pastes deleted.
pub open spec fn applied(mac: MacroText, args: Seq<Seq<char>>) -> Seq<char> {
    let params = match mac.params {
        Some(p) => p,
        None => Seq::empty(),
    };
    replaced(substituted(mac.body, bindings(params, args)), "``"@, ""@)
}

/// The text that parameter `k` of a list is bound to.
fn bind_one(params: &Vec<MacroParam>, args: &Vec<Vec<char>>, k: usize) -> (r: Vec<char>)
    requires
        k < params@.len(),
    ensures
        r@ == bound_text(params@[k as int]@, texts(args@), k as int),
{
    if k < args.len() {
        assert(texts(args@)[k as int] == args@[k as int]@);
        let a: &[char] = trim(args[k].as_slice());
        if a.len() > 0 {
            return copied(a);
        }
    }
    match &params[k].default {
        Some(d) => copied(d.as_slice()),
        None => Vec::new(),
    }
}

/// The binding of a name, looked up from the last parameter back.
fn lookup_binding(params: &Vec<MacroParam>, args: &Vec<Vec<char>>, name: &[char]) -> (r: Option<
    Vec<char>,
>)
    ensures
        ({
            let bound = bindings(param_texts(params@), texts(args@));
            match r {
                Some(v) => bound.dom().contains(name@) && bound[name@] == v@,
                None => !bound.dom().contains(name@),
            }
        }),
{
    let ghost all = param_texts(params@);
    let ghost bound = bindings(all, texts(args@));
    let mut i: usize = params.len();
    assert(all.take(i as int) =~= all);
    while i > 0
        invariant
            all == param_texts(params@),
            bound == bindings(all, texts(args@)),
            i <= params@.len(),
            bound.dom().contains(name@) == bindings(
                all.take(i as int),
                texts(args@),
            ).dom().contains(name@),
            bound.dom().contains(name@) ==> bound[name@] == bindings(
                all.take(i as int),
                texts(args@),
            )[name@],
        decreases i,
    {
        i = i - 1;
        let ghost t = all.take(i + 1);
        assert(t.drop_last() =~= all.take(i as int));
        assert(t.last() == params@[i as int]@);
        if same_chars(params[i].name.as_slice(), name) {
            return Some(bind_one(params, args, i));
        }
    }
    assert(all.take(0) =~= Seq::<ParamText>::empty());
    None
}

/// Whole-identifier substitution of macro parameters in a body.
fn substitute_params(body: &[char], params: &Vec<MacroParam>, args: &Vec<Vec<char>>) -> (r: Vec<char>)
    ensures
        r@ == substituted(body@, bindings(param_texts(params@), texts(args@))),
{
    let ghost bound = bindings(param_texts(params@), texts(args@));
    let n: usize = body.len();
    let mut out: Vec<char> = Vec::new();
    let mut i: usize = 0;
    assert(body@.skip(0) =~= body@);
    assert(out@ + substituted(body@.skip(0), bound) =~= substituted(body@, bound));
    while i < n
        invariant
            n == body@.len(),
            i <= n,
            bound == bindings(param_texts(params@), texts(args@)),
            out@ + substituted(body@.skip(i as int), bound) == substituted(body@, bound),
        decreases n - i,
    {
        let ghost rest = body@.skip(i as int);
        let ghost before = out@;
        assert(rest[0] == body@[i as int]);
        if is_ident_start(body[i]) {
            let j: usize = ident_end(body, i);
            assert(rest.take(j - i) =~= body@.subrange(i as int, j as int));
            assert(rest.skip(j - i) =~= body@.skip(j as int));
            let word: &[char] = slice_subrange(body, i, j);
            match lookup_binding(params, args, word) {
                Some(v) => push_all(&mut out, v.as_slice()),
                None => push_all(&mut out, word),
            }
            i = j;
        } else {
            assert(rest.skip(1) =~= body@.skip(i + 1));
            out.push(body[i]);
            i = i + 1;
        }
        proof {
            let emitted = out@.skip(before.len() as int);
            assert(out@ =~= before + emitted);
            assert(substituted(rest, bound) =~= emitted + substituted(body@.skip(i as int), bound));
            assert(out@ + substituted(body@.skip(i as int), bound) =~= before + (emitted
                + substituted(body@.skip(i as int), bound)));
        }
    }
    assert(substituted(body@.skip(i as int), bound) =~= Seq::<char>::empty());
    out
}

/// The body of a function-like macro for the given arguments.
fn apply_macro(params: &Vec<MacroParam>, body: &[char], args: &Vec<Vec<char>>) -> (r: Vec<char>)
    ensures
        r@ == applied(
            MacroText { params: Some(param_texts(params@)), body: body@ },
            texts(args@),
        ),
{
    let substituted: Vec<char> = substitute_params(body, params, args);
    proof {
        reveal_strlit("``");
    }
    replace(substituted.as_slice(), "``", "")
}

/// A file name as the inside of a string literal: backslashes and quotes
/// escaped.
pub open spec fn escaped(file: Seq<char>) -> Seq<char> {
    replaced(replaced(file, "\\"@, "\\\\"@), "\""@, "\\\""@)
}

/// The number of leading blanks and tabs.
pub open spec fn blank_len(s: Seq<char>) -> nat
    decreases s.len(),
{
    if s.len() > 0 && (s[0] == ' ' || s[0] == '\t') {
        1 + blank_len(s.skip(1))
    } else {
        0
    }
}

/// Where the argument list of a macro use closes, if one opens behind blanks.
pub open spec fn argument_list(s: Seq<char>) -> Option<int> {
    let k = blank_len(s) as int;
    if k < s.len() && s[k] == '(' {
        paren_close(s, k, 0, false)
    } else {
        None
    }
}

/// The text with its macro uses expanded, given the definitions in force, the
/// file name and the line number. Text inside string literals stays. A use of
/// an unknown macro stays, as does a function-like one without arguments.
/// From [`MAX_EXPAND_DEPTH`] on, text stays as it is.
pub open spec fn expanded(
    m: MacroMap,
    file: Seq<char>,
    line: nat,
    s: Seq<char>,
    quoted: bool,
    depth: nat,
) -> Seq<char>
    decreases
            (if depth < MAX_EXPAND_DEPTH {
                MAX_EXPAND_DEPTH - depth
            } else {
                0
            }),
            s.len(),
{
    if depth >= MAX_EXPAND_DEPTH || s.len() == 0 {
        s
    } else if s[0] == '"' {
        seq!['"'] + expanded(m, file, line, s.skip(1), !quoted, depth)
    } else if quoted || s[0] != '`' {
        seq![s[0]] + expanded(m, file, line, s.skip(1), quoted, depth)
    } else if s.len() > 1 && s[1] == '"' {
        seq!['"'] + expanded(m, file, line, s.skip(2), false, depth)
    } else if s.len() > 1 && s[1] == '`' {
        expanded(m, file, line, s.skip(2), false, depth)
    } else if s.len() > 1 && ident_start(s[1]) {
        let n = ident_len(s.skip(1)) as int;
        let name = s.skip(1).take(n);
        let rest = s.skip(1 + n);
        proof {
            lemma_ident_len(s.skip(1));
        }
        if name == "__FILE__"@ {
            seq!['"'] + escaped(file) + seq!['"'] + expanded(m, file, line, rest, false, depth)
        } else if name == "__LINE__"@ {
            decimal(line) + expanded(m, file, line, rest, false, depth)
        } else if !m.dom().contains(name) {
            s.take(1 + n) + expanded(m, file, line, rest, false, depth)
        } else if m[name].params is None {
            expanded(m, file, line, m[name].body, false, depth + 1) + expanded(
                m,
                file,
                line,
                rest,
                false,
                depth,
            )
        } else {
            match argument_list(rest) {
                Some(e) => {
                    let k = blank_len(rest) as int;
                    let args = top_pieces(rest.subrange(k + 1, e), ',', 0, false, Seq::empty());
                    proof {
                        lemma_paren_close(rest, k, 0, false);
                    }
                    expanded(m, file, line, applied(m[name], args), false, depth + 1) + expanded(
                        m,
                        file,
                        line,
                        rest.skip(e + 1),
                        false,
                        depth,
                    )
                },
                None => s.take(1 + n) + expanded(m, file, line, rest, false, depth),
            }
        }
    } else {
        seq![s[0]] + expanded(m, file, line, s.skip(1), false, depth)
    }
}

/// Skip blanks and tabs from `from`.
fn skip_blanks(s: &[char], from: usize) -> (r: usize)
    requires
        from <= s@.len(),
    ensures
        r == from + blank_len(s@.skip(from as int)),
        from <= r <= s@.len(),
{
    let mut k: usize = from;
    while k < s.len() && (s[k] == ' ' || s[k] == '\t')
        invariant
            from <= k <= s@.len(),
            from + blank_len(s@.skip(from as int)) == k + blank_len(s@.skip(k as int)),
        decreases s@.len() - k,
    {
        assert(s@.skip(k as int)[0] == s@[k as int]);
        assert(s@.skip(k as int).skip(1) =~= s@.skip(k + 1));
        k = k + 1;
    }
    assert(k < s@.len() ==> s@.skip(k as int)[0] == s@[k as int]);
    k
}

/// Append a file name as the inside of a string literal.
fn push_escaped(out: &mut Vec<char>, file: &[char])
    ensures
        final(out)@ == old(out)@ + escaped(file@),
{
    proof {
        reveal_strlit("\\");
        reveal_strlit("\"");
    }
    let once: Vec<char> = replace(file, "\\", "\\\\");
    let twice: Vec<char> = replace(once.as_slice(), "\"", "\\\"");
    push_all(out, twice.as_slice());
}

/// Expand the macro uses of a text.
pub fn expand_text(table: &MacroTable, file: &[char], line: usize, text: &[char], depth: usize) -> (r:
    Vec<char>)
    ensures
        r@ == expanded(table@, file@, line as nat, text@, false, depth as nat),
    decreases
            (if depth < MAX_EXPAND_DEPTH {
                MAX_EXPAND_DEPTH - depth
            } else {
                0
            }),
            2int,
{
    if depth >= MAX_EXPAND_DEPTH {
        return copied(text);
    }
    let ghost m = table@;
    let ghost f = file@;
    let ghost l = line as nat;
    let ghost d = depth as nat;
    let ghost goal = expanded(m, f, l, text@, false, d);
    let n: usize = text.len();
    let mut out: Vec<char> = Vec::new();
    let mut quoted = false;
    let mut i: usize = 0;
    assert(text@.skip(0) =~= text@);
    assert(out@ + expanded(m, f, l, text@.skip(0), quoted, d) =~= goal);
    while i < n
        invariant
            n == text@.len(),
            i <= n,
            depth < MAX_EXPAND_DEPTH,
            m == table@,
            f == file@,
            l == line as nat,
            d == depth as nat,
            goal == expanded(m, f, l, text@, false, d),
            out@ + expanded(m, f, l, text@.skip(i as int), quoted, d) == goal,
        decreases n - i,
    {
        let ghost rest = text@.skip(i as int);
        let ghost before = out@;
        let ghost was = quoted;
        let c: char = text[i];
        assert(rest[0] == c);
        assert(rest.skip(1) =~= text@.skip(i + 1));
        if c == '"' {
            quoted = !quoted;
            out.push(c);
            i = i + 1;
        } else if quoted || c != '`' {
            out.push(c);
            i = i + 1;
        } else if n - i > 1 && text[i + 1] == '"' {
            assert(rest[1] == '"');
            assert(rest.skip(2) =~= text@.skip(i + 2));
            out.push('"');
            i = i + 2;
        } else if n - i > 1 && text[i + 1] == '`' {
            assert(rest[1] == '`');
            assert(rest.skip(2) =~= text@.skip(i + 2));
            i = i + 2;
        } else if n - i > 1 && is_ident_start(text[i + 1]) {
            i = expand_use(table, file, line, text, i, depth, &mut out);
            continue;
        } else {
            out.push(c);
            i = i + 1;
        }
        proof {
            let emitted = out@.skip(before.len() as int);
            assert(out@ =~= before + emitted);
            assert(expanded(m, f, l, rest, was, d) =~= emitted + expanded(
                m,
                f,
                l,
                text@.skip(i as int),
                quoted,
                d,
            ));
            assert(out@ + expanded(m, f, l, text@.skip(i as int), quoted, d) =~= before + (emitted
                + expanded(m, f, l, text@.skip(i as int), quoted, d)));
        }
    }
    assert(expanded(m, f, l, text@.skip(i as int), quoted, d) =~= Seq::<char>::empty());
    out
}

/// Expand the macro use whose backtick stands at `i` onto the end of `out`;
/// the result is the position behind the use.
fn expand_use(
    table: &MacroTable,
    file: &[char],
    line: usize,
    text: &[char],
    i: usize,
    depth: usize,
    out: &mut Vec<char>,
) -> (r: usize)
    requires
        i + 1 < text@.len(),
        text@[i as int] == '`',
        ident_start(text@[i + 1]),
        depth < MAX_EXPAND_DEPTH,
    ensures
        i < r <= text@.len(),
        final(out)@ + expanded(
            table@,
            file@,
            line as nat,
            text@.skip(r as int),
            false,
            depth as nat,
        ) == old(out)@ + expanded(
            table@,
            file@,
            line as nat,
            text@.skip(i as int),
            false,
            depth as nat,
        ),
    decreases MAX_EXPAND_DEPTH - depth, 1int,
{
    let ghost m = table@;
    let ghost f = file@;
    let ghost l = line as nat;
    let ghost d = depth as nat;
    let ghost rest = text@.skip(i as int);
    let ghost before = out@;
    let n: usize = text.len();
    assert(i + 1 < n);
    let j: usize = ident_end(text, i + 1);
    let ghost len = j - i - 1;
    assert(rest[0] == '`' && rest[1] == text@[i + 1]);
    assert(rest.skip(1) =~= text@.skip(i + 1));
    assert(rest.skip(1).take(len) =~= text@.subrange(i + 1, j as int));
    assert(rest.skip(1 + len) =~= text@.skip(j as int));
    assert(rest.take(1 + len) =~= text@.subrange(i as int, j as int));
    let name: &[char] = slice_subrange(text, i + 1, j);
    let raw: &[char] = slice_subrange(text, i, j);
    let mut end: usize = j;
    let ghost emitted: Seq<char>;
    if is_text(name, "__FILE__") {
        out.push('"');
        push_escaped(out, file);
        out.push('"');
        proof {
            emitted = seq!['"'] + escaped(f) + seq!['"'];
        }
    } else if is_text(name, "__LINE__") {
        push_number(out, line as u64);
        proof {
            emitted = decimal(l);
        }
    } else {
        match table.get(name) {
            None => {
                push_all(out, raw);
                proof {
                    emitted = raw@;
                }
            },
            Some(mac) => match &mac.params {
                None => {
                    let body: Vec<char> = expand_text(
                        table,
                        file,
                        line,
                        mac.body.as_slice(),
                        depth + 1,
                    );
                    push_all(out, body.as_slice());
                    proof {
                        emitted = body@;
                    }
                },
                Some(params) => {
                    let (used, repl) = use_arguments(
                        table,
                        file,
                        line,
                        params,
                        mac.body.as_slice(),
                        text,
                        j,
                        depth,
                    );
                    match repl {
                        Some(body) => {
                            assert(text@.skip(j as int).skip(used - j) =~= text@.skip(used as int));
                            push_all(out, body.as_slice());
                            end = used;
                            proof {
                                emitted = body@;
                            }
                        },
                        None => {
                            push_all(out, raw);
                            proof {
                                emitted = raw@;
                            }
                        },
                    }
                },
            },
        }
    }
    proof {
        let tail = expanded(m, f, l, text@.skip(end as int), false, d);
        assert(out@ =~= before + emitted);
        assert(expanded(m, f, l, rest, false, d) == emitted + tail);
        assert(out@ + tail =~= before + (emitted + tail));
    }
    end
}

/// Expand a function-like macro whose name ends at `j`, if an argument list
/// follows: the position behind the list and the replacement text.
fn use_arguments(
    table: &MacroTable,
    file: &[char],
    line: usize,
    params: &Vec<MacroParam>,
    body: &[char],
    text: &[char],
    j: usize,
    depth: usize,
) -> (r: (usize, Option<Vec<char>>))
    requires
        j <= text@.len(),
        depth < MAX_EXPAND_DEPTH,
    ensures
        ({
            let tail = text@.skip(j as int);
            let k = blank_len(tail) as int;
            match argument_list(tail) {
                Some(e) => {
                    let args = top_pieces(tail.subrange(k + 1, e), ',', 0, false, Seq::empty());
                    let mac = MacroText { params: Some(param_texts(params@)), body: body@ };
                    &&& r.0 == j + e + 1
                    &&& j < r.0 <= text@.len()
                    &&& r.1 matches Some(v) && v@ == expanded(
                        table@,
                        file@,
                        line as nat,
                        applied(mac, args),
                        false,
                        (depth + 1) as nat,
                    )
                },
                None => r.1 is None,
            }
        }),
    decreases MAX_EXPAND_DEPTH - depth, 0int,
{
    let n: usize = text.len();
    let tail: &[char] = slice_subrange(text, j, n);
    assert(tail@ =~= text@.skip(j as int));
    assert(tail@.skip(0) =~= tail@);
    let k: usize = skip_blanks(tail, 0);
    if k < tail.len() && tail[k] == '(' {
        if let Some(e) = find_matching_paren(tail, k) {
            let args: Vec<Vec<char>> = split_top_level(slice_subrange(tail, k + 1, e), ',');
            let repl: Vec<char> = apply_macro(params, body, &args);
            let out: Vec<char> = expand_text(table, file, line, repl.as_slice(), depth + 1);
            return (j + e + 1, Some(out));
        }
    }
    (j, None)
}

} // verus!
