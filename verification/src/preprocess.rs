//! The source preprocessor: conditional compilation, macro definitions and
//! uses, and file inclusion, text to text and line by line.
//!
//! Files are looked up in a table that the caller fills: for a file name and
//! the file that names it, the candidates in search order. A lookup the table
//! does not know counts as not found and is recorded, so that a caller can add
//! what was missed and run again.
use vstd::prelude::*;
use vstd::slice::slice_subrange;

use crate::macros::{
    defined_macro, expand_text, expanded, parse_define, Macro, MacroMap, MacroTable, MacroText,
};
use crate::scan::{
    first_token, first_word, ident_end, ident_len, named_file, parse_file_name, strip_comments,
    texts, uncommented, Scan,
};
use crate::text::{
    chars_of, copied, is_text, join, joined, pieces, push_all, replace, replaced, split_on,
    string_of, trim_start, trimmed_start,
};

verus! {

/// How deep files may name each other.
pub const MAX_INCLUDE_DEPTH: usize = 64;

/// A file that a lookup can find.
pub struct HeaderFile {
    /// Tells files apart: equal numbers mean the same file.
    pub id: usize,
    /// The path as it is shown.
    pub path: String,
    /// What the file holds, or nothing if it cannot be read.
    pub contents: Option<String>,
}

/// The outcome of looking a file name up on behalf of another file: the
/// candidates in search order, absent ones included.
pub struct HeaderLookup {
    pub name: String,
    pub source: String,
    pub candidates: Vec<Option<HeaderFile>>,
}

/// What a [`HeaderFile`] holds.
pub struct HeaderText {
    pub id: usize,
    pub path: Seq<char>,
    pub contents: Option<Seq<char>>,
}

/// What a [`HeaderLookup`] holds.
pub struct LookupText {
    pub name: Seq<char>,
    pub source: Seq<char>,
    pub candidates: Seq<Option<HeaderText>>,
}

impl View for HeaderFile {
    type V = HeaderText;

    open spec fn view(&self) -> HeaderText {
        HeaderText {
            id: self.id,
            path: self.path@,
            contents: match self.contents {
                Some(c) => Some(c@),
                None => None,
            },
        }
    }
}

impl View for HeaderLookup {
    type V = LookupText;

    open spec fn view(&self) -> LookupText {
        LookupText {
            name: self.name@,
            source: self.source@,
            candidates: self.candidates@.map_values(
                |c: Option<HeaderFile>|
                    match c {
                        Some(f) => Some(f@),
                        None => None,
                    },
            ),
        }
    }
}

/// The views of a lookup table.
pub open spec fn lookup_texts(v: Seq<HeaderLookup>) -> Seq<LookupText> {
    v.map_values(|l: HeaderLookup| l@)
}

/// One open conditional.
#[derive(Clone, Copy, PartialEq, Eq, Structural)]
pub struct Cond {
    /// Whether the enclosing context was emitting when this level opened.
    pub parent_active: bool,
    /// Whether any branch in this chain has been taken yet.
    pub taken: bool,
    /// Whether the current branch is emitting.
    pub active: bool,
}

/// What a preprocessing run carries from line to line.
#[verifier::ext_equal]
pub struct Progress {
    /// The definitions in force.
    pub macros: MacroMap,
    /// The file being read.
    pub file: Seq<char>,
    /// The line being read, from 1.
    pub line: nat,
    /// The lookups that the table did not know: file name and naming file.
    pub missed: Seq<(Seq<char>, Seq<char>)>,
}

/// Whether lines are emitted: `active` folds in the enclosing levels, so the
/// innermost one decides.
pub open spec fn emitting(cond: Seq<Cond>) -> bool {
    cond.len() == 0 || cond.last().active
}

/// The first present candidate.
pub open spec fn first_present(candidates: Seq<Option<HeaderText>>) -> Option<HeaderText>
    decreases candidates.len(),
{
    if candidates.len() == 0 {
        None
    } else if candidates[0] is Some {
        candidates[0]
    } else {
        first_present(candidates.skip(1))
    }
}

/// The first table entry for a file name and a naming file.
pub open spec fn table_entry(
    table: Seq<LookupText>,
    name: Seq<char>,
    source: Seq<char>,
) -> Option<LookupText>
    decreases table.len(),
{
    if table.len() == 0 {
        None
    } else if table[0].name == name && table[0].source == source {
        Some(table[0])
    } else {
        table_entry(table.skip(1), name, source)
    }
}

/// Directives that take their line and emit nothing.
pub open spec fn passthrough(d: Seq<char>) -> bool {
    ||| d == "timescale"@
    ||| d == "default_nettype"@
    ||| d == "celldefine"@
    ||| d == "endcelldefine"@
    ||| d == "resetall"@
    ||| d == "unconnected_drive"@
    ||| d == "nounconnected_drive"@
    ||| d == "line"@
    ||| d == "begin_keywords"@
    ||| d == "end_keywords"@
    ||| d == "protect"@
    ||| d == "endprotect"@
    ||| d == "protected"@
    ||| d == "endprotected"@
    ||| d == "pragma"@
}

/// A conditional directive.
pub open spec fn conditional(d: Seq<char>) -> bool {
    d == "ifdef"@ || d == "ifndef"@ || d == "elsif"@ || d == "else"@ || d == "endif"@
}

/// The open conditionals after a conditional directive.
pub open spec fn cond_step(m: MacroMap, cond: Seq<Cond>, d: Seq<char>, rest: Seq<char>) -> Seq<Cond> {
    let defined = m.dom().contains(first_word(rest));
    if d == "ifdef"@ || d == "ifndef"@ {
        let want = defined == (d == "ifdef"@);
        cond.push(
            Cond {
                parent_active: emitting(cond),
                taken: want,
                active: emitting(cond) && want,
            },
        )
    } else if cond.len() == 0 {
        cond
    } else if d == "endif"@ {
        cond.drop_last()
    } else {
        let top = cond.last();
        let take = !top.taken && top.parent_active && (d == "else"@ || defined);
        cond.drop_last().push(
            Cond { parent_active: top.parent_active, taken: top.taken || take, active: take },
        )
    }
}

/// What a line that is not a conditional directive does while lines are
/// emitted: `d` is its directive and `rest` what follows it.
pub open spec fn directive_step(
    table: Seq<LookupText>,
    open: Seq<usize>,
    st: Progress,
    d: Seq<char>,
    rest: Seq<char>,
    line: Seq<char>,
    path: Seq<char>,
) -> (Progress, Seq<char>)
    decreases remaining_depth(open), 3int, 0int,
{
    if d == "define"@ {
        match defined_macro(rest) {
            Some((name, def)) => (
                Progress { macros: st.macros.insert(name, def), ..st },
                Seq::empty(),
            ),
            None => (st, Seq::empty()),
        }
    } else if d == "undef"@ {
        (Progress { macros: st.macros.remove(first_word(rest)), ..st }, Seq::empty())
    } else if d == "include"@ {
        match named_file(rest) {
            Some(name) => {
                let (after, text) = included(table, open, st, name, path);
                (Progress { file: path, ..after }, text)
            },
            None => (st, Seq::empty()),
        }
    } else if passthrough(d) {
        (st, Seq::empty())
    } else {
        (st, expanded(st.macros, st.file, st.line, line, false, 0))
    }
}

/// How many more files may be opened.
pub open spec fn remaining_depth(open: Seq<usize>) -> int {
    if open.len() < MAX_INCLUDE_DEPTH {
        MAX_INCLUDE_DEPTH - open.len()
    } else {
        0
    }
}

/// What naming a file yields: its processed contents, or a comment that says
/// why there are none.
pub open spec fn included(
    table: Seq<LookupText>,
    open: Seq<usize>,
    st: Progress,
    name: Seq<char>,
    path: Seq<char>,
) -> (Progress, Seq<char>)
    decreases remaining_depth(open), 2int, 0int,
{
    if open.len() >= MAX_INCLUDE_DEPTH {
        (st, "// `include depth limit exceeded for "@ + name)
    } else {
        match table_entry(table, name, path) {
            None => (
                Progress { missed: st.missed.push((name, path)), ..st },
                "// `include not found: "@ + name,
            ),
            Some(entry) => match first_present(entry.candidates) {
                None => (st, "// `include not found: "@ + name),
                Some(file) => if open.contains(file.id) {
                    (st, "// recursive `include skipped: "@ + name)
                } else {
                    match file.contents {
                        None => (st, "// `include read error: "@ + name),
                        Some(text) => preprocessed(
                            table,
                            open.push(file.id),
                            st,
                            text,
                            file.path,
                        ),
                    }
                },
            },
        }
    }
}

/// The lines of a text as they are processed: line ends unified, continued
/// lines joined, comments blanked.
pub open spec fn source_lines(text: Seq<char>) -> Seq<Seq<char>> {
    let unified = replaced(replaced(text, "\r\n"@, "\n"@), "\r"@, "\n"@);
    pieces(uncommented(replaced(unified, "\\\n"@, " "@), Scan::Code), '\n')
}

/// The outcome of preprocessing a text: `open` are the files being read.
pub open spec fn preprocessed(
    table: Seq<LookupText>,
    open: Seq<usize>,
    st: Progress,
    text: Seq<char>,
    path: Seq<char>,
) -> (Progress, Seq<char>)
    decreases remaining_depth(open), 6int, 0int,
{
    let (after, lines) = lines_from(
        table,
        open,
        Progress { file: path, ..st },
        Seq::empty(),
        source_lines(text),
        0,
        path,
    );
    (after, joined(lines, '\n'))
}

/// The outcome of the lines from index `i` on.
pub open spec fn lines_from(
    table: Seq<LookupText>,
    open: Seq<usize>,
    st: Progress,
    cond: Seq<Cond>,
    lines: Seq<Seq<char>>,
    i: nat,
    path: Seq<char>,
) -> (Progress, Seq<Seq<char>>)
    decreases remaining_depth(open), 5int, lines.len() - i,
{
    if i >= lines.len() {
        (st, Seq::empty())
    } else {
        let (next, ncond, out) = line_step(
            table,
            open,
            Progress { line: i + 1, ..st },
            cond,
            lines[i as int],
            path,
        );
        let (last, rest) = lines_from(table, open, next, ncond, lines, i + 1, path);
        (last, seq![out] + rest)
    }
}

/// The outcome of one line: the progress, the open conditionals and the text
/// that takes its place.
pub open spec fn line_step(
    table: Seq<LookupText>,
    open: Seq<usize>,
    st: Progress,
    cond: Seq<Cond>,
    line: Seq<char>,
    path: Seq<char>,
) -> (Progress, Seq<Cond>, Seq<char>)
    decreases remaining_depth(open), 4int, 0int,
{
    let stripped = trimmed_start(line);
    if stripped.len() > 0 && stripped[0] == '`' {
        let after = stripped.skip(1);
        let n = ident_len(after) as int;
        let d = after.take(n);
        let rest = after.skip(n);
        if conditional(d) {
            (st, cond_step(st.macros, cond, d, rest), Seq::empty())
        } else if emitting(cond) {
            let (next, out) = directive_step(table, open, st, d, rest, line, path);
            (next, cond, out)
        } else {
            (st, cond, Seq::empty())
        }
    } else if emitting(cond) {
        (st, cond, expanded(st.macros, st.file, st.line, line, false, 0))
    } else {
        (st, cond, Seq::empty())
    }
}

/// The preprocessor. One instance per top-level compilation; definitions
/// accumulate across files.
pub struct Preprocessor {
    lookups: Vec<HeaderLookup>,
    macros: MacroTable,
    open: Vec<usize>,
    current_file: Vec<char>,
    current_line: usize,
    missed: Vec<(Vec<char>, Vec<char>)>,
}

/// The views of a list of missed lookups.
pub open spec fn missed_texts(v: Seq<(Vec<char>, Vec<char>)>) -> Seq<(Seq<char>, Seq<char>)> {
    v.map_values(|m: (Vec<char>, Vec<char>)| (m.0@, m.1@))
}

fn is_passthrough(d: &[char]) -> (r: bool)
    ensures
        r == passthrough(d@),
{
    is_text(d, "timescale") || is_text(d, "default_nettype") || is_text(d, "celldefine") || is_text(
        d,
        "endcelldefine",
    ) || is_text(d, "resetall") || is_text(d, "unconnected_drive") || is_text(
        d,
        "nounconnected_drive",
    ) || is_text(d, "line") || is_text(d, "begin_keywords") || is_text(d, "end_keywords")
        || is_text(d, "protect") || is_text(d, "endprotect") || is_text(d, "protected") || is_text(
        d,
        "endprotected",
    ) || is_text(d, "pragma")
}

fn is_conditional(d: &[char]) -> (r: bool)
    ensures
        r == conditional(d@),
{
    is_text(d, "ifdef") || is_text(d, "ifndef") || is_text(d, "elsif") || is_text(d, "else")
        || is_text(d, "endif")
}

fn is_emitting(cond: &Vec<Cond>) -> (r: bool)
    ensures
        r == emitting(cond@),
{
    cond.len() == 0 || cond[cond.len() - 1].active
}

/// A comment that names a file.
fn note(what: &str, name: &[char]) -> (r: Vec<char>)
    ensures
        r@ == what@ + name@,
{
    let mut out: Vec<char> = chars_of(what);
    push_all(&mut out, name);
    out
}

/// The lines of a text as they are processed.
fn prepare_lines(text: &str) -> (r: Vec<Vec<char>>)
    ensures
        texts(r@) == source_lines(text@),
{
    proof {
        reveal_strlit("\r\n");
        reveal_strlit("\r");
        reveal_strlit("\\\n");
    }
    let raw: Vec<char> = chars_of(text);
    let no_crlf: Vec<char> = replace(raw.as_slice(), "\r\n", "\n");
    let unified: Vec<char> = replace(no_crlf.as_slice(), "\r", "\n");
    let continued: Vec<char> = replace(unified.as_slice(), "\\\n", " ");
    let plain: Vec<char> = strip_comments(continued.as_slice());
    split_on(plain.as_slice(), '\n')
}

impl Preprocessor {
    /// The lookup table.
    pub closed spec fn table(&self) -> Seq<LookupText> {
        lookup_texts(self.lookups@)
    }

    /// The files being read.
    pub closed spec fn open_files(&self) -> Seq<usize> {
        self.open@
    }

    /// What the runs so far have led to.
    pub closed spec fn progress(&self) -> Progress {
        Progress {
            macros: self.macros@,
            file: self.current_file@,
            line: self.current_line as nat,
            missed: missed_texts(self.missed@),
        }
    }

    /// Create a preprocessor with the given lookup table.
    pub fn new(lookups: Vec<HeaderLookup>) -> (r: Preprocessor)
        ensures
            r.table() == lookup_texts(lookups@),
            r.open_files() == Seq::<usize>::empty(),
            r.progress() == (Progress {
                macros: Map::empty(),
                file: Seq::empty(),
                line: 0,
                missed: Seq::empty(),
            }),
    {
        let r = Preprocessor {
            lookups,
            macros: MacroTable::new(),
            open: Vec::new(),
            current_file: Vec::new(),
            current_line: 0,
            missed: Vec::new(),
        };
        assert(r.current_file@ =~= Seq::<char>::empty());
        assert(missed_texts(r.missed@) =~= Seq::empty());
        r
    }

    /// Predefine an object-like macro (like `+define+NAME=VALUE`).
    pub fn define(&mut self, name: &str, body: &str)
        ensures
            final(self).table() == old(self).table(),
            final(self).open_files() == old(self).open_files(),
            final(self).progress() == (Progress {
                macros: old(self).progress().macros.insert(
                    name@,
                    MacroText { params: None, body: body@ },
                ),
                ..old(self).progress()
            }),
    {
        self.macros.insert(chars_of(name), Macro { params: None, body: chars_of(body) });
    }

    /// The lookups that the table did not know, as file name and naming file.
    pub fn missed_lookups(&self) -> (r: Vec<(String, String)>)
        ensures
            r@.map_values(|m: (String, String)| (m.0@, m.1@)) == self.progress().missed,
    {
        let mut out: Vec<(String, String)> = Vec::new();
        let mut i: usize = 0;
        while i < self.missed.len()
            invariant
                i <= self.missed@.len(),
                out@.map_values(|m: (String, String)| (m.0@, m.1@)) == missed_texts(
                    self.missed@.take(i as int),
                ),
            decreases self.missed@.len() - i,
        {
            let ghost before = out@;
            out.push(
                (
                    string_of(self.missed[i].0.as_slice()),
                    string_of(self.missed[i].1.as_slice()),
                ),
            );
            proof {
                let f = |m: (String, String)| (m.0@, m.1@);
                assert(out@.map_values(f) =~= before.map_values(f).push(
                    (self.missed@[i as int].0@, self.missed@[i as int].1@),
                ));
                assert(missed_texts(self.missed@.take(i + 1)) =~= missed_texts(
                    self.missed@.take(i as int),
                ).push((self.missed@[i as int].0@, self.missed@[i as int].1@)));
            }
            i = i + 1;
        }
        assert(self.missed@.take(i as int) =~= self.missed@);
        out
    }

    /// Preprocess the contents of the file `id`, shown as `source_path`. A file
    /// that names it again is not entered a second time.
    pub fn process_contents(&mut self, id: usize, text: &str, source_path: &str) -> (r: String)
        ensures
            final(self).table() == old(self).table(),
            final(self).open_files() == old(self).open_files(),
            (final(self).progress(), r@) == preprocessed(
                old(self).table(),
                old(self).open_files().push(id),
                old(self).progress(),
                text@,
                source_path@,
            ),
    {
        self.open.push(id);
        let out: String = self.process(text, source_path);
        self.open.pop();
        assert(self.open@ =~= old(self).open@);
        out
    }

    /// Preprocess a string of source. `source_path` is the naming file of the
    /// lookups and the value of `__FILE__`.
    pub fn process(&mut self, text: &str, source_path: &str) -> (r: String)
        ensures
            final(self).table() == old(self).table(),
            final(self).open_files() == old(self).open_files(),
            (final(self).progress(), r@) == preprocessed(
                old(self).table(),
                old(self).open_files(),
                old(self).progress(),
                text@,
                source_path@,
            ),
        decreases remaining_depth(old(self).open_files()), 6int,
    {
        let ghost table = self.table();
        let ghost open = self.open_files();
        let ghost path = source_path@;
        let lines: Vec<Vec<char>> = prepare_lines(text);
        let ghost all = texts(lines@);
        let mut out: Vec<Vec<char>> = Vec::new();
        let mut cond: Vec<Cond> = Vec::new();
        let file: Vec<char> = chars_of(source_path);
        self.current_file = copied(file.as_slice());
        let ghost start = self.progress();
        let ghost goal = lines_from(table, open, start, Seq::empty(), all, 0, path);
        let mut idx: usize = 0;
        assert(cond@ =~= Seq::<Cond>::empty());
        assert(texts(out@) + goal.1 =~= goal.1);
        while idx < lines.len()
            invariant
                idx <= lines@.len(),
                all == texts(lines@),
                path == file@,
                self.table() == table,
                self.open_files() == open,
                open == old(self).open_files(),
                ({
                    let rest = lines_from(
                        table,
                        open,
                        self.progress(),
                        cond@,
                        all,
                        idx as nat,
                        path,
                    );
                    goal == (rest.0, texts(out@) + rest.1)
                }),
            decreases lines@.len() - idx,
        {
            let ghost before = out@;
            let ghost st = self.progress();
            let ghost was = cond@;
            self.current_line = idx + 1;
            assert(self.progress() == (Progress { line: (idx + 1) as nat, ..st }));
            assert(all[idx as int] == lines@[idx as int]@);
            let piece: Vec<char> = self.process_line(
                lines[idx].as_slice(),
                &mut cond,
                file.as_slice(),
            );
            out.push(piece);
            proof {
                let rest = lines_from(
                    table,
                    open,
                    self.progress(),
                    cond@,
                    all,
                    (idx + 1) as nat,
                    path,
                );
                assert(lines_from(table, open, st, was, all, idx as nat, path) == (
                    rest.0,
                    seq![piece@] + rest.1,
                ));
                assert(texts(out@) =~= texts(before).push(piece@));
                assert(texts(before) + (seq![piece@] + rest.1) =~= texts(out@) + rest.1);
            }
            idx = idx + 1;
        }
        assert(goal.1 =~= texts(out@));
        let text_out: Vec<char> = join(&out, '\n');
        string_of(text_out.as_slice())
    }

    /// Process one line.
    fn process_line(&mut self, line: &[char], cond: &mut Vec<Cond>, path: &[char]) -> (r: Vec<char>)
        ensures
            final(self).table() == old(self).table(),
            final(self).open_files() == old(self).open_files(),
            (final(self).progress(), final(cond)@, r@) == line_step(
                old(self).table(),
                old(self).open_files(),
                old(self).progress(),
                old(cond)@,
                line@,
                path@,
            ),
        decreases remaining_depth(old(self).open_files()), 4int,
    {
        let stripped: &[char] = trim_start(line);
        let n: usize = stripped.len();
        if n > 0 && stripped[0] == '`' {
            assert(stripped@.subrange(1, n as int) =~= stripped@.skip(1));
            let after: &[char] = slice_subrange(stripped, 1, n);
            assert(after@.skip(0) =~= after@);
            let k: usize = ident_end(after, 0);
            assert(after@.subrange(0, k as int) =~= after@.take(k as int));
            assert(after@.subrange(k as int, after@.len() as int) =~= after@.skip(k as int));
            let d: &[char] = slice_subrange(after, 0, k);
            let rest: &[char] = slice_subrange(after, k, after.len());
            if is_conditional(d) {
                self.step_conditional(d, rest, cond);
                Vec::new()
            } else if is_emitting(cond) {
                self.step_directive(d, rest, line, path)
            } else {
                Vec::new()
            }
        } else if is_emitting(cond) {
            expand_text(&self.macros, self.current_file.as_slice(), self.current_line, line, 0)
        } else {
            Vec::new()
        }
    }

    /// Open, continue or close a conditional.
    fn step_conditional(&self, d: &[char], rest: &[char], cond: &mut Vec<Cond>)
        requires
            conditional(d@),
        ensures
            final(cond)@ == cond_step(self.progress().macros, old(cond)@, d@, rest@),
    {
        let name: Vec<char> = first_token(rest);
        let defined: bool = self.macros.get(name.as_slice()).is_some();
        if is_text(d, "ifdef") || is_text(d, "ifndef") {
            let want: bool = defined == is_text(d, "ifdef");
            let parent: bool = is_emitting(cond);
            cond.push(Cond { parent_active: parent, taken: want, active: parent && want });
        } else if cond.len() == 0 {
        } else if is_text(d, "endif") {
            cond.pop();
            assert(cond@ =~= old(cond)@.drop_last());
        } else {
            let top: Cond = cond[cond.len() - 1];
            let take: bool = !top.taken && top.parent_active && (is_text(d, "else") || defined);
            cond.pop();
            cond.push(
                Cond { parent_active: top.parent_active, taken: top.taken || take, active: take },
            );
            assert(cond@ =~= cond_step(self.progress().macros, old(cond)@, d@, rest@));
        }
    }

    /// Carry out a directive that is not conditional.
    fn step_directive(&mut self, d: &[char], rest: &[char], line: &[char], path: &[char]) -> (r: Vec<
        char,
    >)
        ensures
            final(self).table() == old(self).table(),
            final(self).open_files() == old(self).open_files(),
            (final(self).progress(), r@) == directive_step(
                old(self).table(),
                old(self).open_files(),
                old(self).progress(),
                d@,
                rest@,
                line@,
                path@,
            ),
        decreases remaining_depth(old(self).open_files()), 3int,
    {
        if is_text(d, "define") {
            if let Some((name, def)) = parse_define(rest) {
                self.macros.insert(name, def);
            }
            Vec::new()
        } else if is_text(d, "undef") {
            self.macros.remove(first_token(rest));
            Vec::new()
        } else if is_text(d, "include") {
            match parse_file_name(rest) {
                Some(name) => {
                    let text: Vec<char> = self.enter_file(name.as_slice(), path);
                    self.current_file = copied(path);
                    text
                },
                None => Vec::new(),
            }
        } else if is_passthrough(d) {
            Vec::new()
        } else {
            expand_text(&self.macros, self.current_file.as_slice(), self.current_line, line, 0)
        }
    }

    /// The table entry for a file name and a naming file.
    fn find_entry(&self, name: &[char], path: &[char]) -> (r: Option<usize>)
        ensures
            match r {
                Some(i) => i < self.lookups@.len() && table_entry(self.table(), name@, path@)
                    == Some(self.lookups@[i as int]@),
                None => table_entry(self.table(), name@, path@) is None,
            },
    {
        let ghost all = self.table();
        let mut i: usize = 0;
        assert(all.skip(0) =~= all);
        while i < self.lookups.len()
            invariant
                i <= self.lookups@.len(),
                all == self.table(),
                table_entry(all, name@, path@) == table_entry(all.skip(i as int), name@, path@),
            decreases self.lookups@.len() - i,
        {
            assert(all.skip(i as int)[0] == self.lookups@[i as int]@);
            assert(all.skip(i as int).skip(1) =~= all.skip(i + 1));
            if is_text(name, self.lookups[i].name.as_str()) && is_text(
                path,
                self.lookups[i].source.as_str(),
            ) {
                return Some(i);
            }
            i = i + 1;
        }
        None
    }

    /// The present candidate of an entry that comes first.
    fn pick_candidate(entry: &HeaderLookup) -> (r: Option<usize>)
        ensures
            match r {
                Some(i) => i < entry.candidates@.len() && entry.candidates@[i as int] is Some
                    && first_present(entry@.candidates) == Some(entry.candidates@[i as int]->0@),
                None => first_present(entry@.candidates) is None,
            },
    {
        let ghost all = entry@.candidates;
        let mut i: usize = 0;
        assert(all.skip(0) =~= all);
        while i < entry.candidates.len()
            invariant
                i <= entry.candidates@.len(),
                all == entry@.candidates,
                first_present(all) == first_present(all.skip(i as int)),
            decreases entry.candidates@.len() - i,
        {
            assert(all.skip(i as int)[0] == all[i as int]);
            assert(all.skip(i as int).skip(1) =~= all.skip(i + 1));
            if entry.candidates[i].is_some() {
                return Some(i);
            }
            i = i + 1;
        }
        None
    }

    /// Whether a file is being read.
    fn is_open(&self, id: usize) -> (r: bool)
        ensures
            r == self.open_files().contains(id),
    {
        let mut i: usize = 0;
        while i < self.open.len()
            invariant
                i <= self.open@.len(),
                forall|k: int| 0 <= k < i ==> self.open@[k] != id,
            decreases self.open@.len() - i,
        {
            if self.open[i] == id {
                return true;
            }
            i = i + 1;
        }
        false
    }

    /// Process a named file in place of the line that names it.
    fn enter_file(&mut self, name: &[char], path: &[char]) -> (r: Vec<char>)
        ensures
            final(self).table() == old(self).table(),
            final(self).open_files() == old(self).open_files(),
            (final(self).progress(), r@) == included(
                old(self).table(),
                old(self).open_files(),
                old(self).progress(),
                name@,
                path@,
            ),
        decreases remaining_depth(old(self).open_files()), 2int,
    {
        if self.open.len() >= MAX_INCLUDE_DEPTH {
            return note("// `include depth limit exceeded for ", name);
        }
        let at: usize = match self.find_entry(name, path) {
            Some(i) => i,
            None => {
                let ghost before = self.missed@;
                self.missed.push((copied(name), copied(path)));
                assert(missed_texts(self.missed@) =~= missed_texts(before).push((name@, path@)));
                return note("// `include not found: ", name);
            },
        };
        let pick: usize = match Preprocessor::pick_candidate(&self.lookups[at]) {
            Some(i) => i,
            None => {
                return note("// `include not found: ", name);
            },
        };
        let (id, shown, contents) = match &self.lookups[at].candidates[pick] {
            Some(f) => (
                f.id,
                f.path.clone(),
                match &f.contents {
                    Some(c) => Some(c.clone()),
                    None => None,
                },
            ),
            None => {
                return Vec::new();
            },
        };
        if self.is_open(id) {
            return note("// recursive `include skipped: ", name);
        }
        match contents {
            None => note("// `include read error: ", name),
            Some(text) => {
                self.open.push(id);
                let out: String = self.process(text.as_str(), shown.as_str());
                self.open.pop();
                assert(self.open@ =~= old(self).open@);
                chars_of(out.as_str())
            },
        }
    }
}

} // verus!
