//! What a run of the Verible parser reports, and the errors of the front end.
use vstd::prelude::*;

use crate::cst::{clean, cleaned, Node, NodeV, RawNode};
use crate::message::{text2, text6, text9};
use crate::text::{decimal, number_text};

verus! {

/// Errors of the front end.
#[derive(Debug)]
pub enum FeError {
    /// The parser could not be located.
    VeribleNotFound,
    /// The parser failed to start, or reading or writing failed.
    Io { reason: String },
    /// The parser printed something that is not JSON.
    Json { reason: String },
    /// The parser printed no syntax tree.
    NoTree { stderr: String },
    /// The parser recovered a tree after a lexical or syntax error.
    Syntax { phase: String, text: String, line: usize, column: usize },
    /// Conformance mode met syntax outside the implemented subset.
    UnsupportedSyntax { construct: String, line: usize, column: usize },
}

impl FeError {
    /// What the error says.
    pub open spec fn words(self) -> Seq<char> {
        match self {
            FeError::VeribleNotFound =>
                "verible-verilog-syntax not found (set VERIBLE_SYNTAX_BIN or place it under verible/)"@,
            FeError::Io { reason } => "verible I/O error: "@ + reason@,
            FeError::Json { reason } => "verible JSON decode error: "@ + reason@,
            FeError::NoTree { stderr } =>
                "verible produced no syntax tree (parse error):\n"@ + stderr@,
            FeError::Syntax { phase, text, line, column } => "SystemVerilog "@ + phase@
                + " error at "@ + decimal(line as nat) + ":"@ + decimal(column as nat)
                + " near '"@ + text@ + "'"@,
            FeError::UnsupportedSyntax { construct, line, column } =>
                "unsupported SystemVerilog construct "@ + construct@ + " at "@ + decimal(
                line as nat,
            ) + ":"@ + decimal(column as nat),
        }
    }

    /// What the error says.
    pub fn message(&self) -> (r: String)
        ensures
            r@ == self.words(),
    {
        match self {
            FeError::VeribleNotFound =>
                "verible-verilog-syntax not found (set VERIBLE_SYNTAX_BIN or place it under verible/)".to_owned(),
            FeError::Io { reason } => text2("verible I/O error: ", reason.as_str()),
            FeError::Json { reason } => text2("verible JSON decode error: ", reason.as_str()),
            FeError::NoTree { stderr } => text2(
                "verible produced no syntax tree (parse error):\n",
                stderr.as_str(),
            ),
            FeError::Syntax { phase, text, line, column } => {
                let l: String = number_text(*line as u64);
                let c: String = number_text(*column as u64);
                text9(
                    "SystemVerilog ",
                    phase.as_str(),
                    " error at ",
                    l.as_str(),
                    ":",
                    c.as_str(),
                    " near '",
                    text.as_str(),
                    "'",
                )
            },
            FeError::UnsupportedSyntax { construct, line, column } => {
                let l: String = number_text(*line as u64);
                let c: String = number_text(*column as u64);
                text6(
                    "unsupported SystemVerilog construct ",
                    construct.as_str(),
                    " at ",
                    l.as_str(),
                    ":",
                    c.as_str(),
                )
            },
        }
    }
}

/// One lexical or syntax error of a run.
#[derive(Debug)]
pub struct SyntaxError {
    pub phase: Option<String>,
    pub text: Option<String>,
    /// Counted from zero.
    pub line: Option<u64>,
    /// Counted from zero.
    pub column: Option<u64>,
}

/// The errors of a run: a list, or a single one.
#[derive(Debug)]
pub enum ErrorReport {
    List(Vec<SyntaxError>),
    Single(SyntaxError),
}

/// What a run of the parser reports.
#[derive(Debug)]
pub struct SyntaxReport {
    /// Whether the process ended well.
    pub success: bool,
    pub stderr: String,
    pub errors: Option<ErrorReport>,
    pub tree: Option<RawNode>,
    pub tokens: Vec<RawNode>,
}

impl SyntaxReport {
    /// The first error reported.
    pub open spec fn first(self) -> Option<SyntaxError> {
        match self.errors {
            Some(ErrorReport::List(all)) => if all@.len() > 0 {
                Some(all@[0])
            } else {
                None
            },
            Some(ErrorReport::Single(e)) => Some(e),
            None => None,
        }
    }

    /// The first error reported.
    pub fn first_error(&self) -> (r: Option<&SyntaxError>)
        ensures
            match r {
                Some(e) => self.first() == Some(*e),
                None => self.first() is None,
            },
    {
        match &self.errors {
            Some(ErrorReport::List(all)) => if all.len() > 0 {
                Some(&all[0])
            } else {
                None
            },
            Some(ErrorReport::Single(e)) => Some(e),
            None => None,
        }
    }
}

/// A number, or zero where there is none.
pub open spec fn or_zero(o: Option<u64>) -> u64 {
    match o {
        Some(v) => v,
        None => 0,
    }
}

/// Whether the place of an error can be counted from one.
pub open spec fn countable(e: SyntaxError) -> bool {
    (or_zero(e.line) as usize) < usize::MAX && (or_zero(e.column) as usize) < usize::MAX
}

/// Whether an error of the front end states an error of a run: the phase is
/// `parse` where none is given, and places count from one.
pub open spec fn states(f: FeError, e: SyntaxError) -> bool {
    match f {
        FeError::Syntax { phase, text, line, column } => {
            &&& phase@ == (match e.phase {
                Some(p) => p@,
                None => "parse"@,
            })
            &&& text@ == (match e.text {
                Some(t) => t@,
                None => Seq::empty(),
            })
            &&& line == (or_zero(e.line) as usize) + 1
            &&& column == (or_zero(e.column) as usize) + 1
        },
        _ => false,
    }
}

/// Trees without holes.
pub open spec fn cleaned_list(ns: Seq<RawNode>) -> Seq<NodeV> {
    ns.map_values(|n: RawNode| cleaned(n))
}

/// The mathematical forms of trees.
pub open spec fn node_views(ns: Seq<Node>) -> Seq<NodeV> {
    ns.map_values(|n: Node| n@)
}

/// The error of the front end for an error of a run.
fn syntax_error(e: &SyntaxError) -> (r: FeError)
    requires
        countable(*e),
    ensures
        states(r, *e),
{
    let phase: String = match &e.phase {
        Some(p) => p.clone(),
        None => "parse".to_owned(),
    };
    let text: String = match &e.text {
        Some(t) => t.clone(),
        None => String::new(),
    };
    assert(e.text is None ==> text@ =~= Seq::<char>::empty());
    let line: u64 = match e.line {
        Some(v) => v,
        None => 0,
    };
    let column: u64 = match e.column {
        Some(v) => v,
        None => 0,
    };
    FeError::Syntax { phase, text, line: line as usize + 1, column: column as usize + 1 }
}

/// Accept a run: its tree and tokens, without holes.
///
/// With `reject_recovery`, the first error reported is an error, and so is a
/// process that failed. A run without a tree is an error in any case.
pub fn accept(report: &SyntaxReport, reject_recovery: bool) -> (r: Result<(Node, Vec<Node>), FeError>)
    requires
        reject_recovery && report.first() is Some ==> countable(report.first()->0),
    ensures
        reject_recovery && report.first() is Some ==> (r matches Err(f) && states(
            f,
            report.first()->0,
        )),
        reject_recovery && report.first() is None && !report.success ==> (r matches Err(
            FeError::NoTree { stderr },
        ) && stderr@ == report.stderr@),
        !(reject_recovery && (report.first() is Some || !report.success)) ==> match report.tree {
            Some(tree) => r matches Ok((n, ts)) && n@ == cleaned(tree) && node_views(ts@)
                == cleaned_list(report.tokens@),
            None => r matches Err(FeError::NoTree { stderr }) && stderr@ == report.stderr@,
        },
{
    if reject_recovery {
        if let Some(e) = report.first_error() {
            return Err(syntax_error(e));
        }
        if !report.success {
            return Err(FeError::NoTree { stderr: report.stderr.clone() });
        }
    }
    let tree: Node = match &report.tree {
        Some(tree) => clean(tree),
        None => {
            return Err(FeError::NoTree { stderr: report.stderr.clone() });
        },
    };
    let mut tokens: Vec<Node> = Vec::new();
    let mut i: usize = 0;
    assert(node_views(tokens@) =~= cleaned_list(report.tokens@.take(0)));
    while i < report.tokens.len()
        invariant
            i <= report.tokens@.len(),
            node_views(tokens@) == cleaned_list(report.tokens@.take(i as int)),
        decreases report.tokens@.len() - i,
    {
        let t: Node = clean(&report.tokens[i]);
        let ghost before = tokens@;
        tokens.push(t);
        i = i + 1;
        assert(node_views(tokens@) =~= node_views(before).push(t@));
        assert(cleaned_list(report.tokens@.take(i as int)) =~= cleaned_list(
            report.tokens@.take(i as int - 1),
        ).push(t@));
    }
    assert(report.tokens@.take(i as int) =~= report.tokens@);
    Ok((tree, tokens))
}

} // verus!
