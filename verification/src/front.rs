//! The front end after parsing: checking a tree against the supported subset and
//! lowering it.
use vstd::prelude::*;
use vstd::string::StringSliceAdditionalSpecFns;

use crate::ast::SourceFile;
use crate::ast_model::SourceFileV;
use crate::cst::{Node, NodeV};
use crate::drive::{strength_marks, token_marks, StrengthMark};
use crate::lower::{complete, descriptions, lower_file_with_strengths};
use crate::lower_check::is_complete;
use crate::strength::{contains_strength_keyword, strength_in, Lexing};
use crate::syntax_check::{names, rejected, validate};
use crate::verible::{node_views, FeError};

verus! {

/// Whether parsing keeps its best-effort fallbacks, or enforces the supported
/// subset.
#[derive(Debug, Clone, Copy, PartialEq, Eq, Structural)]
pub enum ParseMode {
    Permissive,
    Conformance,
}

/// Whether the parser has to list its tokens: to enforce the subset, or where the
/// source names a strength.
pub fn wants_tokens(source: &str, mode: ParseMode) -> (r: bool)
    ensures
        r == (mode == ParseMode::Conformance || strength_in(source@, Lexing::Code)),
{
    mode == ParseMode::Conformance || contains_strength_keyword(source)
}

/// Whether a tree that is not rejected has all that lowering it reads.
pub open spec fn well_formed(tree: NodeV, tokens: Seq<NodeV>, mode: ParseMode) -> bool {
    mode == ParseMode::Permissive || rejected(tree, tokens) is None ==> complete(tree)
}

/// What a tree lowers to: its descriptions, with the drive strengths that the tokens
/// spell.
pub open spec fn lowered(tree: NodeV, tokens: Seq<NodeV>) -> SourceFileV {
    SourceFileV { items: descriptions(tree, token_marks(tokens)) }
}

/// Check a tree in conformance mode, and lower it; `None` for a tree that is not
/// rejected and lacks something that lowering it reads.
pub fn parse_tree(tree: &Node, tokens: &Vec<Node>, source: &str, mode: ParseMode) -> (r: Option<
    Result<SourceFile, FeError>,
>)
    requires
        source.spec_bytes().len() < usize::MAX,
    ensures
        match r {
            Some(inner) => well_formed(tree@, node_views(tokens@), mode) && match rejected(
                tree@,
                node_views(tokens@),
            ) {
                Some(n) => if mode == ParseMode::Conformance {
                    inner matches Err(e) && names(e, n, source.spec_bytes())
                } else {
                    inner matches Ok(f) && f@ == lowered(tree@, node_views(tokens@))
                },
                None => inner matches Ok(f) && f@ == lowered(tree@, node_views(tokens@)),
            },
            None => !well_formed(tree@, node_views(tokens@), mode),
        },
{
    if mode == ParseMode::Conformance {
        if let Err(e) = validate(tree, tokens, source) {
            return Some(Err(e));
        }
    }
    if !is_complete(tree) {
        return None;
    }
    let marks: Vec<StrengthMark> = strength_marks(tokens);
    Some(Ok(lower_file_with_strengths(tree, &marks)))
}

} // verus!
