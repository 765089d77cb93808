//! Compiler front end for a compact, Emmet-style markup abbreviation
//! language.
//!
//! An abbreviation such as `ul>li.item*3+{done}` describes a tree of
//! markup nodes: `>` nests, `+` places siblings, `*` repeats, `(...)`
//! groups, and `@path` / `$path` reference an external data model.
//! [`compile`] turns such a text into a [`TreeNode`] or reports a
//! syntax or tree-building error.

use vstd::prelude::*;

use crate::ast::{TreeBuildError, TreeNode};
use crate::parser::{SyntaxError, SyntaxParser};

pub mod ast;
pub mod builder;
pub mod chars;
pub mod model;
pub mod parser;
pub mod render;
pub mod syntax;

verus! {

/// A compilation failure: a syntax error from the grammar engine, or
/// a tree-building error.
#[derive(Debug)]
pub enum CompileError {
    Syntax(SyntaxError),
    Build(TreeBuildError),
}

/// Compiles one abbreviation text into its tree.  When the text has
/// a parse, the result is exactly what the composition model assigns
/// to that parse: the root-wrapped tree, or the tree-building error;
/// when it has none, a syntax error is returned.
pub fn compile(text: &str) -> (r: Result<TreeNode, CompileError>)
    ensures
        (match crate::parser::spec_parse_tree(text@) {
            Some(e) => (match crate::model::tree_model(e) {
                Ok(m) => r matches Ok(t) && t.dv() == m,
                Err(er) => r == Err::<TreeNode, CompileError>(CompileError::Build(er)),
            }),
            None => (r matches Err(ce) && ce matches CompileError::Syntax(_)),
        }),
{
    let expr = match SyntaxParser::parse_tree(text) {
        Ok(e) => e,
        Err(er) => {
            return Err(CompileError::Syntax(er));
        },
    };
    match TreeNode::from_expr(&expr) {
        Ok(t) => Ok(t),
        Err(er) => Err(CompileError::Build(er)),
    }
}

} // verus!
