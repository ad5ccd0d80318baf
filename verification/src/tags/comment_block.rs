//! The comment block: `{% comment %} body {% endcomment %}`.
//!
//! The body is discarded at parse time without being grammar-checked,
//! and rendering always yields no output.

use vstd::prelude::*;

use crate::error::Error;
use crate::lexer::{Element, Token};
use crate::template::{Node, NodeModel, node_model};
use crate::LiquidOptions;

verus! {

/// Builds the comment node; the body and arguments are discarded. Never
/// fails.
pub fn comment_block(
    _tag_name: &str,
    _arguments: &Vec<Token>,
    _tokens: Vec<Element>,
    _options: &LiquidOptions,
) -> (r: Result<Node, Error>)
    ensures
        r matches Ok(n) && node_model(n) == NodeModel::Comment,
{
    Ok(Node::Comment)
}

} // verus!
