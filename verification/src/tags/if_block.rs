//! The conditional block: `{% if <value> %}` or
//! `{% if <value> <op> <value> %}`, closed by `{% endif %}`.

use vstd::prelude::*;

use crate::error::Error;
use crate::lexer::{Element, Token, elems_model, tokens_model};
use crate::parser::{spec_if_block, term_of, parse, token_text_exec};
use crate::template::{Node, Condition, Term, Template, node_model, term_model};
use crate::LiquidOptions;

verus! {

/// The operand a token stands for, if any.
fn term_from(t: &Token) -> (r: Option<Term>)
    ensures
        match term_of(crate::lexer::token_model(*t)) {
            Some(tm) => r matches Some(x) && term_model(x) == tm,
            None => r is None,
        },
{
    match t {
        Token::Identifier(s) => Some(Term::Ident(s.clone())),
        Token::StringLiteral(s) => Some(Term::StrLit(s.clone())),
        Token::NumberLiteral(n) => Some(Term::NumLit(*n)),
        _ => None,
    }
}

/// Builds the conditional node. The body elements are parsed first; the
/// arguments must then form a single value or a comparison of two
/// values, each failure naming the unexpected token. At render time
/// exactly one branch is taken: the body when the condition holds,
/// nothing otherwise.
pub fn if_block(
    _tag_name: &str,
    arguments: &Vec<Token>,
    tokens: Vec<Element>,
    options: &LiquidOptions,
) -> (r: Result<Node, Error>)
    ensures
        match spec_if_block(
            tokens_model(arguments@),
            elems_model(tokens@),
            options.blocks@,
            options.tags@,
        ) {
            Ok(nm) => r matches Ok(n) && node_model(n) == nm,
            Err(m) => r matches Err(e) && e matches Error::Parser(d) && d@ == m,
        },
    decreases tokens@.len() + 1, 0int,
{
    let inner = match parse(&tokens, options) {
        Err(e) => {
            return Err(e);
        },
        Ok(v) => v,
    };
    if arguments.len() == 0 {
        return Err(Error::Parser(String::from_str("expected a value, found ").concat("nothing")));
    }
    let lhs = match term_from(&arguments[0]) {
        Some(t) => t,
        None => {
            let d = token_text_exec(&arguments[0]);
            return Err(
                Error::Parser(String::from_str("expected a value, found ").concat(d.as_str())),
            );
        },
    };
    if arguments.len() == 1 {
        return Ok(Node::If(Condition::Single(lhs), Template::new(inner)));
    }
    let op = match &arguments[1] {
        Token::Comparison(op) => *op,
        _ => {
            let d = token_text_exec(&arguments[1]);
            return Err(
                Error::Parser(
                    String::from_str("expected a comparison operator, found ").concat(d.as_str()),
                ),
            );
        },
    };
    if arguments.len() < 3 {
        return Err(Error::Parser(String::from_str("expected a value, found ").concat("nothing")));
    }
    let rhs = match term_from(&arguments[2]) {
        Some(t) => t,
        None => {
            let d = token_text_exec(&arguments[2]);
            return Err(
                Error::Parser(String::from_str("expected a value, found ").concat(d.as_str())),
            );
        },
    };
    if arguments.len() > 3 {
        let d = token_text_exec(&arguments[3]);
        return Err(
            Error::Parser(String::from_str("expected the end of the tag, found ").concat(
                d.as_str(),
            )),
        );
    }
    Ok(Node::If(Condition::Compare(lhs, op, rhs), Template::new(inner)))
}

} // verus!
