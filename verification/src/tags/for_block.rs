//! The iteration block: `{% for <var> in <array> %} body {% endfor %}`.

use vstd::prelude::*;

use crate::context::Context;
use crate::error::Error;
use crate::lexer::{Element, Token, elems_model, tokens_model};
use crate::parser::{spec_for_block, parse, token_text_exec};
use crate::template::{Node, Template, node_model};
use crate::value::{Value, ValueModel, value_model, models_of, lemma_models_of};
use crate::LiquidOptions;

verus! {

/// Builds the iteration node. The body elements are parsed first; the
/// arguments must then be exactly an identifier naming the loop
/// variable, the word `in`, and an identifier naming the source array.
/// Any other argument shape fails with a parse error naming the
/// unexpected token.
pub fn for_block(
    _tag_name: &str,
    arguments: &Vec<Token>,
    tokens: Vec<Element>,
    options: &LiquidOptions,
) -> (r: Result<Node, Error>)
    ensures
        match spec_for_block(
            tokens_model(arguments@),
            elems_model(tokens@),
            options.blocks@,
            options.tags@,
        ) {
            Ok(nm) => r matches Ok(n) && node_model(n) == nm,
            Err(m) => r matches Err(e) && e matches Error::Parser(d) && d@ == m,
        },
    decreases tokens@.len() + 1, 0int,
{
    let inner = match parse(&tokens, options) {
        Err(e) => {
            return Err(e);
        },
        Ok(v) => v,
    };
    if arguments.len() == 0 {
        return Err(
            Error::Parser(String::from_str("expected an identifier, found ").concat("nothing")),
        );
    }
    let var_name = match &arguments[0] {
        Token::Identifier(s) => s.clone(),
        other => {
            let d = token_text_exec(other);
            return Err(
                Error::Parser(
                    String::from_str("expected an identifier, found ").concat(d.as_str()),
                ),
            );
        },
    };
    if arguments.len() < 2 {
        return Err(Error::Parser(String::from_str("expected 'in', found ").concat("nothing")));
    }
    let in_ok = match &arguments[1] {
        Token::Identifier(s) => s.eq(&String::from_str("in")),
        _ => false,
    };
    if !in_ok {
        let d = token_text_exec(&arguments[1]);
        return Err(Error::Parser(String::from_str("expected 'in', found ").concat(d.as_str())));
    }
    if arguments.len() < 3 {
        return Err(
            Error::Parser(String::from_str("expected an identifier, found ").concat("nothing")),
        );
    }
    let array_id = match &arguments[2] {
        Token::Identifier(s) => s.clone(),
        other => {
            let d = token_text_exec(other);
            return Err(
                Error::Parser(
                    String::from_str("expected an identifier, found ").concat(d.as_str()),
                ),
            );
        },
    };
    if arguments.len() > 3 {
        let d = token_text_exec(&arguments[3]);
        return Err(
            Error::Parser(String::from_str("expected the end of the tag, found ").concat(
                d.as_str(),
            )),
        );
    }
    Ok(Node::For(var_name, array_id, Template::new(inner)))
}

/// The array bound to `array_id`, cloned so iteration is independent of
/// later rebinding. Any other binding — nil, a scalar, text, or an unset
/// name — is a render failure describing the offending value.
pub fn get_array(context: &mut Context, array_id: &str) -> (r: Result<Vec<Value>, Error>)
    ensures
        final(context)@ == old(context)@,
        match r {
            Ok(items) => old(context)@.contains_key(array_id@) && old(
                context,
            )@[array_id@] is Array && models_of(items@) == old(context)@[array_id@]->Array_0,
            Err(e) => {
                &&& !(old(context)@.contains_key(array_id@) && old(
                    context,
                )@[array_id@] is Array)
                &&& e matches Error::Render(m) && m@ == crate::template::msg_iterate(
                    if old(context)@.contains_key(array_id@) {
                        Some(old(context)@[array_id@])
                    } else {
                        None
                    },
                )
            },
        },
{
    let found = context.get_val(array_id);
    match found {
        Some(v) => {
            match v {
                Value::Array(x) => {
                    proof {
                        lemma_models_of(x@);
                    }
                    let mut out: Vec<Value> = Vec::new();
                    let mut i: usize = 0;
                    #[verifier::loop_isolation(false)]
                    while i < x.len()
                        invariant
                            i <= x@.len(),
                            out@.len() == i,
                            forall|j: int|
                                0 <= j < i ==> value_model(#[trigger] out@[j]) == value_model(
                                    x@[j],
                                ),
                        decreases x@.len() - i,
                    {
                        let e = x[i].duplicate();
                        out.push(e);
                        i = i + 1;
                    }
                    proof {
                        lemma_models_of(out@);
                        assert(models_of(out@) =~= models_of(x@));
                    }
                    Ok(out)
                },
                other => {
                    let desc = other.describe();
                    let m = String::from_str("Tried to iterate over ").concat(desc.as_str()).concat(
                        ", which is not supported.",
                    );
                    proof {
                        assert(m@ =~= crate::template::msg_iterate(
                            Some(value_model(*other)),
                        ));
                    }
                    Err(Error::Render(m))
                },
            }
        },
        None => {
            let m = String::from_str("Tried to iterate over ").concat("nothing").concat(
                ", which is not supported.",
            );
            proof {
                assert(m@ =~= crate::template::msg_iterate(None));
            }
            Err(Error::Render(m))
        },
    }
}

} // verus!
