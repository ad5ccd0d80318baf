//! The raw block: `{% raw %} body {% endraw %}`.
//!
//! The body is captured as literal text at parse time and never
//! re-lexed; rendering always emits it verbatim, including delimiter
//! lookalikes such as `{{` — the mechanism for producing literal
//! delimiter text.

use vstd::prelude::*;

use crate::error::Error;
use crate::lexer::{Element, ElemModel, Token, elem_model, elems_model, elem_raw, elems_raw};
use crate::parser::spec_raw_block;
use crate::template::{Node, node_model};
use crate::LiquidOptions;

verus! {

/// Builds the raw-passthrough node from the unparsed inner elements.
/// Never fails; the arguments are ignored.
pub fn raw_block(
    _tag_name: &str,
    _arguments: &Vec<Token>,
    tokens: Vec<Element>,
    _options: &LiquidOptions,
) -> (r: Result<Node, Error>)
    ensures
        r matches Ok(n) && node_model(n) == spec_raw_block(elems_model(tokens@)),
{
    let ghost m = elems_model(tokens@);
    let mut acc = String::new();
    let mut i: usize = 0;
    proof {
        assert(m.skip(0) =~= m);
        assert(Seq::<char>::empty() + elems_raw(m) =~= elems_raw(m));
    }
    #[verifier::loop_isolation(false)]
    while i < tokens.len()
        invariant
            i <= tokens@.len(),
            m == elems_model(tokens@),
            acc@ + elems_raw(m.skip(i as int)) == elems_raw(m),
        decreases tokens@.len() - i,
    {
        proof {
            assert(m.skip(i as int)[0] == m[i as int]);
            assert(m[i as int] == elem_model(tokens@[i as int]));
            assert(m.skip(i as int).drop_first() =~= m.skip(i as int + 1));
        }
        let piece = match &tokens[i] {
            Element::Text(t) => t,
            Element::Expression(_, raw) => raw,
            Element::Tag(_, raw) => raw,
        };
        proof {
            assert(piece@ == elem_raw(m[i as int]));
            assert(acc@ + piece@ + elems_raw(m.skip(i as int + 1)) =~= acc@ + elems_raw(
                m.skip(i as int),
            ));
        }
        acc.append(piece.as_str());
        i = i + 1;
    }
    proof {
        assert(m.skip(tokens@.len() as int) =~= Seq::<ElemModel>::empty());
        assert(acc@ =~= elems_raw(m));
    }
    Ok(Node::RawText(acc))
}

} // verus!
