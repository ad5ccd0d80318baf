//! Parsing of element streams into renderable trees.
//!
//! [`parse`] walks the elements produced by the lexer. Literal text and
//! expressions become nodes directly; a tag is dispatched by name through
//! the registries of [`LiquidOptions`]. A tag whose matching
//! `end<name>` tag appears later — with nested same-named blocks tracked
//! by depth — spans a block: its inner elements are handed, unparsed, to
//! the block's constructor, which parses them recursively as it sees
//! fit. An unknown name, a directive's malformed argument grammar, or an
//! unmatched block end marker aborts parsing; no partial tree is ever
//! returned. The meaning of parsing is the spec function [`spec_parse`].

use vstd::prelude::*;

use crate::error::Error;
use crate::lexer::{Element, ElemModel, Token, TokenModel, ComparisonOperator, token_model,
    tokens_model, elem_model, elems_model, elem_raw, elems_raw};
use crate::template::{Node, NodeModel, TermModel, CondModel, node_model, nodes_model,
    lemma_nodes_model};
use crate::value::num_text;
use crate::{BlockKind, TagKind, LiquidOptions};

verus! {

/// The display text of a token, used in parse error messages.
pub open spec fn token_text(t: TokenModel) -> Seq<char> {
    match t {
        TokenModel::Pipe => "|"@,
        TokenModel::Dot => "."@,
        TokenModel::Colon => ":"@,
        TokenModel::Comparison(op) => match op {
            ComparisonOperator::Equals => "=="@,
            ComparisonOperator::NotEquals => "!="@,
            ComparisonOperator::LessThan => "<"@,
            ComparisonOperator::GreaterThan => ">"@,
            ComparisonOperator::LessThanEquals => "<="@,
            ComparisonOperator::GreaterThanEquals => ">="@,
        },
        TokenModel::Identifier(s) => s,
        TokenModel::StringLiteral(s) => seq!['"'] + s + seq!['"'],
        TokenModel::NumberLiteral(n) => num_text(n),
    }
}

/// The display text of a token that may be missing.
pub open spec fn opt_token_text(o: Option<TokenModel>) -> Seq<char> {
    match o {
        None => "nothing"@,
        Some(t) => token_text(t),
    }
}

/// The name a tag element is dispatched under: its first token, which
/// must be an identifier.
pub open spec fn tag_name(e: ElemModel) -> Option<Seq<char>> {
    match e {
        ElemModel::Tag(toks, _) => if toks.len() >= 1 && toks[0] is Identifier {
            Some(toks[0]->Identifier_0)
        } else {
            None
        },
        _ => None,
    }
}

/// Whether `name` is a block end marker, that is, starts with `end`.
pub open spec fn is_end_name(name: Seq<char>) -> bool {
    name.len() >= 3 && name.subrange(0, 3) == "end"@
}

/// The end marker that closes a block named `name`.
pub open spec fn end_name_of(name: Seq<char>) -> Seq<char> {
    "end"@ + name
}

pub open spec fn msg_bad_expression() -> Seq<char> {
    "expression must be a single identifier"@
}

pub open spec fn msg_bad_tag_start() -> Seq<char> {
    "tag must start with an identifier"@
}

pub open spec fn msg_unmatched_end(name: Seq<char>) -> Seq<char> {
    "unmatched block end marker "@ + name
}

pub open spec fn msg_unknown_tag(name: Seq<char>) -> Seq<char> {
    "no such tag "@ + name
}

pub open spec fn msg_unknown_block(name: Seq<char>) -> Seq<char> {
    "no such block "@ + name
}

pub open spec fn msg_expected_identifier(o: Option<TokenModel>) -> Seq<char> {
    "expected an identifier, found "@ + opt_token_text(o)
}

pub open spec fn msg_expected_in(o: Option<TokenModel>) -> Seq<char> {
    "expected 'in', found "@ + opt_token_text(o)
}

pub open spec fn msg_expected_value(o: Option<TokenModel>) -> Seq<char> {
    "expected a value, found "@ + opt_token_text(o)
}

pub open spec fn msg_expected_comparison(o: Option<TokenModel>) -> Seq<char> {
    "expected a comparison operator, found "@ + opt_token_text(o)
}

pub open spec fn msg_extra_argument(t: TokenModel) -> Seq<char> {
    "expected the end of the tag, found "@ + token_text(t)
}

/// How far after `from` the end marker of a block named `name` stands,
/// when `depth` same-named blocks are open: a same-named tag opens one
/// more, its end marker closes one.
pub open spec fn find_block_end(es: Seq<ElemModel>, from: int, name: Seq<char>, depth: int) -> Option<
    nat,
>
    decreases es.len() - from,
{
    if from >= es.len() {
        None
    } else if tag_name(es[from]) == Some(end_name_of(name)) && depth == 0 {
        Some(0nat)
    } else {
        let next_depth = if tag_name(es[from]) == Some(end_name_of(name)) {
            depth - 1
        } else if tag_name(es[from]) == Some(name) {
            depth + 1
        } else {
            depth
        };
        match find_block_end(es, from + 1, name, next_depth) {
            None => None,
            Some(d) => Some((d + 1) as nat),
        }
    }
}

/// The operand a token stands for in a condition, if any.
pub open spec fn term_of(t: TokenModel) -> Option<TermModel> {
    match t {
        TokenModel::Identifier(s) => Some(TermModel::Ident(s)),
        TokenModel::StringLiteral(s) => Some(TermModel::StrLit(s)),
        TokenModel::NumberLiteral(n) => Some(TermModel::NumLit(n)),
        _ => None,
    }
}

/// What the iteration block constructor yields: the body is parsed
/// first, then the argument grammar — exactly an identifier, the word
/// `in`, and an identifier — is validated, each failure naming the
/// unexpected token.
pub open spec fn spec_for_block(
    args: Seq<TokenModel>,
    inner: Seq<ElemModel>,
    blocks: Map<Seq<char>, BlockKind>,
    tags: Map<Seq<char>, TagKind>,
) -> Result<NodeModel, Seq<char>>
    decreases inner.len() + 1, 0int,
{
    match spec_parse(inner, blocks, tags) {
        Err(m) => Err(m),
        Ok(body) => {
            if !(args.len() >= 1 && args[0] is Identifier) {
                Err(
                    msg_expected_identifier(
                        if args.len() >= 1 {
                            Some(args[0])
                        } else {
                            None
                        },
                    ),
                )
            } else if !(args.len() >= 2 && args[1] is Identifier && args[1]->Identifier_0
                == "in"@) {
                Err(
                    msg_expected_in(
                        if args.len() >= 2 {
                            Some(args[1])
                        } else {
                            None
                        },
                    ),
                )
            } else if !(args.len() >= 3 && args[2] is Identifier) {
                Err(
                    msg_expected_identifier(
                        if args.len() >= 3 {
                            Some(args[2])
                        } else {
                            None
                        },
                    ),
                )
            } else if args.len() > 3 {
                Err(msg_extra_argument(args[3]))
            } else {
                Ok(NodeModel::For(args[0]->Identifier_0, args[2]->Identifier_0, body))
            }
        },
    }
}

/// What the conditional block constructor yields: the body is parsed
/// first, then the arguments must form a single value or a comparison of
/// two values.
pub open spec fn spec_if_block(
    args: Seq<TokenModel>,
    inner: Seq<ElemModel>,
    blocks: Map<Seq<char>, BlockKind>,
    tags: Map<Seq<char>, TagKind>,
) -> Result<NodeModel, Seq<char>>
    decreases inner.len() + 1, 0int,
{
    match spec_parse(inner, blocks, tags) {
        Err(m) => Err(m),
        Ok(body) => {
            if !(args.len() >= 1 && term_of(args[0]) is Some) {
                Err(
                    msg_expected_value(
                        if args.len() >= 1 {
                            Some(args[0])
                        } else {
                            None
                        },
                    ),
                )
            } else if args.len() == 1 {
                Ok(NodeModel::If(CondModel::Single(term_of(args[0])->Some_0), body))
            } else if !(args[1] is Comparison) {
                Err(msg_expected_comparison(Some(args[1])))
            } else if !(args.len() >= 3 && term_of(args[2]) is Some) {
                Err(
                    msg_expected_value(
                        if args.len() >= 3 {
                            Some(args[2])
                        } else {
                            None
                        },
                    ),
                )
            } else if args.len() > 3 {
                Err(msg_extra_argument(args[3]))
            } else {
                Ok(
                    NodeModel::If(
                        CondModel::Compare(
                            term_of(args[0])->Some_0,
                            args[1]->Comparison_0,
                            term_of(args[2])->Some_0,
                        ),
                        body,
                    ),
                )
            }
        },
    }
}

/// What the raw block constructor yields: the inner elements' raw source
/// text, verbatim, never re-lexed and never failing.
pub open spec fn spec_raw_block(inner: Seq<ElemModel>) -> NodeModel {
    NodeModel::RawText(elems_raw(inner))
}

/// What parsing a sequence of elements yields: the nodes of the tree, or
/// the first failure. A tag element whose matching end marker follows
/// spans a block and is dispatched through the block registry; one
/// without an end marker is dispatched through the tag registry; an
/// unknown name in either fails.
pub open spec fn spec_parse(
    es: Seq<ElemModel>,
    blocks: Map<Seq<char>, BlockKind>,
    tags: Map<Seq<char>, TagKind>,
) -> Result<Seq<NodeModel>, Seq<char>>
    decreases es.len(), 1int,
{
    if es.len() == 0 {
        Ok(Seq::empty())
    } else {
        match es[0] {
            ElemModel::Text(t) => match spec_parse(es.drop_first(), blocks, tags) {
                Err(m) => Err(m),
                Ok(rest) => Ok(seq![NodeModel::Text(t)] + rest),
            },
            ElemModel::Expression(toks, _raw) => {
                if toks.len() == 1 && toks[0] is Identifier {
                    match spec_parse(es.drop_first(), blocks, tags) {
                        Err(m) => Err(m),
                        Ok(rest) => Ok(seq![NodeModel::Output(toks[0]->Identifier_0)] + rest),
                    }
                } else {
                    Err(msg_bad_expression())
                }
            },
            ElemModel::Tag(toks, _raw) => {
                if !(toks.len() >= 1 && toks[0] is Identifier) {
                    Err(msg_bad_tag_start())
                } else {
                    let name = toks[0]->Identifier_0;
                    let args = toks.drop_first();
                    if is_end_name(name) {
                        Err(msg_unmatched_end(name))
                    } else {
                        match find_block_end(es, 1, name, 0) {
                            None => {
                                if tags.contains_key(name) {
                                    match tags[name] {
                                        TagKind::Emit(s) => match spec_parse(
                                            es.drop_first(),
                                            blocks,
                                            tags,
                                        ) {
                                            Err(m) => Err(m),
                                            Ok(rest) => Ok(seq![NodeModel::Text(s@)] + rest),
                                        },
                                    }
                                } else {
                                    Err(msg_unknown_tag(name))
                                }
                            },
                            Some(d) => {
                                let close: int = if 1 + d < es.len() {
                                    1 + d as int
                                } else if es.len() >= 2 {
                                    es.len() - 1
                                } else {
                                    1
                                };
                                let inner = es.subrange(1, close as int);
                                let rest_from = if close + 1 <= es.len() {
                                    close + 1
                                } else {
                                    es.len() as int
                                };
                                if !blocks.contains_key(name) {
                                    Err(msg_unknown_block(name))
                                } else {
                                    let made = match blocks[name] {
                                        BlockKind::Raw => Ok(spec_raw_block(inner)),
                                        BlockKind::Comment => Ok(NodeModel::Comment),
                                        BlockKind::If => spec_if_block(args, inner, blocks, tags),
                                        BlockKind::For => spec_for_block(
                                            args,
                                            inner,
                                            blocks,
                                            tags,
                                        ),
                                    };
                                    match made {
                                        Err(m) => Err(m),
                                        Ok(node) => match spec_parse(
                                            es.skip(rest_from),
                                            blocks,
                                            tags,
                                        ) {
                                            Err(m) => Err(m),
                                            Ok(rest) => Ok(seq![node] + rest),
                                        },
                                    }
                                }
                            },
                        }
                    }
                }
            },
        }
    }
}

/// The display text of a token, for error messages.
pub fn token_text_exec(t: &Token) -> (r: String)
    ensures
        r@ == token_text(token_model(*t)),
{
    match t {
        Token::Pipe => String::from_str("|"),
        Token::Dot => String::from_str("."),
        Token::Colon => String::from_str(":"),
        Token::Comparison(op) => match op {
            ComparisonOperator::Equals => String::from_str("=="),
            ComparisonOperator::NotEquals => String::from_str("!="),
            ComparisonOperator::LessThan => String::from_str("<"),
            ComparisonOperator::GreaterThan => String::from_str(">"),
            ComparisonOperator::LessThanEquals => String::from_str("<="),
            ComparisonOperator::GreaterThanEquals => String::from_str(">="),
        },
        Token::Identifier(s) => s.clone(),
        Token::StringLiteral(s) => {
            proof {
                reveal_strlit("\"");
            }
            let r = String::from_str("\"").concat(s.as_str()).concat("\"");
            proof {
                assert(r@ =~= seq!['"'] + s@ + seq!['"']);
            }
            r
        },
        Token::NumberLiteral(n) => crate::value::num_to_string(*n),
    }
}

/// Whether `name` starts with `end`.
fn is_end_marker(name: &String) -> (r: bool)
    ensures
        r == is_end_name(name@),
{
    if name.as_str().unicode_len() < 3 {
        return false;
    }
    let pre = name.as_str().substring_char(0, 3).to_owned();
    pre.eq(&String::from_str("end"))
}

proof fn lemma_find_shift(es: Seq<ElemModel>, off: int, k: int, name: Seq<char>, depth: int)
    requires
        0 <= off <= es.len(),
        0 <= k,
    ensures
        find_block_end(es.skip(off), k, name, depth) == find_block_end(es, off + k, name, depth),
    decreases es.len() - (off + k),
{
    if k >= es.skip(off).len() {
    } else {
        assert(es.skip(off)[k] == es[off + k]);
        lemma_find_shift(es, off, k + 1, name, depth);
        let nd = if tag_name(es[off + k]) == Some(end_name_of(name)) {
            depth - 1
        } else if tag_name(es[off + k]) == Some(name) {
            depth + 1
        } else {
            depth
        };
        lemma_find_shift(es, off, k + 1, name, nd);
    }
}

/// The position of the end marker of the block named `name` opened just
/// before `from`, with `depth` same-named blocks currently open.
fn find_block_end_at(
    elements: &Vec<Element>,
    from: usize,
    name: &String,
    end_name: &String,
    depth: usize,
) -> (r: Option<usize>)
    requires
        from <= elements@.len(),
        end_name@ == end_name_of(name@),
        depth <= from,
    ensures
        match r {
            Some(j) => from <= j < elements@.len() && find_block_end(
                elems_model(elements@),
                from as int,
                name@,
                depth as int,
            ) == Some((j - from) as nat),
            None => find_block_end(elems_model(elements@), from as int, name@, depth as int)
                is None,
        },
    decreases elements@.len() - from,
{
    if from >= elements.len() {
        return None;
    }
    let mut is_end = false;
    let mut is_open = false;
    match &elements[from] {
        Element::Tag(toks, _) => {
            if toks.len() >= 1 {
                match &toks[0] {
                    Token::Identifier(nm) => {
                        if nm.eq(end_name) {
                            is_end = true;
                        } else if nm.eq(name) {
                            is_open = true;
                        }
                    },
                    _ => {},
                }
            }
        },
        _ => {},
    }
    proof {
        assert(elems_model(elements@)[from as int] == elem_model(elements@[from as int]));
    }
    if is_end && depth == 0 {
        return Some(from);
    }
    let nd = if is_end {
        depth - 1
    } else if is_open {
        depth + 1
    } else {
        depth
    };
    find_block_end_at(elements, from + 1, name, end_name, nd)
}

/// Independent copies of the elements of `elements` from `from` up to
/// `to`.
fn slice_elements(elements: &Vec<Element>, from: usize, to: usize) -> (r: Vec<Element>)
    requires
        from <= to <= elements@.len(),
    ensures
        elems_model(r@) == elems_model(elements@).subrange(from as int, to as int),
{
    let mut out: Vec<Element> = Vec::new();
    let mut i: usize = from;
    #[verifier::loop_isolation(false)]
    while i < to
        invariant
            from <= i <= to,
            out@.len() == i - from,
            forall|j: int|
                0 <= j < out@.len() ==> elem_model(#[trigger] out@[j]) == elem_model(
                    elements@[from + j],
                ),
        decreases to - i,
    {
        let e = elements[i].duplicate();
        out.push(e);
        i = i + 1;
    }
    proof {
        assert(elems_model(out@) =~= elems_model(elements@).subrange(from as int, to as int));
    }
    out
}

/// Puts `node` in front of the nodes of `rest`.
fn prepend_node(node: Node, rest: Vec<Node>) -> (r: Vec<Node>)
    ensures
        nodes_model(r@) == seq![node_model(node)] + nodes_model(rest@),
{
    let ghost nm = node_model(node);
    let ghost r0 = rest@;
    let mut rest = rest;
    rest.insert(0, node);
    proof {
        lemma_nodes_model(rest@);
        lemma_nodes_model(r0);
        assert(nodes_model(rest@) =~= seq![nm] + nodes_model(r0));
    }
    rest
}

/// Parses the elements of `elements` from index `from` on, as
/// [`spec_parse`] prescribes for the remaining elements.
fn parse_at(elements: &Vec<Element>, from: usize, options: &LiquidOptions) -> (r: Result<
    Vec<Node>,
    Error,
>)
    requires
        from <= elements@.len(),
    ensures
        match spec_parse(
            elems_model(elements@).skip(from as int),
            options.blocks@,
            options.tags@,
        ) {
            Ok(ns) => r matches Ok(v) && nodes_model(v@) == ns,
            Err(m) => r matches Err(e) && e matches Error::Parser(d) && d@ == m,
        },
    decreases elements@.len() - from, 1int,
{
    let ghost s_all = elems_model(elements@);
    let ghost s_here = s_all.skip(from as int);
    if from >= elements.len() {
        let v: Vec<Node> = Vec::new();
        proof {
            assert(s_here =~= Seq::<ElemModel>::empty());
            assert(nodes_model(v@) =~= Seq::<NodeModel>::empty());
        }
        return Ok(v);
    }
    proof {
        assert(s_here[0] == elem_model(elements@[from as int]));
        assert(s_here.drop_first() =~= s_all.skip(from as int + 1));
    }
    match &elements[from] {
        Element::Text(t) => {
            match parse_at(elements, from + 1, options) {
                Err(e) => Err(e),
                Ok(rest) => Ok(prepend_node(Node::Text(t.clone()), rest)),
            }
        },
        Element::Expression(toks, _raw) => {
            if toks.len() == 1 {
                match &toks[0] {
                    Token::Identifier(nm) => {
                        match parse_at(elements, from + 1, options) {
                            Err(e) => Err(e),
                            Ok(rest) => Ok(prepend_node(Node::Output(nm.clone()), rest)),
                        }
                    },
                    _ => Err(
                        Error::Parser(String::from_str("expression must be a single identifier")),
                    ),
                }
            } else {
                Err(Error::Parser(String::from_str("expression must be a single identifier")))
            }
        },
        Element::Tag(toks, _raw) => {
            if toks.len() == 0 {
                return Err(Error::Parser(String::from_str("tag must start with an identifier")));
            }
            match &toks[0] {
                Token::Identifier(name) => {
                    if is_end_marker(name) {
                        return Err(
                            Error::Parser(
                                String::from_str("unmatched block end marker ").concat(
                                    name.as_str(),
                                ),
                            ),
                        );
                    }
                    let end_name = String::from_str("end").concat(name.as_str());
                    proof {
                        lemma_find_shift(s_all, from as int, 1, name@, 0);
                    }
                    match find_block_end_at(elements, from + 1, name, &end_name, 0) {
                        None => {
                            match options.tags.get(name.as_str()) {
                                None => Err(
                                    Error::Parser(
                                        String::from_str("no such tag ").concat(name.as_str()),
                                    ),
                                ),
                                Some(tk) => {
                                    match tk {
                                        TagKind::Emit(s) => {
                                            match parse_at(elements, from + 1, options) {
                                                Err(e) => Err(e),
                                                Ok(rest) => Ok(
                                                    prepend_node(Node::Text(s.clone()), rest),
                                                ),
                                            }
                                        },
                                    }
                                },
                            }
                        },
                        Some(j) => {
                            match options.blocks.get(name.as_str()) {
                                None => Err(
                                    Error::Parser(
                                        String::from_str("no such block ").concat(name.as_str()),
                                    ),
                                ),
                                Some(kind) => {
                                    let inner = slice_elements(elements, from + 1, j);
                                    let args = crate::lexer::copy_tokens_from(toks, 1);
                                    proof {
                                        assert(s_here.subrange(1, (j - from) as int) =~= s_all
                                            .subrange(from as int + 1, j as int));
                                        assert(tokens_model(toks@).skip(1) =~= tokens_model(
                                            toks@,
                                        ).drop_first());
                                        assert(s_here.skip((j - from) as int + 1) =~= s_all.skip(
                                            j as int + 1,
                                        ));
                                    }
                                    let made = match kind {
                                        BlockKind::Raw => crate::tags::raw_block::raw_block(
                                            name.as_str(),
                                            &args,
                                            inner,
                                            options,
                                        ),
                                        BlockKind::Comment =>
                                            crate::tags::comment_block::comment_block(
                                            name.as_str(),
                                            &args,
                                            inner,
                                            options,
                                        ),
                                        BlockKind::If => crate::tags::if_block::if_block(
                                            name.as_str(),
                                            &args,
                                            inner,
                                            options,
                                        ),
                                        BlockKind::For => crate::tags::for_block::for_block(
                                            name.as_str(),
                                            &args,
                                            inner,
                                            options,
                                        ),
                                    };
                                    match made {
                                        Err(e) => Err(e),
                                        Ok(node) => {
                                            match parse_at(elements, j + 1, options) {
                                                Err(e) => Err(e),
                                                Ok(rest) => Ok(prepend_node(node, rest)),
                                            }
                                        },
                                    }
                                },
                            }
                        },
                    }
                },
                _ => Err(Error::Parser(String::from_str("tag must start with an identifier"))),
            }
        },
    }
}

/// Parses a sequence of elements into renderable nodes against the
/// registries of `options`, as [`spec_parse`] prescribes: the first
/// unknown name, malformed directive grammar or unmatched block end
/// marker aborts parsing, and no partial tree is returned.
pub fn parse(elements: &Vec<Element>, options: &LiquidOptions) -> (r: Result<Vec<Node>, Error>)
    ensures
        match spec_parse(elems_model(elements@), options.blocks@, options.tags@) {
            Ok(ns) => r matches Ok(v) && nodes_model(v@) == ns,
            Err(m) => r matches Err(e) && e matches Error::Parser(d) && d@ == m,
        },
    decreases elements@.len(), 2int,
{
    proof {
        assert(elems_model(elements@).skip(0) =~= elems_model(elements@));
    }
    parse_at(elements, 0, options)
}

} // verus!
