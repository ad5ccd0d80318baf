//! Engine-wide laws, stated over the spec interpreter and proved once
//! for all templates and contexts.

use vstd::prelude::*;

use crate::lexer::{ElemModel, elem_raw, elems_raw, find_close, spec_lex_from, spec_tokenize};
use crate::parser::{tag_name, is_end_name, find_block_end, spec_parse, msg_unknown_tag,
    msg_unknown_block};
use crate::template::{NodeModel, render_node_spec, render_list_spec, render_for_spec,
    msg_iterate};
use crate::value::ValueModel;
use crate::{BlockKind, TagKind};

verus! {

proof fn lemma_elems_raw_cons(a: ElemModel, rest: Seq<ElemModel>)
    ensures
        elems_raw(seq![a] + rest) == elem_raw(a) + elems_raw(rest),
{
    let s = seq![a] + rest;
    assert(s[0] == a);
    assert(s.drop_first() =~= rest);
}

proof fn lemma_find_close_bounds(s: Seq<char>, from: int, c0: char)
    ensures
        find_close(s, from, c0) matches Some(d) ==> from + d + 1 < s.len(),
    decreases s.len() - from,
{
    if from + 1 < s.len() && !(s[from] == c0 && s[from + 1] == '}') {
        lemma_find_close_bounds(s, from + 1, c0);
    }
}

proof fn lemma_lex_from_lossless(s: Seq<char>, i: int, pending: Seq<char>)
    requires
        0 <= i <= s.len(),
    ensures
        spec_lex_from(s, i, pending) matches Ok(es) ==> elems_raw(es) == pending + s.skip(i),
    decreases s.len() - i,
{
    if i >= s.len() {
        if pending.len() == 0 {
            assert(spec_lex_from(s, i, pending) == Ok::<_, Seq<char>>(Seq::<ElemModel>::empty()));
            assert(pending + s.skip(i) =~= Seq::<char>::empty());
        } else {
            assert(spec_lex_from(s, i, pending) == Ok::<_, Seq<char>>(
                seq![ElemModel::Text(pending)],
            ));
            assert(seq![ElemModel::Text(pending)].drop_first() =~= Seq::<ElemModel>::empty());
            assert(elems_raw(seq![ElemModel::Text(pending)]) == pending + elems_raw(
                Seq::<ElemModel>::empty(),
            ));
            assert(pending + s.skip(i) =~= pending + Seq::<char>::empty());
        }
    } else if s[i] == '{' && i + 1 < s.len() && (s[i + 1] == '{' || s[i + 1] == '%') {
        let is_expr = s[i + 1] == '{';
        let c0 = if is_expr {
            '}'
        } else {
            '%'
        };
        lemma_find_close_bounds(s, i + 2, c0);
        match find_close(s, i + 2, c0) {
            None => {},
            Some(d) => {
                let close = i + 2 + d;
                assert(close + 2 <= s.len());
                lemma_lex_from_lossless(s, close + 2, Seq::empty());
                match crate::lexer::spec_lex_tokens(s, i + 2, close) {
                    Err(_) => {},
                    Ok(toks) => {
                        match spec_lex_from(s, close + 2, Seq::empty()) {
                            Err(_) => {},
                            Ok(rest) => {
                                let raw = s.subrange(i, close + 2);
                                let el = if is_expr {
                                    ElemModel::Expression(toks, raw)
                                } else {
                                    ElemModel::Tag(toks, raw)
                                };
                                assert(elems_raw(rest) == Seq::<char>::empty() + s.skip(
                                    close + 2,
                                ));
                                assert(elems_raw(rest) =~= s.skip(close + 2));
                                lemma_elems_raw_cons(el, rest);
                                if pending.len() == 0 {
                                    assert(spec_lex_from(s, i, pending) == Ok::<_, Seq<char>>(
                                        seq![el] + rest,
                                    ));
                                    assert(raw + s.skip(close + 2) =~= pending + s.skip(i));
                                } else {
                                    assert(spec_lex_from(s, i, pending) == Ok::<_, Seq<char>>(
                                        seq![ElemModel::Text(pending), el] + rest,
                                    ));
                                    lemma_elems_raw_cons(
                                        ElemModel::Text(pending),
                                        seq![el] + rest,
                                    );
                                    assert(seq![ElemModel::Text(pending), el] + rest =~= seq![
                                        ElemModel::Text(pending),
                                    ] + (seq![el] + rest));
                                    assert(pending + (raw + s.skip(close + 2)) =~= pending
                                        + s.skip(i));
                                }
                            },
                        }
                    },
                }
            },
        }
    } else {
        lemma_lex_from_lossless(s, i + 1, pending.push(s[i]));
        assert(spec_lex_from(s, i, pending) == spec_lex_from(s, i + 1, pending.push(s[i])));
        assert(pending.push(s[i]) + s.skip(i + 1) =~= pending + s.skip(i));
    }
}

/// Tokenizing is lossless: the raw source texts of the elements of a
/// template concatenate back to the template itself. In particular the
/// raw text captured for a raw block is byte for byte the block's source
/// region.
pub proof fn lemma_tokenize_lossless(s: Seq<char>)
    ensures
        spec_tokenize(s) matches Ok(es) ==> elems_raw(es) == s,
{
    lemma_lex_from_lossless(s, 0, Seq::empty());
    assert(Seq::<char>::empty() + s.skip(0) =~= s);
}

/// A raw node renders to exactly its captured text, against every
/// context, leaving the context untouched.
pub proof fn lemma_raw_renders_verbatim(t: Seq<char>, ctx: Map<Seq<char>, ValueModel>)
    ensures
        render_node_spec(NodeModel::RawText(t), ctx) == Ok::<_, Seq<char>>((Some(t), ctx)),
{
}

/// Iterating over an empty array yields the empty string as the
/// directive's output — text, not the absence of output — and leaves the
/// context unchanged.
pub proof fn lemma_iterate_empty_array(
    var: Seq<char>,
    arr: Seq<char>,
    body: Seq<NodeModel>,
    ctx: Map<Seq<char>, ValueModel>,
)
    requires
        ctx.contains_key(arr),
        ctx[arr] == ValueModel::Array(Seq::<ValueModel>::empty()),
    ensures
        render_node_spec(NodeModel::For(var, arr, body), ctx) == Ok::<_, Seq<char>>(
            (Some(Seq::<char>::empty()), ctx),
        ),
{
}

/// Iterating over anything that is not an array — nil, a scalar, text,
/// or an unset name — fails the render with a message describing the
/// offending value.
pub proof fn lemma_iterate_non_array(
    var: Seq<char>,
    arr: Seq<char>,
    body: Seq<NodeModel>,
    ctx: Map<Seq<char>, ValueModel>,
)
    requires
        !(ctx.contains_key(arr) && ctx[arr] is Array),
    ensures
        render_node_spec(NodeModel::For(var, arr, body), ctx) == Err::<
            (Option<Seq<char>>, Map<Seq<char>, ValueModel>),
            _,
        >(
            msg_iterate(
                if ctx.contains_key(arr) {
                    Some(ctx[arr])
                } else {
                    None
                },
            ),
        ),
{
}

/// A tag whose name is registered in neither registry fails parsing with
/// an error naming it, rather than being silently skipped: with no
/// matching end marker the tag registry decides, with one the block
/// registry does.
pub proof fn lemma_unknown_name_fails(
    es: Seq<ElemModel>,
    blocks: Map<Seq<char>, BlockKind>,
    tags: Map<Seq<char>, TagKind>,
)
    requires
        es.len() > 0,
        tag_name(es[0]) is Some,
        !is_end_name(tag_name(es[0])->Some_0),
        !blocks.contains_key(tag_name(es[0])->Some_0),
        !tags.contains_key(tag_name(es[0])->Some_0),
    ensures
        find_block_end(es, 1, tag_name(es[0])->Some_0, 0) is None ==> spec_parse(
            es,
            blocks,
            tags,
        ) == Err::<Seq<NodeModel>, _>(msg_unknown_tag(tag_name(es[0])->Some_0)),
        find_block_end(es, 1, tag_name(es[0])->Some_0, 0) is Some ==> spec_parse(
            es,
            blocks,
            tags,
        ) == Err::<Seq<NodeModel>, _>(msg_unknown_block(tag_name(es[0])->Some_0)),
{
}

/// Whether no iteration directive occurs in a node.
pub open spec fn no_for_node(n: NodeModel) -> bool
    decreases n,
{
    match n {
        NodeModel::For(_, _, _) => false,
        NodeModel::If(_, body) => no_for_list(body),
        _ => true,
    }
}

/// Whether no iteration directive occurs in a sequence of nodes.
pub open spec fn no_for_list(ns: Seq<NodeModel>) -> bool
    decreases ns,
{
    if ns.len() == 0 {
        true
    } else {
        no_for_node(ns[0]) && no_for_list(ns.drop_first())
    }
}

proof fn lemma_no_for_node_preserves(n: NodeModel, ctx: Map<Seq<char>, ValueModel>)
    ensures
        no_for_node(n) ==> (render_node_spec(n, ctx) matches Ok(p) ==> p.1 == ctx),
    decreases n,
{
    match n {
        NodeModel::If(_, body) => {
            lemma_no_for_list_preserves(body, ctx);
        },
        _ => {},
    }
}

proof fn lemma_no_for_list_preserves(ns: Seq<NodeModel>, ctx: Map<Seq<char>, ValueModel>)
    ensures
        no_for_list(ns) ==> (render_list_spec(ns, ctx) matches Ok(p) ==> p.1 == ctx),
    decreases ns,
{
    if ns.len() > 0 {
        lemma_no_for_node_preserves(ns[0], ctx);
        match render_node_spec(ns[0], ctx) {
            Err(_) => {},
            Ok(p) => {
                lemma_no_for_list_preserves(ns.drop_first(), p.1);
            },
        }
    }
}

/// The loop variable binding is not removed when a loop ends: after a
/// successful iteration over a non-empty item sequence whose body
/// contains no further iteration directive, the context is exactly the
/// context before the loop with the loop variable bound to the last
/// item. A later loop reusing the name simply binds over it — the
/// shadow-leak behavior.
pub proof fn lemma_loop_variable_persists(
    body: Seq<NodeModel>,
    var: Seq<char>,
    items: Seq<ValueModel>,
    ctx: Map<Seq<char>, ValueModel>,
)
    requires
        no_for_list(body),
        items.len() > 0,
    ensures
        render_for_spec(body, var, items, ctx) matches Ok(p) ==> p.1 == ctx.insert(
            var,
            items.last(),
        ),
    decreases items.len(),
{
    let c1 = ctx.insert(var, items[0]);
    lemma_no_for_list_preserves(body, c1);
    match render_list_spec(body, c1) {
        Err(_) => {
            assert(render_for_spec(body, var, items, ctx) is Err);
        },
        Ok(p) => {
            assert(p.1 == c1);
            if items.len() == 1 {
                assert(items.drop_first().len() == 0);
                assert(render_for_spec(body, var, items.drop_first(), p.1) == Ok::<
                    _,
                    Seq<char>,
                >((Seq::<char>::empty(), p.1)));
                assert(items.last() == items[0]);
            } else {
                lemma_loop_variable_persists(body, var, items.drop_first(), p.1);
                assert(items.drop_first().last() == items.last());
                assert(c1.insert(var, items.last()) =~= ctx.insert(var, items.last()));
            }
            match render_for_spec(body, var, items.drop_first(), p.1) {
                Err(_) => {
                    assert(render_for_spec(body, var, items, ctx) is Err);
                },
                Ok(q) => {
                    assert(q.1 == ctx.insert(var, items.last()));
                    assert(render_for_spec(body, var, items, ctx) == Ok::<_, Seq<char>>(
                        (p.0 + q.0, q.1),
                    ));
                },
            }
        },
    }
}

proof fn lemma_node_extends_domain(n: NodeModel, ctx: Map<Seq<char>, ValueModel>)
    ensures
        render_node_spec(n, ctx) matches Ok(p) ==> ctx.dom().subset_of(p.1.dom()),
    decreases n, 0int, 0int,
{
    match n {
        NodeModel::If(_, body) => {
            lemma_list_extends_domain(body, ctx);
        },
        NodeModel::For(var, arr, body) => {
            if ctx.contains_key(arr) && ctx[arr] is Array {
                lemma_for_extends_domain(body, var, ctx[arr]->Array_0, ctx);
            }
        },
        _ => {},
    }
}

proof fn lemma_list_extends_domain(ns: Seq<NodeModel>, ctx: Map<Seq<char>, ValueModel>)
    ensures
        render_list_spec(ns, ctx) matches Ok(p) ==> ctx.dom().subset_of(p.1.dom()),
    decreases ns, 0int, 0int,
{
    if ns.len() > 0 {
        lemma_node_extends_domain(ns[0], ctx);
        match render_node_spec(ns[0], ctx) {
            Err(_) => {},
            Ok(p) => {
                lemma_list_extends_domain(ns.drop_first(), p.1);
            },
        }
    }
}

proof fn lemma_for_extends_domain(
    body: Seq<NodeModel>,
    var: Seq<char>,
    items: Seq<ValueModel>,
    ctx: Map<Seq<char>, ValueModel>,
)
    ensures
        render_for_spec(body, var, items, ctx) matches Ok(p) ==> ctx.dom().subset_of(p.1.dom())
            && (items.len() > 0 ==> p.1.dom().contains(var)),
    decreases body, 1int, items.len(),
{
    if items.len() > 0 {
        let c1 = ctx.insert(var, items[0]);
        lemma_list_extends_domain(body, c1);
        match render_list_spec(body, c1) {
            Err(_) => {},
            Ok(p) => {
                lemma_for_extends_domain(body, var, items.drop_first(), p.1);
                match render_for_spec(body, var, items.drop_first(), p.1) {
                    Err(_) => {},
                    Ok(q) => {
                        assert(render_for_spec(body, var, items, ctx) == Ok::<_, Seq<char>>(
                            (p.0 + q.0, q.1),
                        ));
                        assert(c1.dom().subset_of(q.1.dom()));
                    },
                }
            },
        }
    }
}

/// Rendering never unbinds a name: a successful iteration over a
/// non-empty item sequence — whatever its body holds, nested loops
/// included — leaves the loop variable bound in the context when the
/// loop ends.
pub proof fn lemma_loop_variable_stays_bound(
    body: Seq<NodeModel>,
    var: Seq<char>,
    items: Seq<ValueModel>,
    ctx: Map<Seq<char>, ValueModel>,
)
    requires
        items.len() > 0,
    ensures
        render_for_spec(body, var, items, ctx) matches Ok(p) ==> p.1.contains_key(var),
{
    lemma_for_extends_domain(body, var, items, ctx);
}

} // verus!
