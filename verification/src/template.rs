//! The parsed template tree and its rendering.
//!
//! A [`Template`] owns an ordered sequence of [`Node`]s. Rendering threads
//! one mutable [`Context`] through every node in sequence, concatenating
//! the nodes' outputs; the first failure aborts the whole render with no
//! output. The meaning of rendering is given by the spec interpreter
//! [`render_list_spec`] and its companions, and every rendering function
//! is proved to agree with it.

use vstd::prelude::*;

use crate::context::Context;
use crate::error::Error;
use crate::lexer::ComparisonOperator;
use crate::value::{Value, ValueModel, value_model, models_of, model_text, model_describe,
    model_truthy, lemma_models_of};

verus! {

/// An operand of a condition: a variable name, a quoted string, or a
/// number.
#[derive(Debug)]
pub enum Term {
    Ident(String),
    StrLit(String),
    NumLit(i64),
}

/// The mathematical shape of a [`Term`].
pub enum TermModel {
    Ident(Seq<char>),
    StrLit(Seq<char>),
    NumLit(int),
}

/// The model of a term.
pub open spec fn term_model(t: Term) -> TermModel {
    match t {
        Term::Ident(s) => TermModel::Ident(s@),
        Term::StrLit(s) => TermModel::StrLit(s@),
        Term::NumLit(n) => TermModel::NumLit(n as int),
    }
}

/// The condition of a conditional directive: a single term judged for
/// truth, or a comparison of two terms.
#[derive(Debug)]
pub enum Condition {
    Single(Term),
    Compare(Term, ComparisonOperator, Term),
}

/// The mathematical shape of a [`Condition`].
pub enum CondModel {
    Single(TermModel),
    Compare(TermModel, ComparisonOperator, TermModel),
}

/// The model of a condition.
pub open spec fn cond_model(c: Condition) -> CondModel {
    match c {
        Condition::Single(t) => CondModel::Single(term_model(t)),
        Condition::Compare(l, op, r) => CondModel::Compare(term_model(l), op, term_model(r)),
    }
}

/// A node of the parsed tree. Each node renders independently against the
/// context that reaches it.
#[derive(Debug)]
pub enum Node {
    /// Literal template text, emitted verbatim.
    Text(String),
    /// An interpolation of the named variable; an unset name interpolates
    /// as nil, that is, as empty text.
    Output(String),
    /// The captured body of a raw block, emitted verbatim.
    RawText(String),
    /// A comment; renders to nothing.
    Comment,
    /// A conditional: renders its body when the condition holds.
    If(Condition, Template),
    /// An iteration: binds the named loop variable to each element of the
    /// named array in turn and renders its body once per element.
    For(String, String, Template),
}

/// The mathematical shape of a [`Node`].
pub enum NodeModel {
    Text(Seq<char>),
    Output(Seq<char>),
    RawText(Seq<char>),
    Comment,
    If(CondModel, Seq<NodeModel>),
    For(Seq<char>, Seq<char>, Seq<NodeModel>),
}

/// An immutable parsed template: an ordered sequence of renderable nodes.
#[derive(Debug)]
pub struct Template {
    nodes: Vec<Node>,
}

/// The model of a node.
pub open spec fn node_model(n: Node) -> NodeModel
    decreases n,
{
    match n {
        Node::Text(t) => NodeModel::Text(t@),
        Node::Output(name) => NodeModel::Output(name@),
        Node::RawText(t) => NodeModel::RawText(t@),
        Node::Comment => NodeModel::Comment,
        Node::If(c, body) => NodeModel::If(cond_model(c), template_model(body)),
        Node::For(var, arr, body) => NodeModel::For(var@, arr@, template_model(body)),
    }
}

/// The models of a sequence of nodes, in order.
pub open spec fn nodes_model(ns: Seq<Node>) -> Seq<NodeModel>
    decreases ns,
{
    if ns.len() == 0 {
        Seq::empty()
    } else {
        seq![node_model(ns[0])] + nodes_model(ns.drop_first())
    }
}

/// The model of a template: the models of its nodes.
pub closed spec fn template_model(t: Template) -> Seq<NodeModel>
    decreases t,
{
    nodes_model(t.nodes@)
}

/// `nodes_model` maps each node to its model.
pub proof fn lemma_nodes_model(ns: Seq<Node>)
    ensures
        nodes_model(ns).len() == ns.len(),
        forall|i: int| 0 <= i < ns.len() ==> #[trigger] nodes_model(ns)[i] == node_model(ns[i]),
    decreases ns,
{
    if ns.len() > 0 {
        lemma_nodes_model(ns.drop_first());
        assert forall|i: int| 0 <= i < ns.len() implies #[trigger] nodes_model(ns)[i]
            == node_model(ns[i]) by {
            if i > 0 {
                assert(nodes_model(ns)[i] == nodes_model(ns.drop_first())[i - 1]);
                assert(ns.drop_first()[i - 1] == ns[i]);
            }
        }
    }
}

/// The value a term takes against a context: a name resolves to its
/// binding, or to nil when unset; literals stand for themselves.
pub open spec fn term_value(t: TermModel, ctx: Map<Seq<char>, ValueModel>) -> ValueModel {
    match t {
        TermModel::Ident(name) => if ctx.contains_key(name) {
            ctx[name]
        } else {
            ValueModel::Nil
        },
        TermModel::StrLit(s) => ValueModel::Str(s),
        TermModel::NumLit(n) => ValueModel::Num(n),
    }
}

/// Numeric comparison under an operator.
pub open spec fn num_compare(op: ComparisonOperator, a: int, b: int) -> bool {
    match op {
        ComparisonOperator::Equals => a == b,
        ComparisonOperator::NotEquals => a != b,
        ComparisonOperator::LessThan => a < b,
        ComparisonOperator::GreaterThan => a > b,
        ComparisonOperator::LessThanEquals => a <= b,
        ComparisonOperator::GreaterThanEquals => a >= b,
    }
}

/// The truth of a condition against a context. Equality comparisons hold
/// of values with the same model, compared deeply; ordering comparisons
/// hold only between two numbers, and are false otherwise.
pub open spec fn cond_value(c: CondModel, ctx: Map<Seq<char>, ValueModel>) -> bool {
    match c {
        CondModel::Single(t) => model_truthy(term_value(t, ctx)),
        CondModel::Compare(l, op, r) => {
            let lv = term_value(l, ctx);
            let rv = term_value(r, ctx);
            match op {
                ComparisonOperator::Equals => lv == rv,
                ComparisonOperator::NotEquals => lv != rv,
                _ => match (lv, rv) {
                    (ValueModel::Num(a), ValueModel::Num(b)) => num_compare(op, a, b),
                    _ => false,
                },
            }
        },
    }
}

/// The text of an optional node output: no output reads as empty text.
pub open spec fn opt_text(o: Option<Seq<char>>) -> Seq<char> {
    match o {
        None => Seq::empty(),
        Some(s) => s,
    }
}

/// The description of an attempt to iterate over something that is not an
/// array.
pub open spec fn msg_iterate(x: Option<ValueModel>) -> Seq<char> {
    "Tried to iterate over "@ + (match x {
        None => "nothing"@,
        Some(v) => model_describe(v),
    }) + ", which is not supported."@
}

/// What rendering one node yields: its optional output and the context it
/// leaves behind, or the description of a render failure.
pub open spec fn render_node_spec(n: NodeModel, ctx: Map<Seq<char>, ValueModel>) -> Result<
    (Option<Seq<char>>, Map<Seq<char>, ValueModel>),
    Seq<char>,
>
    decreases n, 0int, 0int,
{
    match n {
        NodeModel::Text(t) => Ok((Some(t), ctx)),
        NodeModel::Output(name) => Ok(
            (
                Some(
                    model_text(
                        if ctx.contains_key(name) {
                            ctx[name]
                        } else {
                            ValueModel::Nil
                        },
                    ),
                ),
                ctx,
            ),
        ),
        NodeModel::RawText(t) => Ok((Some(t), ctx)),
        NodeModel::Comment => Ok((None, ctx)),
        NodeModel::If(c, body) => if cond_value(c, ctx) {
            match render_list_spec(body, ctx) {
                Err(m) => Err(m),
                Ok(p) => Ok((Some(p.0), p.1)),
            }
        } else {
            Ok((None, ctx))
        },
        NodeModel::For(var, arr, body) => {
            if ctx.contains_key(arr) && ctx[arr] is Array {
                match render_for_spec(body, var, ctx[arr]->Array_0, ctx) {
                    Err(m) => Err(m),
                    Ok(p) => Ok((Some(p.0), p.1)),
                }
            } else {
                Err(
                    msg_iterate(
                        if ctx.contains_key(arr) {
                            Some(ctx[arr])
                        } else {
                            None
                        },
                    ),
                )
            }
        },
    }
}

/// What rendering a sequence of nodes yields: the concatenation of their
/// outputs and the final context, or the first failure.
pub open spec fn render_list_spec(ns: Seq<NodeModel>, ctx: Map<Seq<char>, ValueModel>) -> Result<
    (Seq<char>, Map<Seq<char>, ValueModel>),
    Seq<char>,
>
    decreases ns, 0int, 0int,
{
    if ns.len() == 0 {
        Ok((Seq::empty(), ctx))
    } else {
        match render_node_spec(ns[0], ctx) {
            Err(m) => Err(m),
            Ok(p) => match render_list_spec(ns.drop_first(), p.1) {
                Err(m) => Err(m),
                Ok(q) => Ok((opt_text(p.0) + q.0, q.1)),
            },
        }
    }
}

/// What iterating a loop body over the remaining items yields: the loop
/// variable is bound to each item in turn, the body is rendered, and the
/// outputs accumulate; the binding made for an item stays in the context
/// when the next item is bound over it and when the loop ends.
pub open spec fn render_for_spec(
    body: Seq<NodeModel>,
    var: Seq<char>,
    items: Seq<ValueModel>,
    ctx: Map<Seq<char>, ValueModel>,
) -> Result<(Seq<char>, Map<Seq<char>, ValueModel>), Seq<char>>
    decreases body, 1int, items.len(),
{
    if items.len() == 0 {
        Ok((Seq::empty(), ctx))
    } else {
        match render_list_spec(body, ctx.insert(var, items[0])) {
            Err(m) => Err(m),
            Ok(p) => match render_for_spec(body, var, items.drop_first(), p.1) {
                Err(m) => Err(m),
                Ok(q) => Ok((p.0 + q.0, q.1)),
            },
        }
    }
}

/// The value a term takes against the live context.
fn eval_term(t: &Term, context: &Context) -> (r: Value)
    ensures
        value_model(r) == term_value(term_model(*t), context@),
{
    match t {
        Term::Ident(name) => match context.get_val(name.as_str()) {
            Some(v) => v.duplicate(),
            None => Value::Nil,
        },
        Term::StrLit(s) => Value::Str(s.clone()),
        Term::NumLit(n) => Value::Num(*n),
    }
}

/// The truth of a condition against the live context.
fn eval_cond(c: &Condition, context: &Context) -> (r: bool)
    ensures
        r == cond_value(cond_model(*c), context@),
{
    match c {
        Condition::Single(t) => {
            let v = eval_term(t, context);
            match v {
                Value::Nil => false,
                Value::Bool(b) => b,
                _ => true,
            }
        },
        Condition::Compare(l, op, r) => {
            let lv = eval_term(l, context);
            let rv = eval_term(r, context);
            match op {
                ComparisonOperator::Equals => lv.deep_eq(&rv),
                ComparisonOperator::NotEquals => !lv.deep_eq(&rv),
                _ => match (&lv, &rv) {
                    (Value::Num(a), Value::Num(b)) => match op {
                        ComparisonOperator::LessThan => *a < *b,
                        ComparisonOperator::GreaterThan => *a > *b,
                        ComparisonOperator::LessThanEquals => *a <= *b,
                        _ => *a >= *b,
                    },
                    _ => false,
                },
            }
        },
    }
}

impl Node {
    /// Renders this node against `context`, returning its output text, or
    /// `None` when the node succeeds without producing text. The result
    /// and the bindings left in `context` are exactly those of
    /// [`render_node_spec`]; a failure carries the render error it
    /// prescribes.
    pub fn render(&self, context: &mut Context) -> (r: Result<Option<String>, Error>)
        ensures
            match render_node_spec(node_model(*self), old(context)@) {
                Ok(p) => r matches Ok(out) && (out matches Some(s) ==> p.0 matches Some(t) && s@
                    == t) && (out is None ==> p.0 is None) && final(context)@ == p.1,
                Err(m) => r matches Err(e) && e matches Error::Render(d) && d@ == m,
            },
        decreases *self, 0int, 0int,
    {
        match self {
            Node::Text(t) => Ok(Some(t.clone())),
            Node::Output(name) => {
                match context.get_val(name.as_str()) {
                    Some(v) => Ok(Some(v.to_text())),
                    None => Ok(Some(String::new())),
                }
            },
            Node::RawText(t) => Ok(Some(t.clone())),
            Node::Comment => Ok(None),
            Node::If(c, body) => {
                if eval_cond(c, context) {
                    proof {
                        assert(decreases_to!(*self => *body));
                        assert(decreases_to!(*body => body.nodes));
                        assert(decreases_to!(body.nodes => body.nodes@));
                        assert(body.nodes@.skip(0) =~= body.nodes@);
                        assert(nodes_model(body.nodes@).skip(0) =~= nodes_model(body.nodes@));
                    }
                    match render_list(&body.nodes, 0, context) {
                        Err(e) => Err(e),
                        Ok(s) => Ok(Some(s)),
                    }
                } else {
                    Ok(None)
                }
            },
            Node::For(var, arr, body) => {
                let items = crate::tags::for_block::get_array(context, arr.as_str());
                match items {
                    Err(e) => Err(e),
                    Ok(items) => {
                        proof {
                            assert(decreases_to!(*self => *body));
                            assert(decreases_to!(*body => body.nodes));
                            assert(decreases_to!(body.nodes => body.nodes@));
                            assert(models_of(items@).skip(0) =~= models_of(items@));
                        }
                        match render_for_items(body, var, &items, 0, context) {
                            Err(e) => Err(e),
                            Ok(s) => Ok(Some(s)),
                        }
                    },
                }
            },
        }
    }
}

/// Renders the nodes of `nodes` from index `from` on, threading `context`
/// through them and concatenating their outputs, as
/// [`render_list_spec`] prescribes for the remaining nodes.
fn render_list(nodes: &Vec<Node>, from: usize, context: &mut Context) -> (r: Result<
    String,
    Error,
>)
    requires
        from <= nodes@.len(),
    ensures
        match render_list_spec(nodes_model(nodes@).skip(from as int), old(context)@) {
            Ok(p) => r matches Ok(s) && s@ == p.0 && final(context)@ == p.1,
            Err(m) => r matches Err(e) && e matches Error::Render(d) && d@ == m,
        },
    decreases nodes@.skip(from as int), 0int, 0int,
{
    proof {
        lemma_nodes_model(nodes@);
    }
    let ghost s_all = nodes_model(nodes@);
    if from >= nodes.len() {
        proof {
            assert(s_all.skip(from as int) =~= Seq::<NodeModel>::empty());
        }
        return Ok(String::new());
    }
    proof {
        assert(nodes@.skip(from as int)[0] == nodes@[from as int]);
        assert(decreases_to!(nodes@.skip(from as int) => nodes@.skip(from as int)[0]));
        assert(s_all.skip(from as int)[0] == node_model(nodes@[from as int]));
    }
    let node = &nodes[from];
    match node.render(context) {
        Err(e) => Err(e),
        Ok(out) => {
            proof {
                assert(nodes@.skip(from as int).subrange(1, nodes@.skip(from as int).len() as int)
                    =~= nodes@.skip(from as int + 1));
                assert(decreases_to!(nodes@.skip(from as int) => nodes@.skip(from as int).subrange(
                    1,
                    nodes@.skip(from as int).len() as int,
                )));
                assert(s_all.skip(from as int).drop_first() =~= s_all.skip(from as int + 1));
            }
            match render_list(nodes, from + 1, context) {
                Err(e) => Err(e),
                Ok(rest) => {
                    match out {
                        Some(s) => Ok(s.concat(rest.as_str())),
                        None => Ok(rest),
                    }
                },
            }
        },
    }
}

/// Renders the body of a loop once per remaining item of `items`, binding
/// `var_name` to each in turn, as [`render_for_spec`] prescribes.
fn render_for_items(
    inner: &Template,
    var_name: &String,
    items: &Vec<Value>,
    from: usize,
    context: &mut Context,
) -> (r: Result<String, Error>)
    requires
        from <= items@.len(),
    ensures
        match render_for_spec(
            template_model(*inner),
            var_name@,
            models_of(items@).skip(from as int),
            old(context)@,
        ) {
            Ok(p) => r matches Ok(s) && s@ == p.0 && final(context)@ == p.1,
            Err(m) => r matches Err(e) && e matches Error::Render(d) && d@ == m,
        },
    decreases inner.nodes@, 1int, items@.len() - from,
{
    proof {
        lemma_models_of(items@);
    }
    let ghost ms = models_of(items@);
    if from >= items.len() {
        proof {
            assert(ms.skip(from as int) =~= Seq::<ValueModel>::empty());
        }
        return Ok(String::new());
    }
    let item = items[from].duplicate();
    context.set_val(var_name.as_str(), item);
    proof {
        assert(ms.skip(from as int)[0] == ms[from as int]);
        assert(inner.nodes@.skip(0) =~= inner.nodes@);
        assert(nodes_model(inner.nodes@).skip(0) =~= nodes_model(inner.nodes@));
    }
    match render_list(&inner.nodes, 0, context) {
        Err(e) => Err(e),
        Ok(buf) => {
            proof {
                assert(ms.skip(from as int).drop_first() =~= ms.skip(from as int + 1));
            }
            match render_for_items(inner, var_name, items, from + 1, context) {
                Err(e) => Err(e),
                Ok(rest) => Ok(buf.concat(rest.as_str())),
            }
        },
    }
}

impl Template {
    /// Wraps a parsed node sequence as an immutable template.
    pub fn new(nodes: Vec<Node>) -> (r: Template)
        ensures
            template_model(r) == nodes_model(nodes@),
    {
        Template { nodes }
    }

    /// Renders the template against `context`: every node is rendered in
    /// order against the one context, and the non-empty outputs
    /// concatenate into the result. A successful render always yields
    /// `Some` text, possibly empty; the first failing node aborts the
    /// whole render, and no output is returned beside the error.
    pub fn render(&self, context: &mut Context) -> (r: Result<Option<String>, Error>)
        ensures
            match render_list_spec(template_model(*self), old(context)@) {
                Ok(p) => r matches Ok(out) && out matches Some(s) && s@ == p.0 && final(context)@
                    == p.1,
                Err(m) => r matches Err(e) && e matches Error::Render(d) && d@ == m,
            },
    {
        proof {
            assert(self.nodes@.skip(0) =~= self.nodes@);
            assert(nodes_model(self.nodes@).skip(0) =~= nodes_model(self.nodes@));
        }
        match render_list(&self.nodes, 0, context) {
            Err(e) => Err(e),
            Ok(s) => Ok(Some(s)),
        }
    }
}

impl crate::Renderable for Template {
    /// Renders as [`Template::render`] does.
    fn render(&self, context: &mut Context) -> Result<Option<String>, Error> {
        Template::render(self, context)
    }
}

impl crate::Renderable for Node {
    /// Renders as [`Node::render`] does.
    fn render(&self, context: &mut Context) -> Result<Option<String>, Error> {
        Node::render(self, context)
    }
}

} // verus!
