//! A small text templating engine.
//!
//! A template mixes literal text, interpolation expressions (`{{ name }}`)
//! and directives (`{% for x in xs %} ... {% endfor %}`). [`parse`] turns a
//! template string into a [`Template`]; rendering the template against a
//! [`Context`] of named [`Value`]s produces the output text.

use vstd::prelude::*;
use vstd::hash_map::StringHashMap;

pub mod context;
pub mod laws;
pub mod error;
pub mod lexer;
pub mod parser;
pub mod tags;
pub mod template;
pub mod value;

pub use context::Context;
pub use error::Error;
pub use template::Template;
pub use value::Value;

verus! {

/// How strictly rendering should treat recoverable problems.
///
/// The setting is carried by [`LiquidOptions`] but currently has no effect
/// on parsing or rendering.
#[derive(Clone, Copy, Debug, PartialEq, Eq, Structural)]
pub enum ErrorMode {
    Strict,
    Warn,
    Lax,
}

impl Default for ErrorMode {
    /// The default mode is `Warn`.
    fn default() -> (r: ErrorMode)
        ensures
            r == ErrorMode::Warn,
    {
        ErrorMode::Warn
    }
}

/// Anything that can be rendered against a context: a whole template or a
/// single node of one.
pub trait Renderable {
    /// Renders against `context`, yielding the output text, `None` for
    /// success without text, or a failure.
    fn render(&self, context: &mut Context) -> Result<Option<String>, Error>;
}

/// The directive a registered block name constructs.
#[derive(Clone, Copy, Debug, PartialEq, Eq, Structural)]
pub enum BlockKind {
    /// A conditional block.
    If,
    /// An iteration block.
    For,
    /// A block whose body passes through verbatim, without being re-lexed.
    Raw,
    /// A block whose body is discarded.
    Comment,
}

/// The directive a registered tag name constructs.
#[derive(Debug)]
pub enum TagKind {
    /// A tag that always emits the given fixed text.
    Emit(String),
}

/// The options a template is parsed under: the open registries mapping
/// block and tag names to the directives they construct, and the (inert)
/// error mode. The built-in blocks are inserted by [`parse`], overwriting
/// any same-named entry.
pub struct LiquidOptions {
    pub blocks: StringHashMap<BlockKind>,
    pub tags: StringHashMap<TagKind>,
    pub error_mode: ErrorMode,
}

/// The block registry after the built-in blocks — `raw`, `if`, `for` and
/// `comment` — are inserted, overwriting any same-named user entry.
pub open spec fn builtin_blocks(blocks: Map<Seq<char>, BlockKind>) -> Map<Seq<char>, BlockKind> {
    blocks.insert("raw"@, BlockKind::Raw).insert("if"@, BlockKind::If).insert(
        "for"@,
        BlockKind::For,
    ).insert("comment"@, BlockKind::Comment)
}

/// Parses a template, returning a [`Template`] ready to render.
///
/// The text is tokenized; the built-in blocks are inserted into the
/// registries of `options`, taking precedence over same-named user
/// entries; and the elements are parsed against those registries. The
/// first lexical or parse failure aborts with its error, and no partial
/// template is ever returned.
pub fn parse(text: &str, options: LiquidOptions) -> (r: Result<Template, Error>)
    ensures
        ({
            let blocks = builtin_blocks(options.blocks@);
            match lexer::spec_tokenize(text@) {
                Err(m) => r matches Err(e) && e matches Error::Lexer(d) && d@ == m,
                Ok(elems) => match parser::spec_parse(elems, blocks, options.tags@) {
                    Err(m) => r matches Err(e) && e matches Error::Parser(d) && d@ == m,
                    Ok(ns) => r matches Ok(t) && template::template_model(t) == ns,
                },
            }
        }),
{
    let tokens = match lexer::tokenize(text) {
        Err(e) => {
            return Err(e);
        },
        Ok(v) => v,
    };
    let mut options = options;
    options.blocks.insert(String::from_str("raw"), BlockKind::Raw);
    options.blocks.insert(String::from_str("if"), BlockKind::If);
    options.blocks.insert(String::from_str("for"), BlockKind::For);
    options.blocks.insert(String::from_str("comment"), BlockKind::Comment);
    match parser::parse(&tokens, &options) {
        Err(e) => Err(e),
        Ok(nodes) => Ok(Template::new(nodes)),
    }
}

impl Default for LiquidOptions {
    /// Empty registries and the default error mode.
    fn default() -> (r: LiquidOptions)
        ensures
            r.blocks@ == Map::<Seq<char>, BlockKind>::empty(),
            r.tags@ == Map::<Seq<char>, TagKind>::empty(),
            r.error_mode == ErrorMode::Warn,
    {
        LiquidOptions {
            blocks: StringHashMap::new(),
            tags: StringHashMap::new(),
            error_mode: ErrorMode::Warn,
        }
    }
}

} // verus!
