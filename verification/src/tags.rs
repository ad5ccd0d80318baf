//! The built-in directives: iteration, conditional, raw passthrough and
//! comment. Each block constructor receives the tag's name, its argument
//! tokens, the unparsed elements of its body, and the parse options.

pub mod comment_block;
pub mod for_block;
pub mod if_block;
pub mod raw_block;
