//! A lenient parser for bracket-tag markup such as `[b]bold[/b]`.
//!
//! Text is first classified character by character ([`glyph`]), then read by a
//! recursive-descent parser ([`parser`]) whose result is stated against the
//! grammar in [`grammar`]. Malformed markup never fails: it degrades to literal
//! text. What the grammar guarantees for every text is proved in [`laws`].

pub mod frag;
pub mod glyph;
pub mod grammar;
pub mod laws;
pub mod parser;

pub use frag::{Frag, FragView, Param, ParamView};
pub use glyph::{classify, Glyph};
pub use parser::{parse_frags, parse_glyphs};
