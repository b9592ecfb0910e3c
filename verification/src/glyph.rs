//! Classified characters and maximal runs over them.
//!
//! Unicode decides which characters are alphanumeric and which are white
//! space. The parser never asks Unicode itself: every character is classified
//! once, and the grammar reads the recorded answers.

use vstd::prelude::*;

verus! {

/// What `char::is_alphanumeric` answers for `c`.
pub uninterp spec fn is_alphanumeric(c: char) -> bool;

/// What `char::is_whitespace` answers for `c`.
pub uninterp spec fn is_whitespace(c: char) -> bool;

/// Calls `char::is_alphanumeric`. Trusted: the answer depends on `c` alone, and
/// is the one that the grammar knows as [`is_alphanumeric`].
#[verifier::external_body]
fn char_is_alphanumeric(c: char) -> (b: bool)
    ensures
        b == is_alphanumeric(c),
{
    c.is_alphanumeric()
}

/// Calls `char::is_whitespace`. Trusted: the answer depends on `c` alone, and
/// is the one that the grammar knows as [`is_whitespace`].
#[verifier::external_body]
fn char_is_whitespace(c: char) -> (b: bool)
    ensures
        b == is_whitespace(c),
{
    c.is_whitespace()
}

/// Calls `String::push`. Trusted: the string afterwards is the string before
/// with `c` appended.
#[verifier::external_body]
pub(crate) fn push_char(s: &mut String, c: char)
    ensures
        final(s)@ == old(s)@.push(c),
{
    s.push(c)
}

/// A character together with its Unicode classification.
#[derive(Debug, Clone, Copy, PartialEq, Eq)]
pub struct Glyph {
    pub ch: char,
    /// Whether the character is alphabetic or numeric.
    pub alnum: bool,
    /// Whether the character is white space.
    pub space: bool,
}

/// The glyph that classification gives for `c`.
pub open spec fn glyph_of(c: char) -> Glyph {
    Glyph { ch: c, alnum: is_alphanumeric(c), space: is_whitespace(c) }
}

/// Whether the classes of `g` leave the markup's own punctuation alone: none
/// of `[`, `]`, `/` and `=` counts as alphanumeric or as white space.
pub open spec fn keeps_punctuation(g: Glyph) -> bool {
    g.ch == '[' || g.ch == ']' || g.ch == '/' || g.ch == '=' ==> !g.alnum && !g.space
}

/// The glyphs that classification gives for a text, in order.
pub open spec fn glyphs_of(s: Seq<char>) -> Seq<Glyph> {
    Seq::new(s.len(), |i: int| glyph_of(s[i]))
}

/// The characters of `s` from `from` up to, not including, `to`.
pub open spec fn text(s: Seq<Glyph>, from: int, to: int) -> Seq<char> {
    Seq::new((to - from) as nat, |i: int| s[from + i].ch)
}

/// The kinds of run that the grammar reads.
#[derive(Debug, Clone, Copy, PartialEq, Eq)]
pub enum Run {
    /// Literal text: anything but `[`.
    Text,
    /// A tag name: alphanumeric characters.
    Name,
    /// White space.
    Space,
    /// A value or parameter token: anything but `]` and white space.
    Token,
    /// The key of a parameter: a token character other than `=`.
    Key,
}

/// Whether a run of kind `run` may contain `g`.
pub open spec fn in_run(run: Run, g: Glyph) -> bool {
    match run {
        Run::Text => g.ch != '[',
        Run::Name => g.alnum,
        Run::Space => g.space,
        Run::Token => g.ch != ']' && !g.space,
        Run::Key => g.ch != ']' && !g.space && g.ch != '=',
    }
}

/// The length of the longest run of kind `run` that starts at `pos`; zero
/// where `pos` is not a position of `s`.
pub open spec fn run_len(s: Seq<Glyph>, pos: int, run: Run) -> nat
    decreases s.len() - pos,
{
    if 0 <= pos < s.len() && in_run(run, s[pos]) {
        1 + run_len(s, pos + 1, run)
    } else {
        0
    }
}

/// A run stays inside the text, holds only glyphs of its kind, and stops
/// only at the end of the text or before a glyph of another kind.
pub proof fn lemma_run_len(s: Seq<Glyph>, pos: int, run: Run)
    requires
        0 <= pos <= s.len(),
    ensures
        pos + run_len(s, pos, run) <= s.len(),
        forall|i: int| pos <= i < pos + run_len(s, pos, run) ==> in_run(run, #[trigger] s[i]),
        pos + run_len(s, pos, run) < s.len() ==> !in_run(run, s[pos + run_len(s, pos, run)]),
    decreases s.len() - pos,
{
    if pos < s.len() && in_run(run, s[pos]) {
        lemma_run_len(s, pos + 1, run);
    }
}

/// Classifies one character.
pub fn classify_char(c: char) -> (g: Glyph)
    ensures
        g == glyph_of(c),
{
    Glyph { ch: c, alnum: char_is_alphanumeric(c), space: char_is_whitespace(c) }
}

/// Classifies every character of `input`, in order.
pub fn classify(input: &str) -> (gs: Vec<Glyph>)
    ensures
        gs@ == glyphs_of(input@),
{
    let mut gs: Vec<Glyph> = Vec::new();
    let chars_it = input.chars();
    for c in it: chars_it
        invariant
            it.seq() == input@,
            gs@ == glyphs_of(input@.take(it.index())),
    {
        gs.push(classify_char(c));
    }
    gs
}

/// Decides whether a run of kind `run` may contain `g`.
pub fn run_holds(run: Run, g: Glyph) -> (b: bool)
    ensures
        b == in_run(run, g),
{
    match run {
        Run::Text => g.ch != '[',
        Run::Name => g.alnum,
        Run::Space => g.space,
        Run::Token => g.ch != ']' && !g.space,
        Run::Key => g.ch != ']' && !g.space && g.ch != '=',
    }
}

/// Reads the longest run of kind `run` that starts at `pos`: its text, and
/// the position after it.
pub fn take_while(gs: &Vec<Glyph>, pos: usize, run: Run) -> (r: (String, usize))
    ensures
        r.1 == pos + run_len(gs@, pos as int, run),
        r.0@ == text(gs@, pos as int, r.1 as int),
{
    let mut out = String::new();
    let mut i: usize = pos;
    while i < gs.len() && run_holds(run, gs[i])
        invariant
            pos <= i,
            run_len(gs@, pos as int, run) == (i - pos) + run_len(gs@, i as int, run),
            out@ == text(gs@, pos as int, i as int),
        decreases gs.len() - i,
    {
        push_char(&mut out, gs[i].ch);
        i += 1;
    }
    (out, i)
}

/// Reads a tag name: the alphanumeric run that starts at `pos`.
pub fn take_name(gs: &Vec<Glyph>, pos: usize) -> (r: (String, usize))
    ensures
        r.1 == pos + run_len(gs@, pos as int, Run::Name),
        r.0@ == text(gs@, pos as int, r.1 as int),
{
    take_while(gs, pos, Run::Name)
}

/// The position after the white space that starts at `pos`.
pub fn skip_spaces(gs: &Vec<Glyph>, pos: usize) -> (next: usize)
    ensures
        next == pos + run_len(gs@, pos as int, Run::Space),
{
    let mut i: usize = pos;
    while i < gs.len() && gs[i].space
        invariant
            pos <= i,
            run_len(gs@, pos as int, Run::Space) == (i - pos) + run_len(gs@, i as int, Run::Space),
        decreases gs.len() - i,
    {
        i += 1;
    }
    i
}

} // verus!
