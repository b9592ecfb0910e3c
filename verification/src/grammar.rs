//! The grammar of the markup, as functions on classified text.
//!
//! Every function here reads `s` from a position onwards and says what stands
//! there together with how many glyphs it takes up. Nothing is ever rejected:
//! a bracket that cannot close simply runs to the end of the text.

use vstd::prelude::*;
use crate::frag::{FragView, ParamView};
use crate::glyph::{in_run, run_len, text, Glyph, Run};

verus! {

/// The code point of `c`, with the ASCII capital letters moved onto the
/// small ones. Every other character keeps its own code point.
pub open spec fn ascii_fold(c: char) -> int {
    if 'A' <= c <= 'Z' {
        c as int + 32
    } else {
        c as int
    }
}

/// Whether two names are the same up to the case of ASCII letters.
pub open spec fn eq_ignore_ascii_case(a: Seq<char>, b: Seq<char>) -> bool {
    &&& a.len() == b.len()
    &&& forall|i: int| 0 <= i < a.len() ==> ascii_fold(#[trigger] a[i]) == ascii_fold(b[i])
}

/// The literal text that stands for a closing tag that closes nothing.
pub open spec fn closing_text(name: Seq<char>) -> Seq<char> {
    seq!['[', '/'] + name + seq![']']
}

/// The number of glyphs from `pos` to the end of the text; zero beyond it.
pub open spec fn glyphs_left(s: Seq<Glyph>, pos: int) -> nat {
    if pos < s.len() {
        (s.len() - pos) as nat
    } else {
        0
    }
}

/// The parameter whose token starts at `pos`, and the length of that token.
/// The token is split at its first `=`, if it has one: that is where the key
/// ends and the token goes on.
pub open spec fn param_at(s: Seq<Glyph>, pos: int) -> (ParamView, nat) {
    let k = run_len(s, pos, Run::Key);
    if pos + k < s.len() && in_run(Run::Token, s[pos + k]) {
        let v = run_len(s, pos + k + 1, Run::Token);
        (
            ParamView::Pair {
                key: text(s, pos, pos + k),
                val: text(s, pos + k + 1, pos + k + 1 + v),
            },
            (k + 1 + v) as nat,
        )
    } else {
        (ParamView::Free(text(s, pos, pos + k)), k)
    }
}

/// The parameters from `pos` up to the next `]` or the end of the text, each
/// followed by white space, and the number of glyphs they take up together.
pub open spec fn params_from(s: Seq<Glyph>, pos: int) -> (Seq<ParamView>, nat)
    decreases glyphs_left(s, pos),
{
    if pos < 0 || pos >= s.len() || s[pos].ch == ']' {
        (Seq::empty(), 0)
    } else {
        let p = param_at(s, pos);
        let w = run_len(s, pos + p.1, Run::Space);
        let rest = params_from(s, pos + p.1 + w);
        (seq![p.0] + rest.0, (p.1 + w + rest.1) as nat)
    }
}

/// What an opening tag holds between its brackets.
pub ghost struct Header {
    pub name: Seq<char>,
    pub val: Option<Seq<char>>,
    pub params: Seq<ParamView>,
    /// The number of glyphs after the `[`, the closing `]` included where it
    /// is there.
    pub used: nat,
}

/// The header of the opening tag whose `[` stands just before `pos`: a name,
/// then `=` and a value where an `=` follows, then the parameters, then `]`.
pub open spec fn header_at(s: Seq<Glyph>, pos: int) -> Header {
    let n = run_len(s, pos, Run::Name);
    let eq = pos + n + run_len(s, pos + n, Run::Space);
    let has_val = eq < s.len() && s[eq].ch == '=';
    let v = run_len(s, eq + 1, Run::Token);
    let first = if has_val {
        eq + 1 + v + run_len(s, eq + 1 + v, Run::Space)
    } else {
        eq
    };
    let ps = params_from(s, first);
    let last = first + ps.1;
    let close: int = if last < s.len() && s[last].ch == ']' {
        1
    } else {
        0
    };
    Header {
        name: text(s, pos, pos + n),
        val: if has_val {
            Some(text(s, eq + 1, eq + 1 + v))
        } else {
            None
        },
        params: ps.0,
        used: (last + close - pos) as nat,
    }
}

/// The fragments from `pos` up to the closing tag that matches `closer`, or
/// to the end of the text where none does, and the number of glyphs read,
/// that closing tag included.
///
/// * Text up to the next `[` is one `Raw` fragment.
/// * `[/name]` ends the scope where `name` matches `closer` without regard to
///   ASCII case; anywhere else it is the `Raw` fragment `[/name]`.
/// * Any other `[` opens a tag, whose body is the scope that follows its
///   header, closed by the tag's own name.
pub open spec fn scope(s: Seq<Glyph>, pos: int, closer: Option<Seq<char>>) -> (Seq<FragView>, nat)
    decreases glyphs_left(s, pos),
{
    if pos < 0 || pos >= s.len() {
        (Seq::empty(), 0)
    } else if s[pos].ch != '[' {
        let n = 1 + run_len(s, pos + 1, Run::Text);
        let rest = scope(s, pos + n, closer);
        (seq![FragView::Raw(text(s, pos, pos + n))] + rest.0, (n + rest.1) as nat)
    } else if pos + 1 < s.len() && s[pos + 1].ch == '/' {
        let n = run_len(s, pos + 2, Run::Name);
        let name = text(s, pos + 2, pos + 2 + n);
        let close: int = if pos + 2 + n < s.len() && s[pos + 2 + n].ch == ']' {
            1
        } else {
            0
        };
        let used = 2 + n + close;
        if closer is Some && eq_ignore_ascii_case(name, closer->0) {
            (Seq::empty(), used as nat)
        } else {
            let rest = scope(s, pos + used, closer);
            (seq![FragView::Raw(closing_text(name))] + rest.0, (used + rest.1) as nat)
        }
    } else {
        let h = header_at(s, pos + 1);
        let body = scope(s, pos + 1 + h.used, Some(h.name));
        let rest = scope(s, pos + 1 + h.used + body.1, closer);
        (
            seq![
                FragView::Tag { name: h.name, val: h.val, params: h.params, subfrags: body.0 },
            ] + rest.0,
            (1 + h.used + body.1 + rest.1) as nat,
        )
    }
}

/// The fragments of a whole text: the scope that starts at its first glyph
/// and that no closing tag ends.
pub open spec fn parse(s: Seq<Glyph>) -> Seq<FragView> {
    scope(s, 0, None).0
}

} // verus!
