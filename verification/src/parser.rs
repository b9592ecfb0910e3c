//! The parser: executable code, proved to read what the grammar says.

use vstd::prelude::*;
use vstd::string::StringExecFns;
use crate::frag::{frags_view, lemma_frags_view_push, params_view, value_view, Frag, Param};
use crate::glyph::{
    classify, glyphs_of, lemma_run_len, push_char, run_holds, skip_spaces, take_name, take_while,
    text, Glyph, Run,
};
use crate::grammar::{
    ascii_fold, closing_text, eq_ignore_ascii_case, header_at, param_at, params_from, parse, scope,
};

verus! {

/// A stretch of the text: the glyphs from `start` up to, not including, `end`.
#[derive(Debug, Clone, Copy, PartialEq, Eq)]
pub struct Span {
    pub start: usize,
    pub end: usize,
}

impl Span {
    /// Whether the span lies inside `s`.
    pub open spec fn fits(self, s: Seq<Glyph>) -> bool {
        self.start <= self.end <= s.len()
    }

    /// The characters of `s` that the span covers.
    pub open spec fn text(self, s: Seq<Glyph>) -> Seq<char> {
        text(s, self.start as int, self.end as int)
    }
}

/// The name that closes a scope, if any, as the grammar takes it.
pub open spec fn closer_text(s: Seq<Glyph>, closer: Option<Span>) -> Option<Seq<char>> {
    match closer {
        Some(span) => Some(span.text(s)),
        None => None,
    }
}

/// An opening tag as read from the text.
pub struct Opening {
    pub name: String,
    /// Where the name stands in the text.
    pub name_span: Span,
    pub val: Option<String>,
    pub params: Vec<Param>,
    /// The position after the tag's `]`.
    pub next: usize,
}

/// The code point of `c` with ASCII capitals folded onto small letters.
pub fn fold_ascii(c: char) -> (u: u32)
    ensures
        u == ascii_fold(c),
{
    let u: u32 = c as u32;
    if 'A' <= c && c <= 'Z' {
        u + 32
    } else {
        u
    }
}

/// Compares two names of the text without regard to the case of ASCII
/// letters.
pub fn same_name(gs: &Vec<Glyph>, a: Span, b: Span) -> (same: bool)
    requires
        a.fits(gs@),
        b.fits(gs@),
    ensures
        same == eq_ignore_ascii_case(a.text(gs@), b.text(gs@)),
{
    if a.end - a.start != b.end - b.start {
        return false;
    }
    let n: usize = a.end - a.start;
    let mut i: usize = 0;
    while i < n
        invariant
            a.fits(gs@),
            b.fits(gs@),
            n == a.end - a.start,
            n == b.end - b.start,
            i <= n,
            forall|j: int| 0 <= j < i ==> ascii_fold(#[trigger] a.text(gs@)[j]) == ascii_fold(b.text(gs@)[j]),
        decreases n - i,
    {
        if fold_ascii(gs[a.start + i].ch) != fold_ascii(gs[b.start + i].ch) {
            assert(ascii_fold(a.text(gs@)[i as int]) != ascii_fold(b.text(gs@)[i as int]));
            return false;
        }
        i += 1;
    }
    true
}

/// Builds the literal text `[/name]`.
pub fn closing_literal(name: &String) -> (out: String)
    ensures
        out@ == closing_text(name@),
{
    let mut out = String::new();
    push_char(&mut out, '[');
    push_char(&mut out, '/');
    out.append(name.as_str());
    push_char(&mut out, ']');
    out
}

/// Reads the parameter whose token starts at `pos`.
pub fn take_param(gs: &Vec<Glyph>, pos: usize) -> (r: (Param, usize))
    ensures
        r.0@ == param_at(gs@, pos as int).0,
        r.1 == pos + param_at(gs@, pos as int).1,
        pos <= gs.len() ==> r.1 <= gs.len(),
{
    let (key, k) = take_while(gs, pos, Run::Key);
    proof {
        if pos <= gs.len() {
            lemma_run_len(gs@, pos as int, Run::Key);
        }
    }
    if k < gs.len() && run_holds(Run::Token, gs[k]) {
        let (val, end) = take_while(gs, k + 1, Run::Token);
        proof {
            lemma_run_len(gs@, k + 1, Run::Token);
        }
        (Param::Pair { key, val }, end)
    } else {
        (Param::Free(key), k)
    }
}

/// Reads the parameters from `pos` up to the next `]` or the end of the
/// text.
pub fn take_params(gs: &Vec<Glyph>, pos: usize) -> (r: (Vec<Param>, usize))
    ensures
        params_view(r.0@) == params_from(gs@, pos as int).0,
        r.1 == pos + params_from(gs@, pos as int).1,
        pos <= gs.len() ==> r.1 <= gs.len(),
{
    let mut params: Vec<Param> = Vec::new();
    let mut i: usize = pos;
    while i < gs.len() && gs[i].ch != ']'
        invariant
            pos <= i,
            pos <= gs.len() ==> i <= gs.len(),
            params_from(gs@, pos as int).0 == params_view(params@) + params_from(gs@, i as int).0,
            params_from(gs@, pos as int).1 == (i - pos) + params_from(gs@, i as int).1,
        decreases gs.len() - i,
    {
        let (param, end) = take_param(gs, i);
        let next = skip_spaces(gs, end);
        proof {
            lemma_run_len(gs@, end as int, Run::Space);
        }
        params.push(param);
        i = next;
    }
    (params, i)
}

/// Reads the header of the opening tag whose `[` stands just before `pos`.
pub fn take_header(gs: &Vec<Glyph>, pos: usize) -> (o: Opening)
    ensures
        o.name@ == header_at(gs@, pos as int).name,
        value_view(o.val) == header_at(gs@, pos as int).val,
        params_view(o.params@) == header_at(gs@, pos as int).params,
        o.next == pos + header_at(gs@, pos as int).used,
        o.name_span.text(gs@) == o.name@,
        pos <= gs.len() ==> o.next <= gs.len() && o.name_span.fits(gs@),
{
    let (name, name_end) = take_name(gs, pos);
    let eq = skip_spaces(gs, name_end);
    proof {
        if pos <= gs.len() {
            lemma_run_len(gs@, pos as int, Run::Name);
            lemma_run_len(gs@, name_end as int, Run::Space);
        }
    }
    let mut val: Option<String> = None;
    let mut first: usize = eq;
    if eq < gs.len() && gs[eq].ch == '=' {
        let (v, val_end) = take_while(gs, eq + 1, Run::Token);
        proof {
            lemma_run_len(gs@, eq + 1, Run::Token);
        }
        first = skip_spaces(gs, val_end);
        proof {
            lemma_run_len(gs@, val_end as int, Run::Space);
        }
        val = Some(v);
    }
    let (params, last) = take_params(gs, first);
    let next: usize = if last < gs.len() && gs[last].ch == ']' {
        last + 1
    } else {
        last
    };
    Opening { name, name_span: Span { start: pos, end: name_end }, val, params, next }
}

/// Reads fragments from `pos` until a closing tag matches `closer` or the
/// text ends. Returns them with the position after what was read.
pub fn parse_until(gs: &Vec<Glyph>, pos: usize, closer: Option<Span>) -> (r: (Vec<Frag>, usize))
    requires
        closer is Some ==> closer->0.fits(gs@),
    ensures
        frags_view(r.0@) == scope(gs@, pos as int, closer_text(gs@, closer)).0,
        r.1 == pos + scope(gs@, pos as int, closer_text(gs@, closer)).1,
        pos <= gs.len() ==> r.1 <= gs.len(),
    decreases gs.len() - pos,
{
    let ghost s = gs@;
    let ghost want = closer_text(s, closer);
    let mut frags: Vec<Frag> = Vec::new();
    let mut i: usize = pos;
    while i < gs.len()
        invariant
            s == gs@,
            want == closer_text(s, closer),
            closer is Some ==> closer->0.fits(s),
            pos <= i,
            pos <= gs.len() ==> i <= gs.len(),
            scope(s, pos as int, want).0 == frags_view(frags@) + scope(s, i as int, want).0,
            scope(s, pos as int, want).1 == (i - pos) + scope(s, i as int, want).1,
        decreases gs.len() - i,
    {
        let ghost before = frags@;
        let next: usize;
        let frag: Frag;
        if gs[i].ch != '[' {
            let (raw, end) = take_while(gs, i, Run::Text);
            proof {
                lemma_run_len(s, i as int, Run::Text);
            }
            frag = Frag::Raw(raw);
            next = end;
        } else if i + 1 < gs.len() && gs[i + 1].ch == '/' {
            let (name, name_end) = take_name(gs, i + 2);
            proof {
                lemma_run_len(s, i + 2, Run::Name);
            }
            let after: usize = if name_end < gs.len() && gs[name_end].ch == ']' {
                name_end + 1
            } else {
                name_end
            };
            let closes = match closer {
                Some(span) => same_name(gs, Span { start: i + 2, end: name_end }, span),
                None => false,
            };
            if closes {
                return (frags, after);
            }
            frag = Frag::Raw(closing_literal(&name));
            next = after;
        } else {
            let open = take_header(gs, i + 1);
            let (sub, end) = parse_until(gs, open.next, Some(open.name_span));
            frag = Frag::Tag { name: open.name, val: open.val, params: open.params, subfrags: sub };
            next = end;
        }
        proof {
            lemma_frags_view_push(before, frag);
        }
        frags.push(frag);
        i = next;
    }
    (frags, i)
}

/// Parses classified text into its fragments.
pub fn parse_glyphs(gs: &Vec<Glyph>) -> (frags: Vec<Frag>)
    ensures
        frags_view(frags@) == parse(gs@),
{
    parse_until(gs, 0, None).0
}

/// Parses markup into its fragments. Never fails: whatever is not a
/// well-formed tag is kept as text.
pub fn parse_frags(input: &str) -> (frags: Vec<Frag>)
    ensures
        frags_view(frags@) == parse(glyphs_of(input@)),
{
    let gs = classify(input);
    parse_glyphs(&gs)
}

} // verus!
