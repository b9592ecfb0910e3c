//! What holds of the grammar for every text.

use vstd::prelude::*;
use crate::frag::{FragView, ParamView};
use crate::glyph::{
    glyphs_of, in_run, is_alphanumeric, keeps_punctuation, lemma_run_len, run_len, text, Glyph,
    Run,
};
use crate::grammar::{
    ascii_fold, closing_text, eq_ignore_ascii_case, header_at, param_at, params_from, parse, scope,
};

verus! {

/// A stretch of glyphs of one kind that ends at the end of the text, or
/// before a glyph of another kind, is the run that starts where it starts.
pub proof fn lemma_run_len_is(s: Seq<Glyph>, pos: int, end: int, run: Run)
    requires
        0 <= pos <= end <= s.len(),
        forall|i: int| pos <= i < end ==> in_run(run, #[trigger] s[i]),
        end < s.len() ==> !in_run(run, s[end]),
    ensures
        run_len(s, pos, run) == end - pos,
    decreases end - pos,
{
    if pos < end {
        lemma_run_len_is(s, pos + 1, end, run);
    }
}

/// A token is its key run alone, or its key run, an `=`, and the token that
/// follows the `=`.
pub proof fn lemma_token_after_key(s: Seq<Glyph>, pos: int)
    requires
        0 <= pos <= s.len(),
    ensures
        ({
            let k = run_len(s, pos, Run::Key);
            run_len(s, pos, Run::Token) == if pos + k < s.len() && in_run(Run::Token, s[pos + k]) {
                k + 1 + run_len(s, pos + k + 1, Run::Token)
            } else {
                k
            }
        }),
    decreases s.len() - pos,
{
    if pos < s.len() && in_run(Run::Key, s[pos]) {
        lemma_token_after_key(s, pos + 1);
    }
}

/// A parameter takes up exactly its token. A token without `=` is a free
/// parameter. A token with `=` is a pair: the key holds no `=`, and key, `=`
/// and value make up the token again.
pub proof fn lemma_param_splits_token(s: Seq<Glyph>, pos: int)
    requires
        0 <= pos <= s.len(),
    ensures
        ({
            let token = text(s, pos, pos + run_len(s, pos, Run::Token));
            let p = param_at(s, pos);
            &&& p.1 == run_len(s, pos, Run::Token)
            &&& !token.contains('=') ==> p.0 == ParamView::Free(token)
            &&& token.contains('=') ==> p.0 is Pair && !p.0->key.contains('=') && token == p.0->key
                + seq!['='] + p.0->val
        }),
{
    let n = run_len(s, pos, Run::Token);
    let k = run_len(s, pos, Run::Key);
    let token = text(s, pos, pos + n);
    let key = text(s, pos, pos + k);
    lemma_token_after_key(s, pos);
    lemma_run_len(s, pos, Run::Key);
    lemma_run_len(s, pos, Run::Token);
    assert forall|i: int| 0 <= i < k implies key[i] != '=' by {
        assert(in_run(Run::Key, s[pos + i]));
    }
    if pos + k < s.len() && in_run(Run::Token, s[pos + k]) {
        assert(token[k as int] == '=');
    }
}

/// The parameters of a header end inside the text, at its end or before a
/// `]`.
pub proof fn lemma_params_inside(s: Seq<Glyph>, pos: int)
    requires
        0 <= pos <= s.len(),
    ensures
        pos + params_from(s, pos).1 <= s.len(),
        pos + params_from(s, pos).1 < s.len() ==> s[pos + params_from(s, pos).1].ch == ']',
    decreases s.len() - pos,
{
    if pos < s.len() && s[pos].ch != ']' {
        let p = param_at(s, pos);
        lemma_param_splits_token(s, pos);
        lemma_run_len(s, pos, Run::Token);
        lemma_run_len(s, pos + p.1, Run::Space);
        lemma_params_inside(s, pos + p.1 + run_len(s, pos + p.1, Run::Space));
    }
}

/// A header ends inside the text.
pub proof fn lemma_header_inside(s: Seq<Glyph>, pos: int)
    requires
        0 <= pos <= s.len(),
    ensures
        pos + header_at(s, pos).used <= s.len(),
{
    let n = run_len(s, pos, Run::Name);
    lemma_run_len(s, pos, Run::Name);
    lemma_run_len(s, pos + n, Run::Space);
    let eq = pos + n + run_len(s, pos + n, Run::Space);
    if eq < s.len() && s[eq].ch == '=' {
        let v = run_len(s, eq + 1, Run::Token);
        lemma_run_len(s, eq + 1, Run::Token);
        lemma_run_len(s, eq + 1 + v, Run::Space);
        lemma_params_inside(s, eq + 1 + v + run_len(s, eq + 1 + v, Run::Space));
    } else {
        lemma_params_inside(s, eq);
    }
}

/// A scope never reads beyond the end of the text.
pub proof fn lemma_scope_inside(s: Seq<Glyph>, pos: int, closer: Option<Seq<char>>)
    requires
        0 <= pos <= s.len(),
    ensures
        pos + scope(s, pos, closer).1 <= s.len(),
    decreases s.len() - pos,
{
    if pos < s.len() {
        if s[pos].ch != '[' {
            lemma_run_len(s, pos + 1, Run::Text);
            lemma_scope_inside(s, pos + 1 + run_len(s, pos + 1, Run::Text), closer);
        } else if pos + 1 < s.len() && s[pos + 1].ch == '/' {
            let n = run_len(s, pos + 2, Run::Name);
            lemma_run_len(s, pos + 2, Run::Name);
            let close: int = if pos + 2 + n < s.len() && s[pos + 2 + n].ch == ']' {
                1
            } else {
                0
            };
            lemma_scope_inside(s, pos + 2 + n + close, closer);
        } else {
            let h = header_at(s, pos + 1);
            lemma_header_inside(s, pos + 1);
            lemma_scope_inside(s, pos + 1 + h.used, Some(h.name));
            let body = scope(s, pos + 1 + h.used, Some(h.name));
            lemma_scope_inside(s, pos + 1 + h.used + body.1, closer);
        }
    }
}

/// A scope that starts inside the text reads at least one glyph: whatever
/// stands there, a run of text, a closing tag or an opening tag, takes up
/// room.
pub proof fn lemma_scope_makes_progress(s: Seq<Glyph>, pos: int, closer: Option<Seq<char>>)
    requires
        0 <= pos < s.len(),
    ensures
        scope(s, pos, closer).1 >= 1,
{
}

/// Where no closing tag can end it, a scope reads the text to its end: no
/// glyph is left out.
pub proof fn lemma_open_scope_reads_all(s: Seq<Glyph>, pos: int)
    requires
        0 <= pos <= s.len(),
    ensures
        pos + scope(s, pos, None).1 == s.len(),
    decreases s.len() - pos,
{
    if pos < s.len() {
        if s[pos].ch != '[' {
            lemma_run_len(s, pos + 1, Run::Text);
            lemma_open_scope_reads_all(s, pos + 1 + run_len(s, pos + 1, Run::Text));
        } else if pos + 1 < s.len() && s[pos + 1].ch == '/' {
            let n = run_len(s, pos + 2, Run::Name);
            lemma_run_len(s, pos + 2, Run::Name);
            let close: int = if pos + 2 + n < s.len() && s[pos + 2 + n].ch == ']' {
                1
            } else {
                0
            };
            lemma_open_scope_reads_all(s, pos + 2 + n + close);
        } else {
            let h = header_at(s, pos + 1);
            lemma_header_inside(s, pos + 1);
            lemma_scope_inside(s, pos + 1 + h.used, Some(h.name));
            let body = scope(s, pos + 1 + h.used, Some(h.name));
            lemma_open_scope_reads_all(s, pos + 1 + h.used + body.1);
        }
    }
}

/// A text without `[` is kept whole: the empty text gives no fragment, any
/// other gives one `Raw` fragment that holds every character of it.
pub proof fn lemma_plain_text_is_kept(s: Seq<Glyph>)
    requires
        forall|i: int| 0 <= i < s.len() ==> (#[trigger] s[i]).ch != '[',
    ensures
        s.len() == 0 ==> parse(s) == Seq::<FragView>::empty(),
        s.len() > 0 ==> parse(s) == seq![FragView::Raw(text(s, 0, s.len() as int))],
{
    if s.len() > 0 {
        lemma_run_len_is(s, 1, s.len() as int, Run::Text);
        assert(scope(s, s.len() as int, None).0 == Seq::<FragView>::empty());
    }
}

/// A closing tag that stands alone is kept as the text it was written as.
pub proof fn lemma_lone_closing_tag_is_kept(s: Seq<Glyph>)
    requires
        forall|i: int| 0 <= i < s.len() ==> keeps_punctuation(#[trigger] s[i]),
        s.len() >= 3,
        s[0].ch == '[',
        s[1].ch == '/',
        forall|i: int| 2 <= i < s.len() - 1 ==> (#[trigger] s[i]).alnum,
        s[s.len() - 1].ch == ']',
    ensures
        parse(s) == seq![FragView::Raw(text(s, 0, s.len() as int))],
{
    let n = s.len() - 3;
    lemma_run_len_is(s, 2, s.len() - 1, Run::Name);
    let name = text(s, 2, 2 + n);
    assert(closing_text(name) =~= text(s, 0, s.len() as int));
    assert(scope(s, s.len() as int, None).0 == Seq::<FragView>::empty());
}

/// How deep tags nest inside a fragment: not at all in text, and in a tag one
/// level more than in its body.
pub open spec fn frag_depth(f: FragView) -> nat
    decreases f,
{
    match f {
        FragView::Raw(_) => 0,
        FragView::Tag { subfrags, .. } => 1 + depth(subfrags),
    }
}

/// How deep tags nest in a sequence of fragments: as deep as in the deepest
/// of them.
pub open spec fn depth(fs: Seq<FragView>) -> nat
    decreases fs,
{
    if fs.len() == 0 {
        0
    } else if depth(fs.drop_last()) >= frag_depth(fs.last()) {
        depth(fs.drop_last())
    } else {
        frag_depth(fs.last())
    }
}

/// A fragment in front of others nests as deep as the deeper of the two.
pub proof fn lemma_depth_front(f: FragView, rest: Seq<FragView>)
    ensures
        depth(seq![f] + rest) == if frag_depth(f) >= depth(rest) {
            frag_depth(f)
        } else {
            depth(rest)
        },
    decreases rest.len(),
{
    let all = seq![f] + rest;
    if rest.len() == 0 {
        assert(depth(all.drop_last()) == 0);
    } else {
        assert(all.drop_last() =~= seq![f] + rest.drop_last());
        lemma_depth_front(f, rest.drop_last());
    }
}

/// The number of `[` from `pos` to the end of the text.
pub open spec fn brackets_from(s: Seq<Glyph>, pos: int) -> nat
    decreases s.len() - pos,
{
    if 0 <= pos < s.len() {
        if s[pos].ch == '[' {
            1 + brackets_from(s, pos + 1)
        } else {
            brackets_from(s, pos + 1)
        }
    } else {
        0
    }
}

/// Further on in the text there are no more `[` left than before, and never
/// more than glyphs.
pub proof fn lemma_brackets_from(s: Seq<Glyph>, from: int, to: int)
    requires
        0 <= from <= to <= s.len(),
    ensures
        brackets_from(s, to) <= brackets_from(s, from) <= s.len() - from,
    decreases s.len() - from,
{
    if from < s.len() {
        if from < to {
            lemma_brackets_from(s, from + 1, to);
        } else {
            lemma_brackets_from(s, from + 1, from + 1);
        }
    }
}

/// Tags never nest deeper than there are `[` in the text, and so never
/// deeper than the text is long: every level takes up the `[` that opens it.
pub proof fn lemma_depth_is_bounded(s: Seq<Glyph>, pos: int, closer: Option<Seq<char>>)
    requires
        0 <= pos <= s.len(),
    ensures
        depth(scope(s, pos, closer).0) <= brackets_from(s, pos) <= s.len() - pos,
    decreases s.len() - pos,
{
    lemma_brackets_from(s, pos, pos);
    if pos < s.len() {
        if s[pos].ch != '[' {
            let n = 1 + run_len(s, pos + 1, Run::Text);
            lemma_run_len(s, pos + 1, Run::Text);
            lemma_depth_is_bounded(s, pos + n, closer);
            lemma_brackets_from(s, pos, pos + n);
            lemma_depth_front(FragView::Raw(text(s, pos, pos + n)), scope(s, pos + n, closer).0);
        } else if pos + 1 < s.len() && s[pos + 1].ch == '/' {
            let n = run_len(s, pos + 2, Run::Name);
            lemma_run_len(s, pos + 2, Run::Name);
            let close: int = if pos + 2 + n < s.len() && s[pos + 2 + n].ch == ']' {
                1
            } else {
                0
            };
            let next = pos + 2 + n + close;
            lemma_depth_is_bounded(s, next, closer);
            lemma_brackets_from(s, pos, next);
            lemma_depth_front(
                FragView::Raw(closing_text(text(s, pos + 2, pos + 2 + n))),
                scope(s, next, closer).0,
            );
        } else {
            let h = header_at(s, pos + 1);
            lemma_header_inside(s, pos + 1);
            let inner = pos + 1 + h.used;
            lemma_scope_inside(s, inner, Some(h.name));
            lemma_depth_is_bounded(s, inner, Some(h.name));
            let body = scope(s, inner, Some(h.name));
            lemma_depth_is_bounded(s, inner + body.1, closer);
            lemma_brackets_from(s, pos + 1, inner);
            lemma_brackets_from(s, pos + 1, inner + body.1);
            lemma_depth_front(
                FragView::Tag { name: h.name, val: h.val, params: h.params, subfrags: body.0 },
                scope(s, inner + body.1, closer).0,
            );
        }
    }
}

/// Whether a fragment is one that the parser can give: text is never empty,
/// and the name of a tag, and of every tag below it, holds alphanumeric
/// characters only.
pub open spec fn frag_is_sound(f: FragView) -> bool
    decreases f,
{
    match f {
        FragView::Raw(t) => t.len() > 0,
        FragView::Tag { name, subfrags, .. } => {
            &&& forall|i: int| 0 <= i < name.len() ==> is_alphanumeric(#[trigger] name[i])
            &&& frags_are_sound(subfrags)
        },
    }
}

/// Whether every fragment of a sequence is sound.
pub open spec fn frags_are_sound(fs: Seq<FragView>) -> bool
    decreases fs,
{
    fs.len() == 0 || (frags_are_sound(fs.drop_last()) && frag_is_sound(fs.last()))
}

/// A sound fragment in front of sound fragments gives sound fragments.
pub proof fn lemma_sound_front(f: FragView, rest: Seq<FragView>)
    requires
        frag_is_sound(f),
        frags_are_sound(rest),
    ensures
        frags_are_sound(seq![f] + rest),
    decreases rest.len(),
{
    let all = seq![f] + rest;
    if rest.len() == 0 {
        assert(frags_are_sound(all.drop_last()));
    } else {
        assert(all.drop_last() =~= seq![f] + rest.drop_last());
        lemma_sound_front(f, rest.drop_last());
    }
}

/// Every scope gives sound fragments, where the glyphs that are classed as
/// alphanumeric are so.
pub proof fn lemma_scope_is_sound(s: Seq<Glyph>, pos: int, closer: Option<Seq<char>>)
    requires
        0 <= pos <= s.len(),
        forall|i: int| 0 <= i < s.len() && (#[trigger] s[i]).alnum ==> is_alphanumeric(s[i].ch),
    ensures
        frags_are_sound(scope(s, pos, closer).0),
    decreases s.len() - pos,
{
    if pos < s.len() {
        if s[pos].ch != '[' {
            let n = 1 + run_len(s, pos + 1, Run::Text);
            lemma_run_len(s, pos + 1, Run::Text);
            lemma_scope_is_sound(s, pos + n, closer);
            lemma_sound_front(FragView::Raw(text(s, pos, pos + n)), scope(s, pos + n, closer).0);
        } else if pos + 1 < s.len() && s[pos + 1].ch == '/' {
            let n = run_len(s, pos + 2, Run::Name);
            lemma_run_len(s, pos + 2, Run::Name);
            let close: int = if pos + 2 + n < s.len() && s[pos + 2 + n].ch == ']' {
                1
            } else {
                0
            };
            let next = pos + 2 + n + close;
            let name = text(s, pos + 2, pos + 2 + n);
            if !(closer is Some && eq_ignore_ascii_case(name, closer->0)) {
                lemma_scope_is_sound(s, next, closer);
                lemma_sound_front(FragView::Raw(closing_text(name)), scope(s, next, closer).0);
            }
        } else {
            let h = header_at(s, pos + 1);
            lemma_header_inside(s, pos + 1);
            lemma_run_len(s, pos + 1, Run::Name);
            let inner = pos + 1 + h.used;
            lemma_scope_inside(s, inner, Some(h.name));
            lemma_scope_is_sound(s, inner, Some(h.name));
            let body = scope(s, inner, Some(h.name));
            lemma_scope_is_sound(s, inner + body.1, closer);
            let tag = FragView::Tag {
                name: h.name,
                val: h.val,
                params: h.params,
                subfrags: body.0,
            };
            assert forall|i: int| 0 <= i < h.name.len() implies is_alphanumeric(
                #[trigger] h.name[i],
            ) by {
                assert(in_run(Run::Name, s[pos + 1 + i]));
            }
            lemma_sound_front(tag, scope(s, inner + body.1, closer).0);
        }
    }
}

/// Whatever the text, parsing it gives sound fragments.
pub proof fn lemma_parse_is_sound(input: Seq<char>)
    ensures
        frags_are_sound(parse(glyphs_of(input))),
{
    lemma_scope_is_sound(glyphs_of(input), 0, None);
}

/// Two characters fold onto the same code point only where they are the same
/// character, or the capital and the small form of one ASCII letter.
pub proof fn lemma_fold_joins_only_case_variants(a: char, b: char)
    ensures
        ascii_fold(a) == ascii_fold(b) <==> a == b || ('A' <= a <= 'Z' && b as int == a as int + 32)
            || ('A' <= b <= 'Z' && a as int == b as int + 32),
{
}

/// Matching names without regard to ASCII case is an equivalence: every name
/// matches itself, and matching goes both ways and carries over.
pub proof fn lemma_name_match_is_equivalence(a: Seq<char>, b: Seq<char>, c: Seq<char>)
    ensures
        eq_ignore_ascii_case(a, a),
        eq_ignore_ascii_case(a, b) ==> eq_ignore_ascii_case(b, a),
        eq_ignore_ascii_case(a, b) && eq_ignore_ascii_case(b, c) ==> eq_ignore_ascii_case(a, c),
{
    if eq_ignore_ascii_case(a, b) {
        assert forall|i: int| 0 <= i < b.len() implies ascii_fold(#[trigger] b[i]) == ascii_fold(
            a[i],
        ) by {
            assert(ascii_fold(a[i]) == ascii_fold(b[i]));
        }
        if eq_ignore_ascii_case(b, c) {
            assert forall|i: int| 0 <= i < a.len() implies ascii_fold(#[trigger] a[i])
                == ascii_fold(c[i]) by {
                assert(ascii_fold(b[i]) == ascii_fold(c[i]));
            }
        }
    }
}

/// A well-formed tag without parameters around plain text is read as that
/// tag: its name as written when it was opened, whatever the case of the
/// ASCII letters in the name that closes it, and its body as one `Raw`
/// fragment.
pub proof fn lemma_simple_tag(s: Seq<Glyph>, n: int, m: int)
    requires
        forall|i: int| 0 <= i < s.len() ==> keeps_punctuation(#[trigger] s[i]),
        n >= 0,
        m >= 1,
        s.len() == 2 * n + m + 5,
        s[0].ch == '[',
        forall|i: int| 1 <= i < 1 + n ==> (#[trigger] s[i]).alnum,
        s[n + 1].ch == ']',
        forall|i: int| n + 2 <= i < n + 2 + m ==> (#[trigger] s[i]).ch != '[',
        s[n + 2 + m].ch == '[',
        s[n + 3 + m].ch == '/',
        forall|i: int| n + 4 + m <= i < 2 * n + 4 + m ==> (#[trigger] s[i]).alnum,
        s[s.len() - 1].ch == ']',
        eq_ignore_ascii_case(
            text(s, n + 4 + m, 2 * n + 4 + m),
            text(s, 1, n + 1),
        ),
    ensures
        parse(s) == seq![
            FragView::Tag {
                name: text(s, 1, n + 1),
                val: None,
                params: Seq::empty(),
                subfrags: seq![FragView::Raw(text(s, n + 2, n + 2 + m))],
            },
        ],
{
    let len = s.len() as int;
    let name = text(s, 1, n + 1);
    lemma_run_len_is(s, 1, n + 1, Run::Name);
    lemma_run_len_is(s, n + 1, n + 1, Run::Space);
    let h = header_at(s, 1);
    assert(h.name == name && h.val.is_none() && h.params.len() == 0 && h.used == n + 1);
    lemma_run_len_is(s, n + 3, n + 2 + m, Run::Text);
    lemma_run_len_is(s, n + 4 + m, len - 1, Run::Name);
    let closing = scope(s, n + 2 + m, Some(name));
    assert(closing.0.len() == 0 && closing.1 == n + 3);
    let body = scope(s, n + 2, Some(name));
    assert(body.0 == seq![FragView::Raw(text(s, n + 2, n + 2 + m))] && body.1 == m + n + 3);
    assert(scope(s, len, None).0 == Seq::<FragView>::empty());
}

} // verus!
