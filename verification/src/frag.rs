//! The fragment tree and its mathematical model.

use vstd::prelude::*;

verus! {

/// One space-delimited token inside a tag's bracket.
#[derive(Debug, PartialEq)]
pub enum Param {
    /// A bare token without `=`.
    Free(String),
    /// A token split at its first `=`.
    Pair { key: String, val: String },
}

/// A node of the parsed tree: literal text, or a tag with nested fragments.
#[derive(Debug, PartialEq)]
pub enum Frag {
    Raw(String),
    Tag { name: String, val: Option<String>, params: Vec<Param>, subfrags: Vec<Frag> },
}

/// Model of a [`Param`]: strings become sequences of characters.
pub ghost enum ParamView {
    Free(Seq<char>),
    Pair { key: Seq<char>, val: Seq<char> },
}

/// Model of a [`Frag`]: strings become sequences of characters, vectors
/// become sequences of models.
pub ghost enum FragView {
    Raw(Seq<char>),
    Tag { name: Seq<char>, val: Option<Seq<char>>, params: Seq<ParamView>, subfrags: Seq<FragView> },
}

impl View for Param {
    type V = ParamView;

    open spec fn view(&self) -> ParamView {
        match self {
            Param::Free(t) => ParamView::Free(t@),
            Param::Pair { key, val } => ParamView::Pair { key: key@, val: val@ },
        }
    }
}

impl View for Frag {
    type V = FragView;

    open spec fn view(&self) -> FragView {
        frag_view(*self)
    }
}

/// The model of a fragment.
pub open spec fn frag_view(f: Frag) -> FragView
    decreases f,
{
    match f {
        Frag::Raw(t) => FragView::Raw(t@),
        Frag::Tag { name, val, params, subfrags } => FragView::Tag {
            name: name@,
            val: value_view(val),
            params: params_view(params@),
            subfrags: frags_view(subfrags@),
        },
    }
}

/// The models of a sequence of fragments, in order:
/// [`lemma_frags_view_index`] reads them one by one.
pub open spec fn frags_view(fs: Seq<Frag>) -> Seq<FragView>
    decreases fs,
{
    if fs.len() == 0 {
        Seq::empty()
    } else {
        frags_view(fs.drop_last()).push(frag_view(fs.last()))
    }
}

/// The model of an optional value.
pub open spec fn value_view(val: Option<String>) -> Option<Seq<char>> {
    match val {
        Some(v) => Some(v@),
        None => None,
    }
}

/// The models of a sequence of parameters, in order.
pub open spec fn params_view(ps: Seq<Param>) -> Seq<ParamView> {
    Seq::new(ps.len(), |i: int| ps[i]@)
}

/// Appending a fragment appends its model.
pub proof fn lemma_frags_view_push(fs: Seq<Frag>, f: Frag)
    ensures
        frags_view(fs.push(f)) == frags_view(fs).push(f@),
{
    assert(fs.push(f).drop_last() =~= fs);
}

/// The models of a sequence of fragments are the models of its members, one
/// for one.
pub proof fn lemma_frags_view_index(fs: Seq<Frag>)
    ensures
        frags_view(fs).len() == fs.len(),
        forall|i: int|
            #![trigger frags_view(fs)[i]]
            #![trigger fs[i]]
            0 <= i < fs.len() ==> frags_view(fs)[i] == fs[i]@,
    decreases fs.len(),
{
    if fs.len() > 0 {
        lemma_frags_view_index(fs.drop_last());
    }
}

/// Sequences of fragments with the same models, one for one, have the same
/// models as a whole.
pub proof fn lemma_frags_view_same(a: Seq<Frag>, b: Seq<Frag>)
    requires
        a.len() == b.len(),
        forall|i: int| 0 <= i < a.len() ==> a[i]@ == b[i]@,
    ensures
        frags_view(a) == frags_view(b),
{
    lemma_frags_view_index(a);
    lemma_frags_view_index(b);
}

impl Clone for Param {
    /// A copy that holds the same strings.
    fn clone(&self) -> (copy: Param)
        ensures
            copy@ == self@,
    {
        match self {
            Param::Free(token) => Param::Free(token.clone()),
            Param::Pair { key, val } => Param::Pair { key: key.clone(), val: val.clone() },
        }
    }
}

/// Copies a list of parameters, one for one.
pub fn clone_params(params: &Vec<Param>) -> (copy: Vec<Param>)
    ensures
        params_view(copy@) == params_view(params@),
{
    let mut copy: Vec<Param> = Vec::new();
    let mut i: usize = 0;
    while i < params.len()
        invariant
            i <= params.len(),
            copy.len() == i,
            forall|j: int| 0 <= j < i ==> copy@[j]@ == params@[j]@,
        decreases params.len() - i,
    {
        copy.push(params[i].clone());
        i += 1;
    }
    copy
}

/// Copies a list of fragments, one for one.
pub fn clone_frags(frags: &Vec<Frag>) -> (copy: Vec<Frag>)
    ensures
        frags_view(copy@) == frags_view(frags@),
    decreases frags,
{
    let mut copy: Vec<Frag> = Vec::new();
    let mut i: usize = 0;
    while i < frags.len()
        invariant
            i <= frags.len(),
            copy.len() == i,
            forall|j: int| 0 <= j < i ==> copy@[j]@ == frags@[j]@,
        decreases frags.len() - i,
    {
        copy.push(frags[i].clone());
        i += 1;
    }
    proof {
        lemma_frags_view_same(copy@, frags@);
    }
    copy
}

impl Clone for Frag {
    /// A copy of the whole tree, with the same model.
    fn clone(&self) -> (copy: Frag)
        ensures
            copy@ == self@,
        decreases self,
    {
        match self {
            Frag::Raw(text) => Frag::Raw(text.clone()),
            Frag::Tag { name, val, params, subfrags } => Frag::Tag {
                name: name.clone(),
                val: match val {
                    Some(v) => Some(v.clone()),
                    None => None,
                },
                params: clone_params(params),
                subfrags: clone_frags(subfrags),
            },
        }
    }
}

} // verus!
