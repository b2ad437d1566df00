//! Absolute filesystem paths, modelled as a sequence of components.
//!
//! A component is non-empty and contains no separator, so a path renders to
//! text (`/a/b`) and back without ambiguity. The root renders as `/`.
use vstd::prelude::*;
use vstd::string::*;

use crate::strutil::clone_string_vec;

verus! {

/// A single path component: non-empty and free of the path separator.
pub open spec fn wf_component(c: Seq<char>) -> bool {
    c.len() > 0 && forall|i: int| 0 <= i < c.len() ==> c[i] != '/'
}

/// The text of a non-root path: `/` before each component.
pub open spec fn render_parts(p: Seq<Seq<char>>) -> Seq<char>
    decreases p.len(),
{
    if p.len() == 0 {
        Seq::empty()
    } else {
        render_parts(p.drop_last()) + seq!['/'] + p.last()
    }
}

/// The text of a path: `/` for the root, `/a/b` otherwise.
pub open spec fn spec_render(p: Seq<Seq<char>>) -> Seq<char> {
    if p.len() == 0 {
        seq!['/']
    } else {
        render_parts(p)
    }
}

/// An absolute path: the sequence of its components below the root.
pub struct AbsPath {
    components: Vec<String>,
}

impl View for AbsPath {
    type V = Seq<Seq<char>>;

    closed spec fn view(&self) -> Seq<Seq<char>> {
        self.components.deep_view()
    }
}

impl AbsPath {
    /// Every component is well formed.
    pub open spec fn wf(&self) -> bool {
        forall|i: int| 0 <= i < self@.len() ==> wf_component(#[trigger] self@[i])
    }

    /// The filesystem root.
    pub fn root() -> (r: AbsPath)
        ensures
            r@ == Seq::<Seq<char>>::empty(),
            r.wf(),
    {
        let r = AbsPath { components: Vec::new() };
        proof {
            assert(r@ =~= Seq::<Seq<char>>::empty());
        }
        r
    }

    /// Builds a path from components, rejecting any ill-formed one.
    pub fn new(components: Vec<String>) -> (r: Option<AbsPath>)
        ensures
            r matches Some(p) ==> p@ == components.deep_view() && p.wf(),
            r is None ==> !(forall|i: int|
                0 <= i < components@.len() ==> wf_component(#[trigger] components@[i]@)),
    {
        let mut i: usize = 0;
        while i < components.len()
            invariant
                0 <= i <= components@.len(),
                forall|k: int| 0 <= k < i ==> wf_component(#[trigger] components@[k]@),
            decreases components@.len() - i,
        {
            if !component_ok(components[i].as_str()) {
                return None;
            }
            i += 1;
        }
        let r = AbsPath { components };
        proof {
            assert(forall|k: int| 0 <= k < r@.len() ==> r@[k] == r.components@[k]@);
        }
        Some(r)
    }

    /// The components, outermost first.
    pub fn components(&self) -> (r: &Vec<String>)
        ensures
            r.deep_view() == self@,
    {
        &self.components
    }

    /// How many components lie below the root.
    pub fn depth(&self) -> (r: usize)
        ensures
            r == self@.len(),
    {
        self.components.len()
    }

    /// The component at `i`.
    pub fn component(&self, i: usize) -> (r: &String)
        requires
            i < self@.len(),
        ensures
            r@ == self@[i as int],
    {
        &self.components[i]
    }

    /// The path made of the first `k` components.
    pub fn prefix(&self, k: usize) -> (r: AbsPath)
        requires
            k <= self@.len(),
        ensures
            r@ == self@.take(k as int),
            self.wf() ==> r.wf(),
    {
        let mut comps: Vec<String> = Vec::new();
        let mut i: usize = 0;
        while i < k
            invariant
                k <= self@.len(),
                0 <= i <= k,
                comps@.len() == i,
                forall|j: int| 0 <= j < i ==> comps@[j]@ == #[trigger] self.components@[j]@,
            decreases k - i,
        {
            comps.push(self.components[i].clone());
            i += 1;
        }
        let r = AbsPath { components: comps };
        proof {
            assert(r@ =~= self@.take(k as int));
        }
        r
    }

    /// The path extended by one component.
    pub fn join(&self, c: &String) -> (r: AbsPath)
        requires
            wf_component(c@),
        ensures
            r@ == self@.push(c@),
            self.wf() ==> r.wf(),
    {
        let mut comps = clone_string_vec(&self.components);
        comps.push(c.clone());
        let r = AbsPath { components: comps };
        proof {
            assert(r@ =~= self@.push(c@));
        }
        r
    }

    /// The textual form of the path.
    pub fn render(&self) -> (r: String)
        ensures
            r@ == spec_render(self@),
    {
        if self.components.len() == 0 {
            let r = String::from_str("/");
            proof {
                reveal_strlit("/");
                assert(r@ =~= spec_render(self@));
            }
            return r;
        }
        let mut s = String::new();
        let mut i: usize = 0;
        while i < self.components.len()
            invariant
                s@ == render_parts(self@.take(i as int)),
                0 <= i <= self@.len(),
                self@.len() == self.components@.len(),
            decreases self@.len() - i,
        {
            s.append("/");
            s.append(self.components[i].as_str());
            proof {
                reveal_strlit("/");
                assert(self@.take(i + 1).drop_last() =~= self@.take(i as int));
                assert(s@ =~= render_parts(self@.take(i + 1)));
            }
            i += 1;
        }
        proof {
            assert(self@.take(self@.len() as int) =~= self@);
        }
        s
    }
}

/// Checks one component: non-empty, no separator.
pub fn component_ok(c: &str) -> (r: bool)
    ensures
        r == wf_component(c@),
{
    let n = c.unicode_len();
    if n == 0 {
        return false;
    }
    let mut i: usize = 0;
    while i < n
        invariant
            n == c@.len(),
            0 <= i <= n,
            forall|j: int| 0 <= j < i ==> c@[j] != '/',
        decreases n - i,
    {
        if c.get_char(i) == '/' {
            return false;
        }
        i += 1;
    }
    true
}

/// Splitting a rendering at a component boundary: the parts of a
/// concatenation render to the concatenation of the renderings.
pub proof fn lemma_render_parts_concat(a: Seq<Seq<char>>, b: Seq<Seq<char>>)
    ensures
        render_parts(a + b) == render_parts(a) + render_parts(b),
    decreases b.len(),
{
    if b.len() == 0 {
        assert(a + b =~= a);
        assert(render_parts(a) + render_parts(b) =~= render_parts(a));
    } else {
        assert((a + b).drop_last() =~= a + b.drop_last());
        lemma_render_parts_concat(a, b.drop_last());
        assert((a + b).last() == b.last());
        assert(render_parts(a) + render_parts(b.drop_last()) + seq!['/'] + b.last()
            =~= render_parts(a) + (render_parts(b.drop_last()) + seq!['/'] + b.last()));
    }
}

/// A non-root path's text starts with the separator.
pub proof fn lemma_render_parts_starts_sep(p: Seq<Seq<char>>)
    requires
        p.len() > 0,
    ensures
        render_parts(p).len() > 0,
        render_parts(p)[0] == '/',
    decreases p.len(),
{
    if p.len() == 1 {
        assert(render_parts(p.drop_last()) =~= Seq::<char>::empty());
        assert((render_parts(p.drop_last()) + seq!['/'] + p.last())[0] == '/');
    } else {
        lemma_render_parts_starts_sep(p.drop_last());
        assert((render_parts(p.drop_last()) + seq!['/'] + p.last())[0]
            == render_parts(p.drop_last())[0]);
    }
}

/// An ancestor's text is a prefix of the descendant's text.
pub proof fn lemma_render_prefix(a: Seq<Seq<char>>, b: Seq<Seq<char>>)
    ensures
        spec_render(a).is_prefix_of(spec_render(a + b)),
{
    if a.len() == 0 {
        if b.len() == 0 {
            assert(a + b =~= a);
        } else {
            assert(a + b =~= b);
            lemma_render_parts_starts_sep(b);
            assert(spec_render(a) =~= spec_render(a + b).take(1));
        }
    } else {
        assert((a + b).len() > 0);
        lemma_render_parts_concat(a, b);
        assert(spec_render(a) =~= spec_render(a + b).take(spec_render(a).len() as int));
    }
}

/// A prefix occurs as a substring, witnessed at the start.
pub proof fn lemma_prefix_contains(hay: Seq<char>, needle: Seq<char>)
    requires
        needle.is_prefix_of(hay),
    ensures
        crate::strutil::spec_contains(hay, needle),
{
    assert(hay.subrange(0, 0 + needle.len() as int) =~= needle);
}

} // verus!
