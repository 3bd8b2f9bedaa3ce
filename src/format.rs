use vstd::prelude::*;

use crate::builder::{
    flush_remaining, group_doc, group_notes, tail_breaks, new_sg, out_of_order, single_parents, MakeSegsState,
};
use crate::laws::{in_order, lemma_comments_rendered};
use crate::model::{arena_wf, Piece, render_group, Comment, Config, Group};
use crate::pattern::Pat;
use crate::render::render_into;

verus! {

/// Why a formatting operation produced no output.
#[derive(Clone, Copy, Debug, PartialEq, Eq, Structural)]
pub enum FormatError {
    /// Source positions out of order: the comments are not strictly sorted
    /// by position, or the walk met a position behind one already written.
    MalformedTree,
    /// A comment that found no place in the layout. Every comment is placed
    /// by this engine, so no operation reports it.
    UnattachedComment,
}

/// The comments are strictly ordered by position.
pub open spec fn comments_sorted(cs: Seq<Comment>) -> bool {
    forall|i: int| 0 <= i < cs.len() - 1 ==> (#[trigger] cs[i]).pos.precedes(cs[i + 1].pos)
}

/// Whether the comments are strictly ordered by position.
pub fn check_sorted(cs: &Vec<Comment>) -> (r: bool)
    ensures
        r == comments_sorted(cs@),
{
    let n = cs.len();
    if n == 0 {
        return true;
    }
    let mut i: usize = 0;
    while i + 1 < n
        invariant
            n == cs@.len(),
            n > 0,
            i < n,
            forall|j: int| 0 <= j < i ==> (#[trigger] cs@[j]).pos.precedes(cs@[j + 1].pos),
        decreases n - i,
    {
        if !cs[i].pos.before(&cs[i + 1].pos) {
            return false;
        }
        i = i + 1;
    }
    true
}

/// A finished tree of groups and the handle of its root.
pub struct Layout {
    pub groups: Vec<Group>,
    pub top: usize,
}

impl Layout {
    pub open spec fn wf(&self) -> bool {
        arena_wf(self.groups@) && self.top < self.groups@.len()
    }

    /// The text of the layout under `cfg`.
    pub open spec fn text(&self, cfg: Config) -> Seq<char> {
        render_group(self.groups@, cfg, self.top as nat, 0, 0).0
    }

    /// Renders the layout: each group stays on one line when it fits and
    /// holds nothing that forces a break, and breaks at its break points
    /// otherwise.
    pub fn render(&self, cfg: &Config) -> (r: String)
        requires
            self.wf(),
        ensures
            r@ == self.text(*cfg),
    {
        let mut out = String::new();
        render_into(&self.groups, cfg, self.top, 0, 0, &mut out);
        out
    }
}

/// The inputs are well formed: comments strictly sorted by position, and
/// the pattern's positions, in the order the walk writes them, never going
/// backwards.
pub open spec fn well_formed(pat: &Pat, comments: Seq<Comment>) -> bool {
    comments_sorted(comments) && !out_of_order(None, pat.walk())
}

/// `l` is the layout of `pat` with `comments`: a tree whose root holds the
/// pattern's whole document, then one break point for each comment that
/// came after the pattern, and whose groups hold every comment exactly
/// once, in source order.
pub open spec fn layout_of(l: Layout, pat: &Pat, comments: Seq<Comment>) -> bool {
    &&& l.wf()
    &&& group_notes(l.groups@, l.top as nat) == comments
    &&& single_parents(l.groups@, 0, Seq::empty())
    &&& exists|k: nat|
        k <= comments.len() && group_doc(l.groups@, l.top as nat) == seq![Piece::Open] + pat.doc()
            + tail_breaks(k) + seq![Piece::Close]
}

/// Builds the layout of a pattern with the source comments woven in. It
/// succeeds exactly on well-formed inputs, and then every comment stands in
/// the layout exactly once, in source order, and every group has at most
/// one parent: the layout is a tree.
pub fn build(pat: &Pat, comments: Vec<Comment>) -> (r: Result<Layout, FormatError>)
    ensures
        r is Ok <==> well_formed(pat, comments@),
        match r {
            Ok(l) => layout_of(l, pat, comments@),
            Err(e) => e == FormatError::MalformedTree,
        },
{
    if !check_sorted(&comments) {
        return Err(FormatError::MalformedTree);
    }
    let ghost cs = comments@;
    let mut out = MakeSegsState::new(comments);
    let mut sg = new_sg(&out);
    let ghost o1 = out;
    let root = pat.make_segs(&mut out);
    sg.attach(&out, root, Ghost(o1));
    let ghost o2 = out;
    let ghost d2 = sg.doc(out);
    assert(d2 =~= pat.doc());
    flush_remaining(&mut out, &mut sg);
    let ghost k = (out.cursor - o2.cursor) as nat;
    let top = sg.build(&mut out);
    assert(group_doc(out.groups@, top as nat) == seq![Piece::Open] + pat.doc() + tail_breaks(k)
        + seq![Piece::Close]);
    if out.malformed {
        return Err(FormatError::MalformedTree);
    }
    proof {
        assert(out.comments@.subrange(0, out.comments@.len() as int) =~= cs);
    }
    Ok(Layout { groups: out.groups, top })
}

/// Formats a pattern: builds its layout and renders it under `cfg`. The
/// output is all or nothing: the full text exactly on well-formed inputs,
/// an error otherwise. The text holds every comment, in source order.
pub fn format(pat: &Pat, comments: Vec<Comment>, cfg: &Config) -> (r: Result<String, FormatError>)
    ensures
        r is Ok <==> well_formed(pat, comments@),
        match r {
            Ok(s) => in_order(s@, comments@) && exists|l: Layout|
                layout_of(l, pat, comments@) && s@ == l.text(*cfg),
            Err(e) => e == FormatError::MalformedTree,
        },
{
    match build(pat, comments) {
        Ok(l) => {
            let s = l.render(cfg);
            proof {
                lemma_comments_rendered(l.groups@, *cfg, l.top as nat, 0, 0);
            }
            assert(layout_of(l, pat, comments@) && s@ == l.text(*cfg));
            Ok(s)
        },
        Err(e) => Err(e),
    }
}

} // verus!
