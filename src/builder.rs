use vstd::prelude::*;

use crate::model::{
    arena_wf, lit_of, piece, Comment, Group, Piece, Segment,
};
use crate::pos::LineCol;

verus! {

/// The comments held, in order, by the first `n` segments of `segs`, looking
/// into child groups below handle `bound` of the arena `a`.
pub open spec fn seg_notes(a: Seq<Group>, bound: nat, segs: Seq<Segment>, n: nat) -> Seq<Comment>
    decreases bound, n,
{
    if n == 0 || n > segs.len() {
        Seq::empty()
    } else {
        seg_notes(a, bound, segs, (n - 1) as nat) + match segs[n - 1] {
            Segment::Note(cm) => seq![cm],
            Segment::Child(c) => if (c as nat) < bound && (c as nat) < a.len() {
                seg_notes(a, c as nat, a[c as int].segs@, a[c as int].segs@.len())
            } else {
                Seq::empty()
            },
            _ => Seq::empty(),
        }
    }
}

/// The comments held by group `h` and its descendants, in layout order.
pub open spec fn group_notes(a: Seq<Group>, h: nat) -> Seq<Comment> {
    if h < a.len() {
        seg_notes(a, h, a[h as int].segs@, a[h as int].segs@.len())
    } else {
        Seq::empty()
    }
}

/// Children of the first `n` segments all lie below `bound`.
pub open spec fn children_below(segs: Seq<Segment>, n: nat, bound: nat) -> bool {
    forall|i: int|
        0 <= i < n && i < segs.len() ==> match #[trigger] segs[i] {
            Segment::Child(c) => (c as nat) < bound,
            _ => true,
        }
}

/// The child handle held by segment `i` of group `g`, or, for `g == -1`,
/// by segment `i` of the open segments `extra`; -1 where there is none.
pub open spec fn child_at(a: Seq<Group>, extra: Seq<Segment>, g: int, i: int) -> int {
    if g == -1 {
        if 0 <= i < extra.len() {
            match extra[i] {
                Segment::Child(c) => c as int,
                _ => -1,
            }
        } else {
            -1
        }
    } else if 0 <= g < a.len() && 0 <= i < a[g].segs@.len() {
        match a[g].segs@[i] {
            Segment::Child(c) => c as int,
            _ => -1,
        }
    } else {
        -1
    }
}

/// Among the groups from `lo` on and the open segments `extra`, no two
/// segments refer to the same child: each group has at most one parent.
pub open spec fn single_parents(a: Seq<Group>, lo: int, extra: Seq<Segment>) -> bool {
    forall|g1: int, i1: int, g2: int, i2: int|
        (g1 == -1 || lo <= g1) && (g2 == -1 || lo <= g2) && #[trigger] child_at(a, extra, g1, i1)
            >= 0 && child_at(a, extra, g1, i1) == #[trigger] child_at(a, extra, g2, i2) ==> g1 == g2
            && i1 == i2
}

/// The groups from `lo` on and the open segments `extra` refer only to
/// groups from `lo` on.
pub open spec fn refs_from(a: Seq<Group>, lo: int, extra: Seq<Segment>) -> bool {
    forall|g: int, i: int|
        (g == -1 || lo <= g) && #[trigger] child_at(a, extra, g, i) >= 0 ==> lo <= child_at(
            a,
            extra,
            g,
            i,
        )
}

/// The document of the first `n` segments of `segs`: each segment's piece,
/// comments left out, and each child below `bound` expanded into its own
/// document between `Open` and `Close`.
pub open spec fn seg_doc(a: Seq<Group>, bound: nat, segs: Seq<Segment>, n: nat) -> Seq<Piece>
    decreases bound, n,
{
    if n == 0 || n > segs.len() {
        Seq::empty()
    } else {
        seg_doc(a, bound, segs, (n - 1) as nat) + match segs[n - 1] {
            Segment::Child(c) => if (c as nat) < bound && (c as nat) < a.len() {
                seq![Piece::Open] + seg_doc(a, c as nat, a[c as int].segs@, a[c as int].segs@.len())
                    + seq![Piece::Close]
            } else {
                Seq::empty()
            },
            s => piece(s),
        }
    }
}

/// The whole document of group `h`: its content with every child group
/// expanded, comments left out.
pub open spec fn group_doc(a: Seq<Group>, h: nat) -> Seq<Piece> {
    if h < a.len() {
        seq![Piece::Open] + seg_doc(a, h, a[h as int].segs@, a[h as int].segs@.len()) + seq![
            Piece::Close,
        ]
    } else {
        Seq::empty()
    }
}

/// Growing the arena leaves the document of what was built unchanged.
pub proof fn lemma_doc_frame(
    a: Seq<Group>,
    a2: Seq<Group>,
    b: nat,
    b2: nat,
    segs: Seq<Segment>,
    n: nat,
)
    requires
        arena_wf(a),
        a.len() <= a2.len(),
        forall|i: int| 0 <= i < a.len() ==> a2[i] == a[i],
        b <= a.len(),
        b <= b2,
        n <= segs.len(),
        children_below(segs, n, b),
    ensures
        seg_doc(a, b, segs, n) == seg_doc(a2, b2, segs, n),
    decreases b, n,
{
    if n > 0 {
        lemma_doc_frame(a, a2, b, b2, segs, (n - 1) as nat);
        match segs[n - 1] {
            Segment::Child(c) => {
                let cs = a[c as int].segs@;
                assert(children_below(cs, cs.len(), c as nat)) by {
                    assert forall|i: int| 0 <= i < cs.len() implies match #[trigger] cs[i] {
                        Segment::Child(d) => (d as nat) < c as nat,
                        _ => true,
                    } by {
                        assert(match a[c as int].segs@[i] {
                            Segment::Child(d) => d < c,
                            _ => true,
                        });
                    }
                }
                lemma_doc_frame(a, a2, c as nat, c as nat, cs, cs.len());
            },
            _ => {},
        }
    }
}

/// Segments that agree on a prefix have the same document there.
pub proof fn lemma_doc_prefix(a: Seq<Group>, b: nat, s1: Seq<Segment>, s2: Seq<Segment>, n: nat)
    requires
        n <= s1.len(),
        n <= s2.len(),
        forall|i: int| 0 <= i < n ==> s1[i] == s2[i],
    ensures
        seg_doc(a, b, s1, n) == seg_doc(a, b, s2, n),
    decreases n,
{
    if n > 0 {
        lemma_doc_prefix(a, b, s1, s2, (n - 1) as nat);
    }
}

/// Segments that refer to no child keep each group's parent unique.
pub proof fn lemma_push_plain(a: Seq<Group>, lo: int, segs: Seq<Segment>, s: Segment)
    requires
        !(s is Child),
        single_parents(a, lo, segs),
        refs_from(a, lo, segs),
    ensures
        single_parents(a, lo, segs.push(s)),
        refs_from(a, lo, segs.push(s)),
{
    assert forall|g: int, i: int| #[trigger] child_at(a, segs.push(s), g, i) == child_at(a, segs, g, i) by {
        if g == -1 && 0 <= i < segs.len() {
            assert(segs.push(s)[i] == segs[i]);
        }
    }
}

/// Closing a builder: its segments become group `a.len()`.
pub proof fn lemma_close(a: Seq<Group>, lo: int, segs: Seq<Segment>, a2: Seq<Group>)
    requires
        single_parents(a, lo, segs),
        refs_from(a, lo, segs),
        a2.len() == a.len() + 1,
        forall|g: int| 0 <= g < a.len() ==> a2[g] == a[g],
        a2[a.len() as int].segs@ == segs,
    ensures
        single_parents(a2, lo, Seq::empty()),
        refs_from(a2, lo, Seq::empty()),
{
    let n = a.len() as int;
    assert forall|g: int, i: int| #[trigger] child_at(a2, Seq::empty(), g, i) == if g == n {
        child_at(a, segs, -1, i)
    } else if g == -1 {
        -1
    } else {
        child_at(a, segs, g, i)
    } by {
        if 0 <= g < n {
            assert(a2[g] == a[g]);
        }
    }
    assert forall|g1: int, i1: int, g2: int, i2: int|
        (g1 == -1 || lo <= g1) && (g2 == -1 || lo <= g2) && #[trigger] child_at(a2, Seq::empty(), g1, i1)
            >= 0 && child_at(a2, Seq::empty(), g1, i1) == #[trigger] child_at(a2, Seq::empty(), g2, i2)
            implies g1 == g2 && i1 == i2 by {
        let h1 = if g1 == n {
            -1
        } else {
            g1
        };
        let h2 = if g2 == n {
            -1
        } else {
            g2
        };
        assert(child_at(a, segs, h1, i1) == child_at(a2, Seq::empty(), g1, i1));
        assert(child_at(a, segs, h2, i2) == child_at(a2, Seq::empty(), g2, i2));
    }
    assert forall|g: int, i: int|
        (g == -1 || lo <= g) && #[trigger] child_at(a2, Seq::empty(), g, i) >= 0 implies lo <= child_at(
        a2,
        Seq::empty(),
        g,
        i,
    ) by {
        let h = if g == n {
            -1
        } else {
            g
        };
        assert(child_at(a, segs, h, i) == child_at(a2, Seq::empty(), g, i));
    }
}

/// Growing the arena leaves the comments of what was built unchanged.
pub proof fn lemma_notes_frame(
    a: Seq<Group>,
    a2: Seq<Group>,
    b: nat,
    b2: nat,
    segs: Seq<Segment>,
    n: nat,
)
    requires
        arena_wf(a),
        a.len() <= a2.len(),
        forall|i: int| 0 <= i < a.len() ==> a2[i] == a[i],
        b <= a.len(),
        b <= b2,
        n <= segs.len(),
        children_below(segs, n, b),
    ensures
        seg_notes(a, b, segs, n) == seg_notes(a2, b2, segs, n),
    decreases b, n,
{
    if n > 0 {
        lemma_notes_frame(a, a2, b, b2, segs, (n - 1) as nat);
        match segs[n - 1] {
            Segment::Child(c) => {
                let cs = a[c as int].segs@;
                assert(children_below(cs, cs.len(), c as nat)) by {
                    assert forall|i: int| 0 <= i < cs.len() implies match #[trigger] cs[i] {
                        Segment::Child(d) => (d as nat) < c as nat,
                        _ => true,
                    } by {
                        assert(match a[c as int].segs@[i] {
                            Segment::Child(d) => d < c,
                            _ => true,
                        });
                    }
                }
                lemma_notes_frame(a, a2, c as nat, c as nat, cs, cs.len());
            },
            _ => {},
        }
    }
}

/// The position last written after writing `ps`, starting from `last`.
pub open spec fn last_of(last: Option<LineCol>, ps: Seq<LineCol>) -> Option<LineCol> {
    if ps.len() == 0 {
        last
    } else {
        Some(ps.last())
    }
}

/// Whether writing `ps` after `last` meets a position that precedes the one
/// written just before it.
pub open spec fn out_of_order(last: Option<LineCol>, ps: Seq<LineCol>) -> bool
    decreases ps.len(),
{
    if ps.len() == 0 {
        false
    } else {
        out_of_order(last, ps.drop_last()) || match last_of(last, ps.drop_last()) {
            Some(l) => ps.last().precedes(l),
            None => false,
        }
    }
}

/// No comment left in the queue comes before the position last written.
pub open spec fn rest_queued(o: MakeSegsState) -> bool {
    o.cursor == o.comments@.len() || match o.last {
        Some(l) => !o.comments@[o.cursor as int].pos.precedes(l),
        None => true,
    }
}

/// Going from `o1` to `o2` wrote the positions `w`, in order. Writing no
/// position places no comment; after writing some, every comment left
/// queued comes at or after the last of them.
pub open spec fn tracks(o1: MakeSegsState, o2: MakeSegsState, w: Seq<LineCol>) -> bool {
    &&& o2.last == last_of(o1.last, w)
    &&& o2.malformed == (o1.malformed || out_of_order(o1.last, w))
    &&& o2.comments@ == o1.comments@
    &&& w.len() == 0 ==> o2.cursor == o1.cursor
    &&& w.len() > 0 ==> rest_queued(o2)
    &&& !out_of_order(o1.last, w) ==> placed_before(o1, o2)
}

/// Every comment placed from `o1` to `o2` comes before the position last
/// written.
pub open spec fn placed_before(o1: MakeSegsState, o2: MakeSegsState) -> bool {
    forall|k: int|
        o1.cursor <= k < o2.cursor ==> match o2.last {
            Some(l) => (#[trigger] o2.comments@[k]).pos.precedes(l),
            None => false,
        }
}

/// Positions written in order end at or after where they started.
pub proof fn lemma_in_order_ends_later(last: Option<LineCol>, w: Seq<LineCol>)
    requires
        !out_of_order(last, w),
        w.len() > 0,
        last is Some,
    ensures
        !w.last().precedes(last->0),
    decreases w.len(),
{
    if w.drop_last().len() > 0 {
        lemma_in_order_ends_later(last, w.drop_last());
    }
}

pub proof fn lemma_order_concat(last: Option<LineCol>, a: Seq<LineCol>, b: Seq<LineCol>)
    ensures
        last_of(last, a + b) == last_of(last_of(last, a), b),
        out_of_order(last, a + b) == (out_of_order(last, a) || out_of_order(last_of(last, a), b)),
    decreases b.len(),
{
    if b.len() == 0 {
        assert(a + b =~= a);
    } else {
        assert((a + b).drop_last() =~= a + b.drop_last());
        lemma_order_concat(last, a, b.drop_last());
        if b.drop_last().len() == 0 {
            assert(b.drop_last() =~= Seq::<LineCol>::empty());
            assert(a + b.drop_last() =~= a);
        }
    }
}

/// Written positions compose.
pub proof fn lemma_tracks_trans(
    o1: MakeSegsState,
    o2: MakeSegsState,
    o3: MakeSegsState,
    a: Seq<LineCol>,
    b: Seq<LineCol>,
)
    requires
        tracks(o1, o2, a),
        tracks(o2, o3, b),
    ensures
        tracks(o1, o3, a + b),
{
    lemma_order_concat(o1.last, a, b);
    assert((a + b).len() == a.len() + b.len());
    if !out_of_order(o1.last, a + b) {
        if b.len() > 0 && o2.last is Some {
            lemma_in_order_ends_later(o2.last, b);
        }
        assert forall|k: int| o1.cursor <= k < o3.cursor implies match o3.last {
            Some(l) => (#[trigger] o3.comments@[k]).pos.precedes(l),
            None => false,
        } by {
            if k < o2.cursor {
                assert(match o2.last {
                    Some(l) => o2.comments@[k].pos.precedes(l),
                    None => false,
                });
            }
        }
    }
}

/// The mutable state of one formatting operation: the arena of built groups,
/// the source comments with the cursor of those already placed, and the
/// source position last written.
pub struct MakeSegsState {
    pub groups: Vec<Group>,
    pub comments: Vec<Comment>,
    pub cursor: usize,
    pub last: Option<LineCol>,
    pub malformed: bool,
}

/// A group under construction, with the range of comments it holds so far.
pub struct SplitGroupBuilder {
    pub segs: Vec<Segment>,
    pub pos: Option<LineCol>,
    pub start: Ghost<nat>,
    pub end: Ghost<nat>,
    pub base: Ghost<nat>,
}

impl Comment {
    /// A copy equal to this comment.
    pub fn copy(&self) -> (r: Comment)
        ensures
            r == *self,
    {
        Comment { pos: self.pos, text: self.text.clone(), line: self.line }
    }
}

impl MakeSegsState {
    pub open spec fn wf(&self) -> bool {
        arena_wf(self.groups@) && self.cursor <= self.comments@.len()
    }

    /// The comments placed since the cursor stood at `from`.
    pub open spec fn placed(&self, from: nat) -> Seq<Comment> {
        self.comments@.subrange(from as int, self.cursor as int)
    }

    /// `self` is a later stage of the same operation as `o`.
    pub open spec fn extends(&self, o: MakeSegsState) -> bool {
        &&& self.wf()
        &&& self.comments@ == o.comments@
        &&& o.cursor <= self.cursor
        &&& o.groups@.len() <= self.groups@.len()
        &&& forall|i: int| 0 <= i < o.groups@.len() ==> self.groups@[i] == o.groups@[i]
        &&& o.malformed ==> self.malformed
    }

    /// A fresh state over the source comments, sorted by position.
    pub fn new(comments: Vec<Comment>) -> (r: MakeSegsState)
        ensures
            r.wf(),
            r.groups@.len() == 0,
            r.comments@ == comments@,
            r.cursor == 0,
            r.last.is_none(),
            !r.malformed,
    {
        MakeSegsState { groups: Vec::new(), comments, cursor: 0, last: None, malformed: false }
    }
}

impl SplitGroupBuilder {
    /// The document of the segments so far, children expanded.
    pub open spec fn doc(&self, out: MakeSegsState) -> Seq<Piece> {
        seg_doc(out.groups@, out.groups@.len() as nat, self.segs@, self.segs@.len())
    }

    pub open spec fn wf(&self, out: MakeSegsState) -> bool {
        &&& out.wf()
        &&& self.start@ <= self.end@ <= out.cursor
        &&& children_below(self.segs@, self.segs@.len(), out.groups@.len() as nat)
        &&& seg_notes(out.groups@, out.groups@.len() as nat, self.segs@, self.segs@.len())
            == out.comments@.subrange(self.start@ as int, self.end@ as int)
        &&& self.base@ <= out.groups@.len()
        &&& single_parents(out.groups@, self.base@ as int, self.segs@)
        &&& refs_from(out.groups@, self.base@ as int, self.segs@)
    }

    /// Appends a segment that holds no comment and no child.
    pub fn push_plain(&mut self, out: &MakeSegsState, s: Segment)
        requires
            old(self).wf(*out),
            !(s is Note),
            !(s is Child),
        ensures
            final(self).wf(*out),
            final(self).segs@ == old(self).segs@.push(s),
            final(self).doc(*out) == old(self).doc(*out) + piece(s),
            final(self).start == old(self).start,
            final(self).base == old(self).base,
            final(self).end == old(self).end,
            final(self).pos == old(self).pos,
    {
        proof {
            lemma_push_plain(out.groups@, self.base@ as int, self.segs@, s);
        }
        self.segs.push(s);
        let ghost a = out.groups@;
        let ghost b = out.groups@.len() as nat;
        proof {
            lemma_doc_prefix(a, b, old(self).segs@, self.segs@, old(self).segs@.len());
            assert(self.segs@[old(self).segs@.len() as int] == s);
        }
        assert(self.segs@.subrange(0, self.segs@.len() - 1) == old(self).segs@);
        assert(seg_notes(a, b, self.segs@, (self.segs@.len() - 1) as nat) == seg_notes(
            a,
            b,
            old(self).segs@,
            old(self).segs@.len(),
        )) by {
            lemma_notes_prefix(a, b, old(self).segs@, self.segs@, old(self).segs@.len());
        }
    }

    /// Appends a break point.
    pub fn gap(&mut self, out: &MakeSegsState, indent: bool, flat: &str)
        requires
            old(self).wf(*out),
        ensures
            final(self).wf(*out),
            final(self).segs@ == old(self).segs@.push(final(self).segs@.last()),
            final(self).segs@.last() matches Segment::Gap { indent: i, flat: f } && i == indent
                && f@ == flat@,
            final(self).doc(*out) == old(self).doc(*out) + seq![Piece::Break(indent, flat@)],
            final(self).start == old(self).start,
            final(self).base == old(self).base,
            final(self).end == old(self).end,
            final(self).pos == old(self).pos,
    {
        let f = flat.to_owned();
        let ghost x = Segment::Gap { indent, flat: f };
        self.push_plain(out, Segment::Gap { indent, flat: f });
    }

    /// Appends text shown only when the group breaks.
    pub fn trail(&mut self, out: &MakeSegsState, text: &str)
        requires
            old(self).wf(*out),
        ensures
            final(self).wf(*out),
            final(self).segs@ == old(self).segs@.push(final(self).segs@.last()),
            final(self).segs@.last() matches Segment::Trail(t) && t@ == text@,
            final(self).doc(*out) == old(self).doc(*out) + seq![Piece::Tail(text@)],
            final(self).start == old(self).start,
            final(self).base == old(self).base,
            final(self).end == old(self).end,
            final(self).pos == old(self).pos,
    {
        let t = text.to_owned();
        let ghost x = Segment::Trail(t);
        self.push_plain(out, Segment::Trail(t));
    }

    /// Appends a line break that is always taken.
    pub fn hard(&mut self, out: &MakeSegsState)
        requires
            old(self).wf(*out),
        ensures
            final(self).wf(*out),
            final(self).segs@ == old(self).segs@.push(Segment::Hard),
            final(self).doc(*out) == old(self).doc(*out) + seq![Piece::Line],
            final(self).start == old(self).start,
            final(self).base == old(self).base,
            final(self).end == old(self).end,
            final(self).pos == old(self).pos,
    {
        self.push_plain(out, Segment::Hard);
    }

    /// Appends the group `h`, made from the state `o1` in which this
    /// builder was last touched: it takes the comments placed meanwhile, and
    /// `h` gets its one parent.
    pub fn attach(&mut self, out: &MakeSegsState, h: usize, o1: Ghost<MakeSegsState>)
        requires
            old(self).wf(o1@),
            old(self).end@ == o1@.cursor,
            made(o1@, *out, h),
        ensures
            final(self).wf(*out),
            final(self).segs@ == old(self).segs@.push(Segment::Child(h)),
            final(self).doc(*out) == old(self).doc(o1@) + group_doc(out.groups@, h as nat),
            final(self).start == old(self).start,
            final(self).base == old(self).base,
            final(self).end@ == out.cursor,
            final(self).pos == old(self).pos,
    {
        let ghost s0 = self.segs@;
        let ghost a1 = o1@.groups@;
        let ghost a = out.groups@;
        let ghost lo = self.base@ as int;
        let ghost mid = a1.len() as int;
        proof {
            lemma_rebase_notes(self, o1@, *out);
        }
        self.segs.push(Segment::Child(h));
        self.end = Ghost(out.cursor as nat);
        proof {
            let s1 = self.segs@;
            lemma_notes_prefix(a, a.len() as nat, s0, s1, s0.len());
            lemma_doc_prefix(a, a.len() as nat, s0, s1, s0.len());
            lemma_doc_frame(a1, a, a1.len() as nat, a.len() as nat, s0, s0.len());
            assert(s1[s0.len() as int] == Segment::Child(h));
            assert(out.comments@.subrange(self.start@ as int, out.cursor as int) =~= out.comments@.subrange(
                self.start@ as int,
                old(self).end@ as int,
            ) + out.comments@.subrange(old(self).end@ as int, out.cursor as int));
            // where each slot of the grown state comes from
            assert forall|g: int, i: int| (g == -1 || lo <= g) && #[trigger] child_at(a, s1, g, i) >= 0 implies {
                &&& lo <= child_at(a, s1, g, i)
                &&& (g == -1 && i == s0.len()) || (g != -1 && g < mid) || (g == -1 && i
                    < s0.len()) ==> child_at(a, s1, g, i) < mid || (g == -1 && i == s0.len())
                &&& (g != -1 && g >= mid) ==> mid <= child_at(a, s1, g, i) < h
                &&& (g == -1 && i < s0.len()) ==> child_at(a, s1, g, i) == child_at(a1, s0, g, i)
                &&& (g != -1 && g < mid) ==> child_at(a, s1, g, i) == child_at(a1, s0, g, i)
                &&& (g != -1 && g >= mid) ==> child_at(a, s1, g, i) == child_at(a, Seq::empty(), g, i)
            } by {
                if g == -1 {
                    if i < s0.len() {
                        assert(s1[i] == s0[i]);
                        assert(child_at(a1, s0, g, i) >= 0);
                        assert(match s0[i] {
                            Segment::Child(c) => (c as nat) < mid,
                            _ => true,
                        });
                    }
                } else if g < mid {
                    assert(a[g] == a1[g]);
                    assert(child_at(a1, s0, g, i) >= 0);
                    assert(match a1[g].segs@[i] {
                        Segment::Child(c) => c < g,
                        _ => true,
                    });
                } else {
                    assert(child_at(a, Seq::empty(), g, i) >= 0);
                    assert(match a[g].segs@[i] {
                        Segment::Child(c) => c < g,
                        _ => true,
                    });
                }
            }
            assert(single_parents(a, lo, s1));
            assert forall|i: int|
                0 <= i < s1.len() implies match #[trigger] s1[i] {
                Segment::Child(c) => (c as nat) < a.len(),
                _ => true,
            } by {
                if i < s0.len() {
                    assert(s1[i] == s0[i]);
                }
            }
        }
    }

    /// Closes the group and stores it in the arena; returns its handle.
    pub fn build(self, out: &mut MakeSegsState) -> (r: usize)
        requires
            self.wf(*old(out)),
            self.end@ == old(out).cursor,
        ensures
            final(out).extends(*old(out)),
            final(out).cursor == old(out).cursor,
            final(out).last == old(out).last,
            final(out).malformed == old(out).malformed,
            r == old(out).groups@.len(),
            final(out).groups@.len() == r + 1,
            final(out).groups@[r as int].segs@ == self.segs@,
            group_notes(final(out).groups@, r as nat) == old(out).comments@.subrange(
                self.start@ as int,
                self.end@ as int,
            ),
            single_parents(final(out).groups@, self.base@ as int, Seq::empty()),
            refs_from(final(out).groups@, self.base@ as int, Seq::empty()),
            group_doc(final(out).groups@, r as nat) == seq![Piece::Open] + self.doc(*old(out)) + seq![
                Piece::Close,
            ],
    {
        let r = out.groups.len();
        let ghost a0 = out.groups@;
        let ghost s = self.segs@;
        out.groups.push(Group { segs: self.segs, pos: self.pos });
        proof {
            assert forall|h: int, i: int|
                0 <= h < out.groups@.len() && 0 <= i < out.groups@[h].segs@.len() implies match #[trigger] out.groups@[h].segs@[i] {
                Segment::Child(c) => c < h,
                _ => true,
            } by {
                if h < r {
                    assert(out.groups@[h] == a0[h]);
                } else {
                    assert(match s[i] {
                        Segment::Child(c) => (c as nat) < r as nat,
                        _ => true,
                    });
                }
            }
            lemma_notes_frame(a0, out.groups@, r as nat, r as nat, s, s.len());
            lemma_close(a0, self.base@ as int, s, out.groups@);
            lemma_doc_frame(a0, out.groups@, r as nat, r as nat, s, s.len());
        }
        r
    }

    /// Appends literal text.
    pub fn seg(&mut self, out: &MakeSegsState, text: &str)
        requires
            old(self).wf(*out),
        ensures
            final(self).wf(*out),
            final(self).segs@.len() == old(self).segs@.len() + 1,
            final(self).segs@.drop_last() == old(self).segs@,
            lit_of(final(self).segs@.last(), text@),
            final(self).doc(*out) == old(self).doc(*out) + seq![Piece::Text(text@)],
            final(self).start == old(self).start,
            final(self).base == old(self).base,
            final(self).end == old(self).end,
            final(self).pos == old(self).pos,
    {
        let t = text.to_owned();
        let ghost x = Segment::Lit(t);
        self.push_plain(out, Segment::Lit(t));
        assert(self.segs@.drop_last() =~= old(self).segs@);
    }
}

/// The comments a builder holds stay the same while the state grows.
pub proof fn lemma_rebase_notes(sg: &SplitGroupBuilder, o1: MakeSegsState, o2: MakeSegsState)
    requires
        sg.wf(o1),
        o2.extends(o1),
    ensures
        seg_notes(o2.groups@, o2.groups@.len() as nat, sg.segs@, sg.segs@.len()) == seg_notes(
            o1.groups@,
            o1.groups@.len() as nat,
            sg.segs@,
            sg.segs@.len(),
        ),
{
    lemma_notes_frame(
        o1.groups@,
        o2.groups@,
        o1.groups@.len() as nat,
        o2.groups@.len() as nat,
        sg.segs@,
        sg.segs@.len(),
    );
}

/// The contract every node visitor meets: `r` is a group built from `old` to
/// `new`, and it holds exactly the comments placed meanwhile, in order.
pub open spec fn made(old: MakeSegsState, new: MakeSegsState, r: usize) -> bool {
    &&& new.extends(old)
    &&& old.groups@.len() <= r
    &&& r + 1 == new.groups@.len()
    &&& group_notes(new.groups@, r as nat) == new.placed(old.cursor as nat)
    &&& single_parents(new.groups@, old.groups@.len() as int, Seq::empty())
    &&& refs_from(new.groups@, old.groups@.len() as int, Seq::empty())
}

/// Opens a new group.
pub fn new_sg(out: &MakeSegsState) -> (r: SplitGroupBuilder)
    requires
        out.wf(),
    ensures
        r.wf(*out),
        r.start@ == out.cursor,
        r.end@ == out.cursor,
        r.segs@.len() == 0,
        r.pos.is_none(),
        r.base@ == out.groups@.len(),
{
    let r = SplitGroupBuilder {
        segs: Vec::new(),
        pos: None,
        start: Ghost(out.cursor as nat),
        end: Ghost(out.cursor as nat),
        base: Ghost(out.groups@.len() as nat),
    };
    assert(out.comments@.subrange(out.cursor as int, out.cursor as int) =~= Seq::empty());
    r
}

/// Places, as leading segments of `sg`, every queued comment that comes
/// before `pos` in the source, and records `pos` as the position written.
/// A position behind the one last written marks the tree malformed.
pub fn append_comments(out: &mut MakeSegsState, sg: &mut SplitGroupBuilder, pos: LineCol)
    requires
        old(sg).wf(*old(out)),
        old(sg).end@ == old(out).cursor,
    ensures
        final(out).extends(*old(out)),
        final(out).groups@ == old(out).groups@,
        final(out).last == Some(pos),
        final(out).malformed == (old(out).malformed || match old(out).last {
            Some(l) => pos.precedes(l),
            None => false,
        }),
        tracks(*old(out), *final(out), seq![pos]),
        forall|k: int|
            old(out).cursor <= k < final(out).cursor ==> #[trigger] final(out).comments@[k].pos.precedes(pos),
        final(out).cursor == final(out).comments@.len()
            || !final(out).comments@[final(out).cursor as int].pos.precedes(pos),
        final(sg).wf(*final(out)),
        final(sg).start == old(sg).start,
        final(sg).base == old(sg).base,
        final(sg).end@ == final(out).cursor,
        final(sg).pos == old(sg).pos,
        final(sg).segs@ == old(sg).segs@ + final(out).placed(old(out).cursor as nat).map_values(
            |c: Comment| Segment::Note(c),
        ),
        final(sg).doc(*final(out)) == old(sg).doc(*old(out)),
{
    match out.last {
        Some(l) => {
            if pos.before(&l) {
                out.malformed = true;
            }
        },
        None => {},
    }
    out.last = Some(pos);
    let n = out.comments.len();
    while out.cursor < n && out.comments[out.cursor].pos.before(&pos)
        invariant
            out.extends(*old(out)),
            out.groups@ == old(out).groups@,
            out.last == Some(pos),
            out.malformed == (old(out).malformed || match old(out).last {
                Some(l) => pos.precedes(l),
                None => false,
            }),
            n == out.comments@.len(),
            forall|k: int| old(out).cursor <= k < out.cursor ==> #[trigger] out.comments@[k].pos.precedes(pos),
            sg.wf(*out),
            sg.start == old(sg).start,
            sg.base == old(sg).base,
            sg.end@ == out.cursor,
            sg.pos == old(sg).pos,
            sg.segs@ == old(sg).segs@ + out.placed(old(out).cursor as nat).map_values(
                |c: Comment| Segment::Note(c),
            ),
            sg.doc(*out) == old(sg).doc(*old(out)),
        decreases n - out.cursor,
    {
        let ghost s0 = sg.segs@;
        let ghost o0 = *out;
        let cm = out.comments[out.cursor].copy();
        proof {
            lemma_push_plain(out.groups@, sg.base@ as int, sg.segs@, Segment::Note(cm));
        }
        sg.segs.push(Segment::Note(cm));
        out.cursor = out.cursor + 1;
        sg.end = Ghost(out.cursor as nat);
        proof {
            let a = out.groups@;
            let b = out.groups@.len() as nat;
            lemma_notes_prefix(a, b, s0, sg.segs@, s0.len());
            lemma_doc_prefix(a, b, s0, sg.segs@, s0.len());
            assert(sg.segs@[s0.len() as int] == Segment::Note(cm));
            assert(seg_notes(a, b, sg.segs@, sg.segs@.len()) == seg_notes(a, b, s0, s0.len()).push(
                cm,
            ));
            assert forall|i: int| 0 <= i < sg.segs@.len() implies match #[trigger] sg.segs@[i] {
                Segment::Child(c) => (c as nat) < b,
                _ => true,
            } by {
                if i < s0.len() {
                    assert(sg.segs@[i] == s0[i]);
                }
            }
            assert(out.comments@.subrange(sg.start@ as int, out.cursor as int) =~= o0.comments@.subrange(
                sg.start@ as int,
                o0.cursor as int,
            ).push(cm));
            assert(out.placed(old(out).cursor as nat) =~= o0.placed(old(out).cursor as nat).push(cm));
            assert(sg.segs@ =~= old(sg).segs@ + out.placed(old(out).cursor as nat).map_values(
                |c: Comment| Segment::Note(c),
            ));
        }
    }
    proof {
        assert(seq![pos].drop_last() =~= Seq::<LineCol>::empty());
        assert(!out_of_order(old(out).last, Seq::<LineCol>::empty()));
        assert(last_of(old(out).last, seq![pos].drop_last()) == old(out).last);
        assert(out_of_order(old(out).last, seq![pos]) == match old(out).last {
            Some(l) => pos.precedes(l),
            None => false,
        });
    }
}

/// `k` break points that stay on one line as nothing.
pub open spec fn tail_breaks(k: nat) -> Seq<Piece> {
    Seq::new(k, |_i: int| Piece::Break(false, Seq::empty()))
}

/// Places every comment still queued at the end of `sg`, each after a
/// break point, so that no comment is left out.
pub fn flush_remaining(out: &mut MakeSegsState, sg: &mut SplitGroupBuilder)
    requires
        old(sg).wf(*old(out)),
        old(sg).end@ == old(out).cursor,
    ensures
        final(out).extends(*old(out)),
        final(out).groups@ == old(out).groups@,
        final(out).last == old(out).last,
        final(out).malformed == old(out).malformed,
        final(out).cursor == final(out).comments@.len(),
        final(sg).wf(*final(out)),
        final(sg).start == old(sg).start,
        final(sg).base == old(sg).base,
        final(sg).end@ == final(out).cursor,
        final(sg).pos == old(sg).pos,
        old(sg).segs@.len() <= final(sg).segs@.len(),
        final(sg).segs@.subrange(0, old(sg).segs@.len() as int) == old(sg).segs@,
        final(sg).doc(*final(out)) == old(sg).doc(*old(out)) + tail_breaks(
            (final(out).cursor - old(out).cursor) as nat,
        ),
{
    let n = out.comments.len();
    while out.cursor < n
        invariant
            out.extends(*old(out)),
            out.groups@ == old(out).groups@,
            out.last == old(out).last,
            out.malformed == old(out).malformed,
            n == out.comments@.len(),
            sg.wf(*out),
            sg.start == old(sg).start,
            sg.base == old(sg).base,
            sg.end@ == out.cursor,
            sg.pos == old(sg).pos,
            old(out).cursor <= out.cursor,
            old(sg).segs@.len() <= sg.segs@.len(),
            sg.segs@.subrange(0, old(sg).segs@.len() as int) == old(sg).segs@,
            sg.doc(*out) == old(sg).doc(*old(out)) + tail_breaks((out.cursor - old(out).cursor) as nat),
        decreases n - out.cursor,
    {
        let ghost k = (out.cursor - old(out).cursor) as nat;
        let ghost sp = sg.segs@;
        sg.push_plain(out, Segment::Gap { indent: false, flat: String::new() });
        assert(sg.doc(*out) =~= old(sg).doc(*old(out)) + tail_breaks(k + 1));
        let ghost s0 = sg.segs@;
        let ghost o0 = *out;
        let cm = out.comments[out.cursor].copy();
        proof {
            lemma_push_plain(out.groups@, sg.base@ as int, sg.segs@, Segment::Note(cm));
        }
        sg.segs.push(Segment::Note(cm));
        out.cursor = out.cursor + 1;
        sg.end = Ghost(out.cursor as nat);
        proof {
            let a = out.groups@;
            let b = out.groups@.len() as nat;
            lemma_notes_prefix(a, b, s0, sg.segs@, s0.len());
            lemma_doc_prefix(a, b, s0, sg.segs@, s0.len());
            assert(sg.segs@.subrange(0, old(sg).segs@.len() as int) =~= sp.subrange(
                0,
                old(sg).segs@.len() as int,
            ));
            assert(sg.segs@[s0.len() as int] == Segment::Note(cm));
            assert forall|i: int| 0 <= i < sg.segs@.len() implies match #[trigger] sg.segs@[i] {
                Segment::Child(c) => (c as nat) < b,
                _ => true,
            } by {
                if i < s0.len() {
                    assert(sg.segs@[i] == s0[i]);
                }
            }
            assert(out.comments@.subrange(sg.start@ as int, out.cursor as int) =~= o0.comments@.subrange(
                sg.start@ as int,
                o0.cursor as int,
            ).push(cm));
        }
    }
}

/// Segments that agree on a prefix hold the same comments in it.
pub proof fn lemma_notes_prefix(a: Seq<Group>, b: nat, s1: Seq<Segment>, s2: Seq<Segment>, n: nat)
    requires
        n <= s1.len(),
        n <= s2.len(),
        forall|i: int| 0 <= i < n ==> s1[i] == s2[i],
    ensures
        seg_notes(a, b, s1, n) == seg_notes(a, b, s2, n),
    decreases n,
{
    if n > 0 {
        lemma_notes_prefix(a, b, s1, s2, (n - 1) as nat);
    }
}

} // verus!
