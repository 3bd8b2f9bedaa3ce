use vstd::prelude::*;

use crate::builder::{
    append_comments, group_doc, lemma_tracks_trans, made, new_sg, seg_notes, tracks,
    MakeSegsState, SplitGroupBuilder,
};
use crate::model::{lit_of, Comment, Piece, Segment};
use crate::pos::LineCol;

verus! {

/// Source text kept as written (an expression, a path, a type, an attribute),
/// with the position where it starts.
#[derive(Clone, Debug)]
pub struct Atom {
    pub text: String,
    pub pos: LineCol,
}

/// `new` is `old` after appending to a builder: the builder is still well
/// formed, holds the comments placed so far, and kept what it had.
pub open spec fn appended(
    old_sg: SplitGroupBuilder,
    new_sg: SplitGroupBuilder,
    old_out: MakeSegsState,
    new_out: MakeSegsState,
) -> bool {
    &&& new_out.extends(old_out)
    &&& new_sg.wf(new_out)
    &&& new_sg.start == old_sg.start
    &&& new_sg.base == old_sg.base
    &&& new_sg.end@ == new_out.cursor
    &&& new_sg.pos == old_sg.pos
    &&& old_sg.segs@.len() <= new_sg.segs@.len()
    &&& new_sg.segs@.subrange(0, old_sg.segs@.len() as int) == old_sg.segs@
}

/// The document of a group that holds `atom`'s text.
pub open spec fn atom_doc(atom: Atom) -> Seq<Piece> {
    seq![Piece::Open, Piece::Text(atom.text@), Piece::Close]
}

/// The document that the first `n` outer attributes add: each its own
/// group, then a line break.
pub open spec fn attrs_doc(a: Seq<Atom>, n: nat) -> Seq<Piece>
    decreases n,
{
    if n == 0 || n > a.len() {
        Seq::empty()
    } else {
        attrs_doc(a, (n - 1) as nat) + atom_doc(a[n - 1]) + seq![Piece::Line]
    }
}

/// The positions of the first `n` atoms.
pub open spec fn atom_walk(a: Seq<Atom>, n: nat) -> Seq<LineCol>
    decreases n,
{
    if n == 0 || n > a.len() {
        Seq::empty()
    } else {
        atom_walk(a, (n - 1) as nat) + seq![a[n - 1].pos]
    }
}

pub open spec fn opt_walk(pos: Option<LineCol>) -> Seq<LineCol> {
    match pos {
        Some(p) => seq![p],
        None => Seq::empty(),
    }
}

/// `extends` is transitive.
pub proof fn lemma_extends_trans(a: MakeSegsState, b: MakeSegsState, c: MakeSegsState)
    requires
        b.extends(a),
        c.extends(b),
    ensures
        c.extends(a),
{
}

/// `appended` composes.
pub proof fn lemma_appended_trans(
    s1: SplitGroupBuilder,
    s2: SplitGroupBuilder,
    s3: SplitGroupBuilder,
    o1: MakeSegsState,
    o2: MakeSegsState,
    o3: MakeSegsState,
)
    requires
        appended(s1, s2, o1, o2),
        appended(s2, s3, o2, o3),
    ensures
        appended(s1, s3, o1, o3),
{
    assert(s3.segs@.subrange(0, s1.segs@.len() as int) =~= s2.segs@.subrange(
        0,
        s1.segs@.len() as int,
    ));
}

/// A group of one literal, with the comments queued before `pos` (when
/// given) placed ahead of it.
pub fn new_sg_lit(out: &mut MakeSegsState, pos: Option<LineCol>, text: &str) -> (r: usize)
    requires
        old(out).wf(),
    ensures
        made(*old(out), *final(out), r),
        final(out).groups@[r as int].segs@.len() == final(out).placed(old(out).cursor as nat).len()
            + 1,
        lit_of(final(out).groups@[r as int].segs@.last(), text@),
        pos.is_none() ==> final(out).cursor == old(out).cursor,
        group_doc(final(out).groups@, r as nat) == seq![Piece::Open, Piece::Text(text@), Piece::Close],
        tracks(*old(out), *final(out), opt_walk(pos)),
{
    let mut sg = new_sg(out);
    match pos {
        Some(p) => append_comments(out, &mut sg, p),
        None => {},
    }
    let ghost s1 = sg.segs@;
    proof {
        if pos.is_none() {
            assert(out.placed(old(out).cursor as nat) =~= Seq::empty());
        }
        assert(s1.len() == out.placed(old(out).cursor as nat).len());
        assert(sg.doc(*out) =~= Seq::empty());
    }
    sg.seg(out, text);
    proof {
        assert(sg.doc(*out) =~= seq![Piece::Text(text@)]);
    }
    sg.build(out)
}

/// Appends a child group made of `atom`'s text.
pub fn add_atom(out: &mut MakeSegsState, sg: &mut SplitGroupBuilder, atom: &Atom)
    requires
        old(sg).wf(*old(out)),
        old(sg).end@ == old(out).cursor,
    ensures
        appended(*old(sg), *final(sg), *old(out), *final(out)),
        final(sg).doc(*final(out)) == old(sg).doc(*old(out)) + atom_doc(*atom),
        tracks(*old(out), *final(out), seq![atom.pos]),
{
    let ghost o0 = *out;
    let h = new_sg_lit(out, Some(atom.pos), atom.text.as_str());
    sg.attach(out, h, Ghost(o0));
    proof {
        assert(sg.segs@.subrange(0, old(sg).segs@.len() as int) =~= old(sg).segs@);
    }
}

/// Appends literal text, first placing the comments queued before `pos`.
pub fn add_token(out: &mut MakeSegsState, sg: &mut SplitGroupBuilder, pos: LineCol, text: &str)
    requires
        old(sg).wf(*old(out)),
        old(sg).end@ == old(out).cursor,
    ensures
        appended(*old(sg), *final(sg), *old(out), *final(out)),
        lit_of(final(sg).segs@.last(), text@),
        final(sg).doc(*final(out)) == old(sg).doc(*old(out)) + seq![Piece::Text(text@)],
        tracks(*old(out), *final(out), seq![pos]),
{
    append_comments(out, sg, pos);
    sg.seg(out, text);
    proof {
        assert(sg.segs@.subrange(0, old(sg).segs@.len() as int) =~= old(sg).segs@);
    }
}

/// Appends a break point, keeping what `appended` promises.
pub fn add_gap(out: &MakeSegsState, sg: &mut SplitGroupBuilder, indent: bool, flat: &str)
    requires
        old(sg).wf(*out),
        old(sg).end@ == out.cursor,
    ensures
        appended(*old(sg), *final(sg), *out, *out),
        final(sg).segs@.last() matches Segment::Gap { indent: i, flat: f } && i == indent && f@
            == flat@,
        final(sg).doc(*out) == old(sg).doc(*out) + seq![Piece::Break(indent, flat@)],
{
    sg.gap(out, indent, flat);
    proof {
        assert(sg.segs@.subrange(0, old(sg).segs@.len() as int) =~= old(sg).segs@);
    }
}

/// Appends literal text with no comment placement.
pub fn add_lit(out: &MakeSegsState, sg: &mut SplitGroupBuilder, text: &str)
    requires
        old(sg).wf(*out),
        old(sg).end@ == out.cursor,
    ensures
        appended(*old(sg), *final(sg), *out, *out),
        lit_of(final(sg).segs@.last(), text@),
        final(sg).doc(*out) == old(sg).doc(*out) + seq![Piece::Text(text@)],
{
    sg.seg(out, text);
    proof {
        assert(sg.segs@.subrange(0, old(sg).segs@.len() as int) =~= old(sg).segs@);
    }
}

/// Appends text shown only when the group breaks.
pub fn add_trail(out: &MakeSegsState, sg: &mut SplitGroupBuilder, text: &str)
    requires
        old(sg).wf(*out),
        old(sg).end@ == out.cursor,
    ensures
        appended(*old(sg), *final(sg), *out, *out),
        final(sg).segs@.last() matches Segment::Trail(t) && t@ == text@,
        final(sg).doc(*out) == old(sg).doc(*out) + seq![Piece::Tail(text@)],
{
    sg.trail(out, text);
    proof {
        assert(sg.segs@.subrange(0, old(sg).segs@.len() as int) =~= old(sg).segs@);
    }
}

/// Emits each outer attribute as its own group on its own line.
pub fn add_attrs(out: &mut MakeSegsState, sg: &mut SplitGroupBuilder, attrs: &Vec<Atom>)
    requires
        old(sg).wf(*old(out)),
        old(sg).end@ == old(out).cursor,
    ensures
        appended(*old(sg), *final(sg), *old(out), *final(out)),
        final(sg).doc(*final(out)) == old(sg).doc(*old(out)) + attrs_doc(attrs@, attrs@.len()),
        tracks(*old(out), *final(out), atom_walk(attrs@, attrs@.len())),
{
    proof {
        assert(sg.segs@.subrange(0, sg.segs@.len() as int) =~= sg.segs@);
        assert(sg.doc(*out) =~= sg.doc(*out) + attrs_doc(attrs@, 0));
        assert(tracks(*out, *out, atom_walk(attrs@, 0)));
    }
    let mut i: usize = 0;
    while i < attrs.len()
        invariant
            appended(*old(sg), *sg, *old(out), *out),
            i <= attrs@.len(),
            sg.doc(*out) == old(sg).doc(*old(out)) + attrs_doc(attrs@, i as nat),
            tracks(*old(out), *out, atom_walk(attrs@, i as nat)),
        decreases attrs.len() - i,
    {
        let ghost s0 = *sg;
        let ghost o0 = *out;
        add_atom(out, sg, &attrs[i]);
        let ghost s1 = *sg;
        sg.hard(out);
        proof {
            assert(sg.segs@.subrange(0, s1.segs@.len() as int) =~= s1.segs@);
            lemma_appended_trans(s0, s1, *sg, o0, *out, *out);
            lemma_appended_trans(*old(sg), s0, *sg, *old(out), o0, *out);
            assert(sg.doc(*out) =~= old(sg).doc(*old(out)) + attrs_doc(attrs@, (i + 1) as nat));
            lemma_tracks_trans(*old(out), o0, *out, atom_walk(attrs@, i as nat), seq![attrs@[i as int].pos]);
        }
        i = i + 1;
    }
}

/// Closes a group that was opened when the state was `o0`: the result is a
/// group made from `o0` to the final state.
pub fn finish(out: &mut MakeSegsState, sg: SplitGroupBuilder, o0: Ghost<MakeSegsState>) -> (r:
    usize)
    requires
        sg.wf(*old(out)),
        sg.end@ == old(out).cursor,
        sg.start@ == o0@.cursor,
        sg.base@ == o0@.groups@.len(),
        old(out).extends(o0@),
    ensures
        made(o0@, *final(out), r),
        final(out).groups@[r as int].segs@ == sg.segs@,
        group_doc(final(out).groups@, r as nat) == seq![Piece::Open] + sg.doc(*old(out)) + seq![
            Piece::Close,
        ],
        final(out).last == old(out).last,
        final(out).malformed == old(out).malformed,
        final(out).cursor == old(out).cursor,
        final(out).comments@ == old(out).comments@,
{
    let r = sg.build(out);
    proof {
        lemma_extends_trans(o0@, *old(out), *out);
    }
    r
}

} // verus!
