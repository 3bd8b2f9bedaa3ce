use vstd::prelude::*;

use crate::builder::{group_notes, seg_notes};
use crate::model::{
    arena_wf, breaks, group_width, must_break, render, render_group, seg_count, stays_flat, width,
    Comment, Config, Group, Segment,
};

verus! {

/// A prefix of a group that holds nothing forcing a break, laid out flat
/// from a column where it fits, has exactly its width in text, and ends at
/// that column plus its width.
proof fn lemma_flat_prefix(a: Seq<Group>, cfg: Config, h: nat, n: nat, base: nat, col: nat)
    requires
        arena_wf(a),
        h < a.len(),
        n <= seg_count(a, h),
        !breaks(a, h, n),
        col + width(a, h, n) <= cfg.max_line_width,
    ensures
        render(a, cfg, h, n, true, base, col).0.len() == width(a, h, n),
        render(a, cfg, h, n, true, base, col).1 == col + width(a, h, n),
        render(a, cfg, h, n, true, base, col).2 == base,
    decreases h, n,
{
    if n > 0 {
        lemma_flat_prefix(a, cfg, h, (n - 1) as nat, base, col);
        let c = col + width(a, h, (n - 1) as nat);
        match a[h as int].segs@[n - 1] {
            Segment::Child(ch) => {
                assert(ch < h);
                lemma_flat_prefix(a, cfg, ch as nat, seg_count(a, ch as nat), base, c);
                assert(stays_flat(a, cfg, ch as nat, c));
            },
            _ => {},
        }
    }
}

/// Width respect: a group that the renderer keeps on one line, at any
/// column, renders to exactly its width in text, and that text ends within
/// the line width budget. A token longer than the budget is never kept on
/// one line, so it is never split either: the decision only adds breaks.
pub proof fn lemma_flat_within_budget(a: Seq<Group>, cfg: Config, h: nat, base: nat, col: nat)
    requires
        arena_wf(a),
        h < a.len(),
        stays_flat(a, cfg, h, col),
    ensures
        render_group(a, cfg, h, base, col).0.len() == group_width(a, h),
        col + render_group(a, cfg, h, base, col).0.len() <= cfg.max_line_width,
{
    lemma_flat_prefix(a, cfg, h, seg_count(a, h), base, col);
}

/// A forcing comment anywhere in a group keeps the group from staying on
/// one line, whatever the width budget.
pub proof fn lemma_forced_break(a: Seq<Group>, cfg: Config, h: nat, col: nat)
    requires
        must_break(a, h),
    ensures
        !stays_flat(a, cfg, h, col),
{
}

/// The texts of `cs` occur in `t` one after another, in this order and
/// without overlapping: each comment has an occurrence of its own. (That a
/// comment's text occurs nowhere else cannot be asked of the text, since
/// kept source text may spell the same characters; the layout itself holds
/// each comment exactly once.)
pub open spec fn in_order(t: Seq<char>, cs: Seq<Comment>) -> bool
    decreases cs.len(),
{
    if cs.len() == 0 {
        true
    } else {
        exists|k: int|
            0 <= k && k + cs.last().text@.len() <= t.len() && #[trigger] t.subrange(
                k,
                k + cs.last().text@.len(),
            ) == cs.last().text@ && in_order(t.subrange(0, k), cs.drop_last())
    }
}

proof fn lemma_in_order_extend(t: Seq<char>, u: Seq<char>, cs: Seq<Comment>)
    requires
        in_order(t, cs),
    ensures
        in_order(t + u, cs),
{
    if cs.len() > 0 {
        let len = cs.last().text@.len() as int;
        let k = choose|k: int|
            0 <= k && k + len <= t.len() && #[trigger] t.subrange(k, k + len) == cs.last().text@
                && in_order(t.subrange(0, k), cs.drop_last());
        assert((t + u).subrange(k, k + len) =~= t.subrange(k, k + len));
        assert((t + u).subrange(0, k) =~= t.subrange(0, k));
    }
}

proof fn lemma_in_order_concat(t1: Seq<char>, c1: Seq<Comment>, t2: Seq<char>, c2: Seq<Comment>)
    requires
        in_order(t1, c1),
        in_order(t2, c2),
    ensures
        in_order(t1 + t2, c1 + c2),
    decreases c2.len(),
{
    if c2.len() == 0 {
        assert(c1 + c2 =~= c1);
        lemma_in_order_extend(t1, t2, c1);
    } else {
        let len = c2.last().text@.len() as int;
        let k2 = choose|k: int|
            0 <= k && k + len <= t2.len() && #[trigger] t2.subrange(k, k + len) == c2.last().text@
                && in_order(t2.subrange(0, k), c2.drop_last());
        lemma_in_order_concat(t1, c1, t2.subrange(0, k2), c2.drop_last());
        let k = t1.len() + k2;
        assert((t1 + t2).subrange(k, k + len) =~= t2.subrange(k2, k2 + len));
        assert((t1 + t2).subrange(0, k) =~= t1 + t2.subrange(0, k2));
        assert((c1 + c2).drop_last() =~= c1 + c2.drop_last());
        assert((c1 + c2).last() == c2.last());
    }
}

proof fn lemma_in_order_one(x: Seq<char>, cm: Comment, y: Seq<char>)
    ensures
        in_order(x + cm.text@ + y, seq![cm]),
{
    let t = x + cm.text@ + y;
    let k = x.len() as int;
    let cs = seq![cm];
    assert(cs.last() == cm);
    assert(cs.drop_last() =~= Seq::<Comment>::empty());
    assert(in_order(t.subrange(0, k), cs.drop_last()));
    assert(t.subrange(k, k + cs.last().text@.len()) =~= cs.last().text@);
    assert(0 <= k && k + cs.last().text@.len() <= t.len());
}

proof fn lemma_render_notes(
    a: Seq<Group>,
    cfg: Config,
    h: nat,
    n: nat,
    fl: bool,
    base: nat,
    col: nat,
)
    requires
        arena_wf(a),
        h < a.len(),
        n <= seg_count(a, h),
    ensures
        in_order(render(a, cfg, h, n, fl, base, col).0, seg_notes(a, h, a[h as int].segs@, n)),
    decreases h, n,
{
    if n > 0 {
        lemma_render_notes(a, cfg, h, (n - 1) as nat, fl, base, col);
        let prev = render(a, cfg, h, (n - 1) as nat, fl, base, col);
        let t = prev.0;
        let ns = seg_notes(a, h, a[h as int].segs@, (n - 1) as nat);
        let cur = render(a, cfg, h, n, fl, base, col).0;
        match a[h as int].segs@[n - 1] {
            Segment::Note(cm) => {
                let rest = cur.subrange((t.len() + cm.text@.len()) as int, cur.len() as int);
                assert(cur =~= t + (Seq::<char>::empty() + cm.text@ + rest));
                lemma_in_order_one(Seq::empty(), cm, rest);
                lemma_in_order_concat(t, ns, Seq::empty() + cm.text@ + rest, seq![cm]);
            },
            Segment::Child(ch) => {
                assert(ch < h);
                let r = render(
                    a,
                    cfg,
                    ch as nat,
                    seg_count(a, ch as nat),
                    stays_flat(a, cfg, ch as nat, prev.1),
                    prev.2,
                    prev.1,
                );
                lemma_render_notes(
                    a,
                    cfg,
                    ch as nat,
                    seg_count(a, ch as nat),
                    stays_flat(a, cfg, ch as nat, prev.1),
                    prev.2,
                    prev.1,
                );
                lemma_in_order_concat(t, ns, r.0, seg_notes(a, ch as nat, a[ch as int].segs@, a[ch as int].segs@.len()));
            },
            _ => {
                let rest = cur.subrange(t.len() as int, cur.len() as int);
                assert(cur =~= t + rest);
                lemma_in_order_extend(t, rest, ns);
                assert(seg_notes(a, h, a[h as int].segs@, n) =~= ns);
            },
        }
    }
}

/// Comment preservation in the text: the rendered text of a group holds
/// the texts of all the comments of its layout, one after another, in
/// layout order, whatever the split decisions.
pub proof fn lemma_comments_rendered(a: Seq<Group>, cfg: Config, h: nat, base: nat, col: nat)
    requires
        arena_wf(a),
        h < a.len(),
    ensures
        in_order(render_group(a, cfg, h, base, col).0, group_notes(a, h)),
{
    lemma_render_notes(a, cfg, h, seg_count(a, h), stays_flat(a, cfg, h, col), base, col);
}

} // verus!
