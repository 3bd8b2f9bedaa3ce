use vstd::prelude::*;
use vstd::string::{StrSliceExecFns, StringExecFns};

use crate::model::{
    breaks, group_width, lemma_breaks_mono, lemma_width_mono, indent_col, must_break, render, render_group, sat, spaces, stays_flat, width,
    Comment, Config, Group, Segment,
};

verus! {

/// Whether a comment cannot share a line with what follows it.
pub fn comment_forces_break(cm: &Comment) -> (r: bool)
    ensures
        r == cm.forces_break(),
{
    if cm.line {
        return true;
    }
    let s = cm.text.as_str();
    let n = s.unicode_len();
    let mut i: usize = 0;
    while i < n
        invariant
            n == s@.len(),
            s@ == cm.text@,
            i <= n,
            forall|j: int| 0 <= j < i ==> s@[j] != '\n',
        decreases n - i,
    {
        if s.get_char(i) == '\n' {
            return true;
        }
        i = i + 1;
    }
    false
}

/// Whether `text`'s width fits in `budget`, and what is left of it.
fn take_width(budget: usize, text: &String) -> (r: Option<usize>)
    ensures
        match r {
            Some(rem) => text@.len() <= budget && rem == budget - text@.len(),
            None => text@.len() > budget,
        },
{
    let w = text.as_str().unicode_len();
    if w <= budget {
        Some(budget - w)
    } else {
        None
    }
}

/// Whether group `h` fits on one line within `budget` columns, and what is
/// left of the budget after it.
pub fn fits(a: &Vec<Group>, h: usize, budget: usize) -> (r: Option<usize>)
    requires
        h < a@.len(),
    ensures
        match r {
            Some(rem) => group_width(a@, h as nat) <= budget && rem == budget - group_width(
                a@,
                h as nat,
            ),
            None => group_width(a@, h as nat) > budget,
        },
    decreases h,
{
    let segs = &a[h].segs;
    let n = segs.len();
    let mut rem = budget;
    let mut i: usize = 0;
    while i < n
        invariant
            h < a@.len(),
            segs@ == a@[h as int].segs@,
            n == segs@.len(),
            i <= n,
            width(a@, h as nat, i as nat) <= budget,
            rem == budget - width(a@, h as nat, i as nat),
        decreases n - i,
    {
        let step = match &segs[i] {
            Segment::Lit(t) => take_width(rem, t),
            Segment::Child(c) => if *c < h {
                fits(a, *c, rem)
            } else {
                Some(rem)
            },
            Segment::Note(cm) => match take_width(rem, &cm.text) {
                Some(x) => if x >= 1 {
                    Some(x - 1)
                } else {
                    None
                },
                None => None,
            },
            Segment::Gap { indent: _, flat } => take_width(rem, flat),
            Segment::Trail(_) => Some(rem),
            Segment::Hard => Some(rem),
        };
        match step {
            Some(x) => {
                rem = x;
            },
            None => {
                proof {
                    lemma_width_mono(a@, h as nat, (i + 1) as nat, n as nat);
                }
                return None;
            },
        }
        i = i + 1;
    }
    Some(rem)
}

/// Whether group `h` holds, at any depth, a comment that forces a break.
pub fn forced_break(a: &Vec<Group>, h: usize) -> (r: bool)
    requires
        h < a@.len(),
    ensures
        r == must_break(a@, h as nat),
    decreases h,
{
    let segs = &a[h].segs;
    let n = segs.len();
    let mut i: usize = 0;
    while i < n
        invariant
            h < a@.len(),
            segs@ == a@[h as int].segs@,
            n == segs@.len(),
            i <= n,
            !breaks(a@, h as nat, i as nat),
        decreases n - i,
    {
        let hit = match &segs[i] {
            Segment::Note(cm) => comment_forces_break(cm),
            Segment::Hard => true,
            Segment::Child(c) => *c < h && forced_break(a, *c),
            _ => false,
        };
        if hit {
            proof {
                lemma_breaks_mono(a@, h as nat, (i + 1) as nat, n as nat);
            }
            return true;
        }
        i = i + 1;
    }
    false
}

/// The split decision for group `h` starting at column `col`.
pub fn resolve_flat(a: &Vec<Group>, cfg: &Config, h: usize, col: usize) -> (r: bool)
    requires
        h < a@.len(),
    ensures
        r == stays_flat(a@, *cfg, h as nat, col as nat),
{
    if col > cfg.max_line_width || forced_break(a, h) {
        false
    } else {
        fits(a, h, cfg.max_line_width - col).is_some()
    }
}

fn indent_of(cfg: &Config, level: usize) -> (r: usize)
    ensures
        r == indent_col(*cfg, level as nat),
{
    match level.checked_mul(cfg.indent_width) {
        Some(x) => x,
        None => usize::MAX,
    }
}

fn push_line(out: &mut String, n: usize)
    ensures
        final(out)@ == old(out)@ + seq!['\n'] + spaces(n as nat),
{
    proof {
        reveal_strlit("\n");
        reveal_strlit(" ");
    }
    out.append("\n");
    let mut i: usize = 0;
    while i < n
        invariant
            i <= n,
            out@ == old(out)@ + seq!['\n'] + spaces(i as nat),
        decreases n - i,
    {
        proof {
            reveal_strlit(" ");
        }
        out.append(" ");
        assert(spaces((i + 1) as nat) =~= spaces(i as nat) + seq![' ']);
        assert(out@ =~= old(out)@ + seq!['\n'] + spaces((i + 1) as nat));
        i = i + 1;
    }
}

fn push_text(out: &mut String, col: usize, s: &String) -> (r: usize)
    ensures
        final(out)@ == old(out)@ + s@,
        r == sat(col as nat + s@.len()),
{
    out.append(s.as_str());
    col.saturating_add(s.as_str().unicode_len())
}

/// Renders group `h` at indentation level `base` from column `col` onto
/// `out`, and returns the column where it ends.
pub fn render_into(
    a: &Vec<Group>,
    cfg: &Config,
    h: usize,
    base: usize,
    col: usize,
    out: &mut String,
) -> (r: usize)
    requires
        h < a@.len(),
    ensures
        final(out)@ == old(out)@ + render_group(a@, *cfg, h as nat, base as nat, col as nat).0,
        r == render_group(a@, *cfg, h as nat, base as nat, col as nat).1,
    decreases h,
{
    proof {
        reveal_strlit(" ");
    }
    let fl = resolve_flat(a, cfg, h, col);
    let segs = &a[h].segs;
    let n = segs.len();
    let mut c = col;
    let mut l = base;
    let mut i: usize = 0;
    while i < n
        invariant
            h < a@.len(),
            segs@ == a@[h as int].segs@,
            n == segs@.len(),
            i <= n,
            fl == stays_flat(a@, *cfg, h as nat, col as nat),
            out@ == old(out)@ + render(a@, *cfg, h as nat, i as nat, fl, base as nat, col as nat).0,
            c == render(a@, *cfg, h as nat, i as nat, fl, base as nat, col as nat).1,
            l == render(a@, *cfg, h as nat, i as nat, fl, base as nat, col as nat).2,
        decreases n - i,
    {
        let ghost prev = out@;
        let ghost r1 = render(a@, *cfg, h as nat, (i + 1) as nat, fl, base as nat, col as nat);
        match &segs[i] {
            Segment::Lit(s) => {
                c = push_text(out, c, s);
                assert(out@ =~= old(out)@ + r1.0);
            },
            Segment::Trail(s) => {
                if !fl {
                    c = push_text(out, c, s);
                }
            },
            Segment::Gap { indent, flat } => {
                if fl {
                    c = push_text(out, c, flat);
                } else {
                    l = if *indent {
                        base.saturating_add(1)
                    } else {
                        base
                    };
                    c = indent_of(cfg, l);
                    push_line(out, c);
                }
                assert(out@ =~= old(out)@ + r1.0);
            },
            Segment::Note(cm) => {
                out.append(cm.text.as_str());
                if fl {
                    proof {
                        reveal_strlit(" ");
                    }
                    out.append(" ");
                    c = c.saturating_add(cm.text.as_str().unicode_len()).saturating_add(1);
                } else {
                    c = indent_of(cfg, l);
                    push_line(out, c);
                }
                assert(out@ =~= old(out)@ + r1.0);
            },
            Segment::Hard => {
                c = indent_of(cfg, l);
                push_line(out, c);
            },
            Segment::Child(ch) => {
                if *ch < h {
                    c = render_into(a, cfg, *ch, l, c, out);
                }
            },
        }
        assert(out@ =~= old(out)@ + r1.0);
        i = i + 1;
    }
    c
}

} // verus!
