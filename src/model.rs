use vstd::prelude::*;

use crate::pos::LineCol;

verus! {

/// A comment taken from the source: where it stood, its text, and whether it
/// runs to the end of its line (`// ...`) rather than being a block comment.
#[derive(Clone, Debug)]
pub struct Comment {
    pub pos: LineCol,
    pub text: String,
    pub line: bool,
}

impl Comment {
    /// A line comment, or a block comment that spans several lines, cannot
    /// share a line with what follows it.
    pub open spec fn forces_break(&self) -> bool {
        self.line || self.text@.contains('\n')
    }
}

/// One unit of a group's content.
#[derive(Clone, Debug)]
pub enum Segment {
    /// Text that is always emitted.
    Lit(String),
    /// The group with this handle.
    Child(usize),
    /// A source comment woven into the layout.
    Note(Comment),
    /// A break point: `flat` when the group stays on one line; otherwise a
    /// new line, indented one level deeper than the group when `indent`.
    Gap { indent: bool, flat: String },
    /// Text that is emitted only when the group is broken (a trailing comma).
    Trail(String),
    /// A line break that is always taken, at the current indentation level.
    Hard,
}

/// An ordered sequence of segments with the source position it stands for.
#[derive(Clone, Debug)]
pub struct Group {
    pub segs: Vec<Segment>,
    pub pos: Option<LineCol>,
}

/// The width budget of a line and the width of one level of indentation.
#[derive(Clone, Copy, Debug, PartialEq, Eq, Structural)]
pub struct Config {
    pub max_line_width: usize,
    pub indent_width: usize,
}

/// One unit of a group's document: the start or end of a group, or what a
/// segment other than a child or a comment contributes.
pub enum Piece {
    Open,
    Close,
    Text(Seq<char>),
    Break(bool, Seq<char>),
    Tail(Seq<char>),
    Line,
}

pub open spec fn piece(s: Segment) -> Seq<Piece> {
    match s {
        Segment::Lit(t) => seq![Piece::Text(t@)],
        Segment::Child(_) => Seq::empty(),
        Segment::Note(_) => Seq::empty(),
        Segment::Gap { indent, flat } => seq![Piece::Break(indent, flat@)],
        Segment::Trail(t) => seq![Piece::Tail(t@)],
        Segment::Hard => seq![Piece::Line],
    }
}

/// `s` is literal text `t`.
pub open spec fn lit_of(s: Segment, t: Seq<char>) -> bool {
    match s {
        Segment::Lit(x) => x@ == t,
        _ => false,
    }
}

/// Column arithmetic saturates at the largest `usize`.
pub open spec fn sat(x: nat) -> nat {
    if x > usize::MAX {
        usize::MAX as nat
    } else {
        x
    }
}

pub open spec fn seg_count(a: Seq<Group>, h: nat) -> nat {
    if h < a.len() {
        a[h as int].segs@.len()
    } else {
        0
    }
}

/// Every child handle of a group names a group built before it.
pub open spec fn arena_wf(a: Seq<Group>) -> bool {
    forall|h: int, i: int|
        0 <= h < a.len() && 0 <= i < a[h].segs@.len() ==> match #[trigger] a[h].segs@[i] {
            Segment::Child(c) => c < h,
            _ => true,
        }
}

/// Width of the first `n` segments of group `h` when all of it is on one line.
pub open spec fn width(a: Seq<Group>, h: nat, n: nat) -> nat
    decreases h, n,
{
    if h >= a.len() || n == 0 || n > a[h as int].segs@.len() {
        0
    } else {
        width(a, h, (n - 1) as nat) + match a[h as int].segs@[n - 1] {
            Segment::Lit(t) => t@.len(),
            Segment::Child(c) => if (c as nat) < h {
                width(a, c as nat, seg_count(a, c as nat))
            } else {
                0
            },
            Segment::Note(cm) => cm.text@.len() + 1,
            Segment::Gap { indent: _, flat } => flat@.len(),
            Segment::Trail(_) => 0,
            Segment::Hard => 0,
        }
    }
}

/// Widths of prefixes grow with the prefix.
pub proof fn lemma_width_mono(a: Seq<Group>, h: nat, i: nat, j: nat)
    requires
        i <= j <= seg_count(a, h),
    ensures
        width(a, h, i) <= width(a, h, j),
    decreases j - i,
{
    if i < j {
        lemma_width_mono(a, h, i, (j - 1) as nat);
    }
}

/// A forcing comment in a prefix forces the whole group.
pub proof fn lemma_breaks_mono(a: Seq<Group>, h: nat, i: nat, j: nat)
    requires
        i <= j <= seg_count(a, h),
        breaks(a, h, i),
    ensures
        breaks(a, h, j),
    decreases j - i,
{
    if i < j {
        lemma_breaks_mono(a, h, i, (j - 1) as nat);
    }
}

pub open spec fn group_width(a: Seq<Group>, h: nat) -> nat {
    width(a, h, seg_count(a, h))
}

/// Whether the first `n` segments of group `h` hold, at any depth, a comment
/// that cannot stay on one line.
pub open spec fn breaks(a: Seq<Group>, h: nat, n: nat) -> bool
    decreases h, n,
{
    if h >= a.len() || n == 0 || n > a[h as int].segs@.len() {
        false
    } else {
        breaks(a, h, (n - 1) as nat) || match a[h as int].segs@[n - 1] {
            Segment::Note(cm) => cm.forces_break(),
            Segment::Hard => true,
            Segment::Child(c) => (c as nat) < h && breaks(a, c as nat, seg_count(a, c as nat)),
            _ => false,
        }
    }
}

pub open spec fn must_break(a: Seq<Group>, h: nat) -> bool {
    breaks(a, h, seg_count(a, h))
}

/// The split decision: a group starting at column `col` stays on one line
/// when nothing in it forces a break and its whole width fits the budget.
pub open spec fn stays_flat(a: Seq<Group>, cfg: Config, h: nat, col: nat) -> bool {
    !must_break(a, h) && col + group_width(a, h) <= cfg.max_line_width
}

pub open spec fn spaces(n: nat) -> Seq<char> {
    Seq::new(n, |_i: int| ' ')
}

pub open spec fn indent_col(cfg: Config, level: nat) -> nat {
    sat(level * (cfg.indent_width as nat))
}

/// Text, column and current indentation level after rendering the first `n`
/// segments of group `h`, laid out flat or broken as `fl` says, for a group
/// whose own indentation level is `base` and which starts at column `col`.
pub open spec fn render(
    a: Seq<Group>,
    cfg: Config,
    h: nat,
    n: nat,
    fl: bool,
    base: nat,
    col: nat,
) -> (Seq<char>, nat, nat)
    decreases h, n,
{
    if h >= a.len() || n == 0 || n > a[h as int].segs@.len() {
        (Seq::empty(), col, base)
    } else {
        let prev = render(a, cfg, h, (n - 1) as nat, fl, base, col);
        let t = prev.0;
        let c = prev.1;
        let l = prev.2;
        match a[h as int].segs@[n - 1] {
            Segment::Lit(s) => (t + s@, sat(c + s@.len()), l),
            Segment::Trail(s) => if fl {
                (t, c, l)
            } else {
                (t + s@, sat(c + s@.len()), l)
            },
            Segment::Gap { indent, flat } => if fl {
                (t + flat@, sat(c + flat@.len()), l)
            } else {
                let nl = if indent {
                    sat(base + 1)
                } else {
                    base
                };
                (t + seq!['\n'] + spaces(indent_col(cfg, nl)), indent_col(cfg, nl), nl)
            },
            Segment::Note(cm) => if fl {
                (t + cm.text@ + seq![' '], sat(c + cm.text@.len() + 1), l)
            } else {
                (t + cm.text@ + seq!['\n'] + spaces(indent_col(cfg, l)), indent_col(cfg, l), l)
            },
            Segment::Hard => (t + seq!['\n'] + spaces(indent_col(cfg, l)), indent_col(cfg, l), l),
            Segment::Child(ch) => if (ch as nat) < h {
                let r = render(
                    a,
                    cfg,
                    ch as nat,
                    seg_count(a, ch as nat),
                    stays_flat(a, cfg, ch as nat, c),
                    l,
                    c,
                );
                (t + r.0, r.1, l)
            } else {
                (t, c, l)
            },
        }
    }
}

/// The text of group `h` laid out at indentation level `base` from column
/// `col`, and the column where it ends.
pub open spec fn render_group(a: Seq<Group>, cfg: Config, h: nat, base: nat, col: nat) -> (Seq<
    char,
>, nat) {
    let r = render(a, cfg, h, seg_count(a, h), stays_flat(a, cfg, h, col), base, col);
    (r.0, r.1)
}

} // verus!
