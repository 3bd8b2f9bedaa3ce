use vstd::prelude::*;
use vstd::string::StringExecFns;

use crate::builder::{
    group_doc,
    lemma_tracks_trans, made, new_sg, tracks, MakeSegsState, SplitGroupBuilder,
};
use crate::model::Piece;
use crate::pos::LineCol;
use crate::shapes::{
    add_atom, add_attrs, add_gap, add_lit, add_token, add_trail, appended, atom_doc, atom_walk, attrs_doc,
    finish, lemma_appended_trans, lemma_extends_trans, new_sg_lit, opt_walk, Atom,
};

verus! {

broadcast use {
    vstd::std_specs::vec::axiom_vec_index_decreases,
    vstd::std_specs::vec::axiom_vec_decreases_to_view,
    vstd::seq::axiom_seq_index_decreases,
};

/// A bracketed, comma-separated list of patterns with the positions of its
/// brackets, and whether the source closed it with a trailing comma.
#[derive(Debug)]
pub struct PatList {
    pub open: LineCol,
    pub elems: Vec<Pat>,
    pub close: LineCol,
    pub trailing_comma: bool,
}

/// A macro invocation in pattern position, kept as written.
#[derive(Clone, Debug)]
pub struct MacroCall {
    pub path: Atom,
    pub open: String,
    pub tokens: String,
    pub close: String,
}

/// A field of a struct destructure: `member: pat`, or the shorthand `pat`
/// when the source has no colon.
#[derive(Debug)]
pub struct FieldPat {
    pub attrs: Vec<Atom>,
    pub member: Atom,
    pub colon: Option<LineCol>,
    pub pat: Box<Pat>,
}

/// A pattern, one variant per node shape.
#[derive(Debug)]
pub enum Pat {
    Box { attrs: Vec<Atom>, pos: LineCol, pat: Box<Pat> },
    Ident {
        attrs: Vec<Atom>,
        by_ref: Option<LineCol>,
        mutability: Option<LineCol>,
        name: Atom,
        subpat: Option<(LineCol, Box<Pat>)>,
    },
    Lit { attrs: Vec<Atom>, expr: Atom },
    Macro { attrs: Vec<Atom>, mac: MacroCall },
    Or { attrs: Vec<Atom>, leading_vert: Option<LineCol>, cases: Vec<Pat> },
    Path { attrs: Vec<Atom>, path: Atom },
    Range { attrs: Vec<Atom>, lo: Atom, limits: LineCol, closed: bool, hi: Atom },
    Reference { attrs: Vec<Atom>, pos: LineCol, mutability: bool, pat: Box<Pat> },
    Rest { attrs: Vec<Atom>, pos: LineCol },
    Slice { attrs: Vec<Atom>, list: PatList },
    Struct {
        attrs: Vec<Atom>,
        path: Atom,
        open: LineCol,
        fields: Vec<FieldPat>,
        rest: Option<LineCol>,
        close: LineCol,
    },
    Tuple { attrs: Vec<Atom>, list: PatList },
    TupleStruct { attrs: Vec<Atom>, path: Atom, list: PatList },
    Type { attrs: Vec<Atom>, pat: Box<Pat>, colon: LineCol, ty: Atom },
    Verbatim { text: String },
    Wild { attrs: Vec<Atom>, pos: LineCol },
}

/// The document of a comma list of the first `n` patterns: a break point
/// before each, with `pad` on one line before the first and `, ` between
/// the others.
pub open spec fn list_doc(elems: Seq<Pat>, n: nat, pad: Seq<char>) -> Seq<Piece>
    decreases elems, n,
{
    if n == 0 || n > elems.len() {
        Seq::empty()
    } else if n == 1 {
        seq![Piece::Break(true, pad)] + elems[0].doc()
    } else {
        list_doc(elems, (n - 1) as nat, pad) + seq![Piece::Text(","@), Piece::Break(true, " "@)]
            + elems[n - 1].doc()
    }
}

/// `list_doc` for the fields of a struct destructure.
pub open spec fn field_list_doc(fields: Seq<FieldPat>, n: nat, pad: Seq<char>) -> Seq<Piece>
    decreases fields, n,
{
    if n == 0 || n > fields.len() {
        Seq::empty()
    } else if n == 1 {
        seq![Piece::Break(true, pad)] + fields[0].doc()
    } else {
        field_list_doc(fields, (n - 1) as nat, pad) + seq![Piece::Text(","@), Piece::Break(true, " "@)]
            + fields[n - 1].doc()
    }
}

/// The document of the first `n` alternatives joined by ` | `.
pub open spec fn cases_doc(cases: Seq<Pat>, n: nat) -> Seq<Piece>
    decreases cases, n,
{
    if n == 0 || n > cases.len() {
        Seq::empty()
    } else if n == 1 {
        cases[0].doc()
    } else {
        cases_doc(cases, (n - 1) as nat) + seq![Piece::Text(" | "@)] + cases[n - 1].doc()
    }
}

/// The content of a comma-bracketed list group: the prefix's document, the
/// opening bracket, the elements, and the closing bracket.
pub open spec fn bracket_doc(
    pre: Seq<Piece>,
    open: Seq<char>,
    elems: Seq<Pat>,
    keep_comma: bool,
    close: Seq<char>,
) -> Seq<Piece>
    decreases elems, elems.len() + 1,
{
    pre + seq![Piece::Text(open)] + list_doc(elems, elems.len(), Seq::empty()) + (if elems.len() > 0 {
        seq![
            if keep_comma {
                Piece::Text(","@)
            } else {
                Piece::Tail(","@)
            },
            Piece::Break(false, Seq::empty()),
        ]
    } else {
        Seq::empty()
    }) + seq![Piece::Text(close)]
}

/// The content of a struct destructure group: the path, the fields, and,
/// when `rest`, the rest marker after them.
pub open spec fn struct_doc(path: Atom, fields: Seq<FieldPat>, rest: bool) -> Seq<Piece>
    decreases fields, fields.len() + 1,
{
    let n = fields.len();
    atom_doc(path) + seq![Piece::Text(" {"@)] + field_list_doc(fields, n, " "@) + (if rest {
        (if n > 0 {
            seq![Piece::Text(","@), Piece::Break(true, " "@)]
        } else {
            seq![Piece::Break(true, " "@)]
        }) + seq![Piece::Text(".."@), Piece::Break(false, " "@)]
    } else if n > 0 {
        seq![Piece::Tail(","@), Piece::Break(false, " "@)]
    } else {
        Seq::empty()
    }) + seq![Piece::Text("}"@)]
}

/// The source positions that building a list of patterns writes, in order.
pub open spec fn walks(s: Seq<Pat>, n: nat) -> Seq<LineCol>
    decreases s, n,
{
    if n == 0 || n > s.len() {
        Seq::empty()
    } else {
        walks(s, (n - 1) as nat) + s[n - 1].walk()
    }
}

/// The source positions that building a list of fields writes, in order.
pub open spec fn field_walks(s: Seq<FieldPat>, n: nat) -> Seq<LineCol>
    decreases s, n,
{
    if n == 0 || n > s.len() {
        Seq::empty()
    } else {
        field_walks(s, (n - 1) as nat) + s[n - 1].walk()
    }
}

/// Appends the group of pattern `p` to `sg`.
fn add_pat(out: &mut MakeSegsState, sg: &mut SplitGroupBuilder, p: &Pat)
    requires
        old(sg).wf(*old(out)),
        old(sg).end@ == old(out).cursor,
    ensures
        appended(*old(sg), *final(sg), *old(out), *final(out)),
        final(sg).doc(*final(out)) == old(sg).doc(*old(out)) + p.doc(),
        tracks(*old(out), *final(out), p.walk()),
    decreases p, 3int,
{
    let ghost o0 = *out;
    let h = p.make_segs(out);
    sg.attach(out, h, Ghost(o0));
    proof {
        assert(sg.segs@.subrange(0, old(sg).segs@.len() as int) =~= old(sg).segs@);
    }
}

/// Appends the group of field `f` to `sg`.
fn add_field(out: &mut MakeSegsState, sg: &mut SplitGroupBuilder, f: &FieldPat)
    requires
        old(sg).wf(*old(out)),
        old(sg).end@ == old(out).cursor,
    ensures
        appended(*old(sg), *final(sg), *old(out), *final(out)),
        final(sg).doc(*final(out)) == old(sg).doc(*old(out)) + f.doc(),
        tracks(*old(out), *final(out), f.walk()),
    decreases f, 3int,
{
    let ghost o0 = *out;
    let h = f.make_segs(out);
    sg.attach(out, h, Ghost(o0));
    proof {
        assert(sg.segs@.subrange(0, old(sg).segs@.len() as int) =~= old(sg).segs@);
    }
}

/// Appends a comma and a break point before every element but the first,
/// and a break point with `pad` before the first.
fn add_separator(out: &MakeSegsState, sg: &mut SplitGroupBuilder, first: bool, pad: &str)
    requires
        old(sg).wf(*out),
        old(sg).end@ == out.cursor,
    ensures
        appended(*old(sg), *final(sg), *out, *out),
        final(sg).doc(*out) == old(sg).doc(*out) + if first {
            seq![Piece::Break(true, pad@)]
        } else {
            seq![Piece::Text(","@), Piece::Break(true, " "@)]
        },
{
    if first {
        add_gap(out, sg, true, pad);
    } else {
        let ghost s1 = *sg;
        add_lit(out, sg, ",");
        let ghost s2 = *sg;
        add_gap(out, sg, true, " ");
        proof {
            lemma_appended_trans(s1, s2, *sg, *out, *out, *out);
        }
    }
}

/// Appends the elements of a comma list, each after a break point that
/// indents when the group breaks; `pad` is what stands before the first
/// element when it stays on one line.
fn add_pats(out: &mut MakeSegsState, sg: &mut SplitGroupBuilder, elems: &Vec<Pat>, pad: &str)
    requires
        old(sg).wf(*old(out)),
        old(sg).end@ == old(out).cursor,
    ensures
        appended(*old(sg), *final(sg), *old(out), *final(out)),
        final(sg).doc(*final(out)) == old(sg).doc(*old(out)) + list_doc(elems@, elems@.len(), pad@),
        tracks(*old(out), *final(out), walks(elems@, elems@.len())),
    decreases elems, 0int,
{
    proof {
        assert(sg.segs@.subrange(0, sg.segs@.len() as int) =~= sg.segs@);
        assert(sg.doc(*out) =~= sg.doc(*out) + list_doc(elems@, 0, pad@));
    }
    let mut i: usize = 0;
    while i < elems.len()
        invariant
            appended(*old(sg), *sg, *old(out), *out),
            i <= elems@.len(),
            sg.doc(*out) == old(sg).doc(*old(out)) + list_doc(elems@, i as nat, pad@),
            tracks(*old(out), *out, walks(elems@, i as nat)),
        decreases elems.len() - i,
    {
        let ghost s0 = *sg;
        let ghost o0 = *out;
        add_separator(out, sg, i == 0, pad);
        let ghost s3 = *sg;
        add_pat(out, sg, &elems[i]);
        proof {
            lemma_appended_trans(s0, s3, *sg, o0, o0, *out);
            lemma_appended_trans(*old(sg), s0, *sg, *old(out), o0, *out);
            assert(sg.doc(*out) =~= old(sg).doc(*old(out)) + list_doc(elems@, (i + 1) as nat, pad@));
            lemma_tracks_trans(*old(out), o0, *out, walks(elems@, i as nat), elems@[i as int].walk());
        }
        i = i + 1;
    }
}

/// `add_pats` for the fields of a struct destructure.
fn add_fields(
    out: &mut MakeSegsState,
    sg: &mut SplitGroupBuilder,
    fields: &Vec<FieldPat>,
    pad: &str,
)
    requires
        old(sg).wf(*old(out)),
        old(sg).end@ == old(out).cursor,
    ensures
        appended(*old(sg), *final(sg), *old(out), *final(out)),
        final(sg).doc(*final(out)) == old(sg).doc(*old(out)) + field_list_doc(fields@, fields@.len(), pad@),
        tracks(*old(out), *final(out), field_walks(fields@, fields@.len())),
    decreases fields, 0int,
{
    proof {
        assert(sg.segs@.subrange(0, sg.segs@.len() as int) =~= sg.segs@);
        assert(sg.doc(*out) =~= sg.doc(*out) + field_list_doc(fields@, 0, pad@));
    }
    let mut i: usize = 0;
    while i < fields.len()
        invariant
            appended(*old(sg), *sg, *old(out), *out),
            i <= fields@.len(),
            sg.doc(*out) == old(sg).doc(*old(out)) + field_list_doc(fields@, i as nat, pad@),
            tracks(*old(out), *out, field_walks(fields@, i as nat)),
        decreases fields.len() - i,
    {
        let ghost s0 = *sg;
        let ghost o0 = *out;
        add_separator(out, sg, i == 0, pad);
        let ghost s3 = *sg;
        add_field(out, sg, &fields[i]);
        proof {
            lemma_appended_trans(s0, s3, *sg, o0, o0, *out);
            lemma_appended_trans(*old(sg), s0, *sg, *old(out), o0, *out);
            assert(sg.doc(*out) =~= old(sg).doc(*old(out)) + field_list_doc(fields@, (i + 1) as nat, pad@));
            lemma_tracks_trans(
                *old(out),
                o0,
                *out,
                field_walks(fields@, i as nat),
                fields@[i as int].walk(),
            );
        }
        i = i + 1;
    }
}

/// Appends the alternatives of an or-pattern joined by ` | `, with no
/// break points and no trailing separator.
fn add_cases(out: &mut MakeSegsState, sg: &mut SplitGroupBuilder, cases: &Vec<Pat>)
    requires
        old(sg).wf(*old(out)),
        old(sg).end@ == old(out).cursor,
    ensures
        appended(*old(sg), *final(sg), *old(out), *final(out)),
        final(sg).doc(*final(out)) == old(sg).doc(*old(out)) + cases_doc(cases@, cases@.len()),
        tracks(*old(out), *final(out), walks(cases@, cases@.len())),
    decreases cases, 0int,
{
    proof {
        assert(sg.segs@.subrange(0, sg.segs@.len() as int) =~= sg.segs@);
        assert(sg.doc(*out) =~= sg.doc(*out) + cases_doc(cases@, 0));
    }
    let mut i: usize = 0;
    while i < cases.len()
        invariant
            appended(*old(sg), *sg, *old(out), *out),
            i <= cases@.len(),
            sg.doc(*out) == old(sg).doc(*old(out)) + cases_doc(cases@, i as nat),
            tracks(*old(out), *out, walks(cases@, i as nat)),
        decreases cases.len() - i,
    {
        let ghost s0 = *sg;
        let ghost o0 = *out;
        if i > 0 {
            add_lit(out, sg, " | ");
        }
        let ghost s1 = *sg;
        add_pat(out, sg, &cases[i]);
        proof {
            if i > 0 {
                lemma_appended_trans(s0, s1, *sg, o0, o0, *out);
            } else {
                assert(s1 == s0);
            }
            lemma_appended_trans(*old(sg), s0, *sg, *old(out), o0, *out);
            assert(sg.doc(*out) =~= old(sg).doc(*old(out)) + cases_doc(cases@, (i + 1) as nat));
            lemma_tracks_trans(*old(out), o0, *out, walks(cases@, i as nat), cases@[i as int].walk());
        }
        i = i + 1;
    }
}

/// A comma-bracketed list: an optional prefix (a path), the opening bracket,
/// the elements, and the closing bracket. On one line the elements are
/// joined by `, `; broken, each stands on its own line with a trailing comma
/// and the closing bracket on a line of its own. An empty list is just the
/// bracket pair. A single element keeps its trailing comma when the source
/// had one (a one-element tuple).
pub fn new_sg_comma_bracketed_list(
    out: &mut MakeSegsState,
    prefix: Option<&Atom>,
    open: &str,
    list: &PatList,
    close: &str,
) -> (r: usize)
    requires
        old(out).wf(),
    ensures
        made(*old(out), *final(out), r),
        group_doc(final(out).groups@, r as nat) == seq![Piece::Open] + bracket_doc(
            match prefix {
            Some(a) => atom_doc(*a),
            None => Seq::empty(),
        },
            open@,
            list.elems@,
            list.trailing_comma && list.elems@.len() == 1,
            close@,
        ) + seq![Piece::Close],
        tracks(
            *old(out),
            *final(out),
            opt_walk(
                match prefix {
                    Some(a) => Some(a.pos),
                    None => None,
                },
            ) + seq![list.open] + walks(list.elems@, list.elems@.len()) + seq![list.close],
        ),
    decreases list, 0int,
{
    proof {
        reveal_strlit("");
        assert(""@ =~= Seq::<char>::empty());
    }
    let ghost o0 = *out;
    let mut sg = new_sg(out);
    let ghost s0 = sg;
    match prefix {
        Some(a) => add_atom(out, &mut sg, a),
        None => {
            proof {
                assert(sg.segs@.subrange(0, sg.segs@.len() as int) =~= sg.segs@);
            }
        },
    }
    let ghost w1 = opt_walk(
        match prefix {
            Some(a) => Some(a.pos),
            None => None,
        },
    );
    let ghost s1 = sg;
    let ghost o1 = *out;
    let ghost k1 = sg.doc(*out);
    assert(k1 =~= match prefix {
            Some(a) => atom_doc(*a),
            None => Seq::empty(),
        });
    add_token(out, &mut sg, list.open, open);
    let ghost k2 = sg.doc(*out);
    let ghost s2 = sg;
    let ghost o2 = *out;
    add_pats(out, &mut sg, &list.elems, "");
    proof {
        lemma_appended_trans(s0, s1, s2, o0, o1, o2);
        lemma_appended_trans(s0, s2, sg, o0, o2, *out);
        lemma_tracks_trans(o0, o1, o2, w1, seq![list.open]);
        lemma_tracks_trans(o0, o2, *out, w1 + seq![list.open], walks(list.elems@, list.elems@.len()));
    }
    let ghost k3 = sg.doc(*out);
    assert(k3 == k2 + list_doc(list.elems@, list.elems@.len(), Seq::empty()));
    if list.elems.len() > 0 {
        let ghost s3 = sg;
        let ghost o3 = *out;
        if list.trailing_comma && list.elems.len() == 1 {
            add_lit(out, &mut sg, ",");
        } else {
            add_trail(out, &mut sg, ",");
        }
        let ghost s4 = sg;
        add_gap(out, &mut sg, false, "");
        proof {
            lemma_appended_trans(s3, s4, sg, o3, o3, o3);
            lemma_appended_trans(s0, s3, sg, o0, o3, o3);
        }
    }
    let ghost k5 = sg.doc(*out);
    assert(k5 =~= k3 + (if list.elems@.len() > 0 {
        seq![
            if list.trailing_comma && list.elems@.len() == 1 {
                Piece::Text(","@)
            } else {
                Piece::Tail(","@)
            },
            Piece::Break(false, Seq::empty()),
        ]
    } else {
        Seq::empty()
    }));
    let ghost s5 = sg;
    let ghost o5 = *out;
    add_token(out, &mut sg, list.close, close);
    proof {
        lemma_appended_trans(s0, s5, sg, o0, o5, *out);
        lemma_tracks_trans(
            o0,
            o5,
            *out,
            w1 + seq![list.open] + walks(list.elems@, list.elems@.len()),
            seq![list.close],
        );
    }
    assert(sg.doc(*out) =~= bracket_doc(
        match prefix {
            Some(a) => atom_doc(*a),
            None => Seq::empty(),
        },
        open@,
        list.elems@,
        list.trailing_comma && list.elems@.len() == 1,
        close@,
    ));
    finish(out, sg, Ghost(o0))
}

/// A struct destructure `path { fields }`, with the rest marker `..` after
/// the fields when the source has one: separated from a non-empty field
/// list by one comma, and with no comma before it when there are no fields.
#[verifier::rlimit(60)]
pub fn new_sg_struct(
    out: &mut MakeSegsState,
    path: &Atom,
    open: LineCol,
    fields: &Vec<FieldPat>,
    rest: Option<LineCol>,
    close: LineCol,
) -> (r: usize)
    requires
        old(out).wf(),
    ensures
        made(*old(out), *final(out), r),
        group_doc(final(out).groups@, r as nat) == seq![Piece::Open] + struct_doc(
            *path,
            fields@,
            rest.is_some(),
        ) + seq![Piece::Close],
        tracks(
            *old(out),
            *final(out),
            seq![path.pos, open] + field_walks(fields@, fields@.len()) + opt_walk(rest) + seq![close],
        ),
    decreases fields, 1int,
{
    let ghost o0 = *out;
    let mut sg = new_sg(out);
    let ghost s0 = sg;
    add_atom(out, &mut sg, path);
    let ghost s1 = sg;
    let ghost o1 = *out;
    add_token(out, &mut sg, open, " {");
    let ghost s2 = sg;
    let ghost o2 = *out;
    add_fields(out, &mut sg, fields, " ");
    let ghost w = seq![path.pos] + seq![open] + field_walks(fields@, fields@.len());
    proof {
        lemma_appended_trans(s0, s1, s2, o0, o1, o2);
        lemma_appended_trans(s0, s2, sg, o0, o2, *out);
        lemma_tracks_trans(o0, o1, o2, seq![path.pos], seq![open]);
        lemma_tracks_trans(o0, o2, *out, seq![path.pos] + seq![open], field_walks(fields@, fields@.len()));
    }
    let n = fields.len();
    let ghost o3 = *out;
    match rest {
        Some(d) => {
            let ghost s3 = sg;
            if n > 0 {
                add_lit(out, &mut sg, ",");
                let ghost s4 = sg;
                add_gap(out, &mut sg, true, " ");
                proof {
                    lemma_appended_trans(s3, s4, sg, o3, o3, o3);
                }
            } else {
                add_gap(out, &mut sg, true, " ");
            }
            let ghost s5 = sg;
            add_token(out, &mut sg, d, "..");
            let ghost s6 = sg;
            let ghost o6 = *out;
            add_gap(out, &mut sg, false, " ");
            proof {
                lemma_appended_trans(s3, s5, s6, o3, o3, o6);
                lemma_appended_trans(s3, s6, sg, o3, o6, o6);
                lemma_appended_trans(s0, s3, sg, o0, o3, o6);
            }
        },
        None => {
            if n > 0 {
                let ghost s3 = sg;
                add_trail(out, &mut sg, ",");
                let ghost s4 = sg;
                add_gap(out, &mut sg, false, " ");
                proof {
                    lemma_appended_trans(s3, s4, sg, o3, o3, o3);
                    lemma_appended_trans(s0, s3, sg, o0, o3, o3);
                }
            }
        },
    }
    proof {
        lemma_tracks_trans(o0, o3, *out, w, opt_walk(rest));
    }
    let ghost s7 = sg;
    let ghost o7 = *out;
    add_token(out, &mut sg, close, "}");
    proof {
        lemma_appended_trans(s0, s7, sg, o0, o7, *out);
        lemma_tracks_trans(o0, o7, *out, w + opt_walk(rest), seq![close]);
        assert(w + opt_walk(rest) + seq![close] =~= seq![path.pos, open] + field_walks(
            fields@,
            fields@.len(),
        ) + opt_walk(rest) + seq![close]);
    }
    assert(sg.doc(*out) =~= struct_doc(*path, fields@, rest.is_some()));
    finish(out, sg, Ghost(o0))
}

/// `box pat`.
fn make_box(out: &mut MakeSegsState, pos: LineCol, pat: &Pat) -> (r: usize)
    requires
        old(out).wf(),
    ensures
        made(*old(out), *final(out), r),
        group_doc(final(out).groups@, r as nat) == seq![Piece::Open] + (seq![Piece::Text("box "@)] + pat.doc()) + seq![Piece::Close],
        tracks(*old(out), *final(out), seq![pos] + pat.walk()),
    decreases pat, 4int,
{
    let ghost o0 = *out;
    let mut sg = new_sg(out);
    let ghost s0 = sg;
    add_token(out, &mut sg, pos, "box ");
    let ghost s1 = sg;
    let ghost o1 = *out;
    add_pat(out, &mut sg, pat);
    proof {
        lemma_appended_trans(s0, s1, sg, o0, o1, *out);
        lemma_tracks_trans(o0, o1, *out, seq![pos], pat.walk());
    }
    assert(sg.doc(*out) =~= seq![Piece::Text("box "@)] + pat.doc());
    finish(out, sg, Ghost(o0))
}

/// `&pat` or `&mut pat`.
fn make_reference(out: &mut MakeSegsState, pos: LineCol, mutability: bool, pat: &Pat) -> (r: usize)
    requires
        old(out).wf(),
    ensures
        made(*old(out), *final(out), r),
        group_doc(final(out).groups@, r as nat) == seq![Piece::Open] + (seq![Piece::Text(if mutability { "&mut "@ } else { "&"@ })] + pat.doc()) + seq![Piece::Close],
        tracks(*old(out), *final(out), seq![pos] + pat.walk()),
    decreases pat, 4int,
{
    let ghost o0 = *out;
    let mut sg = new_sg(out);
    let ghost s0 = sg;
    add_token(out, &mut sg, pos, if mutability { "&mut " } else { "&" });
    let ghost s1 = sg;
    let ghost o1 = *out;
    add_pat(out, &mut sg, pat);
    proof {
        lemma_appended_trans(s0, s1, sg, o0, o1, *out);
        lemma_tracks_trans(o0, o1, *out, seq![pos], pat.walk());
    }
    assert(sg.doc(*out) =~= seq![Piece::Text(if mutability { "&mut "@ } else { "&"@ })] + pat.doc());
    finish(out, sg, Ghost(o0))
}

/// `name @ pat`: the binding's `text`, written at `start`, as a group of
/// its own, then ` @` at `at` and the sub-pattern's group.
fn make_binding(
    out: &mut MakeSegsState,
    start: LineCol,
    text: &str,
    at: LineCol,
    pat: &Pat,
) -> (r: usize)
    requires
        old(out).wf(),
    ensures
        made(*old(out), *final(out), r),
        group_doc(final(out).groups@, r as nat) == seq![Piece::Open] + (seq![Piece::Open, Piece::Text(text@), Piece::Close, Piece::Text(" @"@), Piece::Break(true, " "@)] + pat.doc()) + seq![Piece::Close],
        tracks(*old(out), *final(out), seq![start, at] + pat.walk()),
    decreases pat, 4int,
{
    let ghost o0 = *out;
    let mut sg = new_sg(out);
    let ghost s0 = sg;
    let h = new_sg_lit(out, Some(start), text);
    sg.attach(out, h, Ghost(o0));
    let ghost s1 = sg;
    let ghost o1 = *out;
    proof {
        assert(sg.segs@.subrange(0, s0.segs@.len() as int) =~= s0.segs@);
    }
    add_token(out, &mut sg, at, " @");
    let ghost s2 = sg;
    let ghost o2 = *out;
    add_gap(out, &mut sg, true, " ");
    let ghost s3 = sg;
    add_pat(out, &mut sg, pat);
    proof {
        lemma_appended_trans(s0, s1, s2, o0, o1, o2);
        lemma_appended_trans(s2, s3, sg, o2, o2, *out);
        lemma_appended_trans(s0, s2, sg, o0, o2, *out);
        lemma_tracks_trans(o0, o1, o2, seq![start], seq![at]);
        lemma_tracks_trans(o0, o2, *out, seq![start] + seq![at], pat.walk());
        assert(seq![start] + seq![at] + pat.walk() =~= seq![start, at] + pat.walk());
    }
    assert(sg.doc(*out) =~= seq![Piece::Open, Piece::Text(text@), Piece::Close, Piece::Text(" @"@), Piece::Break(true, " "@)] + pat.doc());
    finish(out, sg, Ghost(o0))
}

/// `pat: type`.
fn make_ascription(out: &mut MakeSegsState, pat: &Pat, colon: LineCol, ty: &Atom) -> (r: usize)
    requires
        old(out).wf(),
    ensures
        made(*old(out), *final(out), r),
        group_doc(final(out).groups@, r as nat) == seq![Piece::Open] + (pat.doc() + seq![Piece::Text(":"@), Piece::Break(true, " "@)] + atom_doc(*ty)) + seq![Piece::Close],
        tracks(*old(out), *final(out), pat.walk() + seq![colon, ty.pos]),
    decreases pat, 4int,
{
    let ghost o0 = *out;
    let mut sg = new_sg(out);
    let ghost s0 = sg;
    add_pat(out, &mut sg, pat);
    let ghost s1 = sg;
    let ghost o1 = *out;
    add_token(out, &mut sg, colon, ":");
    let ghost s2 = sg;
    let ghost o2 = *out;
    add_gap(out, &mut sg, true, " ");
    let ghost s3 = sg;
    add_atom(out, &mut sg, ty);
    proof {
        lemma_appended_trans(s0, s1, s2, o0, o1, o2);
        lemma_appended_trans(s2, s3, sg, o2, o2, *out);
        lemma_appended_trans(s0, s2, sg, o0, o2, *out);
        lemma_tracks_trans(o0, o1, o2, pat.walk(), seq![colon]);
        lemma_tracks_trans(o0, o2, *out, pat.walk() + seq![colon], seq![ty.pos]);
        assert(pat.walk() + seq![colon] + seq![ty.pos] =~= pat.walk() + seq![colon, ty.pos]);
    }
    assert(sg.doc(*out) =~= pat.doc() + seq![Piece::Text(":"@), Piece::Break(true, " "@)] + atom_doc(*ty));
    finish(out, sg, Ghost(o0))
}

/// `lo..hi` or `lo..=hi`.
fn make_range(out: &mut MakeSegsState, lo: &Atom, limits: LineCol, closed: bool, hi: &Atom) -> (r:
    usize)
    requires
        old(out).wf(),
    ensures
        made(*old(out), *final(out), r),
        group_doc(final(out).groups@, r as nat) == seq![Piece::Open] + (atom_doc(*lo) + seq![Piece::Text(if closed { "..="@ } else { ".."@ }), Piece::Break(true, Seq::empty())] + atom_doc(*hi)) + seq![Piece::Close],
        tracks(*old(out), *final(out), seq![lo.pos, limits, hi.pos]),
{
    proof {
        reveal_strlit("");
        assert(""@ =~= Seq::<char>::empty());
    }
    let ghost o0 = *out;
    let mut sg = new_sg(out);
    let ghost s0 = sg;
    add_atom(out, &mut sg, lo);
    let ghost s1 = sg;
    let ghost o1 = *out;
    add_token(out, &mut sg, limits, if closed { "..=" } else { ".." });
    let ghost s2 = sg;
    let ghost o2 = *out;
    add_gap(out, &mut sg, true, "");
    let ghost s3 = sg;
    add_atom(out, &mut sg, hi);
    proof {
        lemma_appended_trans(s0, s1, s2, o0, o1, o2);
        lemma_appended_trans(s2, s3, sg, o2, o2, *out);
        lemma_appended_trans(s0, s2, sg, o0, o2, *out);
        lemma_tracks_trans(o0, o1, o2, seq![lo.pos], seq![limits]);
        lemma_tracks_trans(o0, o2, *out, seq![lo.pos] + seq![limits], seq![hi.pos]);
        assert(seq![lo.pos] + seq![limits] + seq![hi.pos] =~= seq![lo.pos, limits, hi.pos]);
    }
    assert(sg.doc(*out) =~= atom_doc(*lo) + seq![Piece::Text(if closed { "..="@ } else { ".."@ }), Piece::Break(true, Seq::empty())] + atom_doc(*hi));
    finish(out, sg, Ghost(o0))
}

/// A macro invocation, kept as written: `path!` and its delimited tokens.
fn make_macro(out: &mut MakeSegsState, mac: &MacroCall) -> (r: usize)
    requires
        old(out).wf(),
    ensures
        made(*old(out), *final(out), r),
        group_doc(final(out).groups@, r as nat) == seq![Piece::Open] + (seq![Piece::Text(mac.path.text@), Piece::Text("!"@), Piece::Text(mac.open@), Piece::Text(mac.tokens@), Piece::Text(mac.close@)]) + seq![Piece::Close],
        tracks(*old(out), *final(out), seq![mac.path.pos]),
{
    let ghost o0 = *out;
    let mut sg = new_sg(out);
    let ghost s0 = sg;
    add_token(out, &mut sg, mac.path.pos, mac.path.text.as_str());
    let ghost s1 = sg;
    let ghost o1 = *out;
    add_lit(out, &mut sg, "!");
    let ghost s2 = sg;
    add_lit(out, &mut sg, mac.open.as_str());
    let ghost s3 = sg;
    add_lit(out, &mut sg, mac.tokens.as_str());
    let ghost s4 = sg;
    add_lit(out, &mut sg, mac.close.as_str());
    proof {
        lemma_appended_trans(s3, s4, sg, o1, o1, o1);
        lemma_appended_trans(s2, s3, sg, o1, o1, o1);
        lemma_appended_trans(s1, s2, sg, o1, o1, o1);
        lemma_appended_trans(s0, s1, sg, o0, o1, o1);
    }
    assert(sg.doc(*out) =~= seq![Piece::Text(mac.path.text@), Piece::Text("!"@), Piece::Text(mac.open@), Piece::Text(mac.tokens@), Piece::Text(mac.close@)]);
    finish(out, sg, Ghost(o0))
}

/// An or-pattern, with its leading bar when the source has one.
fn make_or(out: &mut MakeSegsState, leading_vert: Option<LineCol>, cases: &Vec<Pat>) -> (r: usize)
    requires
        old(out).wf(),
    ensures
        made(*old(out), *final(out), r),
        group_doc(final(out).groups@, r as nat) == seq![Piece::Open] + (if leading_vert.is_some() {
            seq![Piece::Text("| "@)]
        } else {
            Seq::empty()
        }) + cases_doc(cases@, cases@.len()) + seq![Piece::Close],
        tracks(*old(out), *final(out), opt_walk(leading_vert) + walks(cases@, cases@.len())),
    decreases cases, 1int,
{
    let ghost o0 = *out;
    let mut sg = new_sg(out);
    match leading_vert {
        Some(p) => add_token(out, &mut sg, p, "| "),
        None => {},
    }
    proof {
        assert(sg.segs@.subrange(0, sg.segs@.len() as int) =~= sg.segs@);
        assert(sg.doc(*out) =~= if leading_vert.is_some() {
            seq![Piece::Text("| "@)]
        } else {
            Seq::empty()
        });
    }
    let ghost o1 = *out;
    add_cases(out, &mut sg, cases);
    proof {
        lemma_extends_trans(o0, o1, *out);
        lemma_tracks_trans(o0, o1, *out, opt_walk(leading_vert), walks(cases@, cases@.len()));
    }
    finish(out, sg, Ghost(o0))
}

/// The text of an identifier binding: `ref `, `mut ` and the name.
fn ident_text(by_ref: bool, mutability: bool, name: &String) -> (r: String)
    ensures
        r@ == (if by_ref {
            "ref "@
        } else {
            Seq::empty()
        }) + (if mutability {
            "mut "@
        } else {
            Seq::empty()
        }) + name@,
{
    let mut text = String::new();
    if by_ref {
        text.append("ref ");
    }
    assert(text@ =~= if by_ref {
        "ref "@
    } else {
        Seq::empty()
    });
    if mutability {
        text.append("mut ");
    }
    assert(text@ =~= (if by_ref {
        "ref "@
    } else {
        Seq::empty()
    }) + (if mutability {
        "mut "@
    } else {
        Seq::empty()
    }));
    text.append(name.as_str());
    text
}

impl Pat {
    /// The outer attributes of the pattern; verbatim text has none.
    pub open spec fn attr_atoms(&self) -> Seq<Atom> {
        match self {
            Pat::Box { attrs, .. } => attrs@,
            Pat::Ident { attrs, .. } => attrs@,
            Pat::Lit { attrs, .. } => attrs@,
            Pat::Macro { attrs, .. } => attrs@,
            Pat::Or { attrs, .. } => attrs@,
            Pat::Path { attrs, .. } => attrs@,
            Pat::Range { attrs, .. } => attrs@,
            Pat::Reference { attrs, .. } => attrs@,
            Pat::Rest { attrs, .. } => attrs@,
            Pat::Slice { attrs, .. } => attrs@,
            Pat::Struct { attrs, .. } => attrs@,
            Pat::Tuple { attrs, .. } => attrs@,
            Pat::TupleStruct { attrs, .. } => attrs@,
            Pat::Type { attrs, .. } => attrs@,
            Pat::Verbatim { .. } => Seq::empty(),
            Pat::Wild { attrs, .. } => attrs@,
        }
    }

    pub open spec fn attr_count(&self) -> nat {
        self.attr_atoms().len()
    }

    /// Where an identifier binding starts: at `ref`, else at `mut`, else at
    /// the name.
    pub open spec fn ident_start(
        by_ref: Option<LineCol>,
        mutability: Option<LineCol>,
        name: Atom,
    ) -> LineCol {
        match by_ref {
            Some(b) => b,
            None => match mutability {
                Some(m) => m,
                None => name.pos,
            },
        }
    }

    /// The source positions that building the pattern writes, in order:
    /// those of its attributes, then those of its body.
    pub open spec fn walk(&self) -> Seq<LineCol>
        decreases self, 1int,
    {
        atom_walk(self.attr_atoms(), self.attr_count()) + self.body_walk()
    }

    /// The source positions that building the pattern's body writes.
    pub open spec fn body_walk(&self) -> Seq<LineCol>
        decreases self, 0int,
    {
        match self {
            Pat::Box { pos, pat, .. } => seq![*pos] + pat.walk(),
            Pat::Ident { by_ref, mutability, name, subpat, .. } => {
                let start = Pat::ident_start(*by_ref, *mutability, *name);
                match subpat {
                    None => seq![start],
                    Some((at, p)) => seq![start, *at] + p.walk(),
                }
            },
            Pat::Lit { expr, .. } => seq![expr.pos],
            Pat::Macro { mac, .. } => seq![mac.path.pos],
            Pat::Or { leading_vert, cases, .. } => opt_walk(*leading_vert) + walks(
                cases@,
                cases@.len(),
            ),
            Pat::Path { path, .. } => seq![path.pos],
            Pat::Range { lo, limits, hi, .. } => seq![lo.pos, *limits, hi.pos],
            Pat::Reference { pos, pat, .. } => seq![*pos] + pat.walk(),
            Pat::Rest { pos, .. } => seq![*pos],
            Pat::Slice { list, .. } => opt_walk(None) + seq![list.open] + walks(
                list.elems@,
                list.elems@.len(),
            ) + seq![list.close],
            Pat::Struct { path, open, fields, rest, close, .. } => seq![path.pos, *open]
                + field_walks(fields@, fields@.len()) + opt_walk(*rest) + seq![*close],
            Pat::Tuple { list, .. } => opt_walk(None) + seq![list.open] + walks(
                list.elems@,
                list.elems@.len(),
            ) + seq![list.close],
            Pat::TupleStruct { path, list, .. } => opt_walk(Some(path.pos)) + seq![list.open]
                + walks(list.elems@, list.elems@.len()) + seq![list.close],
            Pat::Type { pat, colon, ty, .. } => pat.walk() + seq![*colon, ty.pos],
            Pat::Verbatim { .. } => Seq::empty(),
            Pat::Wild { pos, .. } => seq![*pos],
        }
    }

    /// The document of the group that holds the pattern without its
    /// attributes, sub-patterns and kept source text expanded.
    pub open spec fn body_doc(&self) -> Seq<Piece>
        decreases self, 1int,
    {
        seq![Piece::Open] + match self {
            Pat::Box { pat, .. } => seq![Piece::Text("box "@)] + pat.doc(),
            Pat::Ident { by_ref, mutability, name, subpat, .. } => {
                let text = (if by_ref.is_some() {
                    "ref "@
                } else {
                    Seq::empty()
                }) + (if mutability.is_some() {
                    "mut "@
                } else {
                    Seq::empty()
                }) + name.text@;
                match subpat {
                    None => seq![Piece::Text(text)],
                    Some((_, p)) => seq![
                        Piece::Open,
                        Piece::Text(text),
                        Piece::Close,
                        Piece::Text(" @"@),
                        Piece::Break(true, " "@),
                    ] + p.doc(),
                }
            },
            Pat::Lit { expr, .. } => seq![Piece::Text(expr.text@)],
            Pat::Macro { mac, .. } => seq![
                Piece::Text(mac.path.text@),
                Piece::Text("!"@),
                Piece::Text(mac.open@),
                Piece::Text(mac.tokens@),
                Piece::Text(mac.close@),
            ],
            Pat::Or { leading_vert, cases, .. } => (if leading_vert.is_some() {
                seq![Piece::Text("| "@)]
            } else {
                Seq::empty()
            }) + cases_doc(cases@, cases@.len()),
            Pat::Path { path, .. } => seq![Piece::Text(path.text@)],
            Pat::Range { lo, closed, hi, .. } => atom_doc(*lo) + seq![
                Piece::Text(
                    if *closed {
                        "..="@
                    } else {
                        ".."@
                    },
                ),
                Piece::Break(true, Seq::empty()),
            ] + atom_doc(*hi),
            Pat::Reference { mutability, pat, .. } => seq![
                Piece::Text(
                    if *mutability {
                        "&mut "@
                    } else {
                        "&"@
                    },
                ),
            ] + pat.doc(),
            Pat::Rest { .. } => seq![Piece::Text(".."@)],
            Pat::Slice { list, .. } => bracket_doc(
                Seq::empty(),
                "["@,
                list.elems@,
                list.trailing_comma && list.elems@.len() == 1,
                "]"@,
            ),
            Pat::Struct { path, fields, rest, .. } => struct_doc(*path, fields@, rest.is_some()),
            Pat::Tuple { list, .. } => bracket_doc(
                Seq::empty(),
                "("@,
                list.elems@,
                list.trailing_comma && list.elems@.len() == 1,
                ")"@,
            ),
            Pat::TupleStruct { path, list, .. } => bracket_doc(
                atom_doc(*path),
                "("@,
                list.elems@,
                list.trailing_comma && list.elems@.len() == 1,
                ")"@,
            ),
            Pat::Type { pat, ty, .. } => pat.doc() + seq![Piece::Text(":"@), Piece::Break(true, " "@)]
                + atom_doc(*ty),
            Pat::Verbatim { text } => seq![Piece::Text(text@)],
            Pat::Wild { .. } => seq![Piece::Text("_"@)],
        } + seq![Piece::Close]
    }

    /// The whole document of the pattern's group: the body alone, or each
    /// attribute's group on its own line followed by the body's group.
    pub open spec fn doc(&self) -> Seq<Piece>
        decreases self, 2int,
    {
        if self.attr_count() == 0 {
            self.body_doc()
        } else {
            seq![Piece::Open] + attrs_doc(self.attr_atoms(), self.attr_count()) + self.body_doc()
                + seq![Piece::Close]
        }
    }

    /// The outer attributes of the pattern; verbatim text has none.
    pub fn attrs(&self) -> (r: Option<&Vec<Atom>>)
        ensures
            r.is_none() <==> self is Verbatim,
            r matches Some(a) ==> a@ == self.attr_atoms(),
    {
        match self {
            Pat::Box { attrs, .. } => Some(attrs),
            Pat::Ident { attrs, .. } => Some(attrs),
            Pat::Lit { attrs, .. } => Some(attrs),
            Pat::Macro { attrs, .. } => Some(attrs),
            Pat::Or { attrs, .. } => Some(attrs),
            Pat::Path { attrs, .. } => Some(attrs),
            Pat::Range { attrs, .. } => Some(attrs),
            Pat::Reference { attrs, .. } => Some(attrs),
            Pat::Rest { attrs, .. } => Some(attrs),
            Pat::Slice { attrs, .. } => Some(attrs),
            Pat::Struct { attrs, .. } => Some(attrs),
            Pat::Tuple { attrs, .. } => Some(attrs),
            Pat::TupleStruct { attrs, .. } => Some(attrs),
            Pat::Type { attrs, .. } => Some(attrs),
            Pat::Verbatim { .. } => None,
            Pat::Wild { attrs, .. } => Some(attrs),
        }
    }

    /// Builds the group of this pattern: its outer attributes, each on a
    /// line of its own, then its body. The group holds exactly the comments
    /// placed meanwhile, in source order, and the tree is marked malformed
    /// exactly when the positions written go backwards.
    pub fn make_segs(&self, out: &mut MakeSegsState) -> (r: usize)
        requires
            old(out).wf(),
        ensures
            made(*old(out), *final(out), r),
            group_doc(final(out).groups@, r as nat) == self.doc(),
            tracks(*old(out), *final(out), self.walk()),
        decreases self, 2int,
    {
        proof {
            assert(atom_walk(self.attr_atoms(), 0) =~= Seq::empty());
            assert(self.walk() =~= atom_walk(self.attr_atoms(), self.attr_count()) + self.body_walk());
        }
        match self.attrs() {
            None => {
                assert(self.walk() =~= self.body_walk());
                self.make_body(out)
            },
            Some(attrs) => if attrs.len() == 0 {
                assert(self.walk() =~= self.body_walk());
                self.make_body(out)
            } else {
                let ghost o0 = *out;
                let mut sg = new_sg(out);
                add_attrs(out, &mut sg, attrs);
                let ghost o1 = *out;
                let b = self.make_body(out);
                proof {
                    lemma_tracks_trans(o0, o1, *out, atom_walk(attrs@, attrs@.len()), self.body_walk());
                }
                sg.attach(out, b, Ghost(o1));
                assert(sg.doc(*out) =~= attrs_doc(attrs@, attrs@.len()) + self.body_doc());
                finish(out, sg, Ghost(o0))
            },
        }
    }

    /// The group of the pattern without its attributes.
    fn make_body(&self, out: &mut MakeSegsState) -> (r: usize)
        requires
            old(out).wf(),
        ensures
            made(*old(out), *final(out), r),
            group_doc(final(out).groups@, r as nat) == self.body_doc(),
            tracks(*old(out), *final(out), self.body_walk()),
        decreases self, 1int,
    {
        match self {
            Pat::Box { pos, pat, .. } => make_box(out, *pos, pat),
            Pat::Ident { by_ref, mutability, name, subpat, .. } => {
                let start = match by_ref {
                    Some(b) => *b,
                    None => match mutability {
                        Some(m) => *m,
                        None => name.pos,
                    },
                };
                let text = ident_text(by_ref.is_some(), mutability.is_some(), &name.text);
                match subpat {
                    None => new_sg_lit(out, Some(start), text.as_str()),
                    Some((at, p)) => make_binding(out, start, text.as_str(), *at, p),
                }
            },
            Pat::Lit { expr, .. } => new_sg_lit(out, Some(expr.pos), expr.text.as_str()),
            Pat::Macro { mac, .. } => make_macro(out, mac),
            Pat::Or { leading_vert, cases, .. } => make_or(out, *leading_vert, cases),
            Pat::Path { path, .. } => new_sg_lit(out, Some(path.pos), path.text.as_str()),
            Pat::Range { lo, limits, closed, hi, .. } => make_range(out, lo, *limits, *closed, hi),
            Pat::Reference { pos, mutability, pat, .. } => make_reference(out, *pos, *mutability, pat),
            Pat::Rest { pos, .. } => new_sg_lit(out, Some(*pos), ".."),
            Pat::Slice { list, .. } => new_sg_comma_bracketed_list(out, None, "[", list, "]"),
            Pat::Struct { path, open, fields, rest, close, .. } => new_sg_struct(
                out,
                path,
                *open,
                fields,
                *rest,
                *close,
            ),
            Pat::Tuple { list, .. } => new_sg_comma_bracketed_list(out, None, "(", list, ")"),
            Pat::TupleStruct { path, list, .. } => new_sg_comma_bracketed_list(
                out,
                Some(path),
                "(",
                list,
                ")",
            ),
            Pat::Type { pat, colon, ty, .. } => make_ascription(out, pat, *colon, ty),
            Pat::Verbatim { text } => new_sg_lit(out, None, text.as_str()),
            Pat::Wild { pos, .. } => new_sg_lit(out, Some(*pos), "_"),
        }
    }
}

impl FieldPat {
    /// The source positions that building the field writes, in order.
    pub open spec fn walk(&self) -> Seq<LineCol>
        decreases self, 1int,
    {
        atom_walk(self.attrs@, self.attrs@.len()) + self.body_walk()
    }

    pub open spec fn body_walk(&self) -> Seq<LineCol>
        decreases self, 0int,
    {
        match self.colon {
            None => self.pat.walk(),
            Some(c) => seq![self.member.pos, c] + self.pat.walk(),
        }
    }

    /// The document of the field's group without attributes: `member: pat`
    /// or, in shorthand, the pattern's own document.
    pub open spec fn body_doc(&self) -> Seq<Piece>
        decreases self, 1int,
    {
        match self.colon {
            None => self.pat.doc(),
            Some(_) => seq![
                Piece::Open,
                Piece::Text(self.member.text@),
                Piece::Text(":"@),
                Piece::Break(true, " "@),
            ] + self.pat.doc() + seq![Piece::Close],
        }
    }

    /// The whole document of the field's group.
    pub open spec fn doc(&self) -> Seq<Piece>
        decreases self, 2int,
    {
        if self.attrs@.len() == 0 {
            self.body_doc()
        } else {
            seq![Piece::Open] + attrs_doc(self.attrs@, self.attrs@.len()) + self.body_doc() + seq![
                Piece::Close,
            ]
        }
    }

    /// Builds the group of the field: its attributes, then `member: pat`,
    /// or the pattern alone in shorthand form.
    pub fn make_segs(&self, out: &mut MakeSegsState) -> (r: usize)
        requires
            old(out).wf(),
        ensures
            made(*old(out), *final(out), r),
            group_doc(final(out).groups@, r as nat) == self.doc(),
            tracks(*old(out), *final(out), self.walk()),
        decreases self, 2int,
    {
        if self.attrs.len() == 0 {
            assert(atom_walk(self.attrs@, 0) =~= Seq::empty());
            assert(self.walk() =~= self.body_walk());
            self.make_body(out)
        } else {
            let ghost o0 = *out;
            let mut sg = new_sg(out);
            add_attrs(out, &mut sg, &self.attrs);
            let ghost o1 = *out;
            let b = self.make_body(out);
            proof {
                lemma_tracks_trans(o0, o1, *out, atom_walk(self.attrs@, self.attrs@.len()), self.body_walk());
            }
            sg.attach(out, b, Ghost(o1));
            assert(sg.doc(*out) =~= attrs_doc(self.attrs@, self.attrs@.len()) + self.body_doc());
            finish(out, sg, Ghost(o0))
        }
    }

    fn make_body(&self, out: &mut MakeSegsState) -> (r: usize)
        requires
            old(out).wf(),
        ensures
            made(*old(out), *final(out), r),
            group_doc(final(out).groups@, r as nat) == self.body_doc(),
            tracks(*old(out), *final(out), self.body_walk()),
        decreases self, 1int,
    {
        match self.colon {
            None => self.pat.make_segs(out),
            Some(c) => {
                let ghost o0 = *out;
                let mut sg = new_sg(out);
                let ghost s0 = sg;
                add_token(out, &mut sg, self.member.pos, self.member.text.as_str());
                let ghost s1 = sg;
                let ghost o1 = *out;
                add_token(out, &mut sg, c, ":");
                let ghost s2 = sg;
                let ghost o2 = *out;
                add_gap(out, &mut sg, true, " ");
                let ghost s3 = sg;
                add_pat(out, &mut sg, &self.pat);
                proof {
                    lemma_appended_trans(s0, s1, s2, o0, o1, o2);
                    lemma_appended_trans(s2, s3, sg, o2, o2, *out);
                    lemma_appended_trans(s0, s2, sg, o0, o2, *out);
                    lemma_tracks_trans(o0, o1, o2, seq![self.member.pos], seq![c]);
                    lemma_tracks_trans(o0, o2, *out, seq![self.member.pos] + seq![c], self.pat.walk());
                    assert(seq![self.member.pos] + seq![c] + self.pat.walk() =~= seq![self.member.pos, c]
                        + self.pat.walk());
                }
                assert(seq![Piece::Open] + sg.doc(*out) + seq![Piece::Close] =~= self.body_doc());
                finish(out, sg, Ghost(o0))
            },
        }
    }
}

} // verus!
