use sg_pat::{Atom, Comment, Config, FieldPat, FormatError, LineCol, MacroCall, Pat, PatList};

fn at(line: usize, column: usize) -> LineCol {
    LineCol::new(line, column)
}

fn atom(text: &str, line: usize, column: usize) -> Atom {
    Atom { text: text.to_string(), pos: at(line, column) }
}

fn ident(name: &str, line: usize, column: usize) -> Pat {
    Pat::Ident { attrs: vec![], by_ref: None, mutability: None, name: atom(name, line, column), subpat: None }
}

fn path(text: &str, line: usize, column: usize) -> Pat {
    Pat::Path { attrs: vec![], path: atom(text, line, column) }
}

fn wide() -> Config {
    Config { max_line_width: 100, indent_width: 4 }
}

fn tuple_abc() -> Pat {
    Pat::Tuple {
        attrs: vec![],
        list: PatList {
            open: at(1, 0),
            elems: vec![ident("a", 1, 1), ident("b", 1, 4), ident("c", 1, 7)],
            close: at(1, 8),
            trailing_comma: false,
        },
    }
}

fn shorthand(name: &str, line: usize, column: usize) -> FieldPat {
    FieldPat { attrs: vec![], member: atom(name, line, column), colon: None, pat: Box::new(ident(name, line, column)) }
}

fn line_comment(text: &str, line: usize, column: usize) -> Comment {
    Comment { pos: at(line, column), text: text.to_string(), line: true }
}

fn block_comment(text: &str, line: usize, column: usize) -> Comment {
    Comment { pos: at(line, column), text: text.to_string(), line: false }
}

#[test]
fn tuple_fits_on_one_line() {
    assert_eq!(sg_pat::format::format(&tuple_abc(), vec![], &wide()), Ok("(a, b, c)".to_string()));
}

#[test]
fn tuple_breaks_one_element_per_line() {
    let cfg = Config { max_line_width: 5, indent_width: 4 };
    assert_eq!(sg_pat::format::format(&tuple_abc(), vec![], &cfg), Ok("(\n    a,\n    b,\n    c,\n)".to_string()));
}

#[test]
fn tuple_width_budget_is_inclusive() {
    let exact = Config { max_line_width: 9, indent_width: 4 };
    assert_eq!(sg_pat::format::format(&tuple_abc(), vec![], &exact), Ok("(a, b, c)".to_string()));
    let short = Config { max_line_width: 8, indent_width: 2 };
    assert_eq!(sg_pat::format::format(&tuple_abc(), vec![], &short), Ok("(\n  a,\n  b,\n  c,\n)".to_string()));
}

#[test]
fn struct_rest_after_fields() {
    let p = Pat::Struct {
        attrs: vec![],
        path: atom("S", 1, 0),
        open: at(1, 2),
        fields: vec![shorthand("a", 1, 4), shorthand("b", 1, 7)],
        rest: Some(at(1, 10)),
        close: at(1, 13),
    };
    assert_eq!(sg_pat::format::format(&p, vec![], &wide()), Ok("S { a, b, .. }".to_string()));
    let narrow = Config { max_line_width: 6, indent_width: 4 };
    assert_eq!(sg_pat::format::format(&p, vec![], &narrow), Ok("S {\n    a,\n    b,\n    ..\n}".to_string()));
}

#[test]
fn struct_rest_alone() {
    let p = Pat::Struct {
        attrs: vec![],
        path: atom("S", 1, 0),
        open: at(1, 2),
        fields: vec![],
        rest: Some(at(1, 4)),
        close: at(1, 7),
    };
    assert_eq!(sg_pat::format::format(&p, vec![], &wide()), Ok("S { .. }".to_string()));
}

#[test]
fn struct_named_field_and_empty_struct() {
    let field = FieldPat {
        attrs: vec![],
        member: atom("x", 1, 4),
        colon: Some(at(1, 5)),
        pat: Box::new(Pat::Wild { attrs: vec![], pos: at(1, 7) }),
    };
    let p = Pat::Struct {
        attrs: vec![],
        path: atom("P", 1, 0),
        open: at(1, 2),
        fields: vec![field],
        rest: None,
        close: at(1, 9),
    };
    assert_eq!(sg_pat::format::format(&p, vec![], &wide()), Ok("P { x: _ }".to_string()));
    let empty = Pat::Struct { attrs: vec![], path: atom("E", 1, 0), open: at(1, 2), fields: vec![], rest: None, close: at(1, 3) };
    assert_eq!(sg_pat::format::format(&empty, vec![], &wide()), Ok("E {}".to_string()));
}

#[test]
fn or_pattern_keeps_leading_bar() {
    let p = Pat::Or { attrs: vec![], leading_vert: Some(at(1, 0)), cases: vec![path("A", 1, 2), path("B", 1, 6)] };
    assert_eq!(sg_pat::format::format(&p, vec![], &wide()), Ok("| A | B".to_string()));
}

#[test]
fn or_pattern_adds_no_leading_bar() {
    let p = Pat::Or { attrs: vec![], leading_vert: None, cases: vec![path("A", 1, 0), path("B", 1, 4)] };
    assert_eq!(sg_pat::format::format(&p, vec![], &wide()), Ok("A | B".to_string()));
}

#[test]
fn line_comment_between_elements_breaks_group() {
    let p = Pat::Tuple {
        attrs: vec![],
        list: PatList {
            open: at(1, 0),
            elems: vec![ident("a", 1, 1), ident("b", 2, 1)],
            close: at(2, 2),
            trailing_comma: false,
        },
    };
    let r = sg_pat::format::format(&p, vec![line_comment("// c", 1, 4)], &wide());
    assert_eq!(r, Ok("(\n    a,\n    // c\n    b,\n)".to_string()));
}

#[test]
fn block_comment_stays_inline() {
    let r = sg_pat::format::format(&tuple_abc(), vec![block_comment("/* x */", 1, 3)], &wide());
    assert_eq!(r, Ok("(a, /* x */ b, c)".to_string()));
}

#[test]
fn multi_line_block_comment_breaks_group() {
    let r = sg_pat::format::format(&tuple_abc(), vec![block_comment("/* x\n y */", 1, 3)], &wide());
    assert_eq!(r, Ok("(\n    a,\n    /* x\n y */\n    b,\n    c,\n)".to_string()));
}

#[test]
fn trailing_comment_is_kept_after_pattern() {
    let r = sg_pat::format::format(&ident("x", 1, 0), vec![line_comment("// end", 1, 2)], &wide());
    assert_eq!(r, Ok("x\n// end\n".to_string()));
}

#[test]
fn every_comment_appears_once_in_order() {
    let comments = vec![block_comment("/* one */", 1, 2), block_comment("/* two */", 1, 5), line_comment("// three", 1, 9)];
    let r = sg_pat::format::format(&tuple_abc(), comments, &wide()).unwrap();
    let one = r.find("/* one */").unwrap();
    let two = r.find("/* two */").unwrap();
    let three = r.find("// three").unwrap();
    assert!(one < two && two < three);
    assert_eq!(r.matches("/* one */").count(), 1);
    assert_eq!(r.matches("/* two */").count(), 1);
    assert_eq!(r.matches("// three").count(), 1);
}

#[test]
fn unsorted_comments_are_malformed() {
    let comments = vec![block_comment("/* b */", 1, 5), block_comment("/* a */", 1, 2)];
    assert_eq!(sg_pat::format::format(&tuple_abc(), comments, &wide()), Err(FormatError::MalformedTree));
}

#[test]
fn positions_out_of_order_are_malformed() {
    let p = Pat::Tuple {
        attrs: vec![],
        list: PatList { open: at(1, 0), elems: vec![ident("a", 1, 4), ident("b", 1, 1)], close: at(1, 6), trailing_comma: false },
    };
    assert_eq!(sg_pat::format::format(&p, vec![], &wide()), Err(FormatError::MalformedTree));
}

#[test]
fn single_element_tuple_keeps_comma() {
    let p = Pat::Tuple {
        attrs: vec![],
        list: PatList { open: at(1, 0), elems: vec![ident("a", 1, 1)], close: at(1, 3), trailing_comma: true },
    };
    assert_eq!(sg_pat::format::format(&p, vec![], &wide()), Ok("(a,)".to_string()));
    let paren = Pat::Tuple {
        attrs: vec![],
        list: PatList { open: at(1, 0), elems: vec![ident("a", 1, 1)], close: at(1, 2), trailing_comma: false },
    };
    assert_eq!(sg_pat::format::format(&paren, vec![], &wide()), Ok("(a)".to_string()));
}

#[test]
fn empty_lists_are_bare_brackets() {
    let t = Pat::Tuple { attrs: vec![], list: PatList { open: at(1, 0), elems: vec![], close: at(1, 1), trailing_comma: false } };
    assert_eq!(sg_pat::format::format(&t, vec![], &wide()), Ok("()".to_string()));
    let s = Pat::Slice { attrs: vec![], list: PatList { open: at(1, 0), elems: vec![], close: at(1, 1), trailing_comma: false } };
    assert_eq!(sg_pat::format::format(&s, vec![], &wide()), Ok("[]".to_string()));
}

#[test]
fn slice_and_tuple_struct() {
    let s = Pat::Slice {
        attrs: vec![],
        list: PatList {
            open: at(1, 0),
            elems: vec![ident("first", 1, 1), Pat::Rest { attrs: vec![], pos: at(1, 8) }],
            close: at(1, 10),
            trailing_comma: false,
        },
    };
    assert_eq!(sg_pat::format::format(&s, vec![], &wide()), Ok("[first, ..]".to_string()));
    let ts = Pat::TupleStruct {
        attrs: vec![],
        path: atom("Some", 1, 0),
        list: PatList { open: at(1, 4), elems: vec![Pat::Wild { attrs: vec![], pos: at(1, 5) }], close: at(1, 6), trailing_comma: false },
    };
    assert_eq!(sg_pat::format::format(&ts, vec![], &wide()), Ok("Some(_)".to_string()));
}

#[test]
fn ident_with_modifiers_and_subpattern() {
    let p = Pat::Ident {
        attrs: vec![],
        by_ref: Some(at(1, 0)),
        mutability: Some(at(1, 4)),
        name: atom("x", 1, 8),
        subpat: Some((at(1, 10), Box::new(Pat::Lit { attrs: vec![], expr: atom("3", 1, 12) }))),
    };
    assert_eq!(sg_pat::format::format(&p, vec![], &wide()), Ok("ref mut x @ 3".to_string()));
    let narrow = Config { max_line_width: 4, indent_width: 4 };
    assert_eq!(sg_pat::format::format(&p, vec![], &narrow), Ok("ref mut x @\n    3".to_string()));
}

#[test]
fn ranges_references_and_ascriptions() {
    let closed = Pat::Range { attrs: vec![], lo: atom("1", 1, 0), limits: at(1, 1), closed: true, hi: atom("5", 1, 4) };
    assert_eq!(sg_pat::format::format(&closed, vec![], &wide()), Ok("1..=5".to_string()));
    let open = Pat::Range { attrs: vec![], lo: atom("'a'", 1, 0), limits: at(1, 3), closed: false, hi: atom("'z'", 1, 5) };
    assert_eq!(sg_pat::format::format(&open, vec![], &wide()), Ok("'a'..'z'".to_string()));
    let r = Pat::Reference { attrs: vec![], pos: at(1, 0), mutability: true, pat: Box::new(ident("v", 1, 5)) };
    assert_eq!(sg_pat::format::format(&r, vec![], &wide()), Ok("&mut v".to_string()));
    let t = Pat::Type { attrs: vec![], pat: Box::new(ident("n", 1, 0)), colon: at(1, 1), ty: atom("u32", 1, 3) };
    assert_eq!(sg_pat::format::format(&t, vec![], &wide()), Ok("n: u32".to_string()));
    let b = Pat::Box { attrs: vec![], pos: at(1, 0), pat: Box::new(ident("inner", 1, 4)) };
    assert_eq!(sg_pat::format::format(&b, vec![], &wide()), Ok("box inner".to_string()));
}

#[test]
fn macro_and_verbatim_are_kept_as_written() {
    let m = Pat::Macro {
        attrs: vec![],
        mac: MacroCall { path: atom("pat", 1, 0), open: "(".to_string(), tokens: "x , y".to_string(), close: ")".to_string() },
    };
    assert_eq!(sg_pat::format::format(&m, vec![], &wide()), Ok("pat!(x , y)".to_string()));
    let v = Pat::Verbatim { text: "const { 1 }".to_string() };
    assert_eq!(sg_pat::format::format(&v, vec![], &wide()), Ok("const { 1 }".to_string()));
}

#[test]
fn attributes_stand_on_their_own_line() {
    let p = Pat::Wild { attrs: vec![atom("#[allow(unused)]", 1, 0)], pos: at(2, 0) };
    assert_eq!(sg_pat::format::format(&p, vec![], &wide()), Ok("#[allow(unused)]\n_".to_string()));
}

#[test]
fn output_is_deterministic() {
    let cfg = Config { max_line_width: 5, indent_width: 4 };
    assert_eq!(sg_pat::format::format(&tuple_abc(), vec![], &cfg), sg_pat::format::format(&tuple_abc(), vec![], &cfg));
}

#[test]
fn one_layout_renders_under_each_budget() {
    let layout = sg_pat::build(&tuple_abc(), vec![]).unwrap();
    assert_eq!(layout.render(&wide()), "(a, b, c)");
    let narrow = Config { max_line_width: 3, indent_width: 1 };
    assert_eq!(layout.render(&narrow), "(\n a,\n b,\n c,\n)");
}

#[test]
fn build_refuses_unsorted_comments() {
    let comments = vec![line_comment("// b", 2, 0), line_comment("// a", 1, 0)];
    assert!(matches!(sg_pat::build(&tuple_abc(), comments), Err(FormatError::MalformedTree)));
}

fn named_field(member: &str, column: usize, pat: Pat) -> FieldPat {
    FieldPat { attrs: vec![], member: atom(member, 1, column), colon: Some(at(1, column + member.len())), pat: Box::new(pat) }
}

fn struct_of(fields: Vec<FieldPat>, close: usize) -> Pat {
    Pat::Struct { attrs: vec![], path: atom("S", 1, 0), open: at(1, 2), fields, rest: None, close: at(1, close) }
}

#[test]
fn named_and_numbered_fields() {
    let p = struct_of(vec![named_field("a", 4, ident("b", 1, 7))], 9);
    assert_eq!(sg_pat::format::format(&p, vec![], &wide()), Ok("S { a: b }".to_string()));
    let q = struct_of(vec![named_field("0", 4, ident("x", 1, 7))], 9);
    assert_eq!(sg_pat::format::format(&q, vec![], &wide()), Ok("S { 0: x }".to_string()));
    let bound = Pat::Ident {
        attrs: vec![],
        by_ref: Some(at(1, 7)),
        mutability: Some(at(1, 11)),
        name: atom("b", 1, 15),
        subpat: None,
    };
    let r = struct_of(vec![named_field("a", 4, bound)], 17);
    assert_eq!(sg_pat::format::format(&r, vec![], &wide()), Ok("S { a: ref mut b }".to_string()));
}

#[test]
fn comment_between_member_and_pattern_stays_between() {
    let p = struct_of(vec![named_field("a", 4, ident("b", 1, 15))], 17);
    let r = sg_pat::format::format(&p, vec![block_comment("/* c */", 1, 7)], &wide());
    assert_eq!(r, Ok("S { a: /* c */ b }".to_string()));
}

#[test]
fn broken_field_puts_pattern_on_next_line() {
    let p = struct_of(vec![named_field("long", 4, ident("value", 1, 10))], 16);
    let narrow = Config { max_line_width: 8, indent_width: 4 };
    assert_eq!(sg_pat::format::format(&p, vec![], &narrow), Ok("S {\n    long:\n        value,\n}".to_string()));
}

#[test]
fn several_attributes_keep_their_order() {
    let p = Pat::Wild { attrs: vec![atom("#[a]", 1, 0), atom("#[b]", 2, 0)], pos: at(3, 0) };
    assert_eq!(sg_pat::format::format(&p, vec![], &wide()), Ok("#[a]\n#[b]\n_".to_string()));
}

#[test]
fn comments_after_the_pattern_stay_queued_until_the_end() {
    let r = sg_pat::format::format(&tuple_abc(), vec![line_comment("// after", 2, 0)], &wide());
    assert_eq!(r, Ok("(a, b, c)\n// after\n".to_string()));
}
