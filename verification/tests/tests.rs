use fast_concat::fast::{eval_fast_plan, fast_concat as plan_fast, FastPlan, FastSeg};
use fast_concat::names::{fast_var_ident, get_var_ident};
use fast_concat::parse::{
    ConcatPathsParser, ConcatStringsParser, FastConcatParser, Item, ParseError, StrArg,
};
use fast_concat::paths::{concat_paths as plan_paths, PathsPlan};
use fast_concat::segs::{eval_segments, StrSegment};
use fast_concat::strings::{concat_strings as plan_strings, eval_strings_plan, StringsPlan};
use fast_concat::toks::Tok;

fn lit(s: &str) -> Tok {
    Tok::StrLit { value: s.to_string() }
}

fn strs(v: &[&str]) -> Vec<String> {
    v.iter().map(|s| s.to_string()).collect()
}

#[test]
fn concat() {
    // fast_concat!("lit0 ", const CONST, var, "lit1 ", "lit2 ", 9, impure_expr!(buf))
    let toks = vec![
        lit("lit0 "),
        Tok::Comma,
        Tok::KwConst,
        Tok::Other, // CONST
        Tok::Comma,
        Tok::Other, // var
        Tok::Comma,
        lit("lit1 "),
        Tok::Comma,
        lit("lit2 "),
        Tok::Comma,
        Tok::OtherLit, // 9
        Tok::Comma,
        Tok::Other, // the impure block, one token tree
    ];
    let parser = FastConcatParser::parse(&toks).unwrap();
    assert_eq!(parser.items.len(), 7);
    let plan = plan_fast(&toks, &parser);

    let correct_output = "lit0 const var lit1 lit2 90123456789";
    let env = strs(&["lit0 ", "const ", "var ", "lit1 ", "lit2 ", "9", "0123456789"]);
    assert_eq!(eval_fast_plan(&plan, &env), correct_output);

    let correct_output = "lit0 const var lit1 lit2 901234567890123456789";
    let env = strs(&[
        "lit0 ",
        "const ",
        "var ",
        "lit1 ",
        "lit2 ",
        "9",
        "01234567890123456789",
    ]);
    assert_eq!(eval_fast_plan(&plan, &env), correct_output);
}

#[test]
fn concat_strings() {
    // fast_concat!(CONST, var, "literal", "literal2", { ... &buf })
    let toks = vec![
        Tok::Other, // CONST
        Tok::Comma,
        Tok::Other, // var
        Tok::Comma,
        lit("literal"),
        Tok::Comma,
        lit("literal2"),
        Tok::Comma,
        Tok::Other, // the block, one token tree
    ];
    let parser = FastConcatParser::parse(&toks).unwrap();
    let plan = plan_fast(&toks, &parser);

    let correct_output = "constvarliteralliteral20123456789";
    let env = strs(&["const", "var", "literal", "literal2", "0123456789"]);
    assert_eq!(eval_fast_plan(&plan, &env), correct_output);

    // constcat!(A, "666") with both arguments constant
    let toks = vec![Tok::KwConst, Tok::Other, Tok::Comma, lit("666")];
    let parser = FastConcatParser::parse(&toks).unwrap();
    let plan = plan_fast(&toks, &parser);
    assert!(matches!(&plan, FastPlan::SingleConst { parts } if parts.as_slice() == [0, 1]));
    let env = strs(&["A", "666"]);
    assert_eq!(eval_fast_plan(&plan, &env), "A666");
}

#[test]
fn strings_empty_input() {
    let parser = ConcatStringsParser::parse(&Vec::new()).unwrap();
    assert!(parser.args.is_empty());
    assert!(!parser.strict);
    let plan = plan_strings(&parser);
    assert!(matches!(plan, StringsPlan::Empty { strict: false }));
    assert_eq!(eval_strings_plan(&plan, &Vec::new()), "");
}

#[test]
fn strings_strict_empty_input() {
    let toks = vec![Tok::KwStrict, Tok::Colon];
    let parser = ConcatStringsParser::parse(&toks).unwrap();
    assert!(parser.args.is_empty());
    assert!(parser.strict);
    let plan = plan_strings(&parser);
    assert!(matches!(plan, StringsPlan::Empty { strict: true }));
}

#[test]
fn strings_strict_prefix_before_arguments() {
    // concat_strings!(strict: "a", x)
    let toks = vec![Tok::KwStrict, Tok::Colon, lit("a"), Tok::Comma, Tok::Other];
    let parser = ConcatStringsParser::parse(&toks).unwrap();
    assert!(parser.strict);
    assert_eq!(parser.args.len(), 2);
    assert!(matches!(&parser.args[0], StrArg::Lit { value, lo: 2 } if value.as_str() == "a"));
    assert!(matches!(&parser.args[1], StrArg::Expr { lo: 4, hi: 5 }));
}

#[test]
fn strings_strict_all_literals_still_constant() {
    // concat_strings!(strict: "a", "b") expands to the merged constant;
    // strict only changes the empty expansion.
    let toks = vec![Tok::KwStrict, Tok::Colon, lit("a"), Tok::Comma, lit("b")];
    let parser = ConcatStringsParser::parse(&toks).unwrap();
    let plan = plan_strings(&parser);
    assert!(matches!(&plan, StringsPlan::AllLits { value } if value.as_str() == "ab"));
}

#[test]
fn strings_strict_without_colon() {
    let toks = vec![Tok::KwStrict, Tok::Comma, lit("a")];
    assert_eq!(
        ConcatStringsParser::parse(&toks).unwrap_err(),
        ParseError::ExpectedColon
    );
}

#[test]
fn strings_only_literals_merge() {
    // concat_strings!("ab", "cd", "e")
    let toks = vec![lit("ab"), Tok::Comma, lit("cd"), Tok::Comma, lit("e")];
    let parser = ConcatStringsParser::parse(&toks).unwrap();
    let plan = plan_strings(&parser);
    assert!(matches!(&plan, StringsPlan::AllLits { value } if value.as_str() == "abcde"));
    assert_eq!(eval_strings_plan(&plan, &Vec::new()), "abcde");
}

#[test]
fn strings_mixed_merges_adjacent_literals() {
    // concat_strings!("a", x, "b", "c", y)
    let toks = vec![
        lit("a"),
        Tok::Comma,
        Tok::Other,
        Tok::Comma,
        lit("b"),
        Tok::Comma,
        lit("c"),
        Tok::Comma,
        Tok::Other,
    ];
    let parser = ConcatStringsParser::parse(&toks).unwrap();
    let plan = plan_strings(&parser);
    let StringsPlan::Buffer { segments } = &plan else {
        panic!("expected a buffer plan");
    };
    assert_eq!(segments.len(), 4);
    assert!(matches!(&segments[0], StrSegment::Lit { value } if value.as_str() == "a"));
    assert!(matches!(&segments[1], StrSegment::Expr { index: 1 }));
    assert!(matches!(&segments[2], StrSegment::Lit { value } if value.as_str() == "bc"));
    assert!(matches!(&segments[3], StrSegment::Expr { index: 4 }));
    let env = strs(&["a", "X", "b", "c", "Y"]);
    assert_eq!(eval_strings_plan(&plan, &env), "aXbcY");
}

#[test]
fn strings_empty_literal_leaves_no_segment() {
    // concat_strings!("", x)
    let toks = vec![lit(""), Tok::Comma, Tok::Other];
    let parser = ConcatStringsParser::parse(&toks).unwrap();
    let plan = plan_strings(&parser);
    let StringsPlan::Buffer { segments } = &plan else {
        panic!("expected a buffer plan");
    };
    assert_eq!(segments.len(), 1);
    assert!(matches!(&segments[0], StrSegment::Expr { index: 1 }));
}

#[test]
fn strings_trailing_comma_accepted() {
    let toks = vec![lit("a"), Tok::Comma];
    let parser = ConcatStringsParser::parse(&toks).unwrap();
    assert_eq!(parser.args.len(), 1);
    assert!(matches!(&parser.args[0], StrArg::Lit { value, .. } if value.as_str() == "a"));
}

#[test]
fn strings_empty_argument_rejected() {
    for toks in [
        vec![Tok::Comma],
        vec![Tok::Comma, lit("a")],
        vec![lit("a"), Tok::Comma, Tok::Comma, lit("b")],
    ] {
        assert_eq!(
            ConcatStringsParser::parse(&toks).unwrap_err(),
            ParseError::EmptyArg
        );
    }
}

#[test]
fn strings_multi_token_expression_spans() {
    // concat_strings!(a.b(), "x")
    let toks = vec![Tok::Other, Tok::Other, Tok::Other, Tok::Comma, lit("x")];
    let parser = ConcatStringsParser::parse(&toks).unwrap();
    assert_eq!(parser.args.len(), 2);
    assert!(matches!(&parser.args[0], StrArg::Expr { lo: 0, hi: 3 }));
    assert!(matches!(&parser.args[1], StrArg::Lit { value, lo: 4 } if value.as_str() == "x"));
}

#[test]
fn paths_empty_input() {
    let parser = ConcatPathsParser::parse(&Vec::new()).unwrap();
    let plan = plan_paths(&parser);
    assert!(matches!(plan, PathsPlan::Empty));
}

#[test]
fn paths_only_literals_join_with_separator() {
    // concat_paths!("a", "b", "c")
    let toks = vec![lit("a"), Tok::Comma, lit("b"), Tok::Comma, lit("c")];
    let parser = ConcatPathsParser::parse(&toks).unwrap();
    let plan = plan_paths(&parser);
    assert!(matches!(&plan, PathsPlan::AllLits { value } if value.as_str() == "a/b/c"));
}

#[test]
fn paths_inner_literal_run_keeps_trailing_separator() {
    // concat_paths!("a", "b", x)
    let toks = vec![lit("a"), Tok::Comma, lit("b"), Tok::Comma, Tok::Other];
    let parser = ConcatPathsParser::parse(&toks).unwrap();
    let plan = plan_paths(&parser);
    let PathsPlan::Buffer { segments } = &plan else {
        panic!("expected a buffer plan");
    };
    assert_eq!(segments.len(), 2);
    assert!(matches!(&segments[0], StrSegment::Lit { value } if value.as_str() == "a/b/"));
    assert!(matches!(&segments[1], StrSegment::Expr { index: 2 }));
    let env = strs(&["a", "b", "X"]);
    assert_eq!(eval_segments(segments, &env), "a/b/X");
}

#[test]
fn paths_final_literal_run_loses_trailing_separator() {
    // concat_paths!(x, "c", "d")
    let toks = vec![Tok::Other, Tok::Comma, lit("c"), Tok::Comma, lit("d")];
    let parser = ConcatPathsParser::parse(&toks).unwrap();
    let plan = plan_paths(&parser);
    let PathsPlan::Buffer { segments } = &plan else {
        panic!("expected a buffer plan");
    };
    assert_eq!(segments.len(), 2);
    assert!(matches!(&segments[0], StrSegment::Expr { index: 0 }));
    assert!(matches!(&segments[1], StrSegment::Lit { value } if value.as_str() == "c/d"));
}

#[test]
fn paths_empty_literal_still_separates() {
    // concat_paths!("", x)
    let toks = vec![lit(""), Tok::Comma, Tok::Other];
    let parser = ConcatPathsParser::parse(&toks).unwrap();
    let plan = plan_paths(&parser);
    let PathsPlan::Buffer { segments } = &plan else {
        panic!("expected a buffer plan");
    };
    assert_eq!(segments.len(), 2);
    assert!(matches!(&segments[0], StrSegment::Lit { value } if value.as_str() == "/"));
    assert!(matches!(&segments[1], StrSegment::Expr { index: 1 }));
}

#[test]
fn fast_empty_input() {
    let toks = Vec::new();
    let parser = FastConcatParser::parse(&toks).unwrap();
    let plan = plan_fast(&toks, &parser);
    assert!(matches!(plan, FastPlan::Empty));
    assert_eq!(eval_fast_plan(&plan, &Vec::new()), "");
}

#[test]
fn fast_single_literal_is_const() {
    let toks = vec![lit("a")];
    let parser = FastConcatParser::parse(&toks).unwrap();
    let plan = plan_fast(&toks, &parser);
    assert!(matches!(&plan, FastPlan::SingleConst { parts } if parts.as_slice() == [0]));
}

#[test]
fn fast_single_expression_stays_bare() {
    let toks = vec![Tok::Other];
    let parser = FastConcatParser::parse(&toks).unwrap();
    let plan = plan_fast(&toks, &parser);
    assert!(matches!(plan, FastPlan::SingleExpr { index: 0 }));
    let env = strs(&["hello"]);
    assert_eq!(eval_fast_plan(&plan, &env), "hello");
}

#[test]
fn fast_const_marker_parses() {
    // fast_concat!(const A, b)
    let toks = vec![Tok::KwConst, Tok::Other, Tok::Comma, Tok::Other];
    let parser = FastConcatParser::parse(&toks).unwrap();
    assert_eq!(parser.items.len(), 2);
    assert!(matches!(
        parser.items[0],
        Item { is_const: true, lo: 1, hi: 2 }
    ));
    assert!(matches!(
        parser.items[1],
        Item { is_const: false, lo: 3, hi: 4 }
    ));
}

#[test]
fn fast_const_marker_without_expression_rejected() {
    for toks in [
        vec![Tok::KwConst],
        vec![Tok::KwConst, Tok::Comma, Tok::Other],
        vec![Tok::Other, Tok::Comma, Tok::KwConst],
    ] {
        assert_eq!(
            FastConcatParser::parse(&toks).unwrap_err(),
            ParseError::EmptyArg
        );
    }
}

#[test]
fn fast_groups_adjacent_constants() {
    // fast_concat!(x, "a", const B, 7, y)
    let toks = vec![
        Tok::Other,
        Tok::Comma,
        lit("a"),
        Tok::Comma,
        Tok::KwConst,
        Tok::Other,
        Tok::Comma,
        Tok::OtherLit,
        Tok::Comma,
        Tok::Other,
    ];
    let parser = FastConcatParser::parse(&toks).unwrap();
    let plan = plan_fast(&toks, &parser);
    let FastPlan::Buffer { segments } = &plan else {
        panic!("expected a buffer plan");
    };
    assert_eq!(segments.len(), 3);
    assert!(matches!(&segments[0], FastSeg::Expr { index: 0 }));
    assert!(matches!(&segments[1], FastSeg::Const { parts } if parts.as_slice() == [1, 2, 3]));
    assert!(matches!(&segments[2], FastSeg::Expr { index: 4 }));
    let env = strs(&["X", "a", "B", "7", "Y"]);
    assert_eq!(eval_fast_plan(&plan, &env), "XaB7Y");
}

#[test]
fn binding_names_count_in_decimal() {
    assert_eq!(get_var_ident(0), "v0");
    assert_eq!(get_var_ident(7), "v7");
    assert_eq!(get_var_ident(10), "v10");
    assert_eq!(get_var_ident(12345), "v12345");
    assert_eq!(fast_var_ident(0), "_0");
    assert_eq!(fast_var_ident(907), "_907");
}
