use rrrrr_rs::compile::{
    bindings::{Bindings, Id},
    compilation_error::CompilationError,
    expand::introduce,
    ident::Symbol,
    pass::expand::transformer::{CaptureMap, CapturedSExpr, SyntaxRule, Transformer},
    read::{lex::tokenize, parse::parse},
    sexpr::SExpr,
    span::Span,
};

/// Whether two captures are the same but for spans.
fn eq_ignoring_spans(a: &CapturedSExpr, b: &CapturedSExpr) -> bool {
    match (a, b) {
        (CapturedSExpr::One(a), CapturedSExpr::One(b)) => a.without_spans() == b.without_spans(),
        (CapturedSExpr::Many(a), CapturedSExpr::Many(b)) => {
            a.len() == b.len() && a.iter().zip(b).all(|(x, y)| eq_ignoring_spans(x, y))
        }
        _ => false,
    }
}

fn introduce_single_sexpr_src(src: &str) -> SExpr<Id> {
    introduce(parse(&tokenize(src).unwrap()).unwrap().pop().unwrap())
}

fn one(src: &str) -> CapturedSExpr {
    CapturedSExpr::One(introduce_single_sexpr_src(src))
}

fn many(vals: Vec<CapturedSExpr>) -> CapturedSExpr {
    CapturedSExpr::Many(vals)
}

fn do_match(pattern: &str, target: &str) -> Option<CaptureMap> {
    do_match_with_literals(pattern, target, &[])
}

fn do_match_with_literals(
    pattern: &str,
    target: &str,
    literals: &[&str],
) -> Option<CaptureMap> {
    let rule = SyntaxRule::new(
        introduce_single_sexpr_src(pattern),
        nil(),
        literals.iter().map(|s| Symbol::new(s)).collect(),
    )
    .expect("invalid pattern in test");
    rule.match_pattern(
        &introduce_single_sexpr_src(target),
        &Bindings::new(),
    )
}

fn assert_binding(
    captures: &CaptureMap,
    name: &str,
    expected: &CapturedSExpr,
) {
    let sym = Symbol::new(name);
    let actual = captures
        .get(&sym)
        .unwrap_or_else(|| panic!("missing binding for '{}'", name));
    assert!(
        eq_ignoring_spans(actual, expected),
        "binding for '{}': got {:?}, expected {:?}",
        name,
        actual,
        expected
    );
}

#[test]
fn transformer_test_match_literal_equal() {
    let result = do_match("1", "1");
    let captures = result.expect("should match");
    assert!(captures.is_empty());
}

#[test]
fn transformer_test_match_literal_not_equal() {
    assert!(do_match("2", "1").is_none());
}

#[test]
fn transformer_test_match_pattern_variable() {
    let captures = do_match("x", "a").expect("should match");
    assert_eq!(captures.len(), 1);
    assert_binding(&captures, "x", &one("a"));
}

#[test]
fn transformer_test_match_list_with_literals() {
    let captures = do_match("(1 x 1)", "(1 a 1)").expect("should match");
    assert_eq!(captures.len(), 1);
    assert_binding(&captures, "x", &one("a"));
}

#[test]
fn transformer_test_match_list_literal_mismatch() {
    assert!(do_match("(1 x 2)", "(1 a 1)").is_none());
}

#[test]
fn transformer_test_match_list_too_short_pattern() {
    assert!(do_match("(1 x)", "(1 a 1)").is_none());
}

#[test]
fn transformer_test_match_list_too_long_pattern() {
    assert!(do_match("(1 x 1)", "(1 a)").is_none());
}

#[test]
fn transformer_test_match_simple_ellipsis() {
    let captures = do_match("(a ...)", "(x y)").expect("should match");
    assert_eq!(captures.len(), 1);
    assert_binding(&captures, "a", &many(vec![one("x"), one("y")]));
}

#[test]
fn transformer_test_match_ellipsis_zero() {
    let captures = do_match("(a ...)", "()").expect("should match");
    assert_eq!(captures.len(), 1);
    assert_binding(&captures, "a", &many(vec![]));
}

#[test]
fn transformer_test_match_ellipsis_with_prefix() {
    let captures = do_match("(_ a ...)", "(mac)").expect("should match");
    assert_eq!(captures.len(), 1);
    assert_binding(&captures, "a", &many(vec![]));
}

#[test]
fn transformer_test_match_ellipsis_zero_multi_var() {
    let captures = do_match("((a b) ...)", "()").expect("should match");
    assert_eq!(captures.len(), 2);
    assert_binding(&captures, "a", &many(vec![]));
    assert_binding(&captures, "b", &many(vec![]));
}

#[test]
fn transformer_test_match_nested_ellipsis_zero() {
    let captures = do_match("((a ...) ...)", "()").expect("should match");
    assert_eq!(captures.len(), 1);
    assert_binding(&captures, "a", &many(vec![]));
}

#[test]
fn transformer_test_match_ellipsis_with_prefix_and_elements() {
    let captures = do_match("(_ e1 e2 ...)", "(and a b c)").expect("should match");
    assert_eq!(captures.len(), 2);
    assert_binding(&captures, "e1", &one("a"));
    assert_binding(&captures, "e2", &many(vec![one("b"), one("c")]));
}

#[test]
fn transformer_test_match_nested_ellipsis() {
    let captures = do_match("((a ...) ...)", "((x y) (z))").expect("should match");
    assert_eq!(captures.len(), 1);
    assert_binding(
        &captures,
        "a",
        &many(vec![many(vec![one("x"), one("y")]), many(vec![one("z")])]),
    );
}

#[test]
fn transformer_test_match_nested_ellipsis_with_literals() {
    let captures =
        do_match("(((1 a) ...) ...)", "(((1 x) (1 y)) ((1 z)))").expect("should match");
    assert_eq!(captures.len(), 1);
    assert_binding(
        &captures,
        "a",
        &many(vec![many(vec![one("x"), one("y")]), many(vec![one("z")])]),
    );
}

#[test]
fn transformer_test_match_nested_ellipsis_literal_mismatch() {
    assert!(do_match("(((1 a) ...) ...)", "(((2 x) (1 y)) ((1 z)))").is_none());
}

#[test]
fn transformer_test_match_wildcard() {
    let captures = do_match("_", "42").expect("should match");
    assert!(captures.is_empty());

    let captures = do_match("_", "(a b c)").expect("should match");
    assert!(captures.is_empty());
}

#[test]
fn transformer_test_match_variable_captures_list() {
    let captures = do_match("x", "(a b)").expect("should match");
    assert_eq!(captures.len(), 1);
    assert_binding(&captures, "x", &one("(a b)"));
}

#[test]
fn transformer_test_match_ellipsis_complex_repeat() {
    let captures = do_match("((a b) ...)", "((1 2) (3 4))").expect("should match");
    assert_eq!(captures.len(), 2);
    assert_binding(&captures, "a", &many(vec![one("1"), one("3")]));
    assert_binding(&captures, "b", &many(vec![one("2"), one("4")]));
}

#[test]
fn transformer_test_match_and_macro_pattern() {
    // (_ e1 e2 ...) against (and a b)
    let captures = do_match("(_ e1 e2 ...)", "(and a b)").expect("should match");
    assert_eq!(captures.len(), 2);
    assert_binding(&captures, "e1", &one("a"));
    assert_binding(&captures, "e2", &many(vec![one("b")]));

    // (_ e1 e2 ...) against (and a b c d)
    let captures = do_match("(_ e1 e2 ...)", "(and a b c d)").expect("should match");
    assert_eq!(captures.len(), 2);
    assert_binding(&captures, "e1", &one("a"));
    assert_binding(&captures, "e2", &many(vec![one("b"), one("c"), one("d")]));
}

#[test]
fn transformer_test_match_list_pattern_atom_target() {
    assert!(do_match("(a b)", "42").is_none());
}

#[test]
fn transformer_test_match_ellipsis_pattern_atom_target() {
    assert!(do_match("(a ...)", "42").is_none());
}

#[test]
fn test_match_vector_ellipsis() {
    let captures = do_match("#(a ...)", "#(1 2 3)").expect("should match");
    assert_eq!(captures.len(), 1);
    assert_binding(&captures, "a", &many(vec![one("1"), one("2"), one("3")]));
}

#[test]
fn test_match_vector_ellipsis_zero() {
    let captures = do_match("#(a ...)", "#()").expect("should match");
    assert_eq!(captures.len(), 1);
    assert_binding(&captures, "a", &many(vec![]));
}

#[test]
fn test_match_vector_and_list_shape_mismatch() {
    assert!(do_match("#(a b)", "(1 2)").is_none());
    assert!(do_match("(a b)", "#(1 2)").is_none());
}

fn assert_renders_to(pattern: &str, template: &str, target: &str, expected: &str) {
    let rule = SyntaxRule::new(
        introduce_single_sexpr_src(pattern),
        introduce_single_sexpr_src(template),
        Vec::new(),
    )
    .expect("invalid pattern in test");
    let captures = rule
        .match_pattern(
            &introduce_single_sexpr_src(target),
            &Bindings::new(),
        )
        .expect("pattern should match target");
    let result = rule
        .render_template(&captures)
        .expect("render should succeed");
    assert_eq!(
        result.without_spans(),
        introduce_single_sexpr_src(expected).without_spans(),
        "render({template}, {captures:?}) = {}, expected {expected}",
        result.display()
    );
}

#[test]
fn transformer_test_render_atom_passthrough() {
    assert_renders_to("(_)", "#f", "(mac)", "#f");
}

#[test]
fn transformer_test_render_variable_substitution() {
    assert_renders_to("(_ e)", "e", "(mac x)", "x");
}

#[test]
fn transformer_test_render_literal_in_template() {
    assert_renders_to("(_ x)", "(f x)", "(mac 1)", "(f 1)");
}

#[test]
fn transformer_test_render_simple_ellipsis() {
    assert_renders_to("(_ x ...)", "(x ...)", "(mac 1 2 3)", "(1 2 3)");
}

#[test]
fn transformer_test_render_zero_repetition() {
    assert_renders_to("(_ x ...)", "(x ...)", "(mac)", "()");
}

#[test]
fn transformer_test_render_ellipsis_with_prefix() {
    assert_renders_to(
        "(_ e1 e2 ...)",
        "(if e1 (and e2 ...) #f)",
        "(and a b c)",
        "(if a (and b c) #f)",
    );
}

#[test]
fn transformer_test_render_ellipsis_with_two_args() {
    assert_renders_to(
        "(_ e1 e2 ...)",
        "(if e1 (and e2 ...) #f)",
        "(and a b)",
        "(if a (and b) #f)",
    );
}

#[test]
fn transformer_test_render_literal_in_repeated_template() {
    assert_renders_to("(_ x ...)", "((f x) ...)", "(mac 1 2)", "((f 1) (f 2))");
}

#[test]
fn test_render_vector_template_repetition_reproducer() {
    assert_renders_to("(_ x ...)", "(#(x) ...)", "(mac 1 2)", "(#(1) #(2))");
}

#[test]
fn test_render_vector_internal_ellipsis() {
    assert_renders_to("(_ x ...)", "#(x ...)", "(mac 1 2 3)", "#(1 2 3)");
}

#[test]
fn test_render_vector_internal_ellipsis_zero() {
    assert_renders_to("(_ x ...)", "#(x ...)", "(mac)", "#()");
}

#[test]
fn test_render_vector_nested_ellipsis() {
    assert_renders_to(
        "(_ (x ...) ...)",
        "#((x ...) ...)",
        "(mac (1 2) (3))",
        "#((1 2) (3))",
    );
}

#[test]
fn transformer_test_render_nested_ellipsis() {
    assert_renders_to(
        "(_ (a ...) ...)",
        "((a ...) ...)",
        "(mac (x y) (z))",
        "((x y) (z))",
    );
}

#[test]
fn transformer_test_render_double_ellipsis_flatten() {
    assert_renders_to(
        "(_ (a ...) ...)",
        "(a ... ...)",
        "(mac (1 2) (3))",
        "(1 2 3)",
    );
}

#[test]
fn transformer_test_render_dotted_tail_datum_after_ellipsis() {
    assert_renders_to("(_ a ... . b)", "(a ... . b)", "(mac . 1)", "1");
    assert_renders_to("(_ a ... . b)", "(a ... . b)", "(mac)", "()");
    assert_renders_to("(_ a ... . b)", "(b a ...)", "(mac 1 2 3)", "(() 1 2 3)");
    assert_renders_to("(_ a ... . b)", "(b a ...)", "(mac 1 . 0)", "(0 1)");
    assert_renders_to("(_ a ... . b)", "(b a ...)", "(mac 1 2 3 . 0)", "(0 1 2 3)");
}

#[test]
fn transformer_test_render_complex_repeat() {
    assert_renders_to(
        "(_ (a b) ...)",
        "((b a) ...)",
        "(mac (1 2) (3 4))",
        "((2 1) (4 3))",
    );
}

#[test]
fn transformer_test_render_improper_list_template() {
    assert_renders_to("(_ a)", "(1 2 . a)", "(mac 3)", "(1 2 . 3)");
}

#[test]
fn transformer_test_render_zero_repetition_multi_var() {
    assert_renders_to("(_ (a b) ...)", "((b a) ...)", "(mac)", "()");
}

#[test]
fn transformer_test_render_zero_repetition_nested() {
    assert_renders_to("(_ (a ...) ...)", "(a ... ...)", "(mac)", "()");
}

fn nil() -> SExpr<Id> {
    SExpr::Nil(Span { lo: 0, hi: 0 })
}

fn make_rule(pattern: &str) -> Result<SyntaxRule, CompilationError> {
    SyntaxRule::new(
        introduce_single_sexpr_src(pattern),
        nil(),
        Vec::new(),
    )
}

fn make_rule_with_literals(pattern: &str, literals: &[&str]) -> Result<SyntaxRule, CompilationError> {
    SyntaxRule::new(
        introduce_single_sexpr_src(pattern),
        nil(),
        literals.iter().map(|s| Symbol::new(s)).collect(),
    )
}

#[test]
fn transformer_test_new_valid_simple_pattern() {
    assert!(make_rule("(_ x)").is_ok());
}

#[test]
fn transformer_test_new_valid_ellipsis_at_end() {
    assert!(make_rule("(_ x ...)").is_ok());
}

#[test]
fn transformer_test_new_valid_nested_ellipsis() {
    assert!(make_rule("(_ (a ...) ...)").is_ok());
}

#[test]
fn transformer_test_new_duplicate_pattern_variable() {
    let err = make_rule("(_ a a)").unwrap_err();
    assert!(err.reason.contains("Duplicate pattern variable 'a'"));
}

#[test]
fn transformer_test_new_duplicate_pattern_variable_nested() {
    let err = make_rule("(_ (a b) a)").unwrap_err();
    assert!(err.reason.contains("Duplicate pattern variable 'a'"));
}

#[test]
fn transformer_test_new_duplicate_wildcard_allowed() {
    assert!(make_rule("(_ _ _)").is_ok());
}

#[test]
fn transformer_test_new_dotted_tail_pattern_after_ellipses_allowed() {
    assert!(make_rule("(_ a ... . b)").is_ok());
}

#[test]
fn test_new_ellipsis_as_dotted_tail_after_ellipsis_rejected() {
    let err = make_rule("(_ a ... . ...)").unwrap_err();
    assert!(err.reason.contains("'...' is not allowed in this position"),);
}

#[test]
fn test_new_duplicate_var_in_dotted_tail_after_ellipsis_rejected() {
    let err = make_rule("(_ a ... . a)").unwrap_err();
    assert!(err.reason.contains("Duplicate pattern variable 'a'"));
}

#[test]
fn transformer_test_new_duplicate_literal_allowed() {
    assert!(make_rule_with_literals("(_ foo foo)", &["foo"]).is_ok());
}

#[test]
fn transformer_test_new_ellipsis_not_at_end() {
    let err = make_rule("(_ a ... b)").unwrap_err();
    assert!(
        err.reason
            .contains("Unexpected pattern element after '...'")
    );
}

#[test]
fn transformer_test_new_bare_ellipsis() {
    let err = make_rule("...").unwrap_err();
    assert!(err.reason.contains("'...' is not allowed in this position"));
}

#[test]
fn transformer_test_new_ellipsis_as_first_element() {
    let err = make_rule("(... a)").unwrap_err();
    assert!(err.reason.contains("'...' is not allowed in this position"));
}

#[test]
fn transformer_test_new_valid_atom_pattern() {
    assert!(make_rule("x").is_ok());
}

#[test]
fn transformer_test_new_valid_complex_pattern() {
    assert!(make_rule("(_ (a b ...) c)").is_ok());
}

#[test]
fn transformer_test_new_consecutive_ellipsis_rejected() {
    let err = make_rule("(_ a ... ...)").unwrap_err();
    assert!(err.reason.contains("Multiple consecutive '...' in pattern"));
}

#[test]
fn transformer_test_new_triple_consecutive_ellipsis_rejected() {
    let err = make_rule("(_ a ... ... ...)").unwrap_err();
    assert!(err.reason.contains("Multiple consecutive '...' in pattern"));
}

#[test]
fn transformer_test_new_nested_consecutive_ellipsis_rejected() {
    let err = make_rule("(_ (a ... ...) b)").unwrap_err();
    assert!(err.reason.contains("Multiple consecutive '...' in pattern"));
}

#[test]
fn transformer_test_match_literal_identifier_same_name() {
    let captures =
        do_match_with_literals("(_ foo e)", "(mac foo 42)", &["foo"]).expect("should match");
    assert_eq!(captures.len(), 1);
    assert_binding(&captures, "e", &one("42"));
}

#[test]
fn transformer_test_match_literal_identifier_different_name() {
    assert!(do_match_with_literals("(_ foo e)", "(mac bar 42)", &["foo"]).is_none());
}

#[test]
fn transformer_test_match_literal_identifier_vs_non_identifier() {
    assert!(do_match_with_literals("(_ foo e)", "(mac 42 x)", &["foo"]).is_none());
}

#[test]
fn transformer_test_match_literal_identifier_vs_list() {
    assert!(do_match_with_literals("(_ foo e)", "(mac (a b) x)", &["foo"]).is_none());
}

#[test]
fn transformer_test_match_non_literal_still_captures() {
    let captures =
        do_match_with_literals("(_ foo e)", "(mac bar 42)", &["other"]).expect("should match");
    assert_eq!(captures.len(), 2);
    assert_binding(&captures, "foo", &one("bar"));
    assert_binding(&captures, "e", &one("42"));
}

#[test]
fn transformer_test_match_literal_in_ellipsis_subpattern() {
    let captures =
        do_match_with_literals("((_ foo e) ...)", "((mac foo 1) (mac foo 2))", &["foo"])
            .expect("should match");
    assert_eq!(captures.len(), 1);
    assert_binding(&captures, "e", &many(vec![one("1"), one("2")]));
}

#[test]
fn transformer_test_match_literal_in_ellipsis_mismatch() {
    assert!(
        do_match_with_literals("((_ foo e) ...)", "((mac foo 1) (mac bar 2))", &["foo"])
            .is_none()
    );
}

fn make_transformer(src: &str) -> Transformer {
    Transformer::new(&introduce_single_sexpr_src(src)).unwrap()
}

fn transform(transformer: &Transformer, src: &str) -> SExpr<Id> {
    transformer
        .transform(
            &introduce_single_sexpr_src(src),
            &Bindings::new(),
        )
        .unwrap()
        .unwrap()
}

#[test]
fn transformer_test_transformer_single_rule_literal_output() {
    let t = make_transformer(
        "(syntax-rules ()
           ((_) #f))",
    );
    let result = transform(&t, "(and)");
    assert_eq!(
        result.without_spans(),
        introduce_single_sexpr_src("#f").without_spans()
    );
}

#[test]
fn transformer_test_transformer_single_rule_identity() {
    let t = make_transformer(
        "(syntax-rules ()
           ((_ e) e))",
    );
    let result = transform(&t, "(mac x)");
    assert_eq!(
        result.without_spans(),
        introduce_single_sexpr_src("x").without_spans()
    );
}

#[test]
fn transformer_test_transformer_ellipsis_rule() {
    let t = make_transformer(
        "(syntax-rules ()
           ((_ e1 e2 ...) (if e1 (and e2 ...) #f)))",
    );
    assert_eq!(
        transform(&t, "(and a b)").without_spans(),
        introduce_single_sexpr_src("(if a (and b) #f)").without_spans()
    );
    assert_eq!(
        transform(&t, "(and a b c)").without_spans(),
        introduce_single_sexpr_src("(if a (and b c) #f)").without_spans()
    );
    assert_eq!(
        transform(&t, "(and a b c d)").without_spans(),
        introduce_single_sexpr_src("(if a (and b c d) #f)").without_spans()
    );
}

#[test]
fn transformer_test_transformer_multiple_rules() {
    let t = make_transformer(
        "(syntax-rules ()
           ((_) #f)
           ((_ e) e)
           ((_ e1 e2 ...) (if e1 (and e2 ...) #f)))",
    );
    assert_eq!(
        transform(&t, "(and)").without_spans(),
        introduce_single_sexpr_src("#f").without_spans()
    );
    assert_eq!(
        transform(&t, "(and x)").without_spans(),
        introduce_single_sexpr_src("x").without_spans()
    );
    assert_eq!(
        transform(&t, "(and a b)").without_spans(),
        introduce_single_sexpr_src("(if a (and b) #f)").without_spans()
    );
    assert_eq!(
        transform(&t, "(and a b c d)").without_spans(),
        introduce_single_sexpr_src("(if a (and b c d) #f)").without_spans()
    );
}

#[test]
fn transformer_test_transformer_keyword_ignored() {
    let t = make_transformer(
        "(syntax-rules ()
           ((foo e) e))",
    );
    // Even though pattern says "foo", application uses "bar"
    assert_eq!(
        transform(&t, "(bar x)").without_spans(),
        introduce_single_sexpr_src("x").without_spans()
    );
}

#[test]
fn transformer_test_transformer_non_list_application() {
    let t = make_transformer(
        "(syntax-rules ()
           ((_ x) x))",
    );
    assert!(
        t.transform(
            &introduce_single_sexpr_src("42"),
            &Bindings::new(),
        )
        .is_none()
    );
}

#[test]
fn transformer_test_transformer_zero_repetition_ellipsis() {
    let t = make_transformer(
        "(syntax-rules ()
           ((_ x ...) (begin x ...)))",
    );
    assert_eq!(
        transform(&t, "(mac)").without_spans(),
        introduce_single_sexpr_src("(begin)").without_spans()
    );
}

#[test]
fn test_transformer_vector_template_with_ellipsis() {
    let t = make_transformer(
        "(syntax-rules ()
           ((_ x ...) #(x ...)))",
    );
    assert_eq!(
        transform(&t, "(mac 1 2 3)").without_spans(),
        introduce_single_sexpr_src("#(1 2 3)").without_spans()
    );
    assert_eq!(
        transform(&t, "(mac)").without_spans(),
        introduce_single_sexpr_src("#()").without_spans()
    );
}

#[test]
fn test_transformer_vector_pattern_matches_only_vectors() {
    let t = make_transformer(
        "(syntax-rules ()
           ((_ #(x ...)) (x ...)))",
    );
    assert_eq!(
        transform(&t, "(mac #(1 2 3))").without_spans(),
        introduce_single_sexpr_src("(1 2 3)").without_spans()
    );
    assert!(
        t.transform(
            &introduce_single_sexpr_src("(mac (1 2 3))"),
            &Bindings::new(),
        )
        .is_none()
    );
}

#[test]
fn transformer_test_transformer_no_matching_rule() {
    let t = make_transformer(
        "(syntax-rules ()
           ((_ a b) (b a)))",
    );
    assert!(
        t.transform(
            &introduce_single_sexpr_src("(mac x)"),
            &Bindings::new(),
        )
        .is_none()
    );
}

#[test]
fn transformer_test_transformer_first_matching_rule_wins() {
    let t = make_transformer(
        "(syntax-rules ()
           ((_ x) 1)
           ((_ x) 2))",
    );
    assert_eq!(
        transform(&t, "(mac a)").without_spans(),
        introduce_single_sexpr_src("1").without_spans()
    );
}

#[test]
fn transformer_test_transformer_with_literals() {
    let t = make_transformer(
        "(syntax-rules (=>)
           ((_ a => b) (b a)))",
    );
    assert_eq!(
        transform(&t, "(mac x => f)").without_spans(),
        introduce_single_sexpr_src("(f x)").without_spans()
    );
    // Non-matching: `=>` in literal position doesn't match different identifier
    assert!(
        t.transform(
            &introduce_single_sexpr_src("(mac x y f)"),
            &Bindings::new(),
        )
        .is_none()
    );
}

#[test]
fn transformer_test_transformer_improper_list_in_template() {
    let t = make_transformer(
        "(syntax-rules ()
           ((_ a) (1 2 . a)))",
    );
    assert_eq!(
        transform(&t, "(mac 3)").without_spans(),
        introduce_single_sexpr_src("(1 2 . 3)").without_spans()
    );
}

#[test]
fn transformer_test_transformer_new_invalid_spec() {
    let result = Transformer::new(&introduce_single_sexpr_src("(syntax-rules)"));
    assert!(result.is_err());
}

#[test]
fn transformer_test_transformer_new_non_proper_list_of_rules() {
    let result = Transformer::new(&introduce_single_sexpr_src(
        "(syntax-rules (a b c) ((_ x) x) . 3)",
    ));
    assert!(result.is_err());
    assert!(
        result
            .unwrap_err()
            .reason
            .contains("Expected 'syntax-rules' rules to be a proper list")
    );
}

#[test]
fn transformer_test_transformer_new_non_proper_list_of_literals() {
    let result = Transformer::new(&introduce_single_sexpr_src(
        "(syntax-rules (a b . c) ((_ x) x))",
    ));
    assert!(result.is_err());
    assert!(
        result
            .unwrap_err()
            .reason
            .contains("Expected 'syntax-rules' literals to be a proper list")
    );
}

#[test]
fn transformer_test_transformer_new_pattern_without_symbol_start() {
    let result = Transformer::new(&introduce_single_sexpr_src(
        "(syntax-rules (a b c) ((1 x) x))",
    ));
    assert!(result.is_err());
    assert!(
        result
            .unwrap_err()
            .reason
            .contains("'syntax-rules' pattern must start with an identifier, but got")
    );
}

#[test]
fn transformer_test_transformer_new_no_rules() {
    let result = Transformer::new(&introduce_single_sexpr_src("(syntax-rules (a b c) )"));
    assert!(result.is_err());
    assert!(
        result
            .unwrap_err()
            .reason
            .contains("Expected 'syntax-rules' to have at least one rule")
    );
}

#[test]
fn transformer_test_transformer_new_non_symbol_literal() {
    let result = Transformer::new(&introduce_single_sexpr_src("(syntax-rules (42) ((_ x) x))"));
    assert!(result.is_err());
    assert!(
        result
            .unwrap_err()
            .reason
            .contains("Expected an identifier in 'syntax-rules' literals")
    );
}

#[test]
fn transformer_test_transformer_new_rejects_duplicate_pattern_var() {
    let result = Transformer::new(&introduce_single_sexpr_src("(syntax-rules () ((_ a a) a))"));
    assert!(result.is_err());
    assert!(
        result
            .unwrap_err()
            .reason
            .contains("Duplicate pattern variable")
    );
}

#[test]
fn transformer_test_transformer_new_rejects_ellipsis_in_literals() {
    let result = Transformer::new(&introduce_single_sexpr_src(
        "(syntax-rules (...) ((_ x) x))",
    ));
    assert!(result.is_err());
    assert!(
        result
            .unwrap_err()
            .reason
            .contains("is not allowed in 'syntax-rules' literals")
    );
}

#[test]
fn transformer_test_transformer_new_rejects_underscore_in_literals() {
    let result = Transformer::new(&introduce_single_sexpr_src("(syntax-rules (_) ((_ x) x))"));
    assert!(result.is_err());
    assert!(
        result
            .unwrap_err()
            .reason
            .contains("is not allowed in 'syntax-rules' literals")
    );
}

#[test]
fn transformer_test_transformer_new_rejects_ellipsis_among_valid_literals() {
    let result = Transformer::new(&introduce_single_sexpr_src(
        "(syntax-rules (=> ...) ((_ x) x))",
    ));
    assert!(result.is_err());
    assert!(
        result
            .unwrap_err()
            .reason
            .contains("is not allowed in 'syntax-rules' literals")
    );
}

#[test]
fn transformer_test_transformer_new_rejects_underscore_among_valid_literals() {
    let result = Transformer::new(&introduce_single_sexpr_src(
        "(syntax-rules (=> _) ((_ x) x))",
    ));
    assert!(result.is_err());
    assert!(
        result
            .unwrap_err()
            .reason
            .contains("is not allowed in 'syntax-rules' literals")
    );
}

#[test]
fn transformer_test_transformer_new_rejects_ellipsis_not_at_end() {
    let result = Transformer::new(&introduce_single_sexpr_src(
        "(syntax-rules () ((_ a ... b) a))",
    ));
    assert!(result.is_err());
    assert!(
        result
            .unwrap_err()
            .reason
            .contains("Unexpected pattern element after '...'")
    );
}
