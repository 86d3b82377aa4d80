use graph_calc::math::{compile_expr, prettify_expression, superscript_for, ExprError};
use std::str::FromStr;

#[test]
fn compiles_and_evaluates_basic_expression() {
    let expr = compile_expr("x^2 + 2*x + 1").expect("compile");
    let func = expr.bind("x").expect("bind");
    let y = func(3.0);
    assert!((y - 16.0).abs() < 1e-9);

    let direct = compile_expr("x^2 + 2*x + 1")
        .map(|e| e.bind("x").expect("bind")(3.0))
        .ok()
        .expect("evaluate_once");
    assert!((direct - 16.0).abs() < 1e-9);
}

#[test]
fn rejects_empty_expression() {
    assert!(compile_expr("   ").is_err());
}

#[test]
fn prettify_expression_replaces_tokens() {
    let pretty = prettify_expression("sqrt(x)^2 + pi");
    assert_eq!(pretty, "√(x)² + π");
}

#[test]
fn empty_expression_error_message() {
    match compile_expr(" \t\n ") {
        Err(e) => {
            assert!(matches!(e, ExprError::Empty));
            assert_eq!(e.message(), "expression is empty");
        }
        Ok(_) => panic!("blank text compiled"),
    }
    assert!(matches!(compile_expr(""), Err(ExprError::Empty)));
}

#[test]
fn meval_parse_error_is_reported() {
    let expected = meval::Expr::from_str("(").err().expect("meval rejects").to_string();
    match compile_expr("  (  ") {
        Err(ExprError::Invalid(m)) => assert_eq!(m, expected),
        _ => panic!("an unbalanced bracket compiled"),
    }
}

#[test]
fn unknown_variable_is_reported() {
    match compile_expr("y + 1") {
        Err(e) => {
            assert!(matches!(e, ExprError::Invalid(_)));
            assert_eq!(e.message(), "Evaluation error: unknown variable `y`.");
        }
        Ok(_) => panic!("a function of y compiled"),
    }
}

#[test]
fn surrounding_white_space_is_ignored() {
    let expr = compile_expr("  sin(x) \n").expect("compile");
    let f = expr.bind("x").expect("bind");
    assert!((f(0.0) - 0.0).abs() < 1e-12);
    let g = compile_expr("pi").expect("constant").bind("x").expect("bind");
    assert!((g(1.0) - std::f64::consts::PI).abs() < 1e-12);
}

#[test]
fn superscripts_of_digits_and_signs() {
    assert_eq!(superscript_for('0'), Some('⁰'));
    assert_eq!(superscript_for('1'), Some('¹'));
    assert_eq!(superscript_for('2'), Some('²'));
    assert_eq!(superscript_for('3'), Some('³'));
    assert_eq!(superscript_for('9'), Some('⁹'));
    assert_eq!(superscript_for('-'), Some('⁻'));
    assert_eq!(superscript_for('+'), Some('⁺'));
    assert_eq!(superscript_for('x'), None);
    assert_eq!(superscript_for('^'), None);
}

#[test]
fn prettify_raises_only_the_next_character() {
    assert_eq!(prettify_expression("x^-1"), "x⁻1");
    assert_eq!(prettify_expression("x^10"), "x¹0");
    assert_eq!(prettify_expression("2^x"), "2^x");
    assert_eq!(prettify_expression("x^"), "x^");
    assert_eq!(prettify_expression("x^^2"), "x^²");
}

#[test]
fn prettify_replaces_every_name() {
    assert_eq!(prettify_expression("theta+phi+lambda+tau"), "θ+φ+λ+τ");
    assert_eq!(prettify_expression("sqrt(pi)*sqrt(2)"), "√(π)*√(2)");
    assert_eq!(prettify_expression("pipi"), "ππ");
    assert_eq!(prettify_expression(""), "");
    assert_eq!(prettify_expression("sin(x)"), "sin(x)");
}

#[test]
fn prettify_leaves_no_plain_exponent() {
    let out = prettify_expression("x^2^3^y^+");
    let chars: Vec<char> = out.chars().collect();
    for w in chars.windows(2) {
        if w[0] == '^' {
            assert!(superscript_for(w[1]).is_none());
        }
    }
    assert_eq!(out, "x²³^y⁺");
}

#[test]
fn prettify_leaves_no_name_behind() {
    assert_eq!(prettify_expression("ppii"), "pπi");
    assert_eq!(prettify_expression("sqrtsqrt"), "√√");
    assert_eq!(prettify_expression("ptaui"), "pτi");
    for input in ["ppii", "tthetaau", "lambdaphipi", "sqrsqrtt", "x^2 + theta"] {
        let out = prettify_expression(input);
        for name in ["sqrt", "pi", "tau", "theta", "phi", "lambda"] {
            assert!(!out.contains(name), "{} in {}", name, out);
        }
    }
}

#[test]
fn compiled_expression_is_meval_parse_of_trimmed_text() {
    let expr = compile_expr("  x^2 + 2*x + 1 \t").expect("compile");
    assert_eq!(expr, meval::Expr::from_str("x^2 + 2*x + 1").expect("parse"));
    assert_ne!(expr, meval::Expr::from_str("1").expect("parse"));
}
