use mac_dock::calc::{parse_expression, Expr};

/// Evaluates a parsed expression in floating point, as the drawer does:
/// a number that does not read as a float, or a division by zero, gives
/// no value.
fn eval(e: &Expr, chars: &[char]) -> Option<f64> {
    match e {
        Expr::Num { start, end } => chars[*start..*end].iter().collect::<String>().parse().ok(),
        Expr::Neg(x) => Some(-eval(x, chars)?),
        Expr::Add(a, b) => Some(eval(a, chars)? + eval(b, chars)?),
        Expr::Sub(a, b) => Some(eval(a, chars)? - eval(b, chars)?),
        Expr::Mul(a, b) => Some(eval(a, chars)? * eval(b, chars)?),
        Expr::Div(a, b) => {
            let l = eval(a, chars)?;
            let r = eval(b, chars)?;
            if r == 0.0 {
                None
            } else {
                Some(l / r)
            }
        }
    }
}

fn eval_expression(text: &str) -> Option<f64> {
    let chars: Vec<char> = text.chars().collect();
    eval(&parse_expression(text)?, &chars)
}

fn tree(text: &str) -> String {
    match parse_expression(text) {
        Some(e) => format!("{:?}", e),
        None => "none".to_string(),
    }
}

#[test]
fn basic_arithmetic() {
    assert_eq!(eval_expression("2+2"), Some(4.0));
    assert_eq!(eval_expression("10 - 3"), Some(7.0));
    assert_eq!(eval_expression("6 * 7"), Some(42.0));
    assert_eq!(eval_expression("10 / 4"), Some(2.5));
}

#[test]
fn operator_precedence() {
    assert_eq!(eval_expression("2 + 3 * 4"), Some(14.0));
    assert_eq!(eval_expression("(2 + 3) * 4"), Some(20.0));
}

#[test]
fn negative_numbers() {
    assert_eq!(eval_expression("-5"), Some(-5.0));
    assert_eq!(eval_expression("3 + -2"), Some(1.0));
}

#[test]
fn division_by_zero() {
    assert_eq!(eval_expression("1/0"), None);
}

#[test]
fn invalid_expression() {
    assert_eq!(eval_expression("abc"), None);
    assert_eq!(eval_expression(""), None);
}

#[test]
#[allow(clippy::approx_constant)]
fn decimals() {
    let result = eval_expression("3.14 * 2").unwrap();
    assert!((result - 6.28).abs() < 1e-10);
}

#[test]
fn trees_follow_precedence_and_spans() {
    assert_eq!(
        tree("2 + 3 * 4"),
        "Add(Num { start: 0, end: 1 }, Mul(Num { start: 4, end: 5 }, Num { start: 8, end: 9 }))"
    );
    assert_eq!(
        tree("8-2-1"),
        "Sub(Sub(Num { start: 0, end: 1 }, Num { start: 2, end: 3 }), Num { start: 4, end: 5 })"
    );
    assert_eq!(tree("-(1.5)"), "Neg(Num { start: 2, end: 5 })");
    assert_eq!(tree("+7"), "Num { start: 1, end: 2 }");
}

#[test]
fn unclosed_parenthesis_is_accepted() {
    assert_eq!(tree("(1+2"), "Add(Num { start: 1, end: 2 }, Num { start: 3, end: 4 })");
    assert_eq!(eval_expression("(1+2"), Some(3.0));
}

#[test]
fn trailing_text_is_rejected() {
    assert_eq!(tree("1 2"), "none");
    assert_eq!(tree("1..2"), "none");
    assert_eq!(tree("2 +"), "none");
    assert_eq!(tree("  4  "), "Num { start: 2, end: 3 }");
}

#[test]
fn lone_dot_parses_but_has_no_value() {
    assert_eq!(tree("."), "Num { start: 0, end: 1 }");
    assert_eq!(eval_expression("."), None);
}
