use calculator::compile::{compile, compile_text, is_numeric, EvalError, Step};
use calculator::eval::{evaluate, Arithmetic, LiteralText};
use calculator::lexer::{is_whitespace, tokenize, Token};
use calculator::ops::Op;

/// Evaluation in double precision, as the calculator program does it.
#[derive(Debug)]
struct Real(f64);

impl Arithmetic for Real {
    // The three `_value` items are the specification's names for what the
    // methods below return; they exist for the verifier and are never called.
    fn literal_value(_text: LiteralText) -> Self {
        unreachable!()
    }

    fn sqrt_value(_a: Self) -> Self {
        unreachable!()
    }

    fn binary_value(_op: Op, _a: Self, _b: Self) -> Result<Self, EvalError> {
        unreachable!()
    }

    fn from_literal(text: &String) -> Self {
        Real(text.parse::<f64>().unwrap())
    }

    fn sqrt(a: Self) -> Self {
        Real(a.0.sqrt())
    }

    fn binary(op: Op, a: Self, b: Self) -> Result<Self, EvalError> {
        let (a, b) = (a.0, b.0);
        match op {
            Op::Add => Ok(Real(a + b)),
            Op::Sub => Ok(Real(a - b)),
            Op::Mul => Ok(Real(a * b)),
            Op::Div => {
                if b == 0.0 {
                    Err(EvalError::DivisionByZero)
                } else {
                    Ok(Real(a / b))
                }
            }
            Op::Rem => Ok(Real(a % b)),
            Op::Pow => Ok(Real(a.powf(b))),
            Op::Sqrt => Ok(Real(a.sqrt())),
        }
    }
}

fn eval(text: &str) -> Result<f64, EvalError> {
    evaluate::<Real>(text).map(|r| r.0)
}

fn num(s: &str) -> Token {
    Token::Number(s.to_string())
}

fn push(s: &str) -> Step {
    Step::Push(s.to_string())
}

#[test]
fn test_parse_valid_input() {
    let result = eval("5 + 3").unwrap();
    assert_eq!(result, 8.0);
}

#[test]
fn test_parse_invalid_format() {
    let result = eval("5 +");
    assert!(result.is_err());
}

#[test]
fn test_parse_invalid_number() {
    let result = eval("abc + 3");
    assert!(result.is_err());
}

#[test]
fn test_parentheses() {
    assert_eq!(eval("(5 + 3) * 2").unwrap(), 16.0);
    assert_eq!(eval("2 * (3 + 4)").unwrap(), 14.0);
}

#[test]
fn test_precedence_expression() {
    assert_eq!(eval("5 + 3 * 2").unwrap(), 11.0);
    assert_eq!(eval("10 / 2 + 3").unwrap(), 8.0);
}

#[test]
fn test_complex() {
    assert_eq!(eval("((2 + 3) * 4) - 1").unwrap(), 19.0);
    assert_eq!(eval("2 ^ 3 + 1").unwrap(), 9.0);
}

#[test]
fn binary_closed_forms() {
    assert_eq!(eval("5 + 3"), Ok(8.0));
    assert_eq!(eval("10 - 3"), Ok(7.0));
    assert_eq!(eval("5 * 3"), Ok(15.0));
    assert_eq!(eval("10 / 2"), Ok(5.0));
    assert_eq!(eval("10 % 3"), Ok(1.0));
    assert_eq!(eval("2 ^ 3"), Ok(8.0));
    assert_eq!(eval("s 9"), Ok(3.0));
}

#[test]
fn binary_compiles_to_postfix() {
    let p = compile_text("5 + 3");
    assert_eq!(p.steps, vec![push("5"), push("3"), Step::Apply(Op::Add)]);
    assert_eq!(p.fault, None);
}

#[test]
fn division_by_zero_fails() {
    assert_eq!(eval("10 / 0"), Err(EvalError::DivisionByZero));
}

#[test]
fn remainder_by_zero_is_not_a_number() {
    assert!(eval("10 % 0").unwrap().is_nan());
}

#[test]
fn division_by_zero_comes_before_a_later_structural_fault() {
    assert_eq!(eval("10 / 0 +"), Err(EvalError::DivisionByZero));
    assert_eq!(eval("5 +"), Err(EvalError::MissingOperand));
}

#[test]
fn subtraction_groups_to_the_left() {
    assert_eq!(eval("10 - 3 - 2"), Ok(5.0));
    assert_eq!(eval("2 ^ 3 ^ 2"), Ok(64.0));
}

#[test]
fn precedence_orders_the_program() {
    let p = compile_text("5 + 3 * 2");
    assert_eq!(
        p.steps,
        vec![push("5"), push("3"), push("2"), Step::Apply(Op::Mul), Step::Apply(Op::Add)]
    );
    let q = compile_text("10 / 2 + 3");
    assert_eq!(
        q.steps,
        vec![push("10"), push("2"), Step::Apply(Op::Div), push("3"), Step::Apply(Op::Add)]
    );
}

#[test]
fn nested_parentheses() {
    assert_eq!(eval("((2 + 3) * 4) - 1"), Ok(19.0));
    assert_eq!(eval("(5 + 3) * 2"), Ok(16.0));
}

#[test]
fn negation_is_fused_into_literals() {
    assert_eq!(eval("-5 + 3"), Ok(-2.0));
    assert_eq!(eval("3*-2"), Ok(-6.0));
    assert_eq!(eval("(-4) * 2"), Ok(-8.0));
    assert_eq!(tokenize("3*-2"), vec![num("3"), Token::Operator(Op::Mul), num("-2")]);
}

#[test]
fn sign_is_judged_by_the_previous_character() {
    assert_eq!(
        tokenize("3 * -2"),
        vec![num("3"), Token::Operator(Op::Mul), Token::Operator(Op::Sub), num("2")]
    );
    assert_eq!(eval("3 * -2"), Err(EvalError::MissingOperand));
}

#[test]
fn minus_after_a_digit_subtracts() {
    assert_eq!(tokenize("5-3"), vec![num("5"), Token::Operator(Op::Sub), num("3")]);
    assert_eq!(eval("5-3"), Ok(2.0));
    assert_eq!(eval("5 -3"), Ok(2.0));
}

#[test]
fn malformed_inputs() {
    assert_eq!(eval("5 +"), Err(EvalError::MissingOperand));
    assert_eq!(eval("abc + 3"), Err(EvalError::Lexical('a')));
    assert_eq!(eval(""), Err(EvalError::IncorrectInput));
    assert_eq!(eval("5 3"), Err(EvalError::IncorrectInput));
    assert_eq!(eval("s s 16"), Err(EvalError::MissingOperand));
}

#[test]
fn malformed_literal() {
    assert_eq!(eval("1.2.3 + 1"), Err(EvalError::InvalidNumber("1.2.3".to_string())));
    assert_eq!(eval("3*--2"), Err(EvalError::InvalidNumber("--2".to_string())));
}

#[test]
fn unbalanced_parentheses() {
    assert_eq!(eval("(5 + 3"), Err(EvalError::UnbalancedParentheses));
    assert_eq!(eval("5 + 3)"), Err(EvalError::UnbalancedParentheses));
}

#[test]
fn lexical_error_is_the_only_token() {
    assert_eq!(tokenize("1 + 2 x 3 y"), vec![Token::Invalid('x')]);
    assert_eq!(tokenize(""), Vec::<Token>::new());
}

#[test]
fn tokenizing_twice_gives_the_same_tokens() {
    let text = "(1.5+-2) * s 4 % 3 ^ 2";
    let first = tokenize(text);
    assert_eq!(first, tokenize(text));
    assert_eq!(
        first,
        vec![
            Token::OpenParen,
            num("1.5"),
            Token::Operator(Op::Add),
            num("-2"),
            Token::CloseParen,
            Token::Operator(Op::Mul),
            Token::Operator(Op::Sqrt),
            num("4"),
            Token::Operator(Op::Rem),
            num("3"),
            Token::Operator(Op::Pow),
            num("2"),
        ]
    );
}

#[test]
fn whitespace_separates_literals() {
    assert_eq!(tokenize("12\t34"), vec![num("12"), num("34")]);
    assert!(is_whitespace('\u{3000}'));
    assert!(!is_whitespace('x'));
}

#[test]
fn numeric_literals() {
    assert!(is_numeric(&"5.".to_string()));
    assert!(is_numeric(&".5".to_string()));
    assert!(is_numeric(&"-0.25".to_string()));
    assert!(!is_numeric(&".".to_string()));
    assert!(!is_numeric(&"-".to_string()));
    assert!(!is_numeric(&"1-2".to_string()));
    assert!(!is_numeric(&"".to_string()));
    assert_eq!(eval("5. + .5"), Ok(5.5));
}

#[test]
fn compile_reports_the_first_fault() {
    let tokens = vec![num("4"), Token::Operator(Op::Div), num("x")];
    let p = compile(&tokens);
    assert_eq!(p.steps, vec![push("4")]);
    assert_eq!(p.fault, Some(EvalError::InvalidNumber("x".to_string())));
}

#[test]
fn operator_table() {
    assert_eq!(Op::from_symbol('^'), Some(Op::Pow));
    assert_eq!(Op::from_symbol('@'), None);
    assert_eq!(Op::Sqrt.symbol(), 's');
    assert_eq!(Op::Sqrt.precedence(), 4);
    assert_eq!(Op::Pow.precedence(), 3);
    assert_eq!(Op::Rem.precedence(), 2);
    assert_eq!(Op::Sub.precedence(), 1);
    assert_eq!(Op::Sqrt.arity(), 1);
    assert_eq!(Op::Add.arity(), 2);
}

#[test]
fn results_survive_a_log_line() {
    for text in ["10 / 3", "2 ^ 0.5", "-5 + 3"] {
        let r = eval(text).unwrap();
        let line = format!("{} = {}", text, r);
        let pos = line.find(" = ").unwrap();
        assert_eq!(line[pos + 3..].parse::<f64>().unwrap(), r);
    }
}
