use infix_eval::evaluation::{EvalError, Tree};
use infix_eval::expression::{Expression, Postfix};
use infix_eval::operand::Operand;
use infix_eval::operators::Operator;

fn operand_value(o: &Operand) -> f64 {
    let v = o.whole_part as f64 + (o.fraction_part as f64) / (o.decimal_scale as f64);
    if o.is_negative { -v } else { v }
}

fn tree_value(t: &Tree) -> f64 {
    match t {
        Tree::Leaf(o) => operand_value(o),
        Tree::Node(op, l, r) => {
            let (a, b) = (tree_value(l), tree_value(r));
            match op {
                Operator::Add => a + b,
                Operator::Subtract => a - b,
                Operator::Multiply => a * b,
                Operator::Divide => a / b,
                Operator::Exponent => a.powf(b),
                _ => 0.0,
            }
        }
    }
}

fn eval(text: &str) -> Result<f64, EvalError> {
    Expression::parse(text).reduce().map(|t| tree_value(&t))
}

fn leaf(whole: i32) -> Postfix {
    let mut o = Operand::default();
    if whole == 0 {
        o.add_digit(0);
    } else {
        for c in whole.to_string().chars() {
            o.add_digit(c.to_digit(10).unwrap());
        }
    }
    Postfix::Operand(o)
}

#[test]
fn multiply_binds_before_add() {
    assert_eq!(eval("3+4*2"), Ok(11.0));
    let e = Expression::parse("3+4*2");
    assert_eq!(
        e.postfix,
        vec![leaf(3), leaf(4), leaf(2), Postfix::Operator(Operator::Multiply), Postfix::Operator(Operator::Add)]
    );
}

#[test]
fn parentheses_override_precedence() {
    assert_eq!(eval("(3+4)*2"), Ok(14.0));
}

#[test]
fn exponent_is_right_associative() {
    assert_eq!(eval("2^3^2"), Ok(512.0));
    match Expression::parse("2^3^2").reduce() {
        Ok(Tree::Node(Operator::Exponent, l, r)) => {
            assert!(matches!(*l, Tree::Leaf(_)));
            assert!(matches!(*r, Tree::Node(Operator::Exponent, _, _)));
        }
        other => panic!("unexpected {:?}", other),
    }
}

#[test]
fn subtraction_is_left_associative() {
    assert_eq!(eval("10-4-3"), Ok(3.0));
    assert_eq!(eval("16/4/2"), Ok(2.0));
}

#[test]
fn decimal_literal_accumulates() {
    assert_eq!(eval("3.14"), Ok(3.14));
    let e = Expression::parse("3.14");
    match e.postfix[0] {
        Postfix::Operand(o) => {
            assert_eq!(o.whole_part, 3);
            assert_eq!(o.fraction_part, 14);
            assert_eq!(o.decimal_scale, 100);
            assert!(o.is_decimal && o.initialized && !o.is_negative);
        }
        _ => panic!("expected an operand"),
    }
}

#[test]
fn division_by_zero_is_infinite() {
    let r = eval("5/0").unwrap();
    assert!(r.is_infinite() && r > 0.0);
}

#[test]
fn leading_operator_misses_left_operand() {
    assert_eq!(Expression::parse("+3").reduce().err(), Some(EvalError::MissingLeftOperand));
}

#[test]
fn lone_operator_misses_right_operand() {
    assert_eq!(Expression::parse("*").reduce().err(), Some(EvalError::MissingRightOperand));
}

#[test]
fn empty_input_has_no_result() {
    assert_eq!(Expression::parse("").reduce().err(), Some(EvalError::NoResult));
    assert_eq!(Expression::parse("  ()").reduce().err(), Some(EvalError::NoResult));
}

#[test]
fn whitespace_between_tokens_is_ignored() {
    let tight = Expression::parse("((1+2)*(3-4))");
    let loose = Expression::parse(" ( (1 + 2) *\t( 3 - 4 ) )\n");
    assert_eq!(tight.postfix, loose.postfix);
    assert_eq!(eval(" ( (1 + 2) *\t( 3 - 4 ) )\n"), Ok(-3.0));
}

#[test]
fn whitespace_does_not_split_a_number() {
    let e = Expression::parse("3 4");
    assert_eq!(e.postfix, vec![leaf(34)]);
}

#[test]
fn unmatched_parentheses_are_tolerated() {
    assert_eq!(eval("(1+2"), Ok(3.0));
    assert_eq!(eval("1+2)*3"), Ok(9.0));
    let e = Expression::parse("((1");
    assert!(e.stack.is_empty());
    assert_eq!(e.postfix, vec![leaf(1)]);
}

#[test]
fn extra_operands_are_ignored() {
    assert_eq!(eval("1 2+3 (4)"), Ok(7.0));
}

#[test]
fn second_decimal_point_keeps_reading_fraction() {
    let e = Expression::parse("1.2.3");
    match e.postfix[0] {
        Postfix::Operand(o) => {
            assert_eq!(o.whole_part, 1);
            assert_eq!(o.fraction_part, 23);
            assert_eq!(o.decimal_scale, 100);
        }
        _ => panic!("expected an operand"),
    }
}

#[test]
fn long_digit_run_wraps_around() {
    let mut o = Operand::default();
    for _ in 0..10 {
        o.add_digit(9);
    }
    assert_eq!(o.whole_part, 9_999_999_999_i64 as i32);
    assert!(o.initialized);
}

#[test]
fn add_digit_routes_by_decimal_flag() {
    let mut o = Operand::default();
    o.add_digit(7);
    assert_eq!((o.whole_part, o.fraction_part, o.decimal_scale), (7, 0, 1));
    o.is_decimal = true;
    o.add_digit(5);
    assert_eq!((o.whole_part, o.fraction_part, o.decimal_scale), (7, 5, 10));
    assert_eq!(operand_value(&o), 7.5);
}

#[test]
fn operator_table() {
    let ops = [
        ('+', Operator::Add, 1, true),
        ('-', Operator::Subtract, 1, true),
        ('*', Operator::Multiply, 2, true),
        ('/', Operator::Divide, 2, true),
        ('^', Operator::Exponent, 3, false),
    ];
    for (c, op, prec, left) in ops {
        assert_eq!(Operator::from_char(c), op);
        assert_eq!(op.precedence(), prec);
        assert_eq!(op.associativity(), left);
        assert!(op.is_operator());
        assert!(op.is_operator_not_parenthesis());
        assert_eq!(op.symbol(), Some(c));
    }
    for (c, op) in [('(', Operator::OpenParenthesis), (')', Operator::CloseParenthesis)] {
        assert_eq!(Operator::from_char(c), op);
        assert_eq!(op.precedence(), 0);
        assert!(op.is_operator());
        assert!(!op.is_operator_not_parenthesis());
        assert_eq!(op.symbol(), Some(c));
    }
    for c in [' ', 'x', '7', '.', '\n'] {
        let op = Operator::from_char(c);
        assert_eq!(op, Operator::NotAnOperator);
        assert!(!op.is_operator());
        assert!(!op.is_operator_not_parenthesis());
        assert_eq!(op.symbol(), None);
        assert_eq!(op.precedence(), 0);
    }
}

#[test]
fn fractional_and_negative_powers() {
    assert_eq!(eval("4^0.5"), Ok(2.0));
    assert_eq!(eval("2^(0-1)"), Ok(0.5));
}
