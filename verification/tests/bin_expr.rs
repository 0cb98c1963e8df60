use parcom_streams::bin_expr::{
    Associativity, build, checked_eval, display, eval, expr, integer, op, space, term, Expr, Op, Parsed, Term,
};

fn parse(input: &str) -> Parsed<Expr> {
    expr(input.as_bytes(), 0)
}

#[test]
fn example_expression_parses_displays_and_evaluates() {
    let input = "1 + 2 * (6 + 4) / 5";
    match parse(input) {
        Parsed::Done(e, end) => {
            assert_eq!(end, input.len());
            assert_eq!(display(&e), "(1 + ((2 * (6 + 4)) / 5))");
            assert_eq!(eval(&e), 5);
            assert_eq!(checked_eval(&e), Some(5));
        }
        other => panic!("unexpected {:?}", other),
    }
}

#[test]
fn equal_precedence_associates_to_the_left() {
    match parse("8 - 3 - 2") {
        Parsed::Done(e, _) => {
            assert_eq!(display(&e), "((8 - 3) - 2)");
            assert_eq!(eval(&e), 3);
        }
        other => panic!("unexpected {:?}", other),
    }
    match parse("64 / 4 / 2 * 3") {
        Parsed::Done(e, _) => {
            assert_eq!(display(&e), "(((64 / 4) / 2) * 3)");
            assert_eq!(eval(&e), 24);
        }
        other => panic!("unexpected {:?}", other),
    }
}

#[test]
fn higher_precedence_binds_tighter() {
    match parse("2 * 3 + 4 * 5 - 6") {
        Parsed::Done(e, _) => {
            assert_eq!(display(&e), "(((2 * 3) + (4 * 5)) - 6)");
            assert_eq!(eval(&e), 20);
        }
        other => panic!("unexpected {:?}", other),
    }
}

#[test]
fn parse_stops_before_an_incomplete_operation() {
    match parse("12 +") {
        Parsed::Done(e, end) => {
            assert_eq!(end, 2);
            assert_eq!(e, Expr::Term(Term::Integer(12)));
        }
        other => panic!("unexpected {:?}", other),
    }
    match parse("1+2") {
        Parsed::Done(e, end) => {
            assert_eq!(end, 1);
            assert_eq!(e, Expr::Term(Term::Integer(1)));
        }
        other => panic!("unexpected {:?}", other),
    }
    match parse("7 * (1") {
        Parsed::Done(e, end) => {
            assert_eq!(end, 1);
            assert_eq!(display(&e), "7");
        }
        other => panic!("unexpected {:?}", other),
    }
}

#[test]
fn parse_misses_without_a_term() {
    assert_eq!(parse(""), Parsed::Miss);
    assert_eq!(parse("+ 1"), Parsed::Miss);
    assert_eq!(parse("(1 + 2"), Parsed::Miss);
    assert_eq!(parse(" 1"), Parsed::Miss);
}

#[test]
fn too_large_integer_overflows() {
    assert_eq!(parse("99999999999999999999999 + 1"), Parsed::Overflow);
    assert_eq!(parse("1 + (2 * 184467440737095516160)"), Parsed::Overflow);
    assert_eq!(
        integer(b"18446744073709551615", 0),
        Parsed::Done(18446744073709551615, 20)
    );
    assert_eq!(integer(b"18446744073709551616", 0), Parsed::Overflow);
}

#[test]
fn lexical_parsers() {
    assert_eq!(integer(b"0042x", 0), Parsed::Done(42, 4));
    assert_eq!(integer(b"x42", 0), Parsed::Miss);
    assert_eq!(integer(b"x42", 1), Parsed::Done(42, 3));
    assert_eq!(space(b"a   b", 1), Some(4));
    assert_eq!(space(b"ab", 1), None);
    assert_eq!(op(b"+-*/", 0), Some(Op::Add));
    assert_eq!(op(b"+-*/", 1), Some(Op::Sub));
    assert_eq!(op(b"+-*/", 2), Some(Op::Mul));
    assert_eq!(op(b"+-*/", 3), Some(Op::Div));
    assert_eq!(op(b"+-*/", 4), None);
    assert_eq!(op(b"%", 0), None);
}

#[test]
fn parenthesized_term() {
    match term(b"(3 - 1)", 0) {
        Parsed::Done(Term::Parenthesized(e), end) => {
            assert_eq!(end, 7);
            assert_eq!(display(&e), "(3 - 1)");
        }
        other => panic!("unexpected {:?}", other),
    }
    match parse("((((0))))") {
        Parsed::Done(e, end) => {
            assert_eq!(end, 9);
            assert_eq!(display(&e), "0");
            assert_eq!(eval(&e), 0);
        }
        other => panic!("unexpected {:?}", other),
    }
}

#[test]
fn checked_eval_reports_operations_outside_usize() {
    let cases = ["1 / 0", "1 - 2", "18446744073709551615 + 1", "4294967296 * 4294967296"];
    for input in cases {
        match parse(input) {
            Parsed::Done(e, _) => assert_eq!(checked_eval(&e), None, "{}", input),
            other => panic!("unexpected {:?}", other),
        }
    }
    match parse("18446744073709551615 - 18446744073709551615") {
        Parsed::Done(e, _) => assert_eq!(checked_eval(&e), Some(0)),
        other => panic!("unexpected {:?}", other),
    }
}

#[test]
fn build_reads_back_operands_and_operators_in_order() {
    let terms = vec![Term::Integer(1), Term::Integer(2), Term::Integer(3), Term::Integer(4)];
    let ops = vec![Op::Add, Op::Mul, Op::Sub];
    let e = build(terms, ops);
    assert_eq!(display(&e), "((1 + (2 * 3)) - 4)");
    assert_eq!(eval(&e), 3);
    assert_eq!(Op::Add.precedence(), 1);
    assert_eq!(Op::Div.precedence(), 2);
}

#[test]
fn display_of_large_number() {
    match parse("1234567890") {
        Parsed::Done(e, _) => assert_eq!(display(&e), "1234567890"),
        other => panic!("unexpected {:?}", other),
    }
}

#[test]
fn expressions_from_parts() {
    let one: Expr = Term::Integer(1).into();
    let two: Expr = Term::Integer(2).into();
    let sum: Expr = (one, Op::Add, two).into();
    assert_eq!(display(&sum), "(1 + 2)");
    assert_eq!(eval(&sum), 3);
    assert_eq!(Op::Sub.associativity(), Associativity::Left);
}
