use cas_graph::expr::{BinOp, Expr, UnOp};
use cas_graph::parser::{parse, SyntaxError, SyntaxErrorKind};

fn val(numeral: &str) -> Expr {
    Expr::Val(numeral.to_string())
}

fn var(name: &str) -> Expr {
    Expr::Var(name.to_string())
}

fn bin(lhs: Expr, op: BinOp, rhs: Expr) -> Expr {
    Expr::BinOp { lhs: Box::new(lhs), op, rhs: Box::new(rhs) }
}

fn un(op: UnOp, expr: Expr) -> Expr {
    Expr::UnOp { op, expr: Box::new(expr) }
}

fn err(kind: SyntaxErrorKind, position: usize) -> Result<Expr, SyntaxError> {
    Err(SyntaxError { kind, position })
}

/// Evaluates a tree without variables in double precision.
fn eval(e: &Expr) -> f64 {
    match e {
        Expr::Var(name) => panic!("unbound variable {name}"),
        Expr::Val(numeral) => numeral.parse::<f64>().unwrap(),
        Expr::UnOp { op: UnOp::Pos, expr } => eval(expr),
        Expr::UnOp { op: UnOp::Neg, expr } => -eval(expr),
        Expr::BinOp { lhs, op: BinOp::Add, rhs } => eval(lhs) + eval(rhs),
        Expr::BinOp { lhs, op: BinOp::Sub, rhs } => eval(lhs) - eval(rhs),
        Expr::BinOp { lhs, op: BinOp::Mul, rhs } => eval(lhs) * eval(rhs),
        Expr::BinOp { lhs, op: BinOp::Div, rhs } => eval(lhs) / eval(rhs),
    }
}

#[test]
fn single_number() {
    assert_eq!(parse("42"), Ok(val("42")));
}

#[test]
fn single_variable() {
    assert_eq!(parse("speed"), Ok(var("speed")));
}

#[test]
fn identifier_with_digits_and_underscores() {
    assert_eq!(parse("_a1_b2"), Ok(var("_a1_b2")));
}

#[test]
fn no_word_is_reserved() {
    assert_eq!(parse("if + fn"), Ok(bin(var("if"), BinOp::Add, var("fn"))));
}

#[test]
fn multiplication_binds_tighter_on_the_right() {
    let tree = parse("1+2*3").unwrap();
    assert_eq!(
        tree,
        bin(val("1"), BinOp::Add, bin(val("2"), BinOp::Mul, val("3")))
    );
    assert_eq!(eval(&tree), 7.0);
}

#[test]
fn parentheses_group() {
    let tree = parse("(1+2)*3").unwrap();
    assert_eq!(
        tree,
        bin(bin(val("1"), BinOp::Add, val("2")), BinOp::Mul, val("3"))
    );
    assert_eq!(eval(&tree), 9.0);
}

#[test]
fn two_products_in_a_sum() {
    let tree = parse("2*3+4*5").unwrap();
    assert_eq!(
        tree,
        bin(
            bin(val("2"), BinOp::Mul, val("3")),
            BinOp::Add,
            bin(val("4"), BinOp::Mul, val("5"))
        )
    );
    assert_eq!(eval(&tree), 26.0);
}

#[test]
fn leading_sign_applies_to_the_first_operand() {
    let tree = parse("-2+3").unwrap();
    assert_eq!(tree, bin(un(UnOp::Neg, val("2")), BinOp::Add, val("3")));
    assert_eq!(eval(&tree), 1.0);
}

#[test]
fn plus_sign_is_kept_in_the_tree() {
    let tree = parse("+x").unwrap();
    assert_eq!(tree, un(UnOp::Pos, var("x")));
}

#[test]
fn sign_after_an_operator() {
    assert_eq!(
        parse("a + -b"),
        Ok(bin(var("a"), BinOp::Add, un(UnOp::Neg, var("b"))))
    );
    assert_eq!(
        parse("a*-(b+c)"),
        Ok(bin(
            var("a"),
            BinOp::Mul,
            un(UnOp::Neg, bin(var("b"), BinOp::Add, var("c")))
        ))
    );
}

#[test]
fn sign_in_front_of_a_group() {
    let tree = parse("-(1+2)*3").unwrap();
    assert_eq!(
        tree,
        bin(
            un(UnOp::Neg, bin(val("1"), BinOp::Add, val("2"))),
            BinOp::Mul,
            val("3")
        )
    );
    assert_eq!(eval(&tree), -9.0);
}

#[test]
fn same_tier_groups_to_the_left() {
    let tree = parse("1-2-3").unwrap();
    assert_eq!(
        tree,
        bin(bin(val("1"), BinOp::Sub, val("2")), BinOp::Sub, val("3"))
    );
    assert_eq!(eval(&tree), -4.0);
    let tree = parse("8/4/2").unwrap();
    assert_eq!(
        tree,
        bin(bin(val("8"), BinOp::Div, val("4")), BinOp::Div, val("2"))
    );
    assert_eq!(eval(&tree), 1.0);
    let tree = parse("2*3/4").unwrap();
    assert_eq!(eval(&tree), 1.5);
}

#[test]
fn looser_operator_after_a_tighter_one() {
    assert_eq!(
        parse("a*b+c"),
        Ok(bin(bin(var("a"), BinOp::Mul, var("b")), BinOp::Add, var("c")))
    );
}

#[test]
fn looser_chain_goes_on_after_a_tighter_one() {
    let tree = parse("1-2*3+4").unwrap();
    assert_eq!(
        tree,
        bin(
            bin(val("1"), BinOp::Sub, bin(val("2"), BinOp::Mul, val("3"))),
            BinOp::Add,
            val("4")
        )
    );
    assert_eq!(eval(&tree), -1.0);
    let tree = parse("10-2*3-1").unwrap();
    assert_eq!(
        tree,
        bin(
            bin(val("10"), BinOp::Sub, bin(val("2"), BinOp::Mul, val("3"))),
            BinOp::Sub,
            val("1")
        )
    );
    assert_eq!(eval(&tree), 3.0);
}

#[test]
fn tighter_chain_groups_to_the_left_inside_a_sum() {
    let tree = parse("a+b*c/d-e").unwrap();
    assert_eq!(
        tree,
        bin(
            bin(
                var("a"),
                BinOp::Add,
                bin(bin(var("b"), BinOp::Mul, var("c")), BinOp::Div, var("d"))
            ),
            BinOp::Sub,
            var("e")
        )
    );
    assert_eq!(eval(&parse("1+8*3/4-2").unwrap()), 5.0);
    assert_eq!(eval(&parse("20/2/5*3-1-2+4*2").unwrap()), 11.0);
}

#[test]
fn sign_binds_to_its_atom_only() {
    assert_eq!(
        parse("-a*b"),
        Ok(bin(un(UnOp::Neg, var("a")), BinOp::Mul, var("b")))
    );
    assert_eq!(
        parse("a - -b * c"),
        Ok(bin(
            var("a"),
            BinOp::Sub,
            bin(un(UnOp::Neg, var("b")), BinOp::Mul, var("c"))
        ))
    );
    assert_eq!(eval(&parse("-2*3+-4/-2").unwrap()), -4.0);
}

#[test]
fn division_by_zero_is_infinite() {
    let tree = parse("1/0").unwrap();
    assert_eq!(tree, bin(val("1"), BinOp::Div, val("0")));
    let value = eval(&tree);
    assert!(value.is_infinite() && value > 0.0);
}

#[test]
fn zero_by_zero_is_not_a_number() {
    let tree = parse("0/0").unwrap();
    assert!(eval(&tree).is_nan());
}

#[test]
fn nested_groups() {
    let tree = parse("((1))").unwrap();
    assert_eq!(tree, val("1"));
    let tree = parse("2*(3+(4-1))").unwrap();
    assert_eq!(eval(&tree), 12.0);
}

#[test]
fn white_space_is_skipped() {
    assert_eq!(parse("  a\t+\n b \r"), Ok(bin(var("a"), BinOp::Add, var("b"))));
    assert_eq!(parse("a+b"), parse(" a + b "));
}

#[test]
fn numerals_with_fraction_and_exponent() {
    assert_eq!(parse("1.5"), Ok(val("1.5")));
    assert_eq!(parse("2."), Ok(val("2.")));
    assert_eq!(parse("1e3"), Ok(val("1e3")));
    assert_eq!(parse("1.25E-2"), Ok(val("1.25E-2")));
    assert_eq!(parse("7e+2"), Ok(val("7e+2")));
    assert_eq!(eval(&parse("1.5e3 + 0.5").unwrap()), 1500.5);
    assert_eq!(eval(&parse("2. * 4").unwrap()), 8.0);
}

#[test]
fn exponent_without_digits_is_not_part_of_the_numeral() {
    assert_eq!(parse("2e"), err(SyntaxErrorKind::TrailingInput, 1));
    assert_eq!(parse("2e+"), err(SyntaxErrorKind::TrailingInput, 1));
    assert_eq!(parse("2 e"), err(SyntaxErrorKind::TrailingInput, 2));
}

#[test]
fn numeral_minus_numeral_is_a_difference() {
    assert_eq!(parse("1e3-2"), Ok(bin(val("1e3"), BinOp::Sub, val("2"))));
}

#[test]
fn empty_text() {
    assert_eq!(parse(""), err(SyntaxErrorKind::UnexpectedEnd, 0));
    assert_eq!(parse("   "), err(SyntaxErrorKind::UnexpectedEnd, 3));
}

#[test]
fn missing_right_operand() {
    assert_eq!(parse("1 +"), err(SyntaxErrorKind::UnexpectedEnd, 3));
    assert_eq!(parse("a*"), err(SyntaxErrorKind::UnexpectedEnd, 2));
    assert_eq!(parse("-"), err(SyntaxErrorKind::UnexpectedEnd, 1));
}

#[test]
fn character_that_starts_no_token() {
    assert_eq!(parse("$"), err(SyntaxErrorKind::UnexpectedChar, 0));
    assert_eq!(parse("1 + #"), err(SyntaxErrorKind::UnexpectedChar, 4));
    assert_eq!(parse(".5"), err(SyntaxErrorKind::UnexpectedChar, 0));
    assert_eq!(parse("(1 $"), err(SyntaxErrorKind::UnexpectedChar, 3));
}

#[test]
fn character_outside_ascii() {
    assert_eq!(parse("é"), err(SyntaxErrorKind::UnexpectedChar, 0));
    assert_eq!(parse("a + é"), err(SyntaxErrorKind::UnexpectedChar, 4));
    assert_eq!(parse("é + $"), err(SyntaxErrorKind::UnexpectedChar, 0));
}

#[test]
fn position_counts_characters() {
    assert_eq!(parse("a é"), err(SyntaxErrorKind::TrailingInput, 2));
}

#[test]
fn operator_where_an_operand_is_expected() {
    assert_eq!(parse("1 + * 2"), err(SyntaxErrorKind::UnexpectedToken, 4));
    assert_eq!(parse("*"), err(SyntaxErrorKind::UnexpectedToken, 0));
    assert_eq!(parse(")"), err(SyntaxErrorKind::UnexpectedToken, 0));
    assert_eq!(parse("()"), err(SyntaxErrorKind::UnexpectedToken, 1));
}

#[test]
fn two_signs_in_a_row() {
    assert_eq!(parse("--1"), err(SyntaxErrorKind::UnexpectedToken, 1));
    assert_eq!(parse("1 - -+2"), err(SyntaxErrorKind::UnexpectedToken, 5));
}

#[test]
fn group_that_is_not_closed() {
    assert_eq!(parse("(1+2"), err(SyntaxErrorKind::UnmatchedParen, 0));
    assert_eq!(parse("1 + (2 * (3 + 4)"), err(SyntaxErrorKind::UnmatchedParen, 4));
    assert_eq!(parse("(1 2)"), err(SyntaxErrorKind::UnexpectedToken, 3));
}

#[test]
fn something_after_the_expression() {
    assert_eq!(parse("1 2"), err(SyntaxErrorKind::TrailingInput, 2));
    assert_eq!(parse("1)"), err(SyntaxErrorKind::TrailingInput, 1));
    assert_eq!(parse("a b"), err(SyntaxErrorKind::TrailingInput, 2));
    assert_eq!(parse("(a)(b)"), err(SyntaxErrorKind::TrailingInput, 3));
    assert_eq!(parse("1 $"), err(SyntaxErrorKind::TrailingInput, 2));
}

#[test]
fn parsing_twice_gives_the_same_tree() {
    for text in ["a + b * 2", "-(x)/y", "1 +", "((", "3.5e2*k - 1"] {
        assert_eq!(parse(text), parse(text));
    }
}

#[test]
fn long_chain_parses() {
    let mut text = String::from("x0");
    for i in 1..200 {
        text.push_str(if i % 2 == 0 { " + x" } else { " * x" });
        text.push_str(&i.to_string());
    }
    assert!(parse(&text).is_ok());
}

#[test]
fn numerals_of_the_grammar_are_numbers() {
    for numeral in ["0", "007", "1.", "1.5", "1e5", "1.e5", "1.5E-3", "12e+7", "9.75e0"] {
        assert_eq!(parse(numeral), Ok(val(numeral)));
        assert!(numeral.parse::<f64>().is_ok());
    }
}

/// How tightly a tree holds together: 0 for a sum or a difference, 1 for a
/// product or a quotient, 2 for a signed operand, 3 for a leaf.
fn level(e: &Expr) -> u8 {
    match e {
        Expr::BinOp { op: BinOp::Add | BinOp::Sub, .. } => 0,
        Expr::BinOp { .. } => 1,
        Expr::UnOp { .. } => 2,
        _ => 3,
    }
}

/// Writes a tree where one of level `min` or more is asked for: as it is if
/// its level is that high, in parentheses if not.
fn written_at(e: &Expr, min: u8) -> String {
    if level(e) >= min {
        written(e)
    } else {
        format!("( {}) ", written(e))
    }
}

/// Writes a tree with a space after each token, and with parentheses only
/// where the grouping would otherwise differ.
fn written(e: &Expr) -> String {
    match e {
        Expr::Var(name) => format!("{name} "),
        Expr::Val(numeral) => format!("{numeral} "),
        Expr::UnOp { op, expr } => {
            let sign = match op {
                UnOp::Pos => '+',
                UnOp::Neg => '-',
            };
            format!("{sign} {}", written_at(expr, 3))
        }
        Expr::BinOp { lhs, op, rhs } => {
            let (operator, left, right) = match op {
                BinOp::Add => ('+', 0, 1),
                BinOp::Sub => ('-', 0, 1),
                BinOp::Mul => ('*', 1, 2),
                BinOp::Div => ('/', 1, 2),
            };
            format!("{}{operator} {}", written_at(lhs, left), written_at(rhs, right))
        }
    }
}

#[test]
fn parentheses_are_written_only_where_they_group() {
    let chain = bin(
        bin(val("1"), BinOp::Sub, bin(val("2"), BinOp::Mul, val("3"))),
        BinOp::Add,
        val("4"),
    );
    assert_eq!(written(&chain), "1 - 2 * 3 + 4 ");
    let right = bin(val("1"), BinOp::Sub, bin(val("2"), BinOp::Add, val("3")));
    assert_eq!(written(&right), "1 - ( 2 + 3 ) ");
    let product = bin(bin(val("1"), BinOp::Add, val("2")), BinOp::Mul, val("3"));
    assert_eq!(written(&product), "( 1 + 2 ) * 3 ");
    let quotient = bin(var("a"), BinOp::Div, bin(var("b"), BinOp::Mul, var("c")));
    assert_eq!(written(&quotient), "a / ( b * c ) ");
    let signs = un(UnOp::Neg, un(UnOp::Pos, var("y")));
    assert_eq!(written(&signs), "- ( + y ) ");
    let signed = bin(un(UnOp::Neg, var("a")), BinOp::Mul, un(UnOp::Neg, var("b")));
    assert_eq!(written(&signed), "- a * - b ");
}

#[test]
fn written_tree_is_read_back() {
    let trees = [
        var("x"),
        val("1.5e3"),
        un(UnOp::Neg, un(UnOp::Pos, var("y"))),
        un(UnOp::Neg, bin(var("a"), BinOp::Mul, var("b"))),
        bin(
            bin(val("1"), BinOp::Sub, val("2")),
            BinOp::Mul,
            bin(var("a"), BinOp::Add, un(UnOp::Neg, val("3."))),
        ),
        bin(val("1"), BinOp::Add, bin(val("2"), BinOp::Add, val("3"))),
        bin(bin(val("1"), BinOp::Add, val("2")), BinOp::Add, val("3")),
        bin(val("8"), BinOp::Div, bin(val("4"), BinOp::Div, val("2"))),
        bin(bin(val("8"), BinOp::Div, val("4")), BinOp::Div, val("2")),
        bin(bin(val("1"), BinOp::Div, val("2")), BinOp::Sub, var("e5")),
        bin(
            bin(val("1"), BinOp::Sub, bin(val("2"), BinOp::Mul, val("3"))),
            BinOp::Add,
            val("4"),
        ),
        bin(
            val("1"),
            BinOp::Sub,
            bin(bin(val("2"), BinOp::Mul, val("3")), BinOp::Add, val("4")),
        ),
        bin(
            bin(un(UnOp::Neg, var("a")), BinOp::Mul, var("b")),
            BinOp::Sub,
            bin(var("c"), BinOp::Div, un(UnOp::Pos, bin(var("d"), BinOp::Sub, var("e")))),
        ),
    ];
    for tree in trees {
        assert_eq!(parse(&written(&tree)), Ok(tree));
    }
}
