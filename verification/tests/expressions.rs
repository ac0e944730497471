use go_parser_rs::astable::ASTable;
use go_parser_rs::error::{ErrorKind, ParseError};
use go_parser_rs::expression::operand::{Operand, OperandName};
use go_parser_rs::expression::{
    add_op, and_op, binary_op, mul_op, or_op, rel_op, unary_op, Expression, PrimaryExpr, Unary,
    UnaryExpr,
};
use go_parser_rs::identifier::QualifiedIdent;
use go_parser_rs::literals::integer::IntLit;
use go_parser_rs::literals::rune::Rune;
use go_parser_rs::literals::Literal;
use go_parser_rs::parse_util::{identifier, reserved, symbol};

fn tag_error(input: &str) -> ParseError<'_> {
    ParseError { input, kind: ErrorKind::Tag }
}

fn decimal(text: &str) -> UnaryExpr<'_> {
    UnaryExpr::PrimaryExpr(PrimaryExpr::Operand(Operand::Literal(Literal::IntLit(
        IntLit::DecimalLit(text),
    ))))
}

fn name(text: &str) -> UnaryExpr<'_> {
    UnaryExpr::PrimaryExpr(PrimaryExpr::Operand(Operand::OperandName(OperandName::Identifier(
        text,
    ))))
}

fn binary<'a>(left: Expression<'a>, op: &'a str, right: Expression<'a>) -> Expression<'a> {
    Expression::BinExpr { left: Box::new(left), op, right: Box::new(right) }
}

#[test]
fn reserved_word_must_end_where_it_ends() {
    assert_eq!(reserved("import", "import x"), Ok(("x", "import")));
    assert_eq!(reserved("import", "import"), Ok(("", "import")));
    assert_eq!(reserved("import", "import\t \"x\""), Ok(("\"x\"", "import")));
    assert_eq!(reserved("import", "import\nx"), Ok(("\nx", "import")));
    assert_eq!(
        reserved("import", "importer"),
        Err(ParseError { input: "er", kind: ErrorKind::Not })
    );
    assert_eq!(
        reserved("import", "import9"),
        Err(ParseError { input: "9", kind: ErrorKind::Not })
    );
    assert_eq!(reserved("import", "impor"), Err(tag_error("impor")));
    assert_eq!(reserved("import", " import"), Err(tag_error(" import")));
}

#[test]
fn symbol_takes_its_text_and_the_spaces_behind() {
    assert_eq!(symbol("(", "( x"), Ok(("x", "(")));
    assert_eq!(symbol("<=", "<=<="), Ok(("<=", "<=")));
    assert_eq!(symbol(",", ",\t \ty"), Ok(("y", ",")));
    assert_eq!(symbol(",", ",\ny"), Ok(("\ny", ",")));
    assert_eq!(symbol("(", "x("), Err(tag_error("x(")));
    assert_eq!(symbol("(", ""), Err(tag_error("")));
}

#[test]
fn identifier_is_a_run_of_letters_and_digits() {
    assert_eq!(identifier("abc def"), Ok(("def", "abc")));
    assert_eq!(identifier("a1B2+c"), Ok(("+c", "a1B2")));
    assert_eq!(identifier("9lives"), Ok(("", "9lives")));
    assert_eq!(identifier("x  "), Ok(("", "x")));
    assert_eq!(
        identifier("_x"),
        Err(ParseError { input: "_x", kind: ErrorKind::AlphaNumeric })
    );
    assert_eq!(
        identifier(""),
        Err(ParseError { input: "", kind: ErrorKind::AlphaNumeric })
    );
    assert_eq!(identifier("h\u{e9}"), Ok(("\u{e9}", "h")));
}

#[test]
fn qualified_ident_needs_name_dot_and_identifier() {
    assert_eq!(
        QualifiedIdent::parse("x.y"),
        Ok(("", QualifiedIdent { package_name: "x", identifier: "y" }))
    );
    assert!(QualifiedIdent::parse("x").is_err());
    assert_eq!(QualifiedIdent::parse("x"), Err(tag_error("")));
    assert_eq!(
        QualifiedIdent::parse("math. Sin (1)"),
        Ok(("(1)", QualifiedIdent { package_name: "math", identifier: "Sin" }))
    );
    assert_eq!(QualifiedIdent::parse("x .y"), Err(tag_error(" .y")));
    assert_eq!(
        QualifiedIdent::parse("x.+"),
        Err(ParseError { input: "+", kind: ErrorKind::AlphaNumeric })
    );
    assert_eq!(
        QualifiedIdent::parse(".y"),
        Err(ParseError { input: ".y", kind: ErrorKind::AlphaNumeric })
    );
}

#[test]
fn operand_name_prefers_the_qualified_form() {
    assert_eq!(
        OperandName::parse("x.y"),
        Ok(("", OperandName::QualifiedIdent(QualifiedIdent { package_name: "x", identifier: "y" })))
    );
    assert_eq!(OperandName::parse("vmw"), Ok(("", OperandName::Identifier("vmw"))));
    assert_eq!(OperandName::parse("x .y"), Ok((".y", OperandName::Identifier("x"))));
    assert_eq!(OperandName::parse("x.+"), Ok((".+", OperandName::Identifier("x"))));
    assert_eq!(
        OperandName::parse("+"),
        Err(ParseError { input: "+", kind: ErrorKind::AlphaNumeric })
    );
}

#[test]
fn rune_is_one_character_between_single_quotes() {
    assert_eq!(Rune::parse("'a'bcd"), Ok(("bcd", Rune('a'))));
    assert_eq!(Rune::parse("'\u{3042}' "), Ok((" ", Rune('\u{3042}'))));
    assert_eq!(Rune::parse("'''"), Ok(("", Rune('\''))));
    assert_eq!(Rune::parse("a'"), Err(ParseError { input: "a'", kind: ErrorKind::Char }));
    assert_eq!(Rune::parse(""), Err(ParseError { input: "", kind: ErrorKind::Char }));
    assert_eq!(Rune::parse("'"), Err(ParseError { input: "", kind: ErrorKind::Eof }));
    assert_eq!(Rune::parse("'a"), Err(ParseError { input: "", kind: ErrorKind::Char }));
    assert_eq!(Rune::parse("'ab'"), Err(ParseError { input: "b'", kind: ErrorKind::Char }));
    assert_eq!(Rune::parse("''"), Err(ParseError { input: "", kind: ErrorKind::Char }));
}

#[test]
fn literal_is_an_integer_or_a_rune() {
    assert_eq!(
        Literal::parse("0x1f, 2"),
        Ok((", 2", Literal::IntLit(IntLit::HexLit("0x1f"))))
    );
    assert_eq!(Literal::parse("'x'  y"), Ok(("y", Literal::RuneLit(Rune('x')))));
    assert_eq!(Literal::parse("7 \t"), Ok(("", Literal::IntLit(IntLit::DecimalLit("7")))));
    assert_eq!(
        Literal::parse_int_lit("017 x"),
        Ok(("x", Literal::IntLit(IntLit::OctalLit("017"))))
    );
    assert_eq!(Literal::parse_rune_lit("'q'"), Ok(("", Literal::RuneLit(Rune('q')))));
    assert_eq!(Literal::parse("x"), Err(ParseError { input: "x", kind: ErrorKind::Char }));
    assert_eq!(
        Literal::parse_int_lit("x"),
        Err(ParseError { input: "x", kind: ErrorKind::OneOf })
    );
}

#[test]
fn operand_is_a_literal_or_a_name() {
    assert_eq!(
        Operand::parse("1+2"),
        Ok(("+2", Operand::Literal(Literal::IntLit(IntLit::DecimalLit("1")))))
    );
    assert_eq!(
        Operand::parse("x.y"),
        Ok((
            "",
            Operand::OperandName(OperandName::QualifiedIdent(QualifiedIdent {
                package_name: "x",
                identifier: "y"
            }))
        ))
    );
    assert_eq!(
        Operand::parse("(1)"),
        Err(ParseError { input: "(1)", kind: ErrorKind::AlphaNumeric })
    );
}

#[test]
fn primary_and_unary_expressions_wrap_the_operand() {
    assert_eq!(
        PrimaryExpr::parse("1+2"),
        Ok(("+2", PrimaryExpr::Operand(Operand::Literal(Literal::IntLit(IntLit::DecimalLit("1"))))))
    );
    assert_eq!(UnaryExpr::parse("1+2"), Ok(("+2", decimal("1"))));
    assert_eq!(
        UnaryExpr::parse("-x"),
        Ok(("", UnaryExpr::Unary(Unary { op: "-", expr: Box::new(name("x")) })))
    );
}

#[test]
fn unary_applies_an_operator_to_a_unary_expression() {
    assert_eq!(
        Unary::parse("- 1 +2"),
        Ok(("+2", Unary { op: "-", expr: Box::new(decimal("1")) }))
    );
    assert_eq!(
        Unary::parse("!-x"),
        Ok((
            "",
            Unary {
                op: "!",
                expr: Box::new(UnaryExpr::Unary(Unary { op: "-", expr: Box::new(name("x")) }))
            }
        ))
    );
    assert_eq!(
        Unary::parse("<- ch"),
        Ok(("", Unary { op: "<-", expr: Box::new(name("ch")) }))
    );
    assert_eq!(Unary::parse("1"), Err(tag_error("1")));
    assert_eq!(
        Unary::parse("- +"),
        Err(ParseError { input: "+", kind: ErrorKind::AlphaNumeric })
    );
}

#[test]
fn or_and_operators() {
    assert_eq!(or_op("||true"), Ok(("true", "||")));
    assert_eq!(and_op("&&true"), Ok(("true", "&&")));
    assert_eq!(or_op("|true"), Err(tag_error("|true")));
    assert_eq!(and_op("&true"), Err(tag_error("&true")));
}

#[test]
fn rel_op_takes_the_longest_operator() {
    assert_eq!(rel_op("==1"), Ok(("1", "==")));
    assert_eq!(rel_op("!=1"), Ok(("1", "!=")));
    assert_eq!(rel_op("<3"), Ok(("3", "<")));
    assert_eq!(rel_op("<=a"), Ok(("a", "<=")));
    assert_eq!(rel_op(">a"), Ok(("a", ">")));
    assert_eq!(rel_op(">= a"), Ok(("a", ">=")));
    assert_eq!(rel_op("<=x"), Ok(("x", "<=")));
    assert_eq!(rel_op("=1"), Err(tag_error("=1")));
    assert_eq!(rel_op("!1"), Err(tag_error("!1")));
}

#[test]
fn add_op_takes_one_of_four() {
    assert_eq!(add_op("+1"), Ok(("1", "+")));
    assert_eq!(add_op("-1"), Ok(("1", "-")));
    assert_eq!(add_op("|3"), Ok(("3", "|")));
    assert_eq!(add_op("^a"), Ok(("a", "^")));
    assert!(add_op("*a").is_err());
    assert_eq!(add_op("*a"), Err(tag_error("*a")));
}

#[test]
fn mul_op_takes_the_longest_operator() {
    assert_eq!(mul_op("*1"), Ok(("1", "*")));
    assert_eq!(mul_op("/1"), Ok(("1", "/")));
    assert_eq!(mul_op("% 2"), Ok(("2", "%")));
    assert_eq!(mul_op("<<2"), Ok(("2", "<<")));
    assert_eq!(mul_op(">>1"), Ok(("1", ">>")));
    assert_eq!(mul_op("& x"), Ok(("x", "&")));
    assert_eq!(mul_op("&^ x"), Ok(("x", "&^")));
    assert_eq!(mul_op("&^x"), Ok(("x", "&^")));
    assert_eq!(mul_op("<2"), Err(tag_error("<2")));
}

#[test]
fn unary_op_takes_one_of_seven() {
    assert_eq!(unary_op("+1"), Ok(("1", "+")));
    assert_eq!(unary_op("-1"), Ok(("1", "-")));
    assert_eq!(unary_op("!true"), Ok(("true", "!")));
    assert_eq!(unary_op("^a"), Ok(("a", "^")));
    assert_eq!(unary_op("*p"), Ok(("p", "*")));
    assert_eq!(unary_op("&1"), Ok(("1", "&")));
    assert_eq!(unary_op("<- ch"), Ok(("ch", "<-")));
    assert_eq!(unary_op("<-ch"), Ok(("ch", "<-")));
    assert_eq!(unary_op("<ch"), Err(tag_error("<ch")));
    assert_eq!(unary_op(""), Err(tag_error("")));
}

#[test]
fn binary_op_knows_the_precedence() {
    assert_eq!(binary_op("|| x"), Ok(("x", ("||", 1))));
    assert_eq!(binary_op("&& x"), Ok(("x", ("&&", 2))));
    assert_eq!(binary_op("== x"), Ok(("x", ("==", 3))));
    assert_eq!(binary_op("<= x"), Ok(("x", ("<=", 3))));
    assert_eq!(binary_op("< x"), Ok(("x", ("<", 3))));
    assert_eq!(binary_op("+ x"), Ok(("x", ("+", 4))));
    assert_eq!(binary_op("| x"), Ok(("x", ("|", 4))));
    assert_eq!(binary_op("^ x"), Ok(("x", ("^", 4))));
    assert_eq!(binary_op("<< x"), Ok(("x", ("<<", 5))));
    assert_eq!(binary_op(">> x"), Ok(("x", (">>", 5))));
    assert_eq!(binary_op("& x"), Ok(("x", ("&", 5))));
    assert_eq!(binary_op("&^ x"), Ok(("x", ("&^", 5))));
    assert_eq!(binary_op("* x"), Ok(("x", ("*", 5))));
    assert_eq!(binary_op("! x"), Err(tag_error("! x")));
}

#[test]
fn expression_of_one_operand() {
    assert_eq!(Expression::parse("1"), Ok(("", Expression::UnaryExpr(decimal("1")))));
    assert_eq!(Expression::parse("x )"), Ok((")", Expression::UnaryExpr(name("x")))));
    assert_eq!(
        Expression::parse("+"),
        Err(ParseError { input: "+", kind: ErrorKind::AlphaNumeric })
    );
}

#[test]
fn expression_binds_tighter_operators_first() {
    let a = || Expression::UnaryExpr(name("a"));
    let b = || Expression::UnaryExpr(name("b"));
    let c = || Expression::UnaryExpr(name("c"));
    let d = || Expression::UnaryExpr(name("d"));
    assert_eq!(
        Expression::parse("a + b * c"),
        Ok(("", binary(a(), "+", binary(b(), "*", c()))))
    );
    assert_eq!(
        Expression::parse("a * b + c"),
        Ok(("", binary(binary(a(), "*", b()), "+", c())))
    );
    assert_eq!(
        Expression::parse("a + b * c - d"),
        Ok(("", binary(binary(a(), "+", binary(b(), "*", c())), "-", d())))
    );
    assert_eq!(
        Expression::parse("a || b && c == d"),
        Ok(("", binary(a(), "||", binary(b(), "&&", binary(c(), "==", d())))))
    );
    assert_eq!(
        Expression::parse("a == b && c || d"),
        Ok(("", binary(binary(binary(a(), "==", b()), "&&", c()), "||", d())))
    );
}

#[test]
fn expression_associates_to_the_left() {
    let a = || Expression::UnaryExpr(name("a"));
    let b = || Expression::UnaryExpr(name("b"));
    let c = || Expression::UnaryExpr(name("c"));
    assert_eq!(
        Expression::parse("a - b - c"),
        Ok(("", binary(binary(a(), "-", b()), "-", c())))
    );
    assert_eq!(
        Expression::parse("a / b * c"),
        Ok(("", binary(binary(a(), "/", b()), "*", c())))
    );
    assert_eq!(
        Expression::parse("a << b &^ c"),
        Ok(("", binary(binary(a(), "<<", b()), "&^", c())))
    );
}

#[test]
fn expression_leaves_an_operator_without_operand() {
    let a = || Expression::UnaryExpr(name("a"));
    let b = || Expression::UnaryExpr(name("b"));
    assert_eq!(Expression::parse("a +"), Ok(("+", a())));
    assert_eq!(Expression::parse("a + b * )"), Ok(("* )", binary(a(), "+", b()))));
    assert_eq!(Expression::parse("a b"), Ok(("b", a())));
}

#[test]
fn expression_with_unary_operators_and_literals() {
    let one = || Expression::UnaryExpr(decimal("1"));
    let minus_x =
        || Expression::UnaryExpr(UnaryExpr::Unary(Unary { op: "-", expr: Box::new(name("x")) }));
    assert_eq!(Expression::parse("1 - -x"), Ok(("", binary(one(), "-", minus_x()))));
    assert_eq!(Expression::parse("-x*1"), Ok(("", binary(minus_x(), "*", one()))));
    assert_eq!(
        Expression::parse("0x10 >= 'a' ;"),
        Ok((
            ";",
            binary(
                Expression::UnaryExpr(UnaryExpr::PrimaryExpr(PrimaryExpr::Operand(
                    Operand::Literal(Literal::IntLit(IntLit::HexLit("0x10")))
                ))),
                ">=",
                Expression::UnaryExpr(UnaryExpr::PrimaryExpr(PrimaryExpr::Operand(
                    Operand::Literal(Literal::RuneLit(Rune('a')))
                )))
            )
        ))
    );
}
