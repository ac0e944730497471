use go_parser_rs::error::{ErrorKind, ParseError};
use go_parser_rs::letter_and_digit::{
    parse_binary_digit, parse_decimal_digit, parse_hex_digit, parse_octal_digit,
};
use go_parser_rs::literals::integer::{
    binary_digits, binary_lit, decimal_digits, decimal_lit, digits, hex_digits, hex_lit, int_lit,
    octal_digits, octal_lit, IntLit,
};
use go_parser_rs::literals::letter_and_digit::{
    binary_digit, decimal_digit, digit, hex_digit, octal_digit, Base,
};

fn one_of_error(input: &str) -> ParseError<'_> {
    ParseError { input, kind: ErrorKind::OneOf }
}

#[test]
fn decimal_digit_takes_one_of_ten() {
    assert_eq!(parse_decimal_digit("21c"), Ok(("1c", '2')));
    assert_eq!(parse_decimal_digit("c1"), Err(one_of_error("c1")));
    assert_eq!(parse_decimal_digit(""), Err(one_of_error("")));
    assert_eq!(decimal_digit("21c"), Ok(("1c", '2')));
    assert_eq!(decimal_digit("c1"), Err(one_of_error("c1")));
    assert_eq!(decimal_digit(""), Err(one_of_error("")));
    assert_eq!(decimal_digit("9"), Ok(("", '9')));
    assert_eq!(decimal_digit("/"), Err(one_of_error("/")));
    assert_eq!(decimal_digit(":"), Err(one_of_error(":")));
}

#[test]
fn octal_digit_takes_one_of_eight() {
    assert_eq!(parse_octal_digit("21c"), Ok(("1c", '2')));
    assert_eq!(parse_octal_digit("c1"), Err(one_of_error("c1")));
    assert_eq!(parse_octal_digit(""), Err(one_of_error("")));
    assert_eq!(octal_digit("21c"), Ok(("1c", '2')));
    assert_eq!(octal_digit("7"), Ok(("", '7')));
    assert_eq!(octal_digit("8"), Err(one_of_error("8")));
    assert_eq!(octal_digit(""), Err(one_of_error("")));
}

#[test]
fn binary_digit_takes_zero_or_one() {
    assert_eq!(parse_binary_digit("01c"), Ok(("1c", '0')));
    assert_eq!(parse_binary_digit("1c"), Ok(("c", '1')));
    assert_eq!(parse_binary_digit(""), Err(one_of_error("")));
    assert_eq!(binary_digit("01c"), Ok(("1c", '0')));
    assert_eq!(binary_digit("1c"), Ok(("c", '1')));
    assert_eq!(binary_digit("2"), Err(one_of_error("2")));
    assert_eq!(binary_digit(""), Err(one_of_error("")));
}

#[test]
fn hex_digit_takes_digits_and_letters_to_f() {
    assert_eq!(parse_hex_digit("21c"), Ok(("1c", '2')));
    assert_eq!(parse_hex_digit("c1"), Ok(("1", 'c')));
    assert_eq!(parse_hex_digit(""), Err(one_of_error("")));
    assert_eq!(hex_digit("21c"), Ok(("1c", '2')));
    assert_eq!(hex_digit("c1"), Ok(("1", 'c')));
    assert_eq!(hex_digit("F"), Ok(("", 'F')));
    assert_eq!(hex_digit("a"), Ok(("", 'a')));
    assert_eq!(hex_digit("g"), Err(one_of_error("g")));
    assert_eq!(hex_digit("G"), Err(one_of_error("G")));
    assert_eq!(hex_digit(""), Err(one_of_error("")));
}

#[test]
fn digit_goes_by_the_base() {
    assert_eq!(digit(Base::Binary, "1"), Ok(("", '1')));
    assert_eq!(digit(Base::Binary, "7"), Err(one_of_error("7")));
    assert_eq!(digit(Base::Octal, "7"), Ok(("", '7')));
    assert_eq!(digit(Base::Octal, "9"), Err(one_of_error("9")));
    assert_eq!(digit(Base::Decimal, "9"), Ok(("", '9')));
    assert_eq!(digit(Base::Decimal, "a"), Err(one_of_error("a")));
    assert_eq!(digit(Base::Hex, "a"), Ok(("", 'a')));
    assert_eq!(digit(Base::Hex, "_"), Err(one_of_error("_")));
}

#[test]
fn decimal_digits_accepts_well_formed_runs_whole() {
    assert_eq!(decimal_digits("17014114105727"), Ok(("", "17014114105727")));
    assert_eq!(decimal_digits("170_1411_105727"), Ok(("", "170_1411_105727")));
    assert_eq!(decimal_digits("0"), Ok(("", "0")));
    assert_eq!(decimal_digits("0_0"), Ok(("", "0_0")));
    assert_eq!(decimal_digits("007"), Ok(("", "007")));
}

#[test]
fn decimal_digits_rejects_misplaced_underscores() {
    assert!(decimal_digits("_42").is_err());
    assert!(decimal_digits("42_").is_err());
    assert!(decimal_digits("4__2").is_err());
    assert_eq!(decimal_digits("_42"), Err(one_of_error("_42")));
    assert_eq!(decimal_digits("42_"), Err(ParseError { input: "_", kind: ErrorKind::Not }));
    assert_eq!(decimal_digits("4__2"), Err(ParseError { input: "__2", kind: ErrorKind::Not }));
    assert_eq!(decimal_digits(""), Err(one_of_error("")));
    assert_eq!(decimal_digits("4_x"), Err(ParseError { input: "_x", kind: ErrorKind::Not }));
}

#[test]
fn digit_runs_stop_in_front_of_what_cannot_continue_them() {
    assert_eq!(decimal_digits("12ab"), Ok(("ab", "12")));
    assert_eq!(decimal_digits("1_2 3"), Ok((" 3", "1_2")));
    assert_eq!(octal_digits("1789"), Ok(("89", "17")));
    assert_eq!(binary_digits("10_12"), Ok(("2", "10_1")));
    assert_eq!(hex_digits("ff_FFg"), Ok(("g", "ff_FF")));
    assert_eq!(digits(Base::Hex, "dead_beef+1"), Ok(("+1", "dead_beef")));
}

#[test]
fn binary_digits_follow_the_same_rules() {
    assert_eq!(binary_digits("0101011"), Ok(("", "0101011")));
    assert_eq!(
        binary_digits("1_01_0_1_010_100111_01_0100010"),
        Ok(("", "1_01_0_1_010_100111_01_0100010"))
    );
    assert!(binary_digits("_01").is_err());
    assert!(binary_digits("0_1_").is_err());
    assert!(binary_digits("0__1").is_err());
}

#[test]
fn octal_digits_follow_the_same_rules() {
    assert_eq!(octal_digits("17014114105727"), Ok(("", "17014114105727")));
    assert_eq!(octal_digits("170_1411_105727"), Ok(("", "170_1411_105727")));
    assert!(octal_digits("_42").is_err());
    assert!(octal_digits("42_").is_err());
    assert!(octal_digits("4__2").is_err());
}

#[test]
fn hex_digits_follow_the_same_rules() {
    assert_eq!(
        hex_digits("170141183460469231731687303715884105727"),
        Ok(("", "170141183460469231731687303715884105727"))
    );
    assert_eq!(
        hex_digits("170_141183_460469_231731_687303_715884_105727"),
        Ok(("", "170_141183_460469_231731_687303_715884_105727"))
    );
    assert!(hex_digits("_42").is_err());
    assert!(hex_digits("42_").is_err());
    assert!(hex_digits("4__2").is_err());
}

#[test]
fn decimal_lit_is_zero_or_starts_with_one_to_nine() {
    assert_eq!(decimal_lit("0"), Ok(("", "0")));
    assert_eq!(decimal_lit("123456789"), Ok(("", "123456789")));
    assert_eq!(decimal_lit("12_3_45_6789"), Ok(("", "12_3_45_6789")));
    assert_eq!(decimal_lit("1_000 "), Ok((" ", "1_000")));
    assert_eq!(decimal_lit("0x"), Ok(("x", "0")));
    assert_eq!(decimal_lit("10"), Ok(("", "10")));
}

#[test]
fn decimal_lit_rejects_a_leading_zero() {
    assert!(decimal_lit("0123").is_err());
    assert!(decimal_lit("00").is_err());
    assert_eq!(decimal_lit("0123"), Err(one_of_error("0123")));
    assert_eq!(decimal_lit("00"), Err(one_of_error("00")));
    assert_eq!(decimal_lit("09"), Err(one_of_error("09")));
    assert_eq!(decimal_lit(""), Err(one_of_error("")));
    assert_eq!(decimal_lit("x"), Err(one_of_error("x")));
}

#[test]
fn decimal_lit_rejects_an_underscore_behind_it() {
    assert_eq!(decimal_lit("0_"), Err(ParseError { input: "_", kind: ErrorKind::Not }));
    assert_eq!(decimal_lit("0_1"), Err(ParseError { input: "_1", kind: ErrorKind::Not }));
    assert_eq!(decimal_lit("1_"), Err(ParseError { input: "_", kind: ErrorKind::Not }));
    assert_eq!(decimal_lit("1__2"), Err(ParseError { input: "__2", kind: ErrorKind::Not }));
}

#[test]
fn decimal_lit_stops_in_front_of_a_group_that_is_no_run() {
    assert_eq!(decimal_lit("12__3_45_6789"), Ok(("2__3_45_6789", "1")));
    assert_eq!(
        decimal_lit("1_2_3__4"),
        Err(ParseError { input: "_2_3__4", kind: ErrorKind::Not })
    );
    assert_eq!(decimal_lit("12_"), Ok(("2_", "1")));
}

#[test]
fn binary_lit_needs_its_prefix() {
    assert_eq!(binary_lit("0b010"), Ok(("", "0b010")));
    assert_eq!(binary_lit("0B101"), Ok(("", "0B101")));
    assert_eq!(binary_lit("0b_01_1_1_10_0"), Ok(("", "0b_01_1_1_10_0")));
    assert!(binary_lit("0_B101").is_err());
    assert_eq!(binary_lit("0b102"), Ok(("2", "0b10")));
    assert_eq!(binary_lit("0101"), Err(ParseError { input: "101", kind: ErrorKind::Tag }));
    assert_eq!(binary_lit("1"), Err(ParseError { input: "1", kind: ErrorKind::Tag }));
    assert_eq!(binary_lit("0b"), Err(one_of_error("")));
    assert_eq!(binary_lit("0b__1"), Err(one_of_error("_1")));
    assert_eq!(binary_lit("0b1_"), Err(ParseError { input: "_", kind: ErrorKind::Not }));
}

#[test]
fn octal_lit_may_leave_its_letter_out() {
    assert_eq!(octal_lit("012347"), Ok(("", "012347")));
    assert_eq!(octal_lit("0o600"), Ok(("", "0o600")));
    assert_eq!(octal_lit("0O600"), Ok(("", "0O600")));
    assert_eq!(octal_lit("0o_67_7_2_40_6"), Ok(("", "0o_67_7_2_40_6")));
    assert!(octal_lit("0_O123457").is_err());
    assert_eq!(octal_lit("0_7"), Ok(("", "0_7")));
    assert_eq!(octal_lit("00"), Ok(("", "00")));
    assert_eq!(octal_lit("0"), Err(one_of_error("")));
    assert_eq!(octal_lit("08"), Err(one_of_error("8")));
    assert_eq!(octal_lit("7"), Err(ParseError { input: "7", kind: ErrorKind::Tag }));
}

#[test]
fn hex_lit_needs_its_prefix() {
    assert_eq!(hex_lit("0xBadFace"), Ok(("", "0xBadFace")));
    assert_eq!(hex_lit("0XBad_Face"), Ok(("", "0XBad_Face")));
    assert_eq!(hex_lit("0x_67_7a_2f_cc_40_c6"), Ok(("", "0x_67_7a_2f_cc_40_c6")));
    assert!(hex_lit("0_xBadFace").is_err());
    assert_eq!(hex_lit("0_xBadFace"), Err(ParseError { input: "_xBadFace", kind: ErrorKind::Tag }));
    assert_eq!(hex_lit("0xg"), Err(one_of_error("g")));
    assert_eq!(hex_lit("0x1g"), Ok(("g", "0x1")));
    assert_eq!(hex_lit("x1"), Err(ParseError { input: "x1", kind: ErrorKind::Tag }));
}

#[test]
fn int_lit_tries_the_prefixed_forms_first() {
    assert_eq!(int_lit("0xBadFace"), Ok(("", IntLit::HexLit("0xBadFace"))));
    assert_eq!(int_lit("0b101"), Ok(("", IntLit::BinaryLit("0b101"))));
    assert_eq!(int_lit("0o17"), Ok(("", IntLit::OctalLit("0o17"))));
    assert_eq!(int_lit("017"), Ok(("", IntLit::OctalLit("017"))));
    assert_eq!(int_lit("0"), Ok(("", IntLit::DecimalLit("0"))));
    assert_eq!(int_lit("42+1"), Ok(("+1", IntLit::DecimalLit("42"))));
    assert_eq!(int_lit("0x"), Ok(("x", IntLit::DecimalLit("0"))));
    assert_eq!(int_lit("089"), Err(one_of_error("089")));
    assert_eq!(int_lit("abc"), Err(one_of_error("abc")));
}

#[test]
fn accepted_literals_are_accepted_again_alone_and_in_front_of_other_text() {
    let inputs = ["0x1F_ffzz", "0b1_01 2", "0o17+8", "0777)", "123_456abc", "0 ", "9"];
    for input in inputs {
        let accepted = [hex_lit(input), binary_lit(input), octal_lit(input), decimal_lit(input)];
        let parsers = [hex_lit, binary_lit, octal_lit, decimal_lit];
        for (parser, result) in parsers.iter().zip(accepted) {
            if let Ok((_, text)) = result {
                assert_eq!(parser(text), Ok(("", text)));
                let followed = format!("{}{}", text, " + x");
                assert_eq!(parser(&followed), Ok((" + x", text)));
                let followed = format!("{}{}", text, "g");
                assert_eq!(parser(&followed), Ok(("g", text)));
            }
        }
    }
}

#[test]
fn int_lit_len_counts_the_bytes_as_written() {
    assert_eq!(IntLit::DecimalLit("1_000").len(), 5);
    assert_eq!(IntLit::HexLit("0xff").len(), 4);
    assert_eq!(IntLit::OctalLit("017").text(), "017");
    assert_eq!(IntLit::BinaryLit("0b1").len(), 3);
}
