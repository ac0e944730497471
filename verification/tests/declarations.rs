use go_parser_rs::error::{ErrorKind, ParseError};
use go_parser_rs::{
    parse_function_decl, parse_go_type, parse_identifier_list, parse_import_decl,
    parse_package_clause, parse_parameter_decl, parse_parameter_list, parse_parameters,
    parse_string_literal, Function, GoType, ImportDeclaration, ParameterDecl, ParameterList,
    Parameters, TopLevel,
};

#[test]
fn test_pkg_stmt() {
    assert_eq!(
        parse_package_clause("package main"),
        Ok(("", TopLevel::Pkg("main")))
    );

    assert_eq!(
        parse_package_clause("package main\n"),
        Ok(("\n", TopLevel::Pkg("main")))
    );

    assert!(parse_package_clause("packagemain").is_err())
}

#[test]
fn test_import_decl() {
    assert_eq!(
        parse_import_decl("import \"lib/math\""),
        Ok((
            "",
            TopLevel::Import(vec![ImportDeclaration::new(None, "lib/math")])
        ))
    );

    assert_eq!(
        parse_import_decl("import m \"lib/math\""),
        Ok((
            "",
            TopLevel::Import(vec![ImportDeclaration::new(Some("m"), "lib/math")])
        ))
    );
}

#[test]
fn test_go_type() {
    assert_eq!(parse_go_type("int"), Ok(("", GoType::Int)));
    assert_eq!(parse_go_type("uint8"), Ok(("", GoType::Uint8)));
    assert_eq!(parse_go_type("uint16"), Ok(("", GoType::Uint16)));
    assert_eq!(parse_go_type("uint32"), Ok(("", GoType::Uint32)));
    assert_eq!(parse_go_type("uint64"), Ok(("", GoType::Uint64)));
    assert_eq!(parse_go_type("int8"), Ok(("", GoType::Int8)));
    assert_eq!(parse_go_type("int16"), Ok(("", GoType::Int16)));
    assert_eq!(parse_go_type("int32"), Ok(("", GoType::Int32)));
    assert_eq!(parse_go_type("int64"), Ok(("", GoType::Int64)));
    assert_eq!(parse_go_type("float32"), Ok(("", GoType::Float32)));
    assert_eq!(parse_go_type("float64"), Ok(("", GoType::Float64)));
    assert_eq!(parse_go_type("complex64"), Ok(("", GoType::Complex64)));
    assert_eq!(parse_go_type("complex128"), Ok(("", GoType::Complex128)));
    assert_eq!(parse_go_type("byte"), Ok(("", GoType::Byte)));
    assert_eq!(parse_go_type("rune"), Ok(("", GoType::Rune)));
    assert_eq!(parse_go_type("string"), Ok(("", GoType::String)));
}

#[test]
fn test_func_decl() {
    assert_eq!(
        parse_function_decl("func f (x int) string"),
        Ok((
            "",
            Function {
                name: "f",
                params: Parameters(Some(ParameterList(vec![ParameterDecl {
                    identifiers: Some(vec!["x"]),
                    is_variadic: false,
                    go_type: GoType::Int
                }]))),
                ret: GoType::String
            }
        ))
    );
}

#[test]
fn test_parameters() {
    assert_eq!(
        parse_parameters("(x int)"),
        Ok((
            "",
            Parameters(Some(ParameterList(vec![ParameterDecl {
                identifiers: Some(vec!["x"]),
                is_variadic: false,
                go_type: GoType::Int
            }])))
        ))
    );

    assert_eq!(
        parse_parameters("(x, y int, z string)"),
        Ok((
            "",
            Parameters(Some(ParameterList(vec![
                ParameterDecl {
                    identifiers: Some(vec!["x", "y"]),
                    is_variadic: false,
                    go_type: GoType::Int
                },
                ParameterDecl {
                    identifiers: Some(vec!["z"]),
                    is_variadic: false,
                    go_type: GoType::String
                }
            ])))
        ))
    );
}

#[test]
fn test_parameter_list() {
    assert_eq!(
        parse_parameter_list("x int"),
        Ok((
            "",
            ParameterList(vec![ParameterDecl {
                identifiers: Some(vec!["x"]),
                is_variadic: false,
                go_type: GoType::Int
            }])
        ))
    );

    assert_eq!(
        parse_parameter_list("x, y int, z string"),
        Ok((
            "",
            ParameterList(vec![
                ParameterDecl {
                    identifiers: Some(vec!["x", "y"]),
                    is_variadic: false,
                    go_type: GoType::Int
                },
                ParameterDecl {
                    identifiers: Some(vec!["z"]),
                    is_variadic: false,
                    go_type: GoType::String
                }
            ])
        ))
    );
}

#[test]
fn test_parameter_decl() {
    assert_eq!(
        parse_parameter_decl("x int"),
        Ok((
            "",
            ParameterDecl {
                identifiers: Some(vec!["x"]),
                is_variadic: false,
                go_type: GoType::Int
            }
        ))
    );

    assert_eq!(
        parse_parameter_decl("x, y int"),
        Ok((
            "",
            ParameterDecl {
                identifiers: Some(vec!["x", "y"]),
                is_variadic: false,
                go_type: GoType::Int
            }
        ))
    );

    assert_eq!(
        parse_parameter_decl("x, y ... int"),
        Ok((
            "",
            ParameterDecl {
                identifiers: Some(vec!["x", "y"]),
                is_variadic: true,
                go_type: GoType::Int
            }
        ))
    );
}

#[test]
fn test_identifier_list() {
    assert_eq!(parse_identifier_list("x"), Ok(("", vec!["x"])));
    assert_eq!(parse_identifier_list("x, y"), Ok(("", vec!["x", "y"])));
    assert_eq!(parse_identifier_list("x, y z"), Ok(("z", vec!["x", "y"])));
}

#[test]
fn go_type_from_knows_the_predeclared_names_only() {
    assert_eq!(GoType::from("int"), Some(GoType::Int));
    assert_eq!(GoType::from("complex128"), Some(GoType::Complex128));
    assert_eq!(GoType::from("string"), Some(GoType::String));
    assert_eq!(GoType::from("Int"), None);
    assert_eq!(GoType::from("integer"), None);
    assert_eq!(GoType::from(""), None);
}

#[test]
fn unknown_type_is_a_failure_at_the_name() {
    assert_eq!(
        parse_go_type("foo bar"),
        Err(ParseError { input: "foo bar", kind: ErrorKind::UnknownType })
    );
    assert_eq!(
        parse_parameter_decl("x foo"),
        Err(ParseError { input: "foo", kind: ErrorKind::UnknownType })
    );
    assert_eq!(
        parse_go_type("+"),
        Err(ParseError { input: "+", kind: ErrorKind::AlphaNumeric })
    );
}

#[test]
fn package_clause_failures() {
    assert_eq!(
        parse_package_clause("packagemain"),
        Err(ParseError { input: "main", kind: ErrorKind::Not })
    );
    assert_eq!(
        parse_package_clause("import x"),
        Err(ParseError { input: "import x", kind: ErrorKind::Tag })
    );
    assert_eq!(
        parse_package_clause("package  "),
        Err(ParseError { input: "", kind: ErrorKind::AlphaNumeric })
    );
    assert_eq!(
        parse_package_clause("package \t main rest"),
        Ok(("rest", TopLevel::Pkg("main")))
    );
}

#[test]
fn string_literal_is_what_stands_between_the_quotes() {
    assert_eq!(parse_string_literal("\"lib/math\" x"), Ok(("x", "lib/math")));
    assert_eq!(parse_string_literal("\"\""), Ok(("", "")));
    assert_eq!(parse_string_literal("\" a b \"\"c\""), Ok(("\"c\"", " a b ")));
    assert_eq!(
        parse_string_literal("lib"),
        Err(ParseError { input: "lib", kind: ErrorKind::Tag })
    );
    assert_eq!(
        parse_string_literal("\"lib"),
        Err(ParseError { input: "lib", kind: ErrorKind::Incomplete })
    );
}

#[test]
fn import_declaration_keeps_name_and_path() {
    let decl = ImportDeclaration::new(Some("m"), "lib/math");
    assert_eq!(decl.pkg_name(), Some("m"));
    assert_eq!(decl.path(), "lib/math");
    let plain = ImportDeclaration::new(None, "fmt");
    assert_eq!(plain.pkg_name(), None);
    assert_eq!(plain.path(), "fmt");
    assert_eq!(
        parse_import_decl("import \"fmt"),
        Err(ParseError { input: "fmt", kind: ErrorKind::Incomplete })
    );
    assert_eq!(
        parse_import_decl("importer \"fmt\""),
        Err(ParseError { input: "er \"fmt\"", kind: ErrorKind::Not })
    );
}

#[test]
fn parameters_may_be_empty_and_may_end_in_a_comma() {
    assert_eq!(parse_parameters("()"), Ok(("", Parameters(None))));
    assert_eq!(parse_parameters("( ) x"), Ok(("x", Parameters(None))));
    assert_eq!(
        parse_parameters("(x int,) int"),
        Ok((
            "int",
            Parameters(Some(ParameterList(vec![ParameterDecl {
                identifiers: Some(vec!["x"]),
                is_variadic: false,
                go_type: GoType::Int
            }])))
        ))
    );
    assert_eq!(
        parse_parameters("(x foo)"),
        Err(ParseError { input: "x foo)", kind: ErrorKind::Tag })
    );
    assert_eq!(
        parse_parameters("x int"),
        Err(ParseError { input: "x int", kind: ErrorKind::Tag })
    );
}

#[test]
fn function_declaration_failures() {
    assert_eq!(
        parse_function_decl("func f () foo"),
        Err(ParseError { input: "foo", kind: ErrorKind::UnknownType })
    );
    assert_eq!(
        parse_function_decl("func (x int) int"),
        Err(ParseError { input: "(x int) int", kind: ErrorKind::AlphaNumeric })
    );
    assert_eq!(
        parse_function_decl("func f () uint8 {"),
        Ok(("{", Function { name: "f", params: Parameters(None), ret: GoType::Uint8 }))
    );
}

#[test]
fn variadic_mark_is_a_reserved_word() {
    assert_eq!(
        parse_parameter_decl("xs ... string"),
        Ok((
            "",
            ParameterDecl {
                identifiers: Some(vec!["xs"]),
                is_variadic: true,
                go_type: GoType::String
            }
        ))
    );
    assert_eq!(
        parse_parameter_decl("xs ...string"),
        Err(ParseError { input: "...string", kind: ErrorKind::AlphaNumeric })
    );
}

#[test]
fn successful_parses_leave_a_suffix_of_the_input() {
    let input = "func f (x, y int, z ... string) rune rest of it";
    let (rest, _) = parse_function_decl(input).unwrap();
    assert!(input.ends_with(rest));
    assert_eq!(rest, "rest of it");
    let (rest, _) = parse_identifier_list("a, b, c ,d").unwrap();
    assert_eq!(rest, "");
    let (rest, _) = parse_identifier_list("a, b, +").unwrap();
    assert_eq!(rest, ", +");
}
