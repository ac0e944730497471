//! A parser for a subset of the Go language: integer and rune literals,
//! identifiers, operators, expressions, and the package clause, the import
//! declaration and the function declaration.
//!
//! Every parser takes a text and either hands back the value that it read
//! from the start of the text together with the rest of the text, or fails
//! with a [`error::ParseError`] and consumes nothing. What a parser reads is
//! defined by a function of the characters of the text, named `spec_` and the
//! name of the parser; the parser is proved to compute that function, and to
//! leave a suffix of its input.
//!
//! The characters themselves are read by nom, through the functions of
//! [`primitive`].
pub mod astable;
pub mod error;
pub mod expression;
pub mod identifier;
pub mod letter_and_digit;
pub mod literals;
pub mod parse_util;
pub mod primitive;
pub mod tokenize;
pub mod typ;

use vstd::prelude::*;
use crate::error::{ErrorKind, ParseError, ParseResult, SpecResult, fail, leaves_suffix, result_view};
use crate::parse_util::{
    identifier, lemma_identifier, lemma_reserved, lemma_suffix_trans, lemma_symbol, reserved,
    spec_identifier, spec_reserved, spec_symbol, symbol,
};
use crate::primitive::{CharClass, lemma_run_len, run_len, same_text, tag, take_string_chars};

verus! {

/// The predeclared types that a parameter or a result can have.
#[derive(Debug, Clone, Copy, PartialEq, Eq, Structural)]
pub enum GoType {
    Int,
    Uint8,
    Uint16,
    Uint32,
    Uint64,
    Int8,
    Int16,
    Int32,
    Int64,
    Float32,
    Float64,
    Complex64,
    Complex128,
    Byte,
    Rune,
    String,
}

impl DeepView for GoType {
    type V = GoType;

    open spec fn deep_view(&self) -> GoType {
        *self
    }
}

/// The predeclared type with the name `name`, if there is one.
pub open spec fn spec_go_type_from(name: Seq<char>) -> Option<GoType> {
    if name == "int"@ {
        Some(GoType::Int)
    } else if name == "uint8"@ {
        Some(GoType::Uint8)
    } else if name == "uint16"@ {
        Some(GoType::Uint16)
    } else if name == "uint32"@ {
        Some(GoType::Uint32)
    } else if name == "uint64"@ {
        Some(GoType::Uint64)
    } else if name == "int8"@ {
        Some(GoType::Int8)
    } else if name == "int16"@ {
        Some(GoType::Int16)
    } else if name == "int32"@ {
        Some(GoType::Int32)
    } else if name == "int64"@ {
        Some(GoType::Int64)
    } else if name == "float32"@ {
        Some(GoType::Float32)
    } else if name == "float64"@ {
        Some(GoType::Float64)
    } else if name == "complex64"@ {
        Some(GoType::Complex64)
    } else if name == "complex128"@ {
        Some(GoType::Complex128)
    } else if name == "byte"@ {
        Some(GoType::Byte)
    } else if name == "rune"@ {
        Some(GoType::Rune)
    } else if name == "string"@ {
        Some(GoType::String)
    } else {
        None
    }
}

impl GoType {
    /// The predeclared type with the name `s`. Any other text names no
    /// predeclared type and gives `None`.
    pub fn from(s: &str) -> (r: Option<GoType>)
        ensures
            r == spec_go_type_from(s@),
    {
        if same_text(s, "int") {
            Some(GoType::Int)
        } else if same_text(s, "uint8") {
            Some(GoType::Uint8)
        } else if same_text(s, "uint16") {
            Some(GoType::Uint16)
        } else if same_text(s, "uint32") {
            Some(GoType::Uint32)
        } else if same_text(s, "uint64") {
            Some(GoType::Uint64)
        } else if same_text(s, "int8") {
            Some(GoType::Int8)
        } else if same_text(s, "int16") {
            Some(GoType::Int16)
        } else if same_text(s, "int32") {
            Some(GoType::Int32)
        } else if same_text(s, "int64") {
            Some(GoType::Int64)
        } else if same_text(s, "float32") {
            Some(GoType::Float32)
        } else if same_text(s, "float64") {
            Some(GoType::Float64)
        } else if same_text(s, "complex64") {
            Some(GoType::Complex64)
        } else if same_text(s, "complex128") {
            Some(GoType::Complex128)
        } else if same_text(s, "byte") {
            Some(GoType::Byte)
        } else if same_text(s, "rune") {
            Some(GoType::Rune)
        } else if same_text(s, "string") {
            Some(GoType::String)
        } else {
            None
        }
    }
}

/// The declaration of one import: the name under which the package is
/// imported, where one is given, and the path of the package.
#[derive(Debug, Clone, Copy, PartialEq, Eq)]
pub struct ImportDeclaration<'a> {
    pkg_name_opt: Option<&'a str>,
    path: &'a str,
}

/// The mathematical value of an [`ImportDeclaration`].
pub ghost struct ImportDeclarationView {
    pub pkg_name_opt: Option<Seq<char>>,
    pub path: Seq<char>,
}

impl<'a> DeepView for ImportDeclaration<'a> {
    type V = ImportDeclarationView;

    closed spec fn deep_view(&self) -> ImportDeclarationView {
        ImportDeclarationView { pkg_name_opt: self.pkg_name_opt.deep_view(), path: self.path@ }
    }
}

impl<'a> ImportDeclaration<'a> {
    /// The import of the package at `path`, under the name `pkg_name_opt`
    /// where one is given.
    pub fn new(pkg_name_opt: Option<&'a str>, path: &'a str) -> (r: Self)
        ensures
            r.deep_view() == (ImportDeclarationView {
                pkg_name_opt: pkg_name_opt.deep_view(),
                path: path@,
            }),
    {
        Self { pkg_name_opt, path }
    }

    /// The name under which the package is imported, where one is given.
    pub fn pkg_name(&self) -> (r: Option<&'a str>)
        ensures
            r.deep_view() == self.deep_view().pkg_name_opt,
    {
        self.pkg_name_opt
    }

    /// The path of the imported package.
    pub fn path(&self) -> (r: &'a str)
        ensures
            r@ == self.deep_view().path,
    {
        self.path
    }
}

/// The declaration of one or more parameters of one type.
#[derive(Debug, PartialEq)]
pub struct ParameterDecl<'a> {
    pub identifiers: Option<Vec<&'a str>>,
    pub is_variadic: bool,
    pub go_type: GoType,
}

/// The mathematical value of a [`ParameterDecl`].
pub ghost struct ParameterDeclView {
    pub identifiers: Option<Seq<Seq<char>>>,
    pub is_variadic: bool,
    pub go_type: GoType,
}

impl<'a> DeepView for ParameterDecl<'a> {
    type V = ParameterDeclView;

    open spec fn deep_view(&self) -> ParameterDeclView {
        ParameterDeclView {
            identifiers: self.identifiers.deep_view(),
            is_variadic: self.is_variadic,
            go_type: self.go_type,
        }
    }
}

/// The declarations of a parameter list, in the order in which they are
/// written.
#[derive(Debug, PartialEq)]
pub struct ParameterList<'a>(pub Vec<ParameterDecl<'a>>);

impl<'a> DeepView for ParameterList<'a> {
    type V = Seq<ParameterDeclView>;

    open spec fn deep_view(&self) -> Seq<ParameterDeclView> {
        self.0.deep_view()
    }
}

/// The parameters of a function: `None` where the parentheses are empty.
#[derive(Debug, PartialEq)]
pub struct Parameters<'a>(pub Option<ParameterList<'a>>);

impl<'a> DeepView for Parameters<'a> {
    type V = Option<Seq<ParameterDeclView>>;

    open spec fn deep_view(&self) -> Option<Seq<ParameterDeclView>> {
        self.0.deep_view()
    }
}

/// The declaration of a function: its name, its parameters and the type of
/// its result. The body is not read.
#[derive(Debug, PartialEq)]
pub struct Function<'a> {
    pub name: &'a str,
    pub params: Parameters<'a>,
    pub ret: GoType,
}

/// The mathematical value of a [`Function`].
pub ghost struct FunctionView {
    pub name: Seq<char>,
    pub params: Option<Seq<ParameterDeclView>>,
    pub ret: GoType,
}

impl<'a> DeepView for Function<'a> {
    type V = FunctionView;

    open spec fn deep_view(&self) -> FunctionView {
        FunctionView { name: self.name@, params: self.params.deep_view(), ret: self.ret }
    }
}

/// A declaration at the top level of a source file.
#[derive(Debug, PartialEq)]
pub enum TopLevel<'a> {
    Pkg(&'a str),
    Import(Vec<ImportDeclaration<'a>>),
    Function(Function<'a>),
}

/// The mathematical value of a [`TopLevel`].
pub ghost enum TopLevelView {
    Pkg(Seq<char>),
    Import(Seq<ImportDeclarationView>),
    Function(FunctionView),
}

impl<'a> DeepView for TopLevel<'a> {
    type V = TopLevelView;

    open spec fn deep_view(&self) -> TopLevelView {
        match self {
            TopLevel::Pkg(name) => TopLevelView::Pkg(name@),
            TopLevel::Import(imports) => TopLevelView::Import(imports.deep_view()),
            TopLevel::Function(f) => TopLevelView::Function(f.deep_view()),
        }
    }
}

/// A package clause: the reserved word `package` and the name of the
/// package.
pub open spec fn spec_package_clause(s: Seq<char>) -> SpecResult<TopLevelView> {
    match spec_reserved("package"@, s) {
        Err(e) => Err(e),
        Ok((after_keyword, _)) => match spec_identifier(after_keyword) {
            Err(e) => Err(e),
            Ok((rest, name)) => Ok((rest, TopLevelView::Pkg(name))),
        },
    }
}

/// Parses a package clause: the reserved word `package` and the name of the
/// package.
pub fn parse_package_clause<'a>(s: &'a str) -> (r: ParseResult<'a, TopLevel<'a>>)
    ensures
        result_view(r) == spec_package_clause(s@),
        leaves_suffix(result_view(r), s@),
{
    let (after_keyword, _) = match reserved("package", s) {
        Ok(parsed) => parsed,
        Err(e) => { return Err(e); },
    };
    match identifier(after_keyword) {
        Ok((rest, name)) => {
            proof {
                lemma_suffix_trans(rest@, after_keyword@, s@);
            }
            Ok((rest, TopLevel::Pkg(name)))
        },
        Err(e) => Err(e),
    }
}

/// A string literal: a double quote, the characters up to the next double
/// quote, that double quote, and the spaces behind it. Its value is what
/// stands strictly between the two quotes.
pub open spec fn spec_string_literal(s: Seq<char>) -> SpecResult<Seq<char>> {
    if !(s.len() > 0 && s[0] == '"') {
        fail(s, ErrorKind::Tag)
    } else {
        let body = s.skip(1);
        let n = run_len(CharClass::StringChar, body);
        if n >= body.len() {
            fail(body, ErrorKind::Incomplete)
        } else {
            match spec_symbol(seq!['"'], body.skip(n as int)) {
                Ok((rest, _)) => Ok((rest, body.take(n as int))),
                Err(e) => Err(e),
            }
        }
    }
}

/// Parses a string literal and hands back what stands strictly between its
/// two double quotes. No escape sequence is known: the literal ends at the
/// first double quote behind the opening one. The spaces behind the closing
/// quote are consumed.
pub fn parse_string_literal<'a>(s: &'a str) -> (r: ParseResult<'a, &'a str>)
    ensures
        result_view(r) == spec_string_literal(s@),
        leaves_suffix(result_view(r), s@),
{
    proof {
        reveal_strlit("\"");
        assert("\""@ =~= seq!['"']);
        if s@.len() > 0 {
            assert(s@[0] == s@.subrange(0, 1)[0]);
            if s@[0] == '"' {
                assert("\""@ =~= s@.subrange(0, 1));
            }
        }
    }
    let body = match tag("\"", s) {
        Ok((body, _)) => body,
        Err(_) => { return Err(ParseError { input: s, kind: ErrorKind::Tag }); },
    };
    proof {
        lemma_run_len(CharClass::StringChar, body@);
    }
    let (closing, contents) = match take_string_chars(body) {
        Ok(parsed) => parsed,
        Err(_) => { return Err(ParseError { input: body, kind: ErrorKind::Incomplete }); },
    };
    match symbol("\"", closing) {
        Ok((rest, _)) => {
            proof {
                lemma_suffix_trans(closing@, body@, s@);
                lemma_suffix_trans(rest@, closing@, s@);
            }
            Ok((rest, contents))
        },
        Err(e) => Err(e),
    }
}

/// An optional identifier: where `s` starts with none, nothing is consumed.
pub open spec fn spec_optional_identifier(s: Seq<char>) -> (Seq<char>, Option<Seq<char>>) {
    match spec_identifier(s) {
        Ok((rest, name)) => (rest, Some(name)),
        Err(_) => (s, None),
    }
}

/// An import declaration: the reserved word `import`, the name for the
/// package where one is given, and the path of the package as a string
/// literal.
pub open spec fn spec_import_decl(s: Seq<char>) -> SpecResult<TopLevelView> {
    match spec_reserved("import"@, s) {
        Err(e) => Err(e),
        Ok((after_keyword, _)) => {
            let (after_name, pkg_name_opt) = spec_optional_identifier(after_keyword);
            match spec_string_literal(after_name) {
                Err(e) => Err(e),
                Ok((rest, path)) => Ok(
                    (rest, TopLevelView::Import(seq![ImportDeclarationView { pkg_name_opt, path }])),
                ),
            }
        },
    }
}

/// Parses an import declaration of a single package: the reserved word
/// `import`, a name for the package where one is given, and the path of the
/// package as a string literal. A list of imports in parentheses is not
/// read.
pub fn parse_import_decl<'a>(s: &'a str) -> (r: ParseResult<'a, TopLevel<'a>>)
    ensures
        result_view(r) == spec_import_decl(s@),
        leaves_suffix(result_view(r), s@),
{
    let (after_keyword, _) = match reserved("import", s) {
        Ok(parsed) => parsed,
        Err(e) => { return Err(e); },
    };
    let (after_name, pkg_name_opt) = match identifier(after_keyword) {
        Ok((rest, name)) => (rest, Some(name)),
        Err(_) => (after_keyword, None),
    };
    match parse_string_literal(after_name) {
        Ok((rest, path)) => {
            let mut imports = Vec::new();
            imports.push(ImportDeclaration::new(pkg_name_opt, path));
            proof {
                lemma_suffix_trans(after_name@, after_keyword@, s@);
                lemma_suffix_trans(rest@, after_name@, s@);
                assert(imports.deep_view() =~= seq![
                    ImportDeclarationView {
                        pkg_name_opt: spec_optional_identifier(after_keyword@).1,
                        path: path@,
                    },
                ]);
            }
            Ok((rest, TopLevel::Import(imports)))
        },
        Err(e) => Err(e),
    }
}

/// The name of a predeclared type: an identifier that names one. Any other
/// identifier is an unknown type, located where the identifier starts.
pub open spec fn spec_go_type(s: Seq<char>) -> SpecResult<GoType> {
    match spec_identifier(s) {
        Err(e) => Err(e),
        Ok((rest, name)) => match spec_go_type_from(name) {
            Some(go_type) => Ok((rest, go_type)),
            None => fail(s, ErrorKind::UnknownType),
        },
    }
}

/// Parses the name of a predeclared type. An identifier that names none
/// fails with [`ErrorKind::UnknownType`], located where the identifier
/// starts.
pub fn parse_go_type<'a>(s: &'a str) -> (r: ParseResult<'a, GoType>)
    ensures
        result_view(r) == spec_go_type(s@),
        leaves_suffix(result_view(r), s@),
{
    let (rest, name) = match identifier(s) {
        Ok(parsed) => parsed,
        Err(e) => { return Err(e); },
    };
    match GoType::from(name) {
        Some(go_type) => Ok((rest, go_type)),
        None => Err(ParseError { input: s, kind: ErrorKind::UnknownType }),
    }
}

/// The identifiers that follow the first one of a list, each behind a
/// comma: as many as there are, with what is left behind them.
pub open spec fn spec_more_identifiers(s: Seq<char>) -> (Seq<char>, Seq<Seq<char>>)
    decreases s.len(),
{
    match spec_symbol(seq![','], s) {
        Err(_) => (s, Seq::empty()),
        Ok((after_comma, _)) => match spec_identifier(after_comma) {
            Err(_) => (s, Seq::empty()),
            Ok((rest, name)) => {
                proof {
                    lemma_symbol(seq![','], s);
                    lemma_identifier(after_comma);
                }
                let (end, names) = spec_more_identifiers(rest);
                (end, seq![name] + names)
            },
        },
    }
}

/// A list of identifiers: one identifier, and as many more as follow, each
/// behind a comma. The identifiers keep their order.
pub open spec fn spec_identifier_list(s: Seq<char>) -> SpecResult<Seq<Seq<char>>> {
    match spec_identifier(s) {
        Err(e) => Err(e),
        Ok((rest, first)) => {
            let (end, names) = spec_more_identifiers(rest);
            Ok((end, seq![first] + names))
        },
    }
}

/// The identifiers behind the first leave a suffix of the input.
pub proof fn lemma_more_identifiers(s: Seq<char>)
    ensures
        spec_more_identifiers(s).0.is_suffix_of(s),
    decreases s.len(),
{
    lemma_symbol(seq![','], s);
    if let Ok((after_comma, _)) = spec_symbol(seq![','], s) {
        lemma_identifier(after_comma);
        if let Ok((rest, _)) = spec_identifier(after_comma) {
            lemma_more_identifiers(rest);
        }
    }
}

/// Parses a list of identifiers: one identifier, and as many more as
/// follow, each behind a comma. A comma that no identifier follows is not
/// consumed.
pub fn parse_identifier_list<'a>(s: &'a str) -> (r: ParseResult<'a, Vec<&'a str>>)
    ensures
        result_view(r) == spec_identifier_list(s@),
        leaves_suffix(result_view(r), s@),
{
    let (after_first, first) = match identifier(s) {
        Ok(parsed) => parsed,
        Err(e) => { return Err(e); },
    };
    let mut names: Vec<&'a str> = Vec::new();
    names.push(first);
    let mut rest = after_first;
    proof {
        reveal_strlit(",");
        assert(","@ =~= seq![',']);
        assert(names.deep_view() =~= seq![first@]);
    }
    loop
        invariant
            ","@ == seq![','],
            rest@.is_suffix_of(s@),
            spec_more_identifiers(after_first@).0 == spec_more_identifiers(rest@).0,
            seq![first@] + spec_more_identifiers(after_first@).1 == names.deep_view()
                + spec_more_identifiers(rest@).1,
        ensures
            spec_more_identifiers(rest@) == (rest@, Seq::<Seq<char>>::empty()),
        decreases rest@.len(),
    {
        let after_comma = match symbol(",", rest) {
            Ok((after_comma, _)) => after_comma,
            Err(_) => { break ; },
        };
        let (next, name) = match identifier(after_comma) {
            Ok(parsed) => parsed,
            Err(_) => { break ; },
        };
        proof {
            lemma_symbol(seq![','], rest@);
            lemma_identifier(after_comma@);
            lemma_suffix_trans(after_comma@, rest@, s@);
            lemma_suffix_trans(next@, after_comma@, s@);
        }
        let ghost before = names.deep_view();
        names.push(name);
        proof {
            assert(names.deep_view() =~= before + seq![name@]);
            assert(before + (seq![name@] + spec_more_identifiers(next@).1) =~= (before
                + seq![name@]) + spec_more_identifiers(next@).1);
        }
        rest = next;
    }
    proof {
        assert(names.deep_view() + Seq::<Seq<char>>::empty() =~= names.deep_view());
    }
    Ok((rest, names))
}

/// An optional list of identifiers: where `s` starts with none, nothing is
/// consumed.
pub open spec fn spec_optional_identifier_list(s: Seq<char>) -> (
    Seq<char>,
    Option<Seq<Seq<char>>>,
) {
    match spec_identifier_list(s) {
        Ok((rest, names)) => (rest, Some(names)),
        Err(_) => (s, None),
    }
}

/// The optional mark `...` of a variadic parameter, read as a reserved word.
pub open spec fn spec_optional_variadic(s: Seq<char>) -> (Seq<char>, bool) {
    match spec_reserved("..."@, s) {
        Ok((rest, _)) => (rest, true),
        Err(_) => (s, false),
    }
}

/// The declaration of parameters: the names of the parameters where they
/// are given, the mark `...` where the parameter is variadic, and the name
/// of a predeclared type.
pub open spec fn spec_parameter_decl(s: Seq<char>) -> SpecResult<ParameterDeclView> {
    let (after_names, identifiers) = spec_optional_identifier_list(s);
    let (after_mark, is_variadic) = spec_optional_variadic(after_names);
    match spec_go_type(after_mark) {
        Ok((rest, go_type)) => Ok((rest, ParameterDeclView { identifiers, is_variadic, go_type })),
        Err(e) => Err(e),
    }
}

/// A successful declaration of parameters leaves a strictly shorter suffix
/// of the input.
pub proof fn lemma_parameter_decl(s: Seq<char>)
    ensures
        leaves_suffix(spec_parameter_decl(s), s),
        spec_parameter_decl(s) matches Ok((rest, _)) ==> rest.len() < s.len(),
{
    let (after_names, _) = spec_optional_identifier_list(s);
    let (after_mark, _) = spec_optional_variadic(after_names);
    lemma_identifier(s);
    if let Ok((after_first, _)) = spec_identifier(s) {
        lemma_more_identifiers(after_first);
    }
    lemma_reserved("..."@, after_names);
    lemma_identifier(after_mark);
}

/// Parses the declaration of parameters: the names of the parameters where
/// they are given, the mark `...` where the parameter is variadic, and the
/// name of a predeclared type, which must be there.
pub fn parse_parameter_decl<'a>(s: &'a str) -> (r: ParseResult<'a, ParameterDecl<'a>>)
    ensures
        result_view(r) == spec_parameter_decl(s@),
        leaves_suffix(result_view(r), s@),
{
    let (after_names, identifiers) = match parse_identifier_list(s) {
        Ok((rest, names)) => (rest, Some(names)),
        Err(_) => (s, None),
    };
    let (after_mark, is_variadic) = match reserved("...", after_names) {
        Ok((rest, _)) => (rest, true),
        Err(_) => (after_names, false),
    };
    match parse_go_type(after_mark) {
        Ok((rest, go_type)) => {
            proof {
                lemma_suffix_trans(after_mark@, after_names@, s@);
                lemma_suffix_trans(rest@, after_mark@, s@);
            }
            Ok((rest, ParameterDecl { identifiers, is_variadic, go_type }))
        },
        Err(e) => Err(e),
    }
}

/// The declarations that follow the first one of a parameter list, each
/// behind a comma: as many as there are, with what is left behind them.
pub open spec fn spec_more_parameter_decls(s: Seq<char>) -> (Seq<char>, Seq<ParameterDeclView>)
    decreases s.len(),
{
    match spec_symbol(seq![','], s) {
        Err(_) => (s, Seq::empty()),
        Ok((after_comma, _)) => match spec_parameter_decl(after_comma) {
            Err(_) => (s, Seq::empty()),
            Ok((rest, decl)) => {
                proof {
                    lemma_symbol(seq![','], s);
                    lemma_parameter_decl(after_comma);
                }
                let (end, decls) = spec_more_parameter_decls(rest);
                (end, seq![decl] + decls)
            },
        },
    }
}

/// A parameter list: one declaration of parameters, and as many more as
/// follow, each behind a comma. The declarations keep their order.
pub open spec fn spec_parameter_list(s: Seq<char>) -> SpecResult<Seq<ParameterDeclView>> {
    match spec_parameter_decl(s) {
        Err(e) => Err(e),
        Ok((rest, first)) => {
            let (end, decls) = spec_more_parameter_decls(rest);
            Ok((end, seq![first] + decls))
        },
    }
}

/// Parses a parameter list: one declaration of parameters, and as many more
/// as follow, each behind a comma. A comma that no declaration follows is
/// not consumed.
pub fn parse_parameter_list<'a>(s: &'a str) -> (r: ParseResult<'a, ParameterList<'a>>)
    ensures
        result_view(r) == spec_parameter_list(s@),
        leaves_suffix(result_view(r), s@),
{
    let (after_first, first) = match parse_parameter_decl(s) {
        Ok(parsed) => parsed,
        Err(e) => { return Err(e); },
    };
    let ghost first_view = first.deep_view();
    let mut decls: Vec<ParameterDecl<'a>> = Vec::new();
    decls.push(first);
    let mut rest = after_first;
    proof {
        reveal_strlit(",");
        assert(","@ =~= seq![',']);
        assert(decls.deep_view() =~= seq![first_view]);
    }
    loop
        invariant
            ","@ == seq![','],
            rest@.is_suffix_of(s@),
            spec_more_parameter_decls(after_first@).0 == spec_more_parameter_decls(rest@).0,
            seq![first_view] + spec_more_parameter_decls(after_first@).1 == decls.deep_view()
                + spec_more_parameter_decls(rest@).1,
        ensures
            spec_more_parameter_decls(rest@) == (rest@, Seq::<ParameterDeclView>::empty()),
        decreases rest@.len(),
    {
        let after_comma = match symbol(",", rest) {
            Ok((after_comma, _)) => after_comma,
            Err(_) => { break ; },
        };
        let (next, decl) = match parse_parameter_decl(after_comma) {
            Ok(parsed) => parsed,
            Err(_) => { break ; },
        };
        proof {
            lemma_symbol(seq![','], rest@);
            lemma_parameter_decl(after_comma@);
            lemma_suffix_trans(after_comma@, rest@, s@);
            lemma_suffix_trans(next@, after_comma@, s@);
        }
        let ghost before = decls.deep_view();
        let ghost decl_view = decl.deep_view();
        decls.push(decl);
        proof {
            assert(decls.deep_view() =~= before + seq![decl_view]);
            assert(before + (seq![decl_view] + spec_more_parameter_decls(next@).1) =~= (before
                + seq![decl_view]) + spec_more_parameter_decls(next@).1);
        }
        rest = next;
    }
    proof {
        assert(decls.deep_view() + Seq::<ParameterDeclView>::empty() =~= decls.deep_view());
    }
    Ok((rest, ParameterList(decls)))
}

/// An optional parameter list with an optional comma behind it: where `s`
/// starts with no parameter list, nothing is consumed.
pub open spec fn spec_optional_parameter_list(s: Seq<char>) -> (
    Seq<char>,
    Option<Seq<ParameterDeclView>>,
) {
    match spec_parameter_list(s) {
        Err(_) => (s, None),
        Ok((after_list, decls)) => match spec_symbol(seq![','], after_list) {
            Ok((rest, _)) => (rest, Some(decls)),
            Err(_) => (after_list, Some(decls)),
        },
    }
}

/// The parameters of a function: an opening parenthesis, a parameter list
/// where there is one, which a comma may follow, and a closing parenthesis.
pub open spec fn spec_parameters(s: Seq<char>) -> SpecResult<Option<Seq<ParameterDeclView>>> {
    match spec_symbol(seq!['('], s) {
        Err(e) => Err(e),
        Ok((after_open, _)) => {
            let (after_list, list) = spec_optional_parameter_list(after_open);
            match spec_symbol(seq![')'], after_list) {
                Ok((rest, _)) => Ok((rest, list)),
                Err(e) => Err(e),
            }
        },
    }
}

/// Parses the parameters of a function: an opening parenthesis, a parameter
/// list where there is one, which a comma may follow, and a closing
/// parenthesis. Empty parentheses give `Parameters(None)`.
pub fn parse_parameters<'a>(s: &'a str) -> (r: ParseResult<'a, Parameters<'a>>)
    ensures
        result_view(r) == spec_parameters(s@),
        leaves_suffix(result_view(r), s@),
{
    proof {
        reveal_strlit("(");
        reveal_strlit(",");
        reveal_strlit(")");
        assert("("@ =~= seq!['(']);
        assert(","@ =~= seq![',']);
        assert(")"@ =~= seq![')']);
    }
    let after_open = match symbol("(", s) {
        Ok((after_open, _)) => after_open,
        Err(e) => { return Err(e); },
    };
    let (after_list, list) = match parse_parameter_list(after_open) {
        Err(_) => (after_open, None),
        Ok((after_list, list)) => match symbol(",", after_list) {
            Ok((after_comma, _)) => {
                proof {
                    lemma_suffix_trans(after_comma@, after_list@, after_open@);
                }
                (after_comma, Some(list))
            },
            Err(_) => (after_list, Some(list)),
        },
    };
    match symbol(")", after_list) {
        Ok((rest, _)) => {
            proof {
                lemma_suffix_trans(after_list@, after_open@, s@);
                lemma_suffix_trans(rest@, after_list@, s@);
            }
            Ok((rest, Parameters(list)))
        },
        Err(e) => Err(e),
    }
}

/// The declaration of a function: the reserved word `func`, the name of the
/// function, its parameters, and the predeclared type of its result.
pub open spec fn spec_function_decl(s: Seq<char>) -> SpecResult<FunctionView> {
    match spec_reserved("func"@, s) {
        Err(e) => Err(e),
        Ok((after_keyword, _)) => match spec_identifier(after_keyword) {
            Err(e) => Err(e),
            Ok((after_name, name)) => match spec_parameters(after_name) {
                Err(e) => Err(e),
                Ok((after_params, params)) => match spec_go_type(after_params) {
                    Err(e) => Err(e),
                    Ok((rest, ret)) => Ok((rest, FunctionView { name, params, ret })),
                },
            },
        },
    }
}

/// Parses the declaration of a function: the reserved word `func`, the name
/// of the function, its parameters in parentheses, and the predeclared type
/// of its result. The body of the function is not read.
pub fn parse_function_decl<'a>(s: &'a str) -> (r: ParseResult<'a, Function<'a>>)
    ensures
        result_view(r) == spec_function_decl(s@),
        leaves_suffix(result_view(r), s@),
{
    let (after_keyword, _) = match reserved("func", s) {
        Ok(parsed) => parsed,
        Err(e) => { return Err(e); },
    };
    let (after_name, name) = match identifier(after_keyword) {
        Ok(parsed) => parsed,
        Err(e) => { return Err(e); },
    };
    let (after_params, params) = match parse_parameters(after_name) {
        Ok(parsed) => parsed,
        Err(e) => { return Err(e); },
    };
    match parse_go_type(after_params) {
        Ok((rest, ret)) => {
            proof {
                lemma_suffix_trans(after_name@, after_keyword@, s@);
                lemma_suffix_trans(after_params@, after_name@, s@);
                lemma_suffix_trans(rest@, after_params@, s@);
            }
            Ok((rest, Function { name, params, ret }))
        },
        Err(e) => Err(e),
    }
}

} // verus!
