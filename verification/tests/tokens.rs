use go_parser_rs::identifier::QualifiedIdent;
use go_parser_rs::literals::integer::IntLit;
use go_parser_rs::tokenize::{Delimiter, Symbol, Token, Tokens};
use go_parser_rs::typ::{GoType, TypeLit, TypeName};

#[test]
fn token_len_is_the_length_in_the_source() {
    assert_eq!(Token::IntLit(IntLit::DecimalLit("12_000")).len(), 6);
    assert_eq!(Token::IntLit(IntLit::HexLit("0xBadFace")).len(), 9);
    assert_eq!(Token::Keyword("package").len(), 7);
    assert_eq!(Token::Keyword("").len(), 0);
    assert_eq!(Token::LDel(Delimiter::Paren).len(), 1);
    assert_eq!(Token::RDel(Delimiter::Cur).len(), 1);
    assert_eq!(Token::LDel(Delimiter::Bra).len(), 1);
    assert_eq!(Token::Symbol(Symbol::Plus).len(), 1);
    assert_eq!(Token::Symbol(Symbol::Slash).len(), 1);
}

#[test]
fn symbol_len_is_one() {
    assert_eq!(Symbol::Plus.len(), 1);
    assert_eq!(Symbol::Minus.len(), 1);
    assert_eq!(Symbol::Aster.len(), 1);
    assert_eq!(Symbol::Slash.len(), 1);
}

#[test]
fn tokens_queue_in_order() {
    let mut tokens: Tokens = Tokens::new();
    tokens.push_back(Token::Keyword("func"));
    tokens.push_back(Token::LDel(Delimiter::Paren));
    tokens.push_back(Token::RDel(Delimiter::Paren));
    assert_eq!(tokens.iter().map(|t| t.len()).sum::<usize>(), 6);
    assert_eq!(tokens.pop_front(), Some(Token::Keyword("func")));
}

#[test]
fn type_name_from_identifier_and_qualified_identifier() {
    assert!(matches!(TypeName::from("int"), TypeName::Identifier("int")));
    let q = QualifiedIdent { package_name: "time", identifier: "Duration" };
    assert!(matches!(
        TypeName::from(q),
        TypeName::QualifiedIdent(QualifiedIdent { package_name: "time", identifier: "Duration" })
    ));
    assert!(matches!(
        GoType::TypeName(TypeName::from("T")),
        GoType::TypeName(TypeName::Identifier("T"))
    ));
    assert!(matches!(GoType::TypeLit(TypeLit::NotYetSupported), GoType::TypeLit(_)));
}
