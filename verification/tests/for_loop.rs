use noirc::parser::test_parse;
use noirc::parser::ForParser;
use noirc::parser::Precedence;
use noirc::token::Keyword;
use noirc::token::Token;

#[test]
fn valid_syntax() {
    // The parser does not check the types of the loops, it only checks for
    // valid expressions in RANGE_START and RANGE_END.
    const SRC_EXPR_LOOP: &str = r#"
            for i in x+y..z {

            }
        "#;
    const SRC_CONST_LOOP: &str = r#"
            for i in 0..100 {

            }
        "#;

    let mut parser = test_parse(SRC_EXPR_LOOP);
    let start = parser.curr_token.clone();
    ForParser::parse(&mut parser).unwrap();
    let end = parser.curr_token;

    ForParser::parse(&mut test_parse(SRC_CONST_LOOP)).unwrap();

    assert_eq!(start, Token::Keyword(Keyword::For));
    assert_eq!(end, Token::RightBrace);
}

#[test]
fn invalid_syntax() {
    // Cannot have a literal as the loop identifier.
    const SRC_LITERAL_IDENT: &str = r#"
            for 1 in x+y..z {

            }
        "#;
    // Only the exclusive double-dot range form is supported.
    const SRC_INCLUSIVE_LOOP: &str = r#"
            for i in 0...100 {

            }
        "#;
    const SRC_INCLUSIVE_EQUAL_LOOP: &str = r#"
            for i in 0..=100 {

            }
        "#;

    ForParser::parse(&mut test_parse(SRC_LITERAL_IDENT)).unwrap_err();
    ForParser::parse(&mut test_parse(SRC_INCLUSIVE_LOOP)).unwrap_err();
    ForParser::parse(&mut test_parse(SRC_INCLUSIVE_EQUAL_LOOP)).unwrap_err();
}

#[test]
fn token_precedence_levels() {
    assert_eq!(Precedence::token_precedence(&Token::Plus), Some(Precedence::Sum));
    assert_eq!(Precedence::token_precedence(&Token::Star), Some(Precedence::Product));
    assert_eq!(Precedence::token_precedence(&Token::Less), Some(Precedence::LessGreater));
    assert_eq!(Precedence::token_precedence(&Token::Equal), Some(Precedence::Lowest));
    assert_eq!(Precedence::token_precedence(&Token::DoubleDot), None);
    assert_eq!(Precedence::token_precedence(&Token::LeftBrace), None);
}

#[test]
fn precedence_higher_steps_up() {
    assert_eq!(Precedence::Lowest.higher(), Precedence::LessGreater);
    assert_eq!(Precedence::LessGreater.higher(), Precedence::Sum);
    assert_eq!(Precedence::Sum.higher(), Precedence::Product);
    assert_eq!(Precedence::Product.higher(), Precedence::Highest);
    assert_eq!(Precedence::Highest.higher(), Precedence::Highest);
}
