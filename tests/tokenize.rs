use lexer::{tokenize, Lexer, Token};

fn ok(input: &str) -> Vec<Token> {
    match tokenize(input) {
        Ok(tokens) => tokens,
        Err(e) => panic!("unexpected error: {}", e),
    }
}

fn err(input: &str) -> String {
    match tokenize(input) {
        Ok(tokens) => panic!("unexpected tokens: {:?}", tokens),
        Err(e) => e,
    }
}

fn ident(s: &str) -> Token {
    Token::Identifier(s.to_string())
}

#[test]
fn empty_input_has_no_tokens() {
    assert_eq!(ok(""), vec![]);
}

#[test]
fn whitespace_and_comments_have_no_tokens() {
    assert_eq!(ok("  \t\n\r "), vec![]);
    assert_eq!(ok("# a comment\n   #another# \t"), vec![]);
    assert_eq!(ok("# runs to the end"), vec![]);
    assert_eq!(ok("#"), vec![]);
    assert_eq!(ok("\u{00A0}\u{2003}\u{3000}"), vec![]);
}

#[test]
fn digit_run_is_one_literal() {
    assert_eq!(ok("0"), vec![Token::IntLiteral(0)]);
    assert_eq!(ok("42"), vec![Token::IntLiteral(42)]);
    assert_eq!(ok("007"), vec![Token::IntLiteral(7)]);
    assert_eq!(
        ok("9223372036854775807"),
        vec![Token::IntLiteral(9223372036854775807)]
    );
    assert_eq!(
        ok("000000000000000000000000000001"),
        vec![Token::IntLiteral(1)]
    );
}

#[test]
fn too_large_literal_is_not_an_integer() {
    assert_eq!(
        err("9223372036854775808"),
        "Not an integer 9223372036854775808"
    );
    assert_eq!(
        err("1 99999999999999999999999 2"),
        "Not an integer 99999999999999999999999"
    );
}

#[test]
fn leading_minus_is_its_own_token() {
    assert_eq!(ok("-5"), vec![Token::Minus, Token::IntLiteral(5)]);
}

#[test]
fn name_is_one_identifier() {
    assert_eq!(ok("x"), vec![ident("x")]);
    assert_eq!(ok("_tmp9"), vec![ident("_tmp9")]);
    assert_eq!(ok("iffy"), vec![ident("iffy")]);
    assert_eq!(ok("If"), vec![ident("If")]);
    assert_eq!(ok("elsewhere"), vec![ident("elsewhere")]);
}

#[test]
fn keywords() {
    assert_eq!(ok("if"), vec![Token::If]);
    assert_eq!(ok("else"), vec![Token::Else]);
    assert_eq!(ok("else;"), vec![Token::Else, Token::Semicolon]);
}

#[test]
fn two_character_operators_take_the_longest_match() {
    assert_eq!(ok("=="), vec![Token::Equal]);
    assert_eq!(ok("="), vec![Token::Assign]);
    assert_eq!(ok("<="), vec![Token::LessThanOrEqual]);
    assert_eq!(ok("<"), vec![Token::LessThan]);
    assert_eq!(ok(">="), vec![Token::GreaterThanOrEqual]);
    assert_eq!(ok(">"), vec![Token::GreaterThan]);
    assert_eq!(ok("!="), vec![Token::NotEqual]);
    assert_eq!(ok("==="), vec![Token::Equal, Token::Assign]);
    assert_eq!(ok("= ="), vec![Token::Assign, Token::Assign]);
}

#[test]
fn bang_without_equals_fails() {
    assert_eq!(err("!"), "Expected '=' after '!'");
    assert_eq!(err("1 ! = 2"), "Expected '=' after '!'");
}

#[test]
fn single_character_tokens() {
    assert_eq!(
        ok("+ - * / ( ) { } ; ,"),
        vec![
            Token::Plus,
            Token::Minus,
            Token::Multiply,
            Token::Divide,
            Token::LeftParen,
            Token::RightParen,
            Token::LeftBrace,
            Token::RightBrace,
            Token::Semicolon,
            Token::Comma,
        ]
    );
}

#[test]
fn comments_end_at_newline_or_second_hash() {
    assert_eq!(
        ok("1 # ignored\n2"),
        vec![Token::IntLiteral(1), Token::IntLiteral(2)]
    );
    assert_eq!(
        ok("1 #ignored#2"),
        vec![Token::IntLiteral(1), Token::IntLiteral(2)]
    );
}

#[test]
fn full_statement() {
    assert_eq!(
        ok("if (x >= 10) { x = x - 1; }"),
        vec![
            Token::If,
            Token::LeftParen,
            ident("x"),
            Token::GreaterThanOrEqual,
            Token::IntLiteral(10),
            Token::RightParen,
            Token::LeftBrace,
            ident("x"),
            Token::Assign,
            ident("x"),
            Token::Minus,
            Token::IntLiteral(1),
            Token::Semicolon,
            Token::RightBrace,
        ]
    );
}

#[test]
fn symbol_glued_to_name_fails() {
    assert_eq!(err("x@"), "Unexpected char @");
    assert_eq!(err("f(x)"), "Unexpected char (");
    assert_eq!(err("a+b"), "Unexpected char +");
}

#[test]
fn stray_character_fails() {
    assert_eq!(err("@"), "Unexpected character: @");
    assert_eq!(err("1 $"), "Unexpected character: $");
    assert_eq!(err("é"), "Unexpected character: é");
}

#[test]
fn number_glued_to_name_is_two_tokens() {
    assert_eq!(ok("12ab"), vec![Token::IntLiteral(12), ident("ab")]);
}

#[test]
fn tokenizing_twice_gives_the_same_result() {
    let input = "if (a <= 3) { b = a * 2, c; } # done";
    assert_eq!(ok(input), ok(input));
    assert_eq!(err("x@"), err("x@"));
}

#[test]
fn new_lexer_starts_fresh() {
    let _first = Lexer::new("x = 1;");
    let _second = Lexer::new("x = 1;");
    assert_eq!(
        ok("x = 1;"),
        vec![ident("x"), Token::Assign, Token::IntLiteral(1), Token::Semicolon]
    );
}
