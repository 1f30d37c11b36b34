use langfront::error::LexError;
use langfront::lexer::Lexer;
use langfront::token::{is_stream, Token, TokenValue};

fn lex(source: &str) -> Result<Vec<Token>, LexError> {
    Lexer::new(source.to_string()).lex()
}

fn values(source: &str) -> Vec<TokenValue> {
    lex(source).unwrap().iter().map(|token| token.value().clone()).collect()
}

fn positions(source: &str) -> Vec<i32> {
    lex(source).unwrap().iter().map(|token| token.position()).collect()
}

fn identifier(name: &str) -> TokenValue {
    TokenValue::Identifier(name.to_string())
}

#[test]
fn empty_input_is_end_of_input_alone() {
    assert_eq!(values(""), vec![TokenValue::EOF]);
    assert_eq!(positions(""), vec![0]);
}

#[test]
fn blanks_alone_give_end_of_input_alone() {
    assert_eq!(values(" \t\r\n  \n"), vec![TokenValue::EOF]);
    assert_eq!(positions(" \t\r\n  \n"), vec![7]);
}

#[test]
fn digits_give_one_integer() {
    assert_eq!(values("12345"), vec![TokenValue::Integer(12345), TokenValue::EOF]);
    assert_eq!(positions("12345"), vec![5, 5]);
    assert_eq!(values("007"), vec![TokenValue::Integer(7), TokenValue::EOF]);
    assert_eq!(values("0"), vec![TokenValue::Integer(0), TokenValue::EOF]);
}

#[test]
fn largest_integer_fits() {
    assert_eq!(values("2147483647"), vec![TokenValue::Integer(i32::MAX), TokenValue::EOF]);
}

#[test]
fn integer_past_32_bits_is_out_of_range() {
    assert_eq!(lex("2147483648"), Err(LexError::IntegerOutOfRange));
    assert_eq!(lex("99999999999999999999999999"), Err(LexError::IntegerOutOfRange));
}

#[test]
fn one_decimal_point_gives_one_float() {
    assert_eq!(values("3.14"), vec![TokenValue::Float("3.14".to_string()), TokenValue::EOF]);
    assert_eq!(positions("3.14"), vec![4, 4]);
    assert_eq!(values("1."), vec![TokenValue::Float("1.".to_string()), TokenValue::EOF]);
}

#[test]
fn float_text_reads_as_the_number_written() {
    let tokens = lex("2.50").unwrap();
    match tokens[0].value() {
        TokenValue::Float(text) => assert_eq!(text.parse::<f32>().unwrap(), 2.5f32),
        other => panic!("not a float: {:?}", other),
    }
}

#[test]
fn two_decimal_points_are_malformed() {
    assert_eq!(lex("1.2.3"), Err(LexError::MalformedNumber));
    assert_eq!(lex("1.."), Err(LexError::MalformedNumber));
    assert_eq!(lex("x = 1.2.3;"), Err(LexError::MalformedNumber));
}

#[test]
fn leading_point_is_punctuation() {
    assert_eq!(values(".5"), vec![TokenValue::Character('.'), TokenValue::Integer(5), TokenValue::EOF]);
}

#[test]
fn keywords_true_and_false_are_booleans() {
    assert_eq!(values("true"), vec![TokenValue::Boolean(true), TokenValue::EOF]);
    assert_eq!(values("false"), vec![TokenValue::Boolean(false), TokenValue::EOF]);
}

#[test]
fn identifier_scan_is_greedy() {
    assert_eq!(values("truefalse"), vec![identifier("truefalse"), TokenValue::EOF]);
    assert_eq!(values("true1"), vec![identifier("true1"), TokenValue::EOF]);
    assert_eq!(values("_a9_Z"), vec![identifier("_a9_Z"), TokenValue::EOF]);
}

#[test]
fn digits_before_letters_split() {
    assert_eq!(values("9a"), vec![TokenValue::Integer(9), identifier("a"), TokenValue::EOF]);
    assert_eq!(positions("9a"), vec![1, 2, 2]);
}

#[test]
fn string_literal_gives_its_contents() {
    assert_eq!(values("\"abc\""), vec![TokenValue::String("abc".to_string()), TokenValue::EOF]);
    assert_eq!(positions("\"abc\""), vec![3, 5]);
}

#[test]
fn empty_string_literal() {
    assert_eq!(values("\"\""), vec![TokenValue::String(String::new()), TokenValue::EOF]);
    assert_eq!(positions("\"\""), vec![0, 2]);
}

#[test]
fn unclosed_string_is_unterminated() {
    assert_eq!(lex("\"abc"), Err(LexError::UnterminatedString));
    assert_eq!(lex("\""), Err(LexError::UnterminatedString));
    assert_eq!(lex("a \"b\\\""), Err(LexError::UnterminatedString));
}

#[test]
fn backslash_keeps_the_quote_and_stays() {
    assert_eq!(
        values("\"a\\\"b\""),
        vec![TokenValue::String("a\\\"b".to_string()), TokenValue::EOF]
    );
    assert_eq!(
        values("\"a\\nb\""),
        vec![TokenValue::String("a\\nb".to_string()), TokenValue::EOF]
    );
}

#[test]
fn string_keeps_its_blanks() {
    assert_eq!(
        values("\"Hello, world!\""),
        vec![TokenValue::String("Hello, world!".to_string()), TokenValue::EOF]
    );
}

#[test]
fn punctuation_is_one_token_each() {
    assert_eq!(
        values("a+b"),
        vec![identifier("a"), TokenValue::Character('+'), identifier("b"), TokenValue::EOF]
    );
    assert_eq!(positions("a+b"), vec![1, 1, 3, 3]);
    assert_eq!(
        values("++"),
        vec![TokenValue::Character('+'), TokenValue::Character('+'), TokenValue::EOF]
    );
}

#[test]
fn letters_outside_ascii_are_punctuation() {
    assert_eq!(
        values("é1"),
        vec![TokenValue::Character('é'), TokenValue::Integer(1), TokenValue::EOF]
    );
    assert_eq!(positions("é1"), vec![0, 2, 2]);
}

#[test]
fn a_small_program() {
    assert_eq!(
        values("int myInt = 3; print(myInt);"),
        vec![
            identifier("int"),
            identifier("myInt"),
            TokenValue::Character('='),
            TokenValue::Integer(3),
            TokenValue::Character(';'),
            identifier("print"),
            TokenValue::Character('('),
            identifier("myInt"),
            TokenValue::Character(')'),
            TokenValue::Character(';'),
            TokenValue::EOF,
        ]
    );
}

#[test]
fn stream_ends_with_the_only_end_of_input() {
    let tokens = lex("a (b) \"c\" 1 2.0 ;").unwrap();
    let ends = tokens.iter().filter(|token| *token.value() == TokenValue::EOF).count();
    assert_eq!(ends, 1);
    assert_eq!(*tokens.last().unwrap().value(), TokenValue::EOF);
}

#[test]
fn scanning_again_gives_end_of_input_alone() {
    let mut lexer = Lexer::new("a b".to_string());
    assert_eq!(lexer.lex().unwrap().len(), 3);
    let again = lexer.lex().unwrap();
    assert_eq!(again.len(), 1);
    assert_eq!(*again[0].value(), TokenValue::EOF);
    assert_eq!(again[0].position(), 3);
}

#[test]
fn scanning_after_a_move_skips_the_character_under_the_cursor() {
    let mut lexer = Lexer::new("ab cd".to_string());
    lexer.advance();
    let tokens = lexer.lex().unwrap();
    assert_eq!(*tokens[0].value(), identifier("b"));
    assert_eq!(*tokens[1].value(), identifier("cd"));
}

#[test]
fn token_holds_what_it_was_made_of() {
    let token = Token::new(TokenValue::Char('x'), -4);
    assert_eq!(*token.value(), TokenValue::Char('x'));
    assert_eq!(token.position(), -4);
    let copy = token.clone();
    assert_eq!(copy, token);
}

#[test]
fn errors_name_themselves() {
    assert_eq!(
        LexError::MalformedNumber.message(),
        "Cannot have more than one decimal point in a number!"
    );
    assert_eq!(LexError::IntegerOutOfRange.message(), "An integer does not fit in 32 bits!");
    assert_eq!(LexError::UnterminatedString.message(), "Unclosed string!");
}

#[test]
fn stream_is_told_from_other_tokens() {
    assert!(is_stream(&lex("a b").unwrap()));
    assert!(is_stream(&vec![Token::new(TokenValue::EOF, 0)]));
    assert!(!is_stream(&Vec::new()));
    assert!(!is_stream(&vec![Token::new(TokenValue::Integer(1), 0)]));
    assert!(!is_stream(&vec![Token::new(TokenValue::EOF, 0), Token::new(TokenValue::EOF, 0)]));
    assert!(!is_stream(&vec![
        Token::new(TokenValue::EOF, 0),
        Token::new(TokenValue::Integer(1), 0),
        Token::new(TokenValue::EOF, 0),
    ]));
}

#[test]
fn null_character_in_the_text_is_punctuation() {
    assert_eq!(
        values("a\0b"),
        vec![identifier("a"), TokenValue::Character('\0'), identifier("b"), TokenValue::EOF]
    );
    assert_eq!(values("1\0"), vec![TokenValue::Integer(1), TokenValue::Character('\0'), TokenValue::EOF]);
}

#[test]
fn cursor_stops_at_the_end_of_the_text() {
    let mut lexer = Lexer::new("ab".to_string());
    for _ in 0..5 {
        lexer.advance();
    }
    let tokens = lexer.lex().unwrap();
    assert_eq!(tokens.len(), 1);
    assert_eq!(tokens[0].position(), 2);
}

#[test]
fn number_may_end_the_text_or_meet_a_word() {
    assert_eq!(values("12abc"), vec![TokenValue::Integer(12), identifier("abc"), TokenValue::EOF]);
    assert_eq!(
        values("1.5x"),
        vec![TokenValue::Float("1.5".to_string()), identifier("x"), TokenValue::EOF]
    );
    assert_eq!(lex("1.5.x"), Err(LexError::MalformedNumber));
}
