use langfront::error::LexError;
use langfront::helper_functions::token_source;
use langfront::lexer::Lexer;
use langfront::parser::Parser;
use langfront::token::{Token, TokenValue};

fn lex(source: &str) -> Result<Vec<Token>, LexError> {
    Lexer::new(source.to_string()).lex()
}

fn rebuilt(source: &str) -> String {
    lex(source).unwrap().iter().map(token_source).collect()
}

#[test]
fn texts_of_the_tokens_rebuild_the_source() {
    assert_eq!(rebuilt("int add(int a, int b){ }"), "intadd(inta,intb){}");
    assert_eq!(rebuilt("  x =\t3.50 ;\r\n"), "x=3.50;");
    assert_eq!(rebuilt("s = \"a  b\\\" c\" ; true"), "s=\"a  b\\\" c\";true");
    assert_eq!(rebuilt("0 10 2147483647"), "0102147483647");
    assert_eq!(rebuilt(""), "");
}

#[test]
fn needless_zeros_do_not_come_back() {
    assert_eq!(rebuilt("007"), "7");
    assert_eq!(rebuilt("00"), "0");
    assert_eq!(rebuilt("00.50"), "00.50");
}

#[test]
fn each_token_has_its_source_text() {
    let text = |value: TokenValue| token_source(&Token::new(value, 0));
    assert_eq!(text(TokenValue::Identifier("abc".to_string())), "abc");
    assert_eq!(text(TokenValue::Character('+')), "+");
    assert_eq!(text(TokenValue::String("a b".to_string())), "\"a b\"");
    assert_eq!(text(TokenValue::Char('c')), "'c'");
    assert_eq!(text(TokenValue::Integer(-12)), "-12");
    assert_eq!(text(TokenValue::Float("1.5".to_string())), "1.5");
    assert_eq!(text(TokenValue::Boolean(true)), "true");
    assert_eq!(text(TokenValue::Boolean(false)), "false");
    assert_eq!(text(TokenValue::EOF), "");
}

#[test]
fn a_word_alone_is_one_token() {
    for word in ["a", "_", "x1", "True", "falsey", "snake_case_9"] {
        let tokens = lex(word).unwrap();
        assert_eq!(tokens.len(), 2);
        assert_eq!(*tokens[0].value(), TokenValue::Identifier(word.to_string()));
        assert_eq!(tokens[0].position(), word.len() as i32);
    }
}

#[test]
fn punctuation_alone_is_one_token_for_each_character() {
    let source = ";(){}=+-*/<>[]!,";
    let tokens = lex(source).unwrap();
    assert_eq!(tokens.len(), source.len() + 1);
    for (index, c) in source.chars().enumerate() {
        assert_eq!(*tokens[index].value(), TokenValue::Character(c));
        assert_eq!(tokens[index].position(), index as i32);
    }
    assert_eq!(*tokens[source.len()].value(), TokenValue::EOF);
    assert_eq!(tokens[source.len()].position(), source.len() as i32);
}

#[test]
fn tokens_of_a_scan_can_be_parsed() {
    let tokens = lex("int main() { print(x); }").unwrap();
    let tree = Parser::new(tokens).parse().unwrap();
    assert_eq!(tree.len(), 1);
}
