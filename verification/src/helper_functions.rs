use vstd::prelude::*;
use vstd::string::StringExecFns;
use crate::token::{
    boolean_text, decimal_text, digit_char, natural_text, token_text, Token, TokenValue,
    TokenValueView, TokenView,
};

verus! {

/// The line that describes a token: its kind in capitals and, but for the end
/// of input, its payload.
pub open spec fn token_line_text(token: TokenView) -> Seq<char> {
    match token.value {
        TokenValueView::Identifier(name) => "Token: IDENTIFIER: "@ + name,
        TokenValueView::Character(c) => "Token: CHARACTER: "@.push(c),
        TokenValueView::String(contents) => "Token: STRING: "@ + contents,
        TokenValueView::Char(c) => "Token: CHAR: "@.push(c),
        TokenValueView::Integer(n) => "Token: INTEGER: "@ + decimal_text(n),
        TokenValueView::Float(text) => "Token: FLOAT: "@ + text,
        TokenValueView::Boolean(b) => "Token: BOOLEAN: "@ + boolean_text(b),
        TokenValueView::EOF => "Token: EOF"@,
    }
}

/// The character that writes the digit `d`.
fn digit(d: u32) -> (c: char)
    requires
        d < 10,
    ensures
        c == digit_char(d as int),
{
    if d == 0 {
        '0'
    } else if d == 1 {
        '1'
    } else if d == 2 {
        '2'
    } else if d == 3 {
        '3'
    } else if d == 4 {
        '4'
    } else if d == 5 {
        '5'
    } else if d == 6 {
        '6'
    } else if d == 7 {
        '7'
    } else if d == 8 {
        '8'
    } else {
        '9'
    }
}

/// Appends the digits of `n` to `text`.
fn push_natural(text: &mut String, n: u32)
    ensures
        final(text)@ == old(text)@ + natural_text(n as nat),
    decreases n,
{
    if n >= 10 {
        push_natural(text, n / 10);
    }
    text.push(digit(n % 10));
    assert(final(text)@ =~= old(text)@ + natural_text(n as nat));
}

/// The text that writes `n` in base ten.
pub fn integer_text(n: i32) -> (text: String)
    ensures
        text@ == decimal_text(n as int),
{
    let mut text = String::new();
    if n < 0 {
        text.push('-');
        let magnitude: u32 = if n == i32::MIN {
            2147483648u32
        } else {
            (-n) as u32
        };
        push_natural(&mut text, magnitude);
    } else {
        push_natural(&mut text, n as u32);
        assert(text@ =~= decimal_text(n as int));
    }
    text
}

/// The text of `token` in a source: what a scan would read the token from.
pub fn token_source(token: &Token) -> (text: String)
    ensures
        text@ == token_text(token@.value),
{
    match token.value() {
        TokenValue::Identifier(name) => name.clone(),
        TokenValue::Character(c) => {
            let mut text = String::new();
            text.push(*c);
            assert(text@ =~= seq![*c]);
            text
        },
        TokenValue::String(contents) => {
            let mut text = String::new();
            text.push('"');
            text.append(contents.as_str());
            text.push('"');
            assert(text@ =~= seq!['"'] + contents@ + seq!['"']);
            text
        },
        TokenValue::Char(c) => {
            let mut text = String::new();
            text.push('\'');
            text.push(*c);
            text.push('\'');
            assert(text@ =~= seq!['\'', *c, '\'']);
            text
        },
        TokenValue::Integer(n) => integer_text(*n),
        TokenValue::Float(text) => text.clone(),
        TokenValue::Boolean(b) => {
            if *b {
                String::from_str("true")
            } else {
                String::from_str("false")
            }
        },
        TokenValue::EOF => String::new(),
    }
}

/// The line that describes `token`.
pub fn token_line(token: &Token) -> (line: String)
    ensures
        line@ == token_line_text(token@),
{
    match token.value() {
        TokenValue::Identifier(name) => {
            let mut line = String::from_str("Token: IDENTIFIER: ");
            line.append(name.as_str());
            line
        },
        TokenValue::Character(c) => {
            let mut line = String::from_str("Token: CHARACTER: ");
            line.push(*c);
            line
        },
        TokenValue::String(contents) => {
            let mut line = String::from_str("Token: STRING: ");
            line.append(contents.as_str());
            line
        },
        TokenValue::Char(c) => {
            let mut line = String::from_str("Token: CHAR: ");
            line.push(*c);
            line
        },
        TokenValue::Integer(n) => {
            let mut line = String::from_str("Token: INTEGER: ");
            let digits = integer_text(*n);
            line.append(digits.as_str());
            line
        },
        TokenValue::Float(text) => {
            let mut line = String::from_str("Token: FLOAT: ");
            line.append(text.as_str());
            line
        },
        TokenValue::Boolean(b) => {
            let mut line = String::from_str("Token: BOOLEAN: ");
            if *b {
                line.append("true");
            } else {
                line.append("false");
            }
            line
        },
        TokenValue::EOF => String::from_str("Token: EOF"),
    }
}

/// The lines that describe `tokens`, one for each, in their order.
pub fn token_lines(tokens: &Vec<Token>) -> (lines: Vec<String>)
    ensures
        lines@.len() == tokens@.len(),
        forall|i: int| 0 <= i < tokens@.len() ==> (#[trigger] lines@[i])@ == token_line_text(tokens@[i]@),
{
    let mut lines: Vec<String> = Vec::new();
    let mut i: usize = 0;
    while i < tokens.len()
        invariant
            i <= tokens@.len(),
            lines@.len() == i,
            forall|k: int| 0 <= k < i ==> (#[trigger] lines@[k])@ == token_line_text(tokens@[k]@),
        decreases tokens@.len() - i,
    {
        lines.push(token_line(&tokens[i]));
        i = i + 1;
    }
    lines
}

} // verus!
