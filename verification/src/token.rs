use vstd::prelude::*;

verus! {

/// The payload of a token.
#[derive(Debug, PartialEq, Eq)]
pub enum TokenValue {
    /// A name: a keyword, a type, a variable or a function.
    Identifier(String),
    /// One character of punctuation.
    Character(char),
    /// The contents of a string literal, without its quotes.
    String(String),
    /// A character literal.
    Char(char),
    /// A numeric literal without a decimal point.
    Integer(i32),
    /// A numeric literal with one decimal point, kept as it was written.
    Float(String),
    /// `true` or `false`.
    Boolean(bool),
    /// The end of the input.
    EOF,
}

/// What a [`TokenValue`] stands for.
pub ghost enum TokenValueView {
    Identifier(Seq<char>),
    Character(char),
    String(Seq<char>),
    Char(char),
    Integer(int),
    Float(Seq<char>),
    Boolean(bool),
    EOF,
}

impl View for TokenValue {
    type V = TokenValueView;

    open spec fn view(&self) -> TokenValueView {
        match self {
            TokenValue::Identifier(name) => TokenValueView::Identifier(name@),
            TokenValue::Character(c) => TokenValueView::Character(*c),
            TokenValue::String(contents) => TokenValueView::String(contents@),
            TokenValue::Char(c) => TokenValueView::Char(*c),
            TokenValue::Integer(n) => TokenValueView::Integer(*n as int),
            TokenValue::Float(text) => TokenValueView::Float(text@),
            TokenValue::Boolean(b) => TokenValueView::Boolean(*b),
            TokenValue::EOF => TokenValueView::EOF,
        }
    }
}

impl Clone for TokenValue {
    fn clone(&self) -> (copy: Self)
        ensures
            copy@ == self@,
    {
        match self {
            TokenValue::Identifier(name) => TokenValue::Identifier(name.clone()),
            TokenValue::Character(c) => TokenValue::Character(*c),
            TokenValue::String(contents) => TokenValue::String(contents.clone()),
            TokenValue::Char(c) => TokenValue::Char(*c),
            TokenValue::Integer(n) => TokenValue::Integer(*n),
            TokenValue::Float(text) => TokenValue::Float(text.clone()),
            TokenValue::Boolean(b) => TokenValue::Boolean(*b),
            TokenValue::EOF => TokenValue::EOF,
        }
    }
}

/// A lexical unit: a value and where in the source it was found.
#[derive(Debug, PartialEq, Eq)]
pub struct Token {
    value: TokenValue,
    position: i32,
}

/// What a [`Token`] stands for.
pub ghost struct TokenView {
    pub value: TokenValueView,
    pub position: int,
}

impl View for Token {
    type V = TokenView;

    closed spec fn view(&self) -> TokenView {
        TokenView { value: self.value@, position: self.position as int }
    }
}

impl Token {
    /// A token with the given value and position.
    pub fn new(value: TokenValue, position: i32) -> (token: Token)
        ensures
            token@ == (TokenView { value: value@, position: position as int }),
    {
        Token { value, position }
    }

    /// The token's value.
    pub fn value(&self) -> (value: &TokenValue)
        ensures
            value@ == self@.value,
    {
        &self.value
    }

    /// The token's offset in the source.
    pub fn position(&self) -> (position: i32)
        ensures
            position == self@.position,
    {
        self.position
    }
}

impl Clone for Token {
    fn clone(&self) -> (copy: Self)
        ensures
            copy@ == self@,
    {
        Token { value: self.value.clone(), position: self.position }
    }
}

/// The tokens that a sequence of [`Token`]s stands for.
pub open spec fn token_views(tokens: Seq<Token>) -> Seq<TokenView> {
    tokens.map_values(|token: Token| token@)
}

/// Whether `tokens` is a token stream: it ends with an end-of-input token and
/// holds no other.
pub open spec fn is_token_stream(tokens: Seq<TokenView>) -> bool {
    &&& tokens.len() > 0
    &&& tokens.last().value is EOF
    &&& forall|i: int| 0 <= i < tokens.len() - 1 ==> !(#[trigger] tokens[i].value is EOF)
}

/// Whether `tokens` is a token stream.
pub fn is_stream(tokens: &Vec<Token>) -> (answer: bool)
    ensures
        answer == is_token_stream(token_views(tokens@)),
{
    let ghost views = token_views(tokens@);
    let length = tokens.len();
    if length == 0 {
        return false;
    }
    let mut i: usize = 0;
    while i < length - 1
        invariant
            length == tokens@.len(),
            length > 0,
            views == token_views(tokens@),
            i <= length - 1,
            forall|k: int| 0 <= k < i ==> !(#[trigger] views[k].value is EOF),
        decreases length - i,
    {
        match tokens[i].value() {
            TokenValue::EOF => {
                assert(views[i as int].value is EOF);
                return false;
            },
            _ => {},
        }
        i = i + 1;
    }
    match tokens[length - 1].value() {
        TokenValue::EOF => true,
        _ => false,
    }
}

/// The character that writes the digit `d`.
pub open spec fn digit_char(d: int) -> char {
    ('0' as int + d) as char
}

/// The digits that write the natural number `n` in base ten, without
/// leading zeros.
pub open spec fn natural_text(n: nat) -> Seq<char>
    decreases n,
{
    if n < 10 {
        seq![digit_char(n as int)]
    } else {
        natural_text(n / 10).push(digit_char((n % 10) as int))
    }
}

/// The text that writes the integer `n` in base ten: its digits, after a
/// minus sign where it is negative.
pub open spec fn decimal_text(n: int) -> Seq<char> {
    if n < 0 {
        seq!['-'] + natural_text((-n) as nat)
    } else {
        natural_text(n as nat)
    }
}

/// The text that writes a boolean.
pub open spec fn boolean_text(b: bool) -> Seq<char> {
    if b {
        "true"@
    } else {
        "false"@
    }
}

/// The text of a token in the source, as far as its value tells: a word, a
/// number as written in base ten, a string literal between its quotes, a
/// character literal between its quotes, a character of punctuation; nothing
/// for the end of input.
pub open spec fn token_text(value: TokenValueView) -> Seq<char> {
    match value {
        TokenValueView::Identifier(name) => name,
        TokenValueView::Character(c) => seq![c],
        TokenValueView::String(contents) => seq!['"'] + contents + seq!['"'],
        TokenValueView::Char(c) => seq!['\'', c, '\''],
        TokenValueView::Integer(n) => decimal_text(n),
        TokenValueView::Float(text) => text,
        TokenValueView::Boolean(b) => boolean_text(b),
        TokenValueView::EOF => Seq::empty(),
    }
}

} // verus!
