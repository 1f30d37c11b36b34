//! The scanner: from source text to tokens, one character at a time.
//!
//! What the scan gives is said by [`lex_from`], a function of the text alone;
//! [`Lexer`] is the scanner that computes it.

use vstd::prelude::*;
use crate::classes::{
    is_blank, is_digit, is_identifier_part, is_identifier_start, is_number_part, CharClasses,
};
use crate::error::LexError;
use crate::state::State;
use crate::token::{
    is_token_stream, token_views, Token, TokenValue, TokenValueView, TokenView,
};

verus! {

/// The number that the digit `c` stands for.
pub open spec fn digit_value(c: char) -> int {
    c as int - '0' as int
}

/// The number that a sequence of digits spells in base ten.
pub open spec fn decimal_value(digits: Seq<char>) -> int
    decreases digits.len(),
{
    if digits.len() == 0 {
        0
    } else {
        10 * decimal_value(digits.drop_last()) + digit_value(digits.last())
    }
}

/// How many decimal points `text` holds.
pub open spec fn dot_count(text: Seq<char>) -> int
    decreases text.len(),
{
    if text.len() == 0 {
        0
    } else {
        dot_count(text.drop_last()) + if text.last() == '.' {
            1int
        } else {
            0int
        }
    }
}

/// Where the run of digits and decimal points that holds position `i` ends:
/// the first position from `i` on that holds neither, or the end of `s`.
pub open spec fn number_end(s: Seq<char>, i: int) -> int
    decreases s.len() - i,
{
    if 0 <= i < s.len() && is_number_part(s[i]) {
        number_end(s, i + 1)
    } else {
        i
    }
}

/// Where the run of letters, digits and underscores that holds position `i`
/// ends.
pub open spec fn identifier_end(s: Seq<char>, i: int) -> int
    decreases s.len() - i,
{
    if 0 <= i < s.len() && is_identifier_part(s[i]) {
        identifier_end(s, i + 1)
    } else {
        i
    }
}

/// Whether the double quote at position `i` closes the string literal whose
/// contents start at `start`: it does unless the character before it belongs
/// to the contents and is a backslash.
pub open spec fn closes_string(s: Seq<char>, start: int, i: int) -> bool {
    s[i] == '"' && (i == start || s[i - 1] != '\\')
}

/// The first position from `i` on that closes the string literal whose
/// contents start at `start`, or the end of `s` where none does.
pub open spec fn string_end(s: Seq<char>, start: int, i: int) -> int
    decreases s.len() - i,
{
    if 0 <= start <= i < s.len() && !closes_string(s, start, i) {
        string_end(s, start, i + 1)
    } else {
        i
    }
}

/// The token that the numeric literal starting at `i` gives: a float with its
/// text where it holds one decimal point, an integer with its value where it
/// holds none and the value fits in 32 bits, an error otherwise. Its position
/// is the one just past the literal.
pub open spec fn number_token(s: Seq<char>, i: int) -> Result<TokenView, LexError> {
    let end = number_end(s, i);
    let text = s.subrange(i, end);
    if dot_count(text) >= 2 {
        Err(LexError::MalformedNumber)
    } else if dot_count(text) == 1 {
        Ok(TokenView { value: TokenValueView::Float(text), position: end })
    } else if decimal_value(text) > i32::MAX {
        Err(LexError::IntegerOutOfRange)
    } else {
        Ok(TokenView { value: TokenValueView::Integer(decimal_value(text)), position: end })
    }
}

/// What a word stands for: a boolean where it is `true` or `false`, an
/// identifier otherwise.
pub open spec fn word_value(text: Seq<char>) -> TokenValueView {
    if text == "true"@ {
        TokenValueView::Boolean(true)
    } else if text == "false"@ {
        TokenValueView::Boolean(false)
    } else {
        TokenValueView::Identifier(text)
    }
}

/// The token that the word starting at `i` gives. Its position is the one
/// just past the word.
pub open spec fn word_token(s: Seq<char>, i: int) -> TokenView {
    let end = identifier_end(s, i);
    TokenView { value: word_value(s.subrange(i, end)), position: end }
}

/// The token that the string literal whose opening quote is at `i` gives: its
/// contents, taken as they stand, at the position just before the closing
/// quote; an error where no quote closes it.
pub open spec fn string_token(s: Seq<char>, i: int) -> Result<TokenView, LexError> {
    let close = string_end(s, i + 1, i + 1);
    if close >= s.len() {
        Err(LexError::UnterminatedString)
    } else {
        Ok(TokenView { value: TokenValueView::String(s.subrange(i + 1, close)), position: close - 1 })
    }
}

/// `first`, then the tokens of `rest`; the error of `rest` where it is one.
pub open spec fn prepend(first: Seq<TokenView>, rest: Result<Seq<TokenView>, LexError>) -> Result<
    Seq<TokenView>,
    LexError,
> {
    match rest {
        Ok(tokens) => Ok(first + tokens),
        Err(e) => Err(e),
    }
}

/// The tokens of `s` from position `i` on, or the first error that the scan
/// meets.
///
/// At each position the first rule that applies is taken: a digit starts a
/// numeric literal; a letter or an underscore starts a word; a double quote
/// starts a string literal; a blank is dropped; any other character is a
/// token by itself. Past the last character stands the end-of-input token.
pub open spec fn lex_from(s: Seq<char>, i: int) -> Result<Seq<TokenView>, LexError>
    decreases s.len() - i,
{
    if i < 0 || i >= s.len() {
        Ok(seq![TokenView { value: TokenValueView::EOF, position: s.len() as int }])
    } else if is_digit(s[i]) {
        proof {
            lemma_number_end_bounds(s, i + 1);
        }
        match number_token(s, i) {
            Ok(token) => prepend(seq![token], lex_from(s, number_end(s, i))),
            Err(e) => Err(e),
        }
    } else if is_identifier_start(s[i]) {
        proof {
            lemma_identifier_end_bounds(s, i + 1);
        }
        prepend(seq![word_token(s, i)], lex_from(s, identifier_end(s, i)))
    } else if s[i] == '"' {
        proof {
            lemma_string_end_bounds(s, i + 1, i + 1);
        }
        match string_token(s, i) {
            Ok(token) => prepend(seq![token], lex_from(s, string_end(s, i + 1, i + 1) + 1)),
            Err(e) => Err(e),
        }
    } else if is_blank(s[i]) {
        lex_from(s, i + 1)
    } else {
        prepend(
            seq![TokenView { value: TokenValueView::Character(s[i]), position: i }],
            lex_from(s, i + 1),
        )
    }
}

/// The tokens of the whole of `s`.
pub open spec fn lex_spec(s: Seq<char>) -> Result<Seq<TokenView>, LexError> {
    lex_from(s, 0)
}

/// A run that is looked for from `i` on does not end before `i`, nor past the
/// end of the text.
pub proof fn lemma_number_end_bounds(s: Seq<char>, i: int)
    ensures
        i <= number_end(s, i),
        i <= s.len() ==> number_end(s, i) <= s.len(),
    decreases s.len() - i,
{
    if 0 <= i < s.len() && is_number_part(s[i]) {
        lemma_number_end_bounds(s, i + 1);
    }
}

/// A word that is looked for from `i` on does not end before `i`, nor past
/// the end of the text.
pub proof fn lemma_identifier_end_bounds(s: Seq<char>, i: int)
    ensures
        i <= identifier_end(s, i),
        i <= s.len() ==> identifier_end(s, i) <= s.len(),
    decreases s.len() - i,
{
    if 0 <= i < s.len() && is_identifier_part(s[i]) {
        lemma_identifier_end_bounds(s, i + 1);
    }
}

/// A closing quote that is looked for from `i` on is not found before `i`, nor
/// past the end of the text.
pub proof fn lemma_string_end_bounds(s: Seq<char>, start: int, i: int)
    ensures
        i <= string_end(s, start, i),
        i <= s.len() ==> string_end(s, start, i) <= s.len(),
    decreases s.len() - i,
{
    if 0 <= start <= i < s.len() && !closes_string(s, start, i) {
        lemma_string_end_bounds(s, start, i + 1);
    }
}

/// A token that is not the end of input, put before a token stream, gives a
/// token stream.
pub proof fn lemma_stream_after_token(first: TokenView, rest: Seq<TokenView>)
    requires
        !(first.value is EOF),
        is_token_stream(rest),
    ensures
        is_token_stream(seq![first] + rest),
{
    let all = seq![first] + rest;
    assert(all.last() == rest.last());
    assert forall|k: int| 0 <= k < all.len() - 1 implies !(#[trigger] all[k].value is EOF) by {
        if k > 0 {
            assert(all[k] == rest[k - 1]);
        }
    }
}

/// The tokens of a text are a token stream: the end-of-input token stands
/// last, and nowhere else.
pub proof fn lemma_lex_is_token_stream(s: Seq<char>, i: int)
    ensures
        lex_from(s, i) matches Ok(tokens) ==> is_token_stream(tokens),
    decreases s.len() - i,
{
    if i < 0 || i >= s.len() {
    } else if is_digit(s[i]) {
        lemma_number_end_bounds(s, i + 1);
        lemma_lex_is_token_stream(s, number_end(s, i));
        if let Ok(token) = number_token(s, i) {
            if let Ok(rest) = lex_from(s, number_end(s, i)) {
                lemma_stream_after_token(token, rest);
            }
        }
    } else if is_identifier_start(s[i]) {
        lemma_identifier_end_bounds(s, i + 1);
        lemma_lex_is_token_stream(s, identifier_end(s, i));
        if let Ok(rest) = lex_from(s, identifier_end(s, i)) {
            lemma_stream_after_token(word_token(s, i), rest);
        }
    } else if s[i] == '"' {
        lemma_string_end_bounds(s, i + 1, i + 1);
        if let Ok(token) = string_token(s, i) {
            lemma_lex_is_token_stream(s, string_end(s, i + 1, i + 1) + 1);
            if let Ok(rest) = lex_from(s, string_end(s, i + 1, i + 1) + 1) {
                lemma_stream_after_token(token, rest);
            }
        }
    } else if is_blank(s[i]) {
        lemma_lex_is_token_stream(s, i + 1);
    } else {
        lemma_lex_is_token_stream(s, i + 1);
        if let Ok(rest) = lex_from(s, i + 1) {
            lemma_stream_after_token(
                TokenView { value: TokenValueView::Character(s[i]), position: i },
                rest,
            );
        }
    }
}

/// The scanner: the source text, a cursor into it and the character under
/// the cursor.
pub struct Lexer {
    input: Vec<char>,
    state: State,
    position: i32,
    current_char: char,
}

/// What a [`Lexer`] stands for.
pub ghost struct LexerView {
    /// The source text.
    pub input: Seq<char>,
    /// Whether the cursor still stands in the text.
    pub state: State,
    /// The cursor: -1 before the first move, the length of the text at the end.
    pub position: int,
    /// The character under the cursor, or the null character where there is none.
    pub current_char: char,
}

impl View for Lexer {
    type V = LexerView;

    closed spec fn view(&self) -> LexerView {
        LexerView {
            input: self.input@,
            state: self.state,
            position: self.position as int,
            current_char: self.current_char,
        }
    }
}

impl LexerView {
    /// Whether the cursor is consistent with the text: before its first move
    /// it stands at -1; while it is in the text it holds the character there;
    /// once it has left the text it stands at the length of the text and the
    /// scan has stopped. The text is short enough for its offsets to fit in
    /// 32 bits.
    pub open spec fn wf(self) -> bool {
        &&& self.input.len() <= i32::MAX
        &&& match self.state {
            State::Go => {
                ||| self.position == -1 && self.current_char == '\0'
                ||| 0 <= self.position < self.input.len() && self.current_char
                    == self.input[self.position]
            },
            State::Stop => self.position == self.input.len() && self.current_char == '\0',
        }
    }

    /// Where the cursor stands after one more move: one further, but not past
    /// the length of the text.
    pub open spec fn next_position(self) -> int {
        if self.position < self.input.len() {
            self.position + 1
        } else {
            self.position
        }
    }
}

/// The text of `s` as a vector of characters.
fn collect_chars(s: &str) -> (chars: Vec<char>)
    ensures
        chars@ == s@,
{
    let mut chars: Vec<char> = Vec::new();
    for c in it: s.chars()
        invariant
            it.seq() == s@,
            chars@ == it.seq().take(it.index() as int),
    {
        chars.push(c);
        assert(it.seq().take(it.index() + 1) =~= it.seq().take(it.index() as int).push(c));
    }
    assert(chars@ =~= s@);
    chars
}

impl Lexer {
    /// A scanner for `input`, with its cursor before the first character.
    pub fn new(input: String) -> (lexer: Lexer)
        requires
            input@.len() <= i32::MAX,
        ensures
            lexer@ == (LexerView {
                input: input@,
                state: State::Go,
                position: -1,
                current_char: '\0',
            }),
            lexer@.wf(),
    {
        Lexer {
            input: collect_chars(input.as_str()),
            state: State::Go,
            position: -1,
            current_char: '\0',
        }
    }

    /// Moves the cursor one character on. Once it has passed the last
    /// character the scan stops, and further moves leave it where it is.
    pub fn advance(&mut self)
        requires
            old(self)@.wf(),
        ensures
            final(self)@.wf(),
            final(self)@.input == old(self)@.input,
            final(self)@.position == old(self)@.next_position(),
    {
        let length = self.input.len();
        if self.position < 0 || (self.position as usize) < length {
            self.position = self.position + 1;
        }
        if self.position as usize >= length {
            self.state = State::Stop;
            self.current_char = '\0';
        } else {
            self.current_char = self.input[self.position as usize];
        }
    }

    /// Scans the numeric literal under the cursor and leaves the cursor just
    /// past it.
    fn number(&mut self, classes: &CharClasses) -> (result: Result<Token, LexError>)
        requires
            old(self)@.wf(),
            0 <= old(self)@.position < old(self)@.input.len(),
        ensures
            final(self)@.wf(),
            final(self)@.input == old(self)@.input,
            match result {
                Ok(token) => {
                    &&& number_token(old(self)@.input, old(self)@.position) == Ok::<
                        TokenView,
                        LexError,
                    >(token@)
                    &&& final(self)@.position == number_end(
                        old(self)@.input,
                        old(self)@.position,
                    )
                },
                Err(e) => number_token(old(self)@.input, old(self)@.position) == Err::<
                    TokenView,
                    LexError,
                >(e),
            },
    {
        let ghost input = self@.input;
        let ghost start = self@.position;
        let mut text = String::new();
        let mut dots: usize = 0;
        let mut value: i64 = 0;
        let mut fits = true;
        assert(input.subrange(start, start) =~= Seq::<char>::empty());
        while self.state == State::Go && classes.is_number_full(self.current_char)
            invariant
                self@.wf(),
                self@.input == input,
                0 <= start <= self@.position <= input.len(),
                number_end(input, start) == number_end(input, self@.position),
                text@ == input.subrange(start, self@.position),
                dots == dot_count(text@),
                dots <= self@.position - start,
                dots == 0 && fits ==> value == decimal_value(text@),
                dots == 0 && !fits ==> decimal_value(text@) > i32::MAX,
                0 <= value <= i32::MAX,
            decreases input.len() - self@.position,
        {
            let c = self.current_char;
            proof {
                let longer = text@.push(c);
                assert(longer.drop_last() =~= text@);
                assert(longer =~= input.subrange(start, self@.position + 1));
            }
            if c == '.' {
                dots = dots + 1;
            } else if fits {
                let digit = ((c as u32) - ('0' as u32)) as i64;
                let next = value * 10 + digit;
                if next > i32::MAX as i64 {
                    fits = false;
                } else {
                    value = next;
                }
            }
            text.push(c);
            self.advance();
        }
        if dots > 1 {
            Err(LexError::MalformedNumber)
        } else if dots == 1 {
            Ok(Token::new(TokenValue::Float(text), self.position))
        } else if !fits {
            Err(LexError::IntegerOutOfRange)
        } else {
            Ok(Token::new(TokenValue::Integer(value as i32), self.position))
        }
    }

    /// Scans the word under the cursor and leaves the cursor just past it.
    fn word(&mut self, classes: &CharClasses) -> (token: Token)
        requires
            old(self)@.wf(),
            0 <= old(self)@.position < old(self)@.input.len(),
        ensures
            final(self)@.wf(),
            final(self)@.input == old(self)@.input,
            token@ == word_token(old(self)@.input, old(self)@.position),
            final(self)@.position == identifier_end(old(self)@.input, old(self)@.position),
    {
        let ghost input = self@.input;
        let ghost start = self@.position;
        let mut name = String::new();
        assert(input.subrange(start, start) =~= Seq::<char>::empty());
        while self.state == State::Go && classes.is_identifier_full(self.current_char)
            invariant
                self@.wf(),
                self@.input == input,
                0 <= start <= self@.position <= input.len(),
                identifier_end(input, start) == identifier_end(input, self@.position),
                name@ == input.subrange(start, self@.position),
            decreases input.len() - self@.position,
        {
            proof {
                assert(name@.push(self@.current_char) =~= input.subrange(
                    start,
                    self@.position + 1,
                ));
            }
            name.push(self.current_char);
            self.advance();
        }
        if name == "true".to_owned() {
            Token::new(TokenValue::Boolean(true), self.position)
        } else if name == "false".to_owned() {
            Token::new(TokenValue::Boolean(false), self.position)
        } else {
            Token::new(TokenValue::Identifier(name), self.position)
        }
    }

    /// Scans the string literal whose opening quote is under the cursor and
    /// leaves the cursor just past its closing quote.
    fn string(&mut self) -> (result: Result<Token, LexError>)
        requires
            old(self)@.wf(),
            0 <= old(self)@.position < old(self)@.input.len(),
        ensures
            final(self)@.wf(),
            final(self)@.input == old(self)@.input,
            match result {
                Ok(token) => {
                    &&& string_token(old(self)@.input, old(self)@.position) == Ok::<
                        TokenView,
                        LexError,
                    >(token@)
                    &&& final(self)@.position == string_end(
                        old(self)@.input,
                        old(self)@.position + 1,
                        old(self)@.position + 1,
                    ) + 1
                },
                Err(e) => string_token(old(self)@.input, old(self)@.position) == Err::<
                    TokenView,
                    LexError,
                >(e),
            },
    {
        let ghost input = self@.input;
        let ghost start = self@.position + 1;
        let mut contents = String::new();
        let mut last_char = '\0';
        self.advance();
        assert(input.subrange(start, start) =~= Seq::<char>::empty());
        while self.state == State::Go
            invariant
                self@.wf(),
                self@.input == input,
                input == old(self)@.input,
                start == old(self)@.position + 1,
                1 <= start <= self@.position <= input.len(),
                string_end(input, start, start) == string_end(input, start, self@.position),
                contents@ == input.subrange(start, self@.position),
                last_char == if self@.position > start {
                    input[self@.position - 1]
                } else {
                    '\0'
                },
            decreases input.len() - self@.position,
        {
            if self.current_char == '"' && last_char != '\\' {
                let token = Token::new(TokenValue::String(contents), self.position - 1);
                self.advance();
                return Ok(token);
            }
            proof {
                assert(contents@.push(self@.current_char) =~= input.subrange(
                    start,
                    self@.position + 1,
                ));
            }
            contents.push(self.current_char);
            last_char = self.current_char;
            self.advance();
        }
        Err(LexError::UnterminatedString)
    }

    /// Scans the text from the character after the cursor to its end.
    ///
    /// Returns the tokens in the order of the text, the end-of-input token
    /// last, or the first error that the scan meets. For a scanner that has
    /// not moved yet these are the tokens of the whole text.
    pub fn lex(&mut self) -> (result: Result<Vec<Token>, LexError>)
        requires
            old(self)@.wf(),
        ensures
            final(self)@.wf(),
            final(self)@.input == old(self)@.input,
            match result {
                Ok(tokens) => {
                    &&& lex_from(old(self)@.input, old(self)@.position + 1) == Ok::<
                        Seq<TokenView>,
                        LexError,
                    >(token_views(tokens@))
                    &&& is_token_stream(token_views(tokens@))
                    &&& final(self)@.state == State::Stop
                },
                Err(e) => lex_from(old(self)@.input, old(self)@.position + 1) == Err::<
                    Seq<TokenView>,
                    LexError,
                >(e),
            },
    {
        let ghost input = self@.input;
        let ghost start = self@.position + 1;
        let mut tokens: Vec<Token> = Vec::new();
        let classes = CharClasses::new();
        self.advance();
        proof {
            lemma_prepend_nothing(lex_from(input, self@.position));
        }
        while self.state == State::Go
            invariant
                self@.wf(),
                self@.input == input,
                input == old(self)@.input,
                start == old(self)@.position + 1,
                0 <= self@.position <= input.len(),
                lex_from(input, start) == prepend(
                    token_views(tokens@),
                    lex_from(input, self@.position),
                ),
            decreases input.len() - self@.position,
        {
            let ghost before = token_views(tokens@);
            let ghost here = self@.position;
            let c = self.current_char;
            if classes.is_number(c) {
                proof {
                    lemma_number_end_bounds(input, here + 1);
                }
                match self.number(&classes) {
                    Ok(token) => {
                        tokens.push(token);
                        proof {
                            lemma_prepend_step(before, token@, lex_from(input, self@.position));
                            assert(token_views(tokens@) =~= before.push(token@));
                        }
                    },
                    Err(e) => {
                        return Err(e);
                    },
                }
            } else if classes.is_identifier(c) {
                proof {
                    lemma_identifier_end_bounds(input, here + 1);
                }
                let token = self.word(&classes);
                tokens.push(token);
                proof {
                    lemma_prepend_step(before, token@, lex_from(input, self@.position));
                    assert(token_views(tokens@) =~= before.push(token@));
                }
            } else if c == '"' {
                proof {
                    lemma_string_end_bounds(input, here + 1, here + 1);
                }
                match self.string() {
                    Ok(token) => {
                        tokens.push(token);
                        proof {
                            lemma_prepend_step(before, token@, lex_from(input, self@.position));
                            assert(token_views(tokens@) =~= before.push(token@));
                        }
                    },
                    Err(e) => {
                        return Err(e);
                    },
                }
            } else if classes.is_discard(c) {
                self.advance();
            } else {
                let token = Token::new(TokenValue::Character(c), self.position);
                self.advance();
                tokens.push(token);
                proof {
                    lemma_prepend_step(before, token@, lex_from(input, self@.position));
                    assert(token_views(tokens@) =~= before.push(token@));
                }
            }
        }
        let ghost before = token_views(tokens@);
        let token = Token::new(TokenValue::EOF, self.position);
        tokens.push(token);
        proof {
            assert(token_views(tokens@) =~= before + seq![token@]);
            lemma_lex_is_token_stream(input, start);
        }
        Ok(tokens)
    }
}

/// With no token found yet, the result is that of the rest of the scan.
proof fn lemma_prepend_nothing(rest: Result<Seq<TokenView>, LexError>)
    ensures
        prepend(Seq::empty(), rest) == rest,
{
    match rest {
        Ok(tokens) => {
            assert(Seq::<TokenView>::empty() + tokens =~= tokens);
        },
        Err(_) => {},
    }
}

/// Taking one more token into the tokens found so far leaves the whole
/// result as it was.
proof fn lemma_prepend_step(
    before: Seq<TokenView>,
    token: TokenView,
    rest: Result<Seq<TokenView>, LexError>,
)
    ensures
        prepend(before, prepend(seq![token], rest)) == prepend(before.push(token), rest),
{
    match rest {
        Ok(tokens) => {
            assert(before + (seq![token] + tokens) =~= before.push(token) + tokens);
        },
        Err(_) => {},
    }
}

} // verus!
