//! What holds of the tokens of every text.

use vstd::prelude::*;
use crate::classes::{is_blank, is_digit, is_identifier_part, is_identifier_start, is_number_part};
use crate::error::LexError;
use crate::lexer::{
    closes_string, decimal_value, digit_value, dot_count, identifier_end,
    lemma_identifier_end_bounds, lemma_number_end_bounds, lemma_string_end_bounds, lex_from,
    lex_spec, number_end, number_token, string_end, string_token, word_token, word_value,
};
use crate::token::{digit_char, natural_text, token_text, TokenValueView, TokenView};

verus! {

/// The end-of-input token of a text of `length` characters.
pub open spec fn end_token(length: nat) -> TokenView {
    TokenView { value: TokenValueView::EOF, position: length as int }
}

/// From a position after which only blanks stand, the scan finds the end of
/// input and nothing else.
pub proof fn lemma_blanks_to_the_end(s: Seq<char>, i: int)
    requires
        0 <= i <= s.len(),
        forall|k: int| i <= k < s.len() ==> is_blank(#[trigger] s[k]),
    ensures
        lex_from(s, i) == Ok::<Seq<TokenView>, LexError>(seq![end_token(s.len())]),
    decreases s.len() - i,
{
    if i < s.len() {
        assert(is_blank(s[i]));
        lemma_blanks_to_the_end(s, i + 1);
    }
}

/// A text that holds nothing but blanks gives one token, the end of input.
pub proof fn lemma_blank_text(s: Seq<char>)
    requires
        forall|k: int| 0 <= k < s.len() ==> is_blank(#[trigger] s[k]),
    ensures
        lex_spec(s) == Ok::<Seq<TokenView>, LexError>(seq![end_token(s.len())]),
{
    lemma_blanks_to_the_end(s, 0);
}

/// A run of digits and decimal points that reaches the end of the text ends
/// there.
proof fn lemma_number_to_the_end(s: Seq<char>, i: int)
    requires
        0 <= i <= s.len(),
        forall|k: int| i <= k < s.len() ==> is_number_part(#[trigger] s[k]),
    ensures
        number_end(s, i) == s.len(),
    decreases s.len() - i,
{
    if i < s.len() {
        assert(is_number_part(s[i]));
        lemma_number_to_the_end(s, i + 1);
    }
}

/// A text that starts with a digit and holds nothing but digits and decimal
/// points is one numeric literal. Without a decimal point it gives one
/// integer, whose value is the number that the digits spell, provided that
/// fits in 32 bits; with one decimal point it gives one float, with the text
/// as it stands; with more it is malformed.
pub proof fn lemma_number_text(s: Seq<char>)
    requires
        s.len() > 0,
        is_digit(s[0]),
        forall|k: int| 0 <= k < s.len() ==> is_number_part(#[trigger] s[k]),
    ensures
        dot_count(s) >= 2 ==> lex_spec(s) == Err::<Seq<TokenView>, LexError>(
            LexError::MalformedNumber,
        ),
        dot_count(s) == 1 ==> lex_spec(s) == Ok::<Seq<TokenView>, LexError>(
            seq![
                TokenView { value: TokenValueView::Float(s), position: s.len() as int },
                end_token(s.len()),
            ],
        ),
        dot_count(s) == 0 && decimal_value(s) <= i32::MAX ==> lex_spec(s) == Ok::<
            Seq<TokenView>,
            LexError,
        >(
            seq![
                TokenView {
                    value: TokenValueView::Integer(decimal_value(s)),
                    position: s.len() as int,
                },
                end_token(s.len()),
            ],
        ),
        dot_count(s) == 0 && decimal_value(s) > i32::MAX ==> lex_spec(s) == Err::<
            Seq<TokenView>,
            LexError,
        >(LexError::IntegerOutOfRange),
{
    lemma_number_to_the_end(s, 0);
    assert(s.subrange(0, s.len() as int) =~= s);
    assert(lex_from(s, s.len() as int) == Ok::<Seq<TokenView>, LexError>(
        seq![end_token(s.len())],
    ));
    if let Ok(token) = number_token(s, 0) {
        assert(seq![token] + seq![end_token(s.len())] =~= seq![token, end_token(s.len())]);
    }
}

/// A run of letters, digits and underscores that reaches the end of the text
/// ends there.
proof fn lemma_word_to_the_end(s: Seq<char>, i: int)
    requires
        0 <= i <= s.len(),
        forall|k: int| i <= k < s.len() ==> is_identifier_part(#[trigger] s[k]),
    ensures
        identifier_end(s, i) == s.len(),
    decreases s.len() - i,
{
    if i < s.len() {
        assert(is_identifier_part(s[i]));
        lemma_word_to_the_end(s, i + 1);
    }
}

/// A text that starts with a letter or an underscore and holds nothing but
/// letters, digits and underscores is one word: a boolean where the whole of
/// it is `true` or `false`, an identifier otherwise.
pub proof fn lemma_word_text(s: Seq<char>)
    requires
        s.len() > 0,
        is_identifier_start(s[0]),
        forall|k: int| 0 <= k < s.len() ==> is_identifier_part(#[trigger] s[k]),
    ensures
        lex_spec(s) == Ok::<Seq<TokenView>, LexError>(
            seq![
                TokenView { value: word_value(s), position: s.len() as int },
                end_token(s.len()),
            ],
        ),
{
    lemma_word_to_the_end(s, 0);
    assert(s.subrange(0, s.len() as int) =~= s);
    assert(lex_from(s, s.len() as int) == Ok::<Seq<TokenView>, LexError>(
        seq![end_token(s.len())],
    ));
    assert(seq![word_token(s, 0)] + seq![end_token(s.len())] =~= seq![
        word_token(s, 0),
        end_token(s.len()),
    ]);
}

/// A character that is a token by itself: no digit, no letter, no
/// underscore, no double quote and no blank.
pub open spec fn is_punctuation(c: char) -> bool {
    !is_digit(c) && !is_identifier_start(c) && c != '"' && !is_blank(c)
}

/// The tokens of a text of punctuation from position `i` on: one for each
/// character, at the character's position, then the end of input.
pub open spec fn punctuation_tokens(s: Seq<char>, i: int) -> Seq<TokenView> {
    s.skip(i).map(|k: int, c: char| punctuation_token(c, i + k)).push(end_token(s.len()))
}

/// The token of the character of punctuation `c` at `position`.
pub open spec fn punctuation_token(c: char, position: int) -> TokenView {
    TokenView { value: TokenValueView::Character(c), position }
}

/// From a position after which only punctuation stands, each character is a
/// token of its own.
pub proof fn lemma_punctuation_to_the_end(s: Seq<char>, i: int)
    requires
        0 <= i <= s.len(),
        forall|k: int| i <= k < s.len() ==> is_punctuation(#[trigger] s[k]),
    ensures
        lex_from(s, i) == Ok::<Seq<TokenView>, LexError>(punctuation_tokens(s, i)),
    decreases s.len() - i,
{
    if i < s.len() {
        assert(is_punctuation(s[i]));
        lemma_punctuation_to_the_end(s, i + 1);
        let first = TokenView { value: TokenValueView::Character(s[i]), position: i };
        let here = punctuation_tokens(s, i);
        let after = punctuation_tokens(s, i + 1);
        assert(here.len() == after.len() + 1);
        let count = s.len() - i;
        assert forall|k: int| 0 <= k < here.len() implies here[k] == (seq![first] + after)[k] by {
            if k == 0 {
                assert(s.skip(i)[0] == s[i]);
                assert(here[0] == punctuation_token(s[i], i));
            } else if k < count {
                assert(s.skip(i)[k] == s[i + k]);
                assert(s.skip(i + 1)[k - 1] == s[i + k]);
                assert(here[k] == punctuation_token(s[i + k], i + k));
                assert(after[k - 1] == punctuation_token(s[i + k], i + 1 + (k - 1)));
            } else {
                assert(here[k] == end_token(s.len()));
                assert(after[k - 1] == end_token(s.len()));
            }
        }
        assert(seq![first] + after =~= here);
    } else {
        assert(punctuation_tokens(s, i) =~= seq![end_token(s.len())]);
    }
}

/// In a text that holds nothing but punctuation, each character is a token
/// of its own.
pub proof fn lemma_punctuation_text(s: Seq<char>)
    requires
        forall|k: int| 0 <= k < s.len() ==> is_punctuation(#[trigger] s[k]),
    ensures
        lex_spec(s) == Ok::<Seq<TokenView>, LexError>(punctuation_tokens(s, 0)),
{
    lemma_punctuation_to_the_end(s, 0);
}

/// Where no double quote stands between `i` and `end`, no string literal is
/// closed before `end`.
proof fn lemma_no_quote(s: Seq<char>, start: int, i: int, end: int)
    requires
        0 <= start <= i <= end <= s.len(),
        forall|k: int| i <= k < end ==> #[trigger] s[k] != '"',
    ensures
        string_end(s, start, i) == string_end(s, start, end),
    decreases end - i,
{
    if i < end {
        assert(s[i] != '"');
        lemma_no_quote(s, start, i + 1, end);
    }
}

/// A text between two double quotes that holds no other double quote, and
/// no backslash just before the second, is one string literal: its contents
/// are what stands between the quotes.
pub proof fn lemma_string_text(s: Seq<char>)
    requires
        s.len() >= 2,
        s[0] == '"',
        s.last() == '"',
        forall|k: int| 1 <= k < s.len() - 1 ==> #[trigger] s[k] != '"',
        s.len() == 2 || s[s.len() - 2] != '\\',
    ensures
        lex_spec(s) == Ok::<Seq<TokenView>, LexError>(
            seq![
                TokenView {
                    value: TokenValueView::String(s.subrange(1, s.len() - 1)),
                    position: s.len() - 2,
                },
                end_token(s.len()),
            ],
        ),
{
    let close = s.len() - 1;
    lemma_no_quote(s, 1, 1, close);
    assert(closes_string(s, 1, close));
    assert(string_end(s, 1, close) == close);
    assert(lex_from(s, s.len() as int) == Ok::<Seq<TokenView>, LexError>(
        seq![end_token(s.len())],
    ));
    let token = string_token(s, 0).unwrap();
    assert(seq![token] + seq![end_token(s.len())] =~= seq![token, end_token(s.len())]);
}

/// A text that starts with a double quote and holds no other is a string
/// literal that nothing closes.
pub proof fn lemma_open_string_text(s: Seq<char>)
    requires
        s.len() >= 1,
        s[0] == '"',
        forall|k: int| 1 <= k < s.len() ==> #[trigger] s[k] != '"',
    ensures
        lex_spec(s) == Err::<Seq<TokenView>, LexError>(LexError::UnterminatedString),
{
    lemma_no_quote(s, 1, 1, s.len() as int);
}

/// Whether `text` holds nothing but blanks.
pub open spec fn all_blank(text: Seq<char>) -> bool {
    forall|k: int| 0 <= k < text.len() ==> is_blank(#[trigger] text[k])
}

/// Whether `text` is the texts of `tokens`, one after the other in their
/// order, with nothing but blanks before, between and after them.
pub open spec fn spells(text: Seq<char>, tokens: Seq<TokenView>) -> bool
    decreases tokens.len(),
{
    if tokens.len() == 0 {
        all_blank(text)
    } else {
        let word = token_text(tokens[0].value);
        exists|gap: int|
            {
                &&& 0 <= gap
                &&& gap + word.len() <= text.len()
                &&& all_blank(#[trigger] text.take(gap))
                &&& text.subrange(gap, gap + word.len()) == word
                &&& spells(text.skip(gap + word.len()), tokens.skip(1))
            }
    }
}

/// Where the run of digits that ends just before position `end` starts.
pub open spec fn digits_start(s: Seq<char>, end: int) -> int
    decreases end,
{
    if 0 < end <= s.len() && is_digit(s[end - 1]) {
        digits_start(s, end - 1)
    } else {
        end
    }
}

/// Whether `digits` holds a zero that the number it spells does not need:
/// it is longer than one digit and starts with a zero.
pub open spec fn is_padded(digits: Seq<char>) -> bool {
    digits.len() >= 2 && digits[0] == '0'
}

/// Whether each integer among `tokens` was written in `s` without a zero
/// that it does not need. A token's position is the one just past its
/// literal.
pub open spec fn integers_unpadded(s: Seq<char>, tokens: Seq<TokenView>) -> bool {
    forall|k: int|
        0 <= k < tokens.len() && #[trigger] tokens[k].value is Integer ==> !is_padded(
            s.subrange(digits_start(s, tokens[k].position), tokens[k].position),
        )
}

/// Digits written without a needless zero are the text of the number that
/// they spell.
pub proof fn lemma_unpadded_digits(digits: Seq<char>)
    requires
        digits.len() > 0,
        forall|k: int| 0 <= k < digits.len() ==> is_digit(#[trigger] digits[k]),
        !is_padded(digits),
    ensures
        decimal_value(digits) >= 0,
        digits[0] != '0' ==> decimal_value(digits) > 0,
        natural_text(decimal_value(digits) as nat) == digits,
    decreases digits.len(),
{
    let last = digits.last();
    let front = digits.drop_last();
    assert(is_digit(last));
    assert(digit_char(digit_value(last)) == last);
    if digits.len() == 1 {
        assert(decimal_value(front) == 0);
        assert(natural_text(decimal_value(digits) as nat) =~= digits);
    } else {
        assert(front[0] == digits[0]);
        assert forall|k: int| 0 <= k < front.len() implies is_digit(#[trigger] front[k]) by {
            assert(front[k] == digits[k]);
        }
        lemma_unpadded_digits(front);
        let value = decimal_value(digits);
        assert(value == 10 * decimal_value(front) + digit_value(last));
        assert(value / 10 == decimal_value(front));
        assert(value % 10 == digit_value(last));
        assert(natural_text(value as nat) =~= front.push(last));
        assert(front.push(last) =~= digits);
    }
}

/// Every character of a numeric literal is a digit or a decimal point.
proof fn lemma_number_run(s: Seq<char>, i: int)
    requires
        0 <= i <= s.len(),
    ensures
        forall|k: int| i <= k < number_end(s, i) ==> is_number_part(#[trigger] s[k]),
    decreases s.len() - i,
{
    if i < s.len() && is_number_part(s[i]) {
        lemma_number_run(s, i + 1);
    }
}

/// A run of digits and decimal points without a decimal point is a run of
/// digits.
proof fn lemma_no_dots(text: Seq<char>)
    requires
        forall|k: int| 0 <= k < text.len() ==> is_number_part(#[trigger] text[k]),
    ensures
        dot_count(text) >= 0,
        dot_count(text) == 0 ==> forall|k: int| 0 <= k < text.len() ==> is_digit(#[trigger] text[k]),
    decreases text.len(),
{
    if text.len() > 0 {
        let front = text.drop_last();
        assert forall|k: int| 0 <= k < front.len() implies is_number_part(#[trigger] front[k]) by {
            assert(front[k] == text[k]);
        }
        lemma_no_dots(front);
        if dot_count(text) == 0 {
            assert forall|k: int| 0 <= k < text.len() implies is_digit(#[trigger] text[k]) by {
                if k < front.len() {
                    assert(front[k] == text[k]);
                }
            }
        }
    }
}

/// A run of digits that no digit comes before starts where it starts.
proof fn lemma_digits_start(s: Seq<char>, start: int, end: int)
    requires
        0 <= start <= end <= s.len(),
        start == 0 || !is_digit(s[start - 1]),
        forall|k: int| start <= k < end ==> is_digit(#[trigger] s[k]),
    ensures
        digits_start(s, end) == start,
    decreases end - start,
{
    if start < end {
        assert(is_digit(s[end - 1]));
        lemma_digits_start(s, start, end - 1);
    }
}

/// Where a string literal is closed, a quote stands.
proof fn lemma_string_closed(s: Seq<char>, start: int, i: int)
    requires
        0 <= start <= i <= s.len(),
        string_end(s, start, i) < s.len(),
    ensures
        s[string_end(s, start, i)] == '"',
    decreases s.len() - i,
{
    if i < s.len() && !closes_string(s, start, i) {
        lemma_string_closed(s, start, i + 1);
    }
}

/// One more blank in front leaves a text the texts of the same tokens.
proof fn lemma_spells_after_blank(text: Seq<char>, tokens: Seq<TokenView>)
    requires
        text.len() > 0,
        is_blank(text[0]),
        spells(text.skip(1), tokens),
    ensures
        spells(text, tokens),
{
    let rest = text.skip(1);
    if tokens.len() == 0 {
        assert forall|k: int| 0 <= k < text.len() implies is_blank(#[trigger] text[k]) by {
            if k > 0 {
                assert(rest[k - 1] == text[k]);
            }
        }
    } else {
        let word = token_text(tokens[0].value);
        let gap = choose|gap: int|
            {
                &&& 0 <= gap
                &&& gap + word.len() <= rest.len()
                &&& all_blank(#[trigger] rest.take(gap))
                &&& rest.subrange(gap, gap + word.len()) == word
                &&& spells(rest.skip(gap + word.len()), tokens.skip(1))
            };
        let wider = gap + 1;
        assert forall|k: int| 0 <= k < text.take(wider).len() implies is_blank(
            #[trigger] text.take(wider)[k],
        ) by {
            if k > 0 {
                assert(rest.take(gap)[k - 1] == text.take(wider)[k]);
            }
        }
        assert(text.subrange(wider, wider + word.len()) =~= rest.subrange(gap, gap + word.len()));
        assert(text.skip(wider + word.len()) =~= rest.skip(gap + word.len()));
        assert(all_blank(text.take(wider)));
    }
}

/// A text that starts with the text of a token, and goes on as the texts of
/// more tokens, is the texts of all of them.
proof fn lemma_spells_after_token(text: Seq<char>, first: TokenView, rest: Seq<TokenView>)
    requires
        token_text(first.value).len() <= text.len(),
        text.take(token_text(first.value).len() as int) == token_text(first.value),
        spells(text.skip(token_text(first.value).len() as int), rest),
    ensures
        spells(text, seq![first] + rest),
{
    let tokens = seq![first] + rest;
    let word = token_text(first.value);
    assert(tokens[0] == first);
    assert(tokens.skip(1) =~= rest);
    assert(text.take(0) =~= Seq::<char>::empty());
    assert(all_blank(text.take(0)));
    assert(text.subrange(0, 0 + word.len() as int) =~= text.take(word.len() as int));
}

/// Where no integer among some tokens was written with a needless zero,
/// none among all but the first was.
proof fn lemma_unpadded_rest(s: Seq<char>, first: TokenView, rest: Seq<TokenView>)
    requires
        integers_unpadded(s, seq![first] + rest),
    ensures
        integers_unpadded(s, rest),
{
    let tokens = seq![first] + rest;
    assert forall|k: int| 0 <= k < rest.len() && #[trigger] rest[k].value is Integer implies
        !is_padded(s.subrange(digits_start(s, rest[k].position), rest[k].position)) by {
        assert(tokens[k + 1] == rest[k]);
    }
}

/// From a position where no literal is cut in two, the text that is left is
/// the texts of its tokens.
pub proof fn lemma_spells_from(s: Seq<char>, i: int)
    requires
        0 <= i <= s.len(),
        i == 0 || i == s.len() || !is_digit(s[i - 1]) || !is_digit(s[i]),
        lex_from(s, i) is Ok,
        integers_unpadded(s, lex_from(s, i).unwrap()),
    ensures
        spells(s.skip(i), lex_from(s, i).unwrap()),
    decreases s.len() - i,
{
    let text = s.skip(i);
    let tokens = lex_from(s, i).unwrap();
    if i >= s.len() {
        assert(tokens.skip(1) =~= Seq::<TokenView>::empty());
        assert(text.take(0) =~= Seq::<char>::empty());
        assert(text.subrange(0, 0) =~= Seq::<char>::empty());
        assert(all_blank(text.take(0)));
        assert(all_blank(text.skip(0)));
        assert(spells(text.skip(0), tokens.skip(1)));
    } else if is_digit(s[i]) {
        lemma_number_end_bounds(s, i + 1);
        lemma_number_run(s, i);
        lemma_number_stops(s, i);
        let end = number_end(s, i);
        let token = number_token(s, i).unwrap();
        let rest = lex_from(s, end).unwrap();
        let literal = s.subrange(i, end);
        assert(tokens == seq![token] + rest);
        lemma_unpadded_rest(s, token, rest);
        lemma_spells_from(s, end);
        assert(token_text(token.value) == literal) by {
            assert forall|k: int| 0 <= k < literal.len() implies is_number_part(
                #[trigger] literal[k],
            ) by {
                assert(literal[k] == s[i + k]);
            }
            lemma_no_dots(literal);
            if dot_count(literal) == 0 {
                assert forall|k: int| i <= k < end implies is_digit(#[trigger] s[k]) by {
                    assert(literal[k - i] == s[k]);
                }
                lemma_digits_start(s, i, end);
                assert(tokens[0] == token);
                lemma_unpadded_digits(literal);
            }
        }
        assert(text.take(end - i) =~= literal);
        assert(text.skip(end - i) =~= s.skip(end));
        lemma_spells_after_token(text, token, rest);
    } else if is_identifier_start(s[i]) {
        lemma_identifier_end_bounds(s, i + 1);
        let end = identifier_end(s, i);
        let token = word_token(s, i);
        let rest = lex_from(s, end).unwrap();
        let literal = s.subrange(i, end);
        assert(tokens == seq![token] + rest);
        lemma_unpadded_rest(s, token, rest);
        assert(end == s.len() || !is_identifier_part(s[end])) by {
            lemma_identifier_stops(s, i);
        }
        lemma_spells_from(s, end);
        assert(token_text(token.value) == literal);
        assert(text.take(end - i) =~= literal);
        assert(text.skip(end - i) =~= s.skip(end));
        lemma_spells_after_token(text, token, rest);
    } else if s[i] == '"' {
        lemma_string_end_bounds(s, i + 1, i + 1);
        let close = string_end(s, i + 1, i + 1);
        let token = string_token(s, i).unwrap();
        let rest = lex_from(s, close + 1).unwrap();
        let literal = s.subrange(i, close + 1);
        assert(tokens == seq![token] + rest);
        lemma_unpadded_rest(s, token, rest);
        lemma_string_closed(s, i + 1, i + 1);
        lemma_spells_from(s, close + 1);
        assert(token_text(token.value) =~= literal);
        assert(text.take(close + 1 - i) =~= literal);
        assert(text.skip(close + 1 - i) =~= s.skip(close + 1));
        lemma_spells_after_token(text, token, rest);
    } else if is_blank(s[i]) {
        lemma_spells_from(s, i + 1);
        assert(text.skip(1) =~= s.skip(i + 1));
        lemma_spells_after_blank(text, tokens);
    } else {
        let token = TokenView { value: TokenValueView::Character(s[i]), position: i };
        let rest = lex_from(s, i + 1).unwrap();
        assert(tokens == seq![token] + rest);
        lemma_unpadded_rest(s, token, rest);
        lemma_spells_from(s, i + 1);
        assert(text.take(1) =~= seq![s[i]]);
        assert(text.skip(1) =~= s.skip(i + 1));
        lemma_spells_after_token(text, token, rest);
    }
}

/// A word ends at the end of the text or before a character that is no part
/// of a word.
proof fn lemma_identifier_stops(s: Seq<char>, i: int)
    requires
        0 <= i <= s.len(),
    ensures
        identifier_end(s, i) == s.len() || !is_identifier_part(s[identifier_end(s, i)]),
    decreases s.len() - i,
{
    if i < s.len() && is_identifier_part(s[i]) {
        lemma_identifier_stops(s, i + 1);
    }
}

/// A numeric literal ends at the end of the text or before a character that
/// is neither a digit nor a decimal point.
proof fn lemma_number_stops(s: Seq<char>, i: int)
    requires
        0 <= i <= s.len(),
    ensures
        number_end(s, i) == s.len() || !is_number_part(s[number_end(s, i)]),
    decreases s.len() - i,
{
    if i < s.len() && is_number_part(s[i]) {
        lemma_number_stops(s, i + 1);
    }
}

/// The texts of the tokens of a text, put one after the other, are the text
/// again but for the blanks that were dropped between them, as long as no
/// integer was written with a zero that it does not need.
pub proof fn lemma_round_trip(s: Seq<char>)
    requires
        lex_spec(s) is Ok,
        integers_unpadded(s, lex_spec(s).unwrap()),
    ensures
        spells(s, lex_spec(s).unwrap()),
{
    lemma_spells_from(s, 0);
    assert(s.skip(0) =~= s);
}

} // verus!
