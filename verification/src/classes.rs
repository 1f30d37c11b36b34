//! The classes of characters that the scanner tells apart, and the regular
//! expressions that test them.

use vstd::prelude::*;
use regex::Regex;

verus! {

/// An ASCII decimal digit.
pub open spec fn is_digit(c: char) -> bool {
    '0' <= c <= '9'
}

/// A character that may continue a numeric literal: a digit or a decimal point.
pub open spec fn is_number_part(c: char) -> bool {
    is_digit(c) || c == '.'
}

/// A character that may start an identifier: an ASCII letter or an underscore.
pub open spec fn is_identifier_start(c: char) -> bool {
    'a' <= c <= 'z' || 'A' <= c <= 'Z' || c == '_'
}

/// A character that may continue an identifier: a digit, an ASCII letter or an
/// underscore.
pub open spec fn is_identifier_part(c: char) -> bool {
    is_digit(c) || is_identifier_start(c)
}

/// A character that separates tokens and is dropped: a space, a tab, a
/// carriage return or a newline.
pub open spec fn is_blank(c: char) -> bool {
    c == ' ' || c == '\t' || c == '\r' || c == '\n'
}

/// An ASCII letter or digit.
pub open spec fn is_alphanumeric(c: char) -> bool {
    '0' <= c <= '9' || 'a' <= c <= 'z' || 'A' <= c <= 'Z'
}

/// A character that stands for itself between the brackets of a character
/// class: a letter, a digit, an underscore, a full stop or a blank.
pub open spec fn is_class_literal(c: char) -> bool {
    is_alphanumeric(c) || c == '_' || c == '.' || is_blank(c)
}

/// Whether `items`, the text between the brackets of a character class, is a
/// list of `x-y` ranges between letters or digits, with `x` not above `y`, and
/// of literal characters.
pub open spec fn class_items_plain(items: Seq<char>) -> bool
    decreases items.len(),
{
    if items.len() == 0 {
        true
    } else if items.len() >= 3 && items[1] == '-' {
        &&& is_alphanumeric(items[0])
        &&& is_alphanumeric(items[2])
        &&& items[0] <= items[2]
        &&& class_items_plain(items.skip(3))
    } else {
        is_class_literal(items[0]) && class_items_plain(items.skip(1))
    }
}

/// Whether `c` lies in one of the ranges, or is one of the literal
/// characters, that `items` lists.
pub open spec fn class_items_hold(items: Seq<char>, c: char) -> bool
    decreases items.len(),
{
    if items.len() == 0 {
        false
    } else if items.len() >= 3 && items[1] == '-' {
        items[0] <= c <= items[2] || class_items_hold(items.skip(3), c)
    } else {
        items[0] == c || class_items_hold(items.skip(1), c)
    }
}

/// The text between the brackets of `pattern`.
pub open spec fn class_items(pattern: Seq<char>) -> Seq<char> {
    pattern.subrange(1, pattern.len() - 1)
}

/// Whether `pattern` is one bracketed character class, `[` items `]`, whose
/// items are plain ranges and literal characters.
pub open spec fn is_plain_class(pattern: Seq<char>) -> bool {
    &&& pattern.len() >= 3
    &&& pattern[0] == '['
    &&& pattern.last() == ']'
    &&& class_items_plain(class_items(pattern))
}

/// `regex::Regex`, a compiled expression. Nothing inside it is seen here.
#[verifier::external_type_specification]
#[verifier::external_body]
pub struct ExRegex(Regex);

/// `regex::Error`, why a pattern did not compile. Nothing inside it is seen
/// here.
#[verifier::external_type_specification]
#[verifier::external_body]
pub struct ExRegexError(regex::Error);

/// What a compiled expression holds: the texts, each taken as a whole
/// haystack, in which it finds a match somewhere. These are the haystacks for
/// which `regex::Regex::is_match` answers yes.
pub uninterp spec fn regex_matches(re: Regex) -> Set<Seq<char>>;

/// `regex::Regex::new` compiles a pattern with the default flags. Assumed of
/// it: a plain bracketed class compiles, and the compiled expression finds a
/// match in a haystack of one character exactly when that character lies in
/// one of the ranges, or is one of the literal characters, between the
/// brackets. Nothing is assumed of any other pattern.
pub assume_specification[ Regex::new ](re: &str) -> (compiled: Result<Regex, regex::Error>)
    ensures
        is_plain_class(re@) ==> compiled is Ok,
        compiled matches Ok(expression) ==> is_plain_class(re@) ==> forall|c: char|
            #[trigger] regex_matches(expression).contains(seq![c]) == class_items_hold(
                class_items(re@),
                c,
            ),
;

/// `regex::Regex::is_match` says whether the expression matches anywhere in
/// the haystack. Assumed of it: the answer depends on the expression and the
/// haystack alone.
pub assume_specification[ Regex::is_match ](re: &Regex, haystack: &str) -> (found: bool)
    ensures
        found == regex_matches(*re).contains(haystack@),
;

/// `String::push` of std appends one character to the end of the string.
pub assume_specification[ std::string::String::push ](s: &mut std::string::String, ch: char)
    ensures
        final(s)@ == old(s)@.push(ch),
;

/// The five character classes that drive the scanner, compiled.
pub struct CharClasses {
    number: Regex,
    number_full: Regex,
    identifier: Regex,
    identifier_full: Regex,
    discard: Regex,
}

/// Compiles a plain character class.
fn compile(pattern: &str) -> (expression: Regex)
    requires
        is_plain_class(pattern@),
    ensures
        forall|c: char| #[trigger]
            regex_matches(expression).contains(seq![c]) == class_items_hold(
                class_items(pattern@),
                c,
            ),
{
    match Regex::new(pattern) {
        Ok(expression) => expression,
        Err(_) => unreached(),
    }
}

/// Whether `expression` matches the text that holds `c` alone.
fn accepts(expression: &Regex, c: char) -> (found: bool)
    ensures
        found == regex_matches(*expression).contains(seq![c]),
{
    let mut text = String::new();
    text.push(c);
    assert(text@ =~= seq![c]);
    expression.is_match(text.as_str())
}

impl CharClasses {
    /// Whether each of the five expressions finds a match in a text of one
    /// character exactly when the character belongs to its class: digits;
    /// digits and the decimal point; letters and the underscore; letters,
    /// digits and the underscore; blanks. This holds of every value of the
    /// type.
    #[verifier::type_invariant]
    pub closed spec fn wf(&self) -> bool {
        &&& forall|c: char| #[trigger]
            regex_matches(self.number).contains(seq![c]) == is_digit(c)
        &&& forall|c: char| #[trigger]
            regex_matches(self.number_full).contains(seq![c]) == is_number_part(c)
        &&& forall|c: char| #[trigger]
            regex_matches(self.identifier).contains(seq![c]) == is_identifier_start(c)
        &&& forall|c: char| #[trigger]
            regex_matches(self.identifier_full).contains(seq![c]) == is_identifier_part(c)
        &&& forall|c: char| #[trigger]
            regex_matches(self.discard).contains(seq![c]) == is_blank(c)
    }

    /// Compiles the five classes, each from its pattern: `[0-9]`, `[0-9.]`,
    /// `[a-zA-Z_]`, `[0-9a-zA-Z_]` and the class of the four blanks.
    pub fn new() -> (classes: CharClasses)
        ensures
            classes.wf(),
    {
        proof {
            lemma_number_classes();
            lemma_identifier_classes();
            lemma_discard_class();
        }
        CharClasses {
            number: compile("[0-9]"),
            number_full: compile("[0-9.]"),
            identifier: compile("[a-zA-Z_]"),
            identifier_full: compile("[0-9a-zA-Z_]"),
            discard: compile("[ \r\n\t]"),
        }
    }

    /// Whether `c` starts a numeric literal.
    pub fn is_number(&self, c: char) -> (found: bool)
        ensures
            found == is_digit(c),
    {
        proof {
            use_type_invariant(self);
        }
        accepts(&self.number, c)
    }

    /// Whether `c` continues a numeric literal.
    pub fn is_number_full(&self, c: char) -> (found: bool)
        ensures
            found == is_number_part(c),
    {
        proof {
            use_type_invariant(self);
        }
        accepts(&self.number_full, c)
    }

    /// Whether `c` starts an identifier.
    pub fn is_identifier(&self, c: char) -> (found: bool)
        ensures
            found == is_identifier_start(c),
    {
        proof {
            use_type_invariant(self);
        }
        accepts(&self.identifier, c)
    }

    /// Whether `c` continues an identifier.
    pub fn is_identifier_full(&self, c: char) -> (found: bool)
        ensures
            found == is_identifier_part(c),
    {
        proof {
            use_type_invariant(self);
        }
        accepts(&self.identifier_full, c)
    }

    /// Whether `c` is dropped between tokens.
    pub fn is_discard(&self, c: char) -> (found: bool)
        ensures
            found == is_blank(c),
    {
        proof {
            use_type_invariant(self);
        }
        accepts(&self.discard, c)
    }
}

proof fn lemma_number_classes()
    ensures
        is_plain_class("[0-9]"@),
        forall|c: char| class_items_hold(class_items("[0-9]"@), c) == is_digit(c),
        is_plain_class("[0-9.]"@),
        forall|c: char| class_items_hold(class_items("[0-9.]"@), c) == is_number_part(c),
{
    reveal_strlit("[0-9]");
    reveal_strlit("[0-9.]");
    reveal_with_fuel(class_items_plain, 4);
    reveal_with_fuel(class_items_hold, 4);
    let a = class_items("[0-9]"@);
    assert(a =~= seq!['0', '-', '9']);
    assert(a.skip(3) =~= Seq::<char>::empty());
    let b = class_items("[0-9.]"@);
    assert(b =~= seq!['0', '-', '9', '.']);
    assert(b.skip(3) =~= seq!['.']);
    assert(b.skip(3).skip(1) =~= Seq::<char>::empty());
}

proof fn lemma_identifier_classes()
    ensures
        is_plain_class("[a-zA-Z_]"@),
        forall|c: char|
            class_items_hold(class_items("[a-zA-Z_]"@), c) == is_identifier_start(c),
        is_plain_class("[0-9a-zA-Z_]"@),
        forall|c: char|
            class_items_hold(class_items("[0-9a-zA-Z_]"@), c) == is_identifier_part(c),
{
    reveal_strlit("[a-zA-Z_]");
    reveal_strlit("[0-9a-zA-Z_]");
    reveal_with_fuel(class_items_plain, 6);
    reveal_with_fuel(class_items_hold, 6);
    let underscore = seq!['_'];
    assert(underscore.skip(1) =~= Seq::<char>::empty());
    let upper = seq!['A', '-', 'Z', '_'];
    assert(upper.skip(3) =~= underscore);
    let letters = seq!['a', '-', 'z', 'A', '-', 'Z', '_'];
    assert(letters.skip(3) =~= upper);
    let all = seq!['0', '-', '9', 'a', '-', 'z', 'A', '-', 'Z', '_'];
    assert(all.skip(3) =~= letters);
    assert(class_items("[a-zA-Z_]"@) =~= letters);
    assert(class_items("[0-9a-zA-Z_]"@) =~= all);
}

proof fn lemma_discard_class()
    ensures
        is_plain_class("[ \r\n\t]"@),
        forall|c: char| class_items_hold(class_items("[ \r\n\t]"@), c) == is_blank(c),
{
    reveal_strlit("[ \r\n\t]");
    reveal_with_fuel(class_items_plain, 6);
    reveal_with_fuel(class_items_hold, 6);
    let d = seq!['\t'];
    assert(d.skip(1) =~= Seq::<char>::empty());
    let c = seq!['\n', '\t'];
    assert(c.skip(1) =~= d);
    let b = seq!['\r', '\n', '\t'];
    assert(b.skip(1) =~= c);
    let a = seq![' ', '\r', '\n', '\t'];
    assert(a.skip(1) =~= b);
    assert(class_items("[ \r\n\t]"@) =~= a);
}

} // verus!
