//! The parser: from a token stream to a syntax tree, by recursive descent.
//!
//! A stream is a sequence of statements. The first tokens of a statement show
//! its shape:
//!
//! ```text
//! type name ( items ) { statements }     the declaration of a function
//! if ( items ) { statements }            a conditional; the guard is not empty
//! name ( items ) ;                       a call
//! type name = value ;                    the declaration of a variable
//! name = value ;                         an assignment
//! name | type name | literal             an item of a list, before `,` or the end
//! ```
//!
//! The tokens between a pair of brackets are parsed as a stream of their own,
//! so a group is taken in whole or not at all. The first error in the order of
//! the tokens is the result.

use vstd::prelude::*;
use crate::error::ParseError;
use crate::nodes::{
    node_views, AssignNode, AssignView, Condition, ConditionalNode, ConditionalView, FuncNode,
    FuncView, InvocationNode, InvocationView, Node, NodeView, ParamsNode, ParamsView, VarNode,
    VarView,
};
use crate::helper_functions::token_source;
use crate::token::{
    is_token_stream, token_text, token_views, Token, TokenValue, TokenValueView, TokenView,
};

verus! {

/// The value of the token at position `i`; past either end of `t`, the end
/// of input.
pub open spec fn value_at(t: Seq<TokenView>, i: int) -> TokenValueView {
    if 0 <= i < t.len() {
        t[i].value
    } else {
        TokenValueView::EOF
    }
}

/// The bracket that closes a group that `open` opens.
pub open spec fn closing_bracket(open: char) -> Option<char> {
    if open == '(' {
        Some(')')
    } else if open == '{' {
        Some('}')
    } else if open == '[' {
        Some(']')
    } else if open == '<' {
        Some('>')
    } else {
        None
    }
}

/// Where the group ends that is `depth` brackets deep at position `i`: the
/// position of the first `close` from `i` on that no `open` from `i` on
/// answers, once `depth` more have been passed; or, where the tokens end
/// before it, the position of their end.
pub open spec fn group_end(t: Seq<TokenView>, i: int, open: char, close: char, depth: nat) -> int
    decreases t.len() - i,
{
    if i < 0 || value_at(t, i) is EOF {
        i
    } else if value_at(t, i) == TokenValueView::Character(close) {
        if depth == 0 {
            i
        } else {
            group_end(t, i + 1, open, close, (depth - 1) as nat)
        }
    } else if value_at(t, i) == TokenValueView::Character(open) {
        group_end(t, i + 1, open, close, depth + 1)
    } else {
        group_end(t, i + 1, open, close, depth)
    }
}

/// Where the statement that holds position `i` ends: the position of the
/// first semicolon from `i` on, or of the end of the tokens.
pub open spec fn statement_end(t: Seq<TokenView>, i: int) -> int
    decreases t.len() - i,
{
    if i < 0 || value_at(t, i) is EOF || value_at(t, i) == TokenValueView::Character(';') {
        i
    } else {
        statement_end(t, i + 1)
    }
}

/// The position after `end`, but not past the end of `t`.
pub open spec fn step_past(t: Seq<TokenView>, end: int) -> int {
    if end < t.len() {
        end + 1
    } else {
        t.len() as int
    }
}

/// The position after the group that the bracket `open` at position `at`
/// opens.
pub open spec fn group_after(t: Seq<TokenView>, at: int, open: char) -> int {
    step_past(t, group_end(t, at + 1, open, closing_bracket(open).unwrap(), 0))
}

/// The tokens from `from` up to `end`, as a token stream of their own: the
/// end-of-input token that closes it stands where the token at `end` stood.
pub open spec fn group_tokens(t: Seq<TokenView>, from: int, end: int) -> Seq<TokenView> {
    t.subrange(from, end).push(TokenView { value: TokenValueView::EOF, position: t[end].position })
}

/// The shape of a statement, as its first tokens show it.
pub ghost enum Shape {
    /// `type name (`: the declaration of a function.
    Function { return_type: Seq<char>, name: Seq<char> },
    /// `type name =`: the declaration of a variable.
    Declaration { name: Seq<char> },
    /// `name =`: an assignment to a variable.
    Assignment { name: Seq<char> },
    /// `if (`: a conditional.
    Conditional,
    /// `name (`: a call.
    Invocation { name: Seq<char> },
    /// `name` or `type name`, before a comma or the end of the tokens: a
    /// variable in a list. `words` is 1 or 2.
    Variable { name: Seq<char>, words: int },
    /// A number, a string, a character or a boolean, before a comma or the
    /// end of the tokens: a value in a list.
    Literal,
    /// Anything else.
    Unknown,
}

/// The shape of the statement that starts with the word `name` at position
/// `at`, which is the `words`-th word of the statement.
pub open spec fn shape_after_name(t: Seq<TokenView>, at: int, name: Seq<char>, words: int) -> Shape {
    match value_at(t, at + 1) {
        TokenValueView::Character(c) => {
            if c == '=' {
                if words == 1 {
                    Shape::Assignment { name }
                } else {
                    Shape::Declaration { name }
                }
            } else if c == ',' {
                Shape::Variable { name, words }
            } else {
                Shape::Unknown
            }
        },
        TokenValueView::EOF => Shape::Variable { name, words },
        _ => Shape::Unknown,
    }
}

/// Whether a token of this value is a list item by itself, or ends a list:
/// a comma or the end of the tokens.
pub open spec fn ends_item(value: TokenValueView) -> bool {
    value is EOF || value == TokenValueView::Character(',')
}

/// Whether a token of this value writes a value out: a number, a string, a
/// character or a boolean.
pub open spec fn is_literal(value: TokenValueView) -> bool {
    value is Integer || value is Float || value is String || value is Char || value is Boolean
}

/// The shape of the statement that starts at position `i`.
pub open spec fn shape_at(t: Seq<TokenView>, i: int) -> Shape {
    match value_at(t, i) {
        TokenValueView::Identifier(first) => match value_at(t, i + 1) {
            TokenValueView::Identifier(second) => {
                if value_at(t, i + 2) == TokenValueView::Character('(') {
                    Shape::Function { return_type: first, name: second }
                } else {
                    shape_after_name(t, i + 1, second, 2)
                }
            },
            TokenValueView::Character(c) => {
                if c == '(' {
                    if first == "if"@ {
                        Shape::Conditional
                    } else {
                        Shape::Invocation { name: first }
                    }
                } else {
                    shape_after_name(t, i, first, 1)
                }
            },
            _ => shape_after_name(t, i, first, 1),
        },
        value => {
            if is_literal(value) && ends_item(value_at(t, i + 1)) {
                Shape::Literal
            } else {
                Shape::Unknown
            }
        },
    }
}

/// Where the statement after the one at position `i` starts.
pub open spec fn statement_next(t: Seq<TokenView>, i: int) -> int {
    match shape_at(t, i) {
        Shape::Function { .. } => group_after(t, group_after(t, i + 2, '('), '{'),
        Shape::Conditional => group_after(t, group_after(t, i + 1, '('), '{'),
        Shape::Invocation { .. } => step_past(t, group_after(t, i + 1, '(')),
        Shape::Declaration { .. } => step_past(t, statement_end(t, i + 3)),
        Shape::Assignment { .. } => step_past(t, statement_end(t, i + 2)),
        Shape::Variable { words, .. } => {
            if value_at(t, i + words) == TokenValueView::Character(',') {
                i + words + 1
            } else {
                i + words
            }
        },
        Shape::Literal => {
            if value_at(t, i + 1) == TokenValueView::Character(',') {
                i + 2
            } else {
                i + 1
            }
        },
        Shape::Unknown => step_past(t, i),
    }
}

/// The assignment whose `=` stands at position `equals`: one token, which is
/// no punctuation, then a semicolon.
pub open spec fn assignment_node(
    t: Seq<TokenView>,
    equals: int,
    name: Seq<char>,
    first_time: bool,
) -> Result<NodeView, ParseError> {
    let from = equals + 1;
    let end = statement_end(t, from);
    if value_at(t, end) is EOF || end != from + 1 || value_at(t, from) is Character {
        Err(ParseError::UnexpectedToken)
    } else {
        Ok(
            NodeView::Assign(
                AssignView {
                    var_name: VarView { var_name: name, value: None },
                    value: t[from],
                    first_time,
                },
            ),
        )
    }
}

/// The nodes of the group that the bracket `open` at position `at` opens:
/// the tokens up to the bracket that closes it, parsed as a stream of their
/// own.
pub open spec fn parse_group(t: Seq<TokenView>, at: int, open: char) -> Result<
    Seq<NodeView>,
    ParseError,
>
    decreases t.len(), 0int, 0int,
{
    if value_at(t, at) != TokenValueView::Character(open) {
        Err(ParseError::UnexpectedToken)
    } else {
        match closing_bracket(open) {
            None => Err(ParseError::UnrecognizedBracket),
            Some(close) => {
                let end = group_end(t, at + 1, open, close, 0);
                if value_at(t, end) is EOF {
                    Err(ParseError::UnterminatedBracketGroup)
                } else {
                    proof {
                        lemma_group_end_bounds(t, at + 1, open, close, 0);
                    }
                    parse_from(group_tokens(t, at + 1, end), 0)
                }
            },
        }
    }
}

/// The node of the statement that starts at position `i`.
pub open spec fn statement_node(t: Seq<TokenView>, i: int) -> Result<NodeView, ParseError>
    decreases t.len(), 1int, 0int,
{
    match shape_at(t, i) {
        Shape::Function { return_type, name } => match parse_group(t, i + 2, '(') {
            Err(e) => Err(e),
            Ok(parameters) => match parse_group(t, group_after(t, i + 2, '('), '{') {
                Err(e) => Err(e),
                Ok(body) => Ok(
                    NodeView::Function(
                        FuncView { name, return_type, parameters: ParamsView { parameters }, body },
                    ),
                ),
            },
        },
        Shape::Conditional => match parse_group(t, i + 1, '(') {
            Err(e) => Err(e),
            Ok(condition) => {
                if condition.len() == 0 {
                    Err(ParseError::UnexpectedToken)
                } else {
                    match parse_group(t, group_after(t, i + 1, '('), '{') {
                        Err(e) => Err(e),
                        Ok(body) => Ok(NodeView::Conditional(ConditionalView { condition, body })),
                    }
                }
            },
        },
        Shape::Invocation { name } => match parse_group(t, i + 1, '(') {
            Err(e) => Err(e),
            Ok(parameters) => {
                if value_at(t, group_after(t, i + 1, '(')) == TokenValueView::Character(';') {
                    Ok(NodeView::Invocation(InvocationView { method_name: name, parameters }))
                } else {
                    Err(ParseError::UnexpectedToken)
                }
            },
        },
        Shape::Declaration { name } => assignment_node(t, i + 2, name, true),
        Shape::Assignment { name } => assignment_node(t, i + 1, name, false),
        Shape::Variable { name, .. } => Ok(NodeView::Var(VarView { var_name: name, value: None })),
        Shape::Literal => Ok(
            NodeView::Var(VarView { var_name: token_text(t[i].value), value: Some(t[i]) }),
        ),
        Shape::Unknown => Err(ParseError::UnexpectedToken),
    }
}

/// The nodes of the statements of `t` from position `i` to the end of the
/// tokens, or the first error that the statements hold.
pub open spec fn parse_from(t: Seq<TokenView>, i: int) -> Result<Seq<NodeView>, ParseError>
    decreases t.len(), 2int, t.len() - i,
{
    if i < 0 || value_at(t, i) is EOF {
        Ok(Seq::empty())
    } else {
        match statement_node(t, i) {
            Err(e) => Err(e),
            Ok(node) => {
                proof {
                    lemma_statement_next_bounds(t, i);
                }
                prepend_nodes(seq![node], parse_from(t, statement_next(t, i)))
            },
        }
    }
}

/// The syntax tree of the token stream `t`.
pub open spec fn parse_spec(t: Seq<TokenView>) -> Result<Seq<NodeView>, ParseError> {
    parse_from(t, 0)
}

/// `first`, then the nodes of `rest`; the error of `rest` where it is one.
pub open spec fn prepend_nodes(first: Seq<NodeView>, rest: Result<Seq<NodeView>, ParseError>) -> Result<
    Seq<NodeView>,
    ParseError,
> {
    match rest {
        Ok(nodes) => Ok(first + nodes),
        Err(e) => Err(e),
    }
}

/// A group that is looked for from `i` on does not end before `i`, nor past
/// the end of the tokens.
pub proof fn lemma_group_end_bounds(t: Seq<TokenView>, i: int, open: char, close: char, depth: nat)
    ensures
        i <= group_end(t, i, open, close, depth),
        0 <= i <= t.len() ==> group_end(t, i, open, close, depth) <= t.len(),
    decreases t.len() - i,
{
    if i < 0 || value_at(t, i) is EOF {
    } else if value_at(t, i) == TokenValueView::Character(close) {
        if depth != 0 {
            lemma_group_end_bounds(t, i + 1, open, close, (depth - 1) as nat);
        }
    } else if value_at(t, i) == TokenValueView::Character(open) {
        lemma_group_end_bounds(t, i + 1, open, close, depth + 1);
    } else {
        lemma_group_end_bounds(t, i + 1, open, close, depth);
    }
}

/// A statement that is looked at from `i` on does not end before `i`, nor past
/// the end of the tokens.
pub proof fn lemma_statement_end_bounds(t: Seq<TokenView>, i: int)
    ensures
        i <= statement_end(t, i),
        0 <= i <= t.len() ==> statement_end(t, i) <= t.len(),
    decreases t.len() - i,
{
    if i < 0 || value_at(t, i) is EOF || value_at(t, i) == TokenValueView::Character(';') {
    } else {
        lemma_statement_end_bounds(t, i + 1);
    }
}

/// The statement after the one at `i` starts after `i`, and not past the end
/// of the tokens.
pub proof fn lemma_statement_next_bounds(t: Seq<TokenView>, i: int)
    requires
        0 <= i < t.len(),
    ensures
        i < statement_next(t, i) <= t.len(),
{
    lemma_group_end_bounds(t, i + 2, '(', ')', 0);
    lemma_group_end_bounds(t, i + 3, '(', ')', 0);
    lemma_group_end_bounds(t, group_after(t, i + 1, '(') + 1, '{', '}', 0);
    lemma_group_end_bounds(t, group_after(t, i + 2, '(') + 1, '{', '}', 0);
    lemma_statement_end_bounds(t, i + 2);
    lemma_statement_end_bounds(t, i + 3);
}

/// The parser: a token stream and a cursor into it.
#[derive(Debug)]
pub struct Parser {
    tokens: Vec<Token>,
    token_id: usize,
}

/// What a [`Parser`] stands for.
pub ghost struct ParserView {
    /// The token stream.
    pub tokens: Seq<TokenView>,
    /// The cursor: the position of the current token.
    pub position: int,
}

impl View for Parser {
    type V = ParserView;

    closed spec fn view(&self) -> ParserView {
        ParserView { tokens: token_views(self.tokens@), position: self.token_id as int }
    }
}

impl ParserView {
    /// Whether the tokens are a token stream and the cursor stands on one of
    /// them.
    pub open spec fn wf(self) -> bool {
        is_token_stream(self.tokens) && 0 <= self.position < self.tokens.len()
    }

    /// Where the cursor stands after one more move: one further, but not past
    /// the last token.
    pub open spec fn next_position(self) -> int {
        if self.position + 1 < self.tokens.len() {
            self.position + 1
        } else {
            self.position
        }
    }
}

/// What the parser sees of the current token when it decides how to go on.
enum Mark {
    End,
    Punctuation(char),
    Word,
}

/// The bracket that closes a group that `open_char` opens.
fn closing(open_char: char) -> (close_char: Option<char>)
    ensures
        close_char == closing_bracket(open_char),
{
    if open_char == '(' {
        Some(')')
    } else if open_char == '{' {
        Some('}')
    } else if open_char == '[' {
        Some(']')
    } else if open_char == '<' {
        Some('>')
    } else {
        None
    }
}

impl Parser {
    /// A parser for `tokens`, with its cursor on the first of them.
    pub fn new(tokens: Vec<Token>) -> (parser: Parser)
        requires
            is_token_stream(token_views(tokens@)),
        ensures
            parser@ == (ParserView { tokens: token_views(tokens@), position: 0 }),
            parser@.wf(),
    {
        Parser { tokens, token_id: 0 }
    }

    /// The token under the cursor.
    pub fn current_token(&self) -> (token: &Token)
        requires
            self@.wf(),
        ensures
            token@ == self@.tokens[self@.position],
    {
        &self.tokens[self.token_id]
    }

    /// Moves the cursor one token on; on the last token it stays.
    pub fn advance(&mut self)
        requires
            old(self)@.wf(),
        ensures
            final(self)@.wf(),
            final(self)@.tokens == old(self)@.tokens,
            final(self)@.position == old(self)@.next_position(),
    {
        if self.token_id < self.tokens.len() - 1 {
            self.token_id = self.token_id + 1;
        }
    }

    /// What the token under the cursor is.
    fn mark(&self) -> (mark: Mark)
        requires
            self@.wf(),
        ensures
            match mark {
                Mark::End => value_at(self@.tokens, self@.position) is EOF,
                Mark::Punctuation(c) => value_at(self@.tokens, self@.position)
                    == TokenValueView::Character(c),
                Mark::Word => !(value_at(self@.tokens, self@.position) is EOF) && !(value_at(
                    self@.tokens,
                    self@.position,
                ) is Character),
            },
    {
        match self.current_token().value() {
            TokenValue::EOF => Mark::End,
            TokenValue::Character(c) => Mark::Punctuation(*c),
            _ => Mark::Word,
        }
    }

    /// The name under the cursor, where the token there is an identifier.
    fn word(&self) -> (name: Option<String>)
        requires
            self@.wf(),
        ensures
            match name {
                Some(name) => value_at(self@.tokens, self@.position) == TokenValueView::Identifier(
                    name@,
                ),
                None => !(value_at(self@.tokens, self@.position) is Identifier),
            },
    {
        match self.current_token().value() {
            TokenValue::Identifier(name) => Some(name.clone()),
            _ => None,
        }
    }

    /// The token under the cursor, where it writes a value out.
    fn literal(&self) -> (token: Option<Token>)
        requires
            self@.wf(),
        ensures
            match token {
                Some(token) => is_literal(value_at(self@.tokens, self@.position)) && token@
                    == self@.tokens[self@.position],
                None => !is_literal(value_at(self@.tokens, self@.position)),
            },
    {
        match self.current_token().value() {
            TokenValue::Integer(_) => Some(self.current_token().clone()),
            TokenValue::Float(_) => Some(self.current_token().clone()),
            TokenValue::String(_) => Some(self.current_token().clone()),
            TokenValue::Char(_) => Some(self.current_token().clone()),
            TokenValue::Boolean(_) => Some(self.current_token().clone()),
            _ => None,
        }
    }

    /// Parses the value under the cursor, which is an item of a list, and
    /// leaves the cursor on the next item.
    fn value_item(&mut self, token: Token) -> (result: Result<Node, ParseError>)
        requires
            old(self)@.wf(),
            is_literal(value_at(old(self)@.tokens, old(self)@.position)),
            token@ == old(self)@.tokens[old(self)@.position],
        ensures
            final(self)@.wf(),
            final(self)@.tokens == old(self)@.tokens,
            match result {
                Ok(node) => {
                    &&& statement_node(old(self)@.tokens, old(self)@.position) == Ok::<
                        NodeView,
                        ParseError,
                    >(node@)
                    &&& final(self)@.position == statement_next(
                        old(self)@.tokens,
                        old(self)@.position,
                    )
                },
                Err(e) => statement_node(old(self)@.tokens, old(self)@.position) == Err::<
                    NodeView,
                    ParseError,
                >(e),
            },
    {
        self.advance();
        match self.mark() {
            Mark::Punctuation(c) => {
                if c != ',' {
                    return Err(ParseError::UnexpectedToken);
                }
                self.advance();
            },
            Mark::End => {},
            Mark::Word => {
                return Err(ParseError::UnexpectedToken);
            },
        }
        let name = token_source(&token);
        Ok(Node::Var(VarNode::with_value(name, token)))
    }

    /// Collects the tokens from the cursor up to the bracket that closes the
    /// group that `open_char` opened, and leaves the cursor after that
    /// bracket. Brackets of the same kind inside the group are passed over in
    /// pairs.
    pub fn get_parameters(&mut self, open_char: char) -> (result: Result<Vec<Token>, ParseError>)
        requires
            old(self)@.wf(),
        ensures
            final(self)@.wf(),
            final(self)@.tokens == old(self)@.tokens,
            match closing_bracket(open_char) {
                None => result matches Err(ParseError::UnrecognizedBracket) && final(self)@ == old(
                    self,
                )@,
                Some(close_char) => {
                    let end = group_end(
                        old(self)@.tokens,
                        old(self)@.position,
                        open_char,
                        close_char,
                        0,
                    );
                    if value_at(old(self)@.tokens, end) is EOF {
                        &&& result matches Err(ParseError::UnterminatedBracketGroup)
                        &&& final(self)@.position == end
                    } else {
                        &&& result matches Ok(parameters)
                        &&& token_views(parameters@) == old(self)@.tokens.subrange(
                            old(self)@.position,
                            end,
                        )
                        &&& final(self)@.position == end + 1
                    }
                },
            },
    {
        let close_char = match closing(open_char) {
            Some(close_char) => close_char,
            None => {
                return Err(ParseError::UnrecognizedBracket);
            },
        };
        let ghost t = self@.tokens;
        let ghost start = self@.position;
        let mut parameters: Vec<Token> = Vec::new();
        let mut depth: usize = 0;
        assert(token_views(parameters@) =~= t.subrange(start, start));
        assert(t.len() == self.tokens.len());
        loop
            invariant
                self@.wf(),
                self@.tokens == t,
                t == old(self)@.tokens,
                start == old(self)@.position,
                closing_bracket(open_char) == Some(close_char),
                start <= self@.position < t.len(),
                depth <= self@.position - start,
                t.len() <= usize::MAX,
                group_end(t, start, open_char, close_char, 0) == group_end(
                    t,
                    self@.position,
                    open_char,
                    close_char,
                    depth as nat,
                ),
                token_views(parameters@) == t.subrange(start, self@.position),
            decreases t.len() - self@.position,
        {
            match self.mark() {
                Mark::End => {
                    return Err(ParseError::UnterminatedBracketGroup);
                },
                Mark::Punctuation(c) => {
                    if c == close_char {
                        if depth == 0 {
                            self.advance();
                            return Ok(parameters);
                        }
                        depth = depth - 1;
                    } else if c == open_char {
                        depth = depth + 1;
                    }
                },
                Mark::Word => {},
            }
            let token = self.current_token().clone();
            proof {
                assert(token_views(parameters@.push(token)) =~= token_views(parameters@).push(
                    token@,
                ));
                assert(t.subrange(start, self@.position).push(t[self@.position]) =~= t.subrange(
                    start,
                    self@.position + 1,
                ));
            }
            parameters.push(token);
            self.advance();
        }
    }

    /// Collects the tokens from the one after the cursor up to the next
    /// semicolon, and leaves the cursor after the semicolon.
    pub fn get_until_eos(&mut self) -> (result: Result<Vec<Token>, ParseError>)
        requires
            old(self)@.wf(),
        ensures
            final(self)@.wf(),
            final(self)@.tokens == old(self)@.tokens,
            ({
                let end = statement_end(old(self)@.tokens, old(self)@.next_position());
                if value_at(old(self)@.tokens, end) is EOF {
                    &&& result matches Err(ParseError::UnexpectedToken)
                    &&& final(self)@.position == end
                } else {
                    &&& result matches Ok(tokens)
                    &&& token_views(tokens@) == old(self)@.tokens.subrange(
                        old(self)@.next_position(),
                        end,
                    )
                    &&& final(self)@.position == end + 1
                }
            }),
    {
        let ghost t = self@.tokens;
        let ghost start = self@.next_position();
        let mut tokens: Vec<Token> = Vec::new();
        self.advance();
        assert(token_views(tokens@) =~= t.subrange(start, start));
        loop
            invariant
                self@.wf(),
                self@.tokens == t,
                t == old(self)@.tokens,
                start == old(self)@.next_position(),
                0 <= start <= self@.position < t.len(),
                statement_end(t, start) == statement_end(t, self@.position),
                token_views(tokens@) == t.subrange(start, self@.position),
            decreases t.len() - self@.position,
        {
            match self.mark() {
                Mark::End => {
                    return Err(ParseError::UnexpectedToken);
                },
                Mark::Punctuation(c) => {
                    if c == ';' {
                        self.advance();
                        return Ok(tokens);
                    }
                },
                Mark::Word => {},
            }
            let token = self.current_token().clone();
            proof {
                assert(token_views(tokens@.push(token)) =~= token_views(tokens@).push(token@));
                assert(t.subrange(start, self@.position).push(t[self@.position]) =~= t.subrange(
                    start,
                    self@.position + 1,
                ));
            }
            tokens.push(token);
            self.advance();
        }
    }

    /// Parses the group that the bracket `open_char` under the cursor opens,
    /// and leaves the cursor after the bracket that closes it.
    fn group(&mut self, open_char: char) -> (result: Result<Vec<Node>, ParseError>)
        requires
            old(self)@.wf(),
        ensures
            final(self)@.wf(),
            final(self)@.tokens == old(self)@.tokens,
            match result {
                Ok(nodes) => {
                    &&& parse_group(old(self)@.tokens, old(self)@.position, open_char) == Ok::<
                        Seq<NodeView>,
                        ParseError,
                    >(node_views(nodes@))
                    &&& final(self)@.position == group_after(
                        old(self)@.tokens,
                        old(self)@.position,
                        open_char,
                    )
                },
                Err(e) => parse_group(old(self)@.tokens, old(self)@.position, open_char) == Err::<
                    Seq<NodeView>,
                    ParseError,
                >(e),
            },
        decreases old(self)@.tokens.len(), 0int,
    {
        let ghost t = self@.tokens;
        let ghost at = self@.position;
        match self.mark() {
            Mark::Punctuation(c) => {
                if c != open_char {
                    return Err(ParseError::UnexpectedToken);
                }
            },
            _ => {
                return Err(ParseError::UnexpectedToken);
            },
        }
        self.advance();
        let mut inner = match self.get_parameters(open_char) {
            Ok(inner) => inner,
            Err(e) => {
                return Err(e);
            },
        };
        let ghost end = group_end(t, at + 1, open_char, closing_bracket(open_char).unwrap(), 0);
        proof {
            lemma_group_end_bounds(t, at + 1, open_char, closing_bracket(open_char).unwrap(), 0);
        }
        let closing_position = self.tokens[self.token_id - 1].position();
        let last = Token::new(TokenValue::EOF, closing_position);
        proof {
            assert(token_views(inner@.push(last)) =~= group_tokens(t, at + 1, end));
        }
        inner.push(last);
        let mut parser = Parser::new(inner);
        parser.walk()
    }

    /// Parses the assignment whose `=` is under the cursor, and leaves the
    /// cursor after its semicolon.
    fn assignment(&mut self, name: String, first_time: bool) -> (result: Result<Node, ParseError>)
        requires
            old(self)@.wf(),
            !(value_at(old(self)@.tokens, old(self)@.position) is EOF),
        ensures
            final(self)@.wf(),
            final(self)@.tokens == old(self)@.tokens,
            match result {
                Ok(node) => {
                    &&& assignment_node(old(self)@.tokens, old(self)@.position, name@, first_time)
                        == Ok::<NodeView, ParseError>(node@)
                    &&& final(self)@.position == step_past(
                        old(self)@.tokens,
                        statement_end(old(self)@.tokens, old(self)@.position + 1),
                    )
                },
                Err(e) => assignment_node(old(self)@.tokens, old(self)@.position, name@, first_time)
                    == Err::<NodeView, ParseError>(e),
            },
    {
        let ghost t = self@.tokens;
        let ghost from = self@.position + 1;
        assert(self@.next_position() == from);
        proof {
            lemma_statement_end_bounds(t, from);
        }
        let mut value = match self.get_until_eos() {
            Ok(value) => value,
            Err(e) => {
                return Err(e);
            },
        };
        let ghost end = statement_end(t, from);
        assert(value@.len() == end - from) by {
            assert(token_views(value@).len() == value@.len());
            assert(t.subrange(from, end).len() == end - from);
        }
        if value.len() != 1 {
            return Err(ParseError::UnexpectedToken);
        }
        let ghost collected = value@;
        let token = match value.pop() {
            Some(token) => token,
            None => {
                return Err(ParseError::UnexpectedToken);
            },
        };
        assert(token@ == t[from]) by {
            assert(token_views(collected)[0] == collected[0]@);
            assert(t.subrange(from, from + 1)[0] == t[from]);
        }
        match token.value() {
            TokenValue::Character(_) => {
                return Err(ParseError::UnexpectedToken);
            },
            _ => {},
        }
        Ok(Node::Assign(AssignNode::new(VarNode::new(name), token, first_time)))
    }

    /// Parses the statement under the cursor and leaves the cursor on the
    /// first token after it.
    fn statement(&mut self) -> (result: Result<Node, ParseError>)
        requires
            old(self)@.wf(),
            !(value_at(old(self)@.tokens, old(self)@.position) is EOF),
        ensures
            final(self)@.wf(),
            final(self)@.tokens == old(self)@.tokens,
            match result {
                Ok(node) => {
                    &&& statement_node(old(self)@.tokens, old(self)@.position) == Ok::<
                        NodeView,
                        ParseError,
                    >(node@)
                    &&& final(self)@.position == statement_next(
                        old(self)@.tokens,
                        old(self)@.position,
                    )
                },
                Err(e) => statement_node(old(self)@.tokens, old(self)@.position) == Err::<
                    NodeView,
                    ParseError,
                >(e),
            },
        decreases old(self)@.tokens.len(), 1int,
    {
        let ghost t = self@.tokens;
        let ghost i = self@.position;
        let first = match self.word() {
            Some(first) => first,
            None => {
                return match self.literal() {
                    Some(token) => self.value_item(token),
                    None => Err(ParseError::UnexpectedToken),
                };
            },
        };
        self.advance();
        let (name, declares) = match self.word() {
            Some(second) => {
                self.advance();
                match self.mark() {
                    Mark::Punctuation(c) => {
                        if c == '(' {
                            let parameters = match self.group('(') {
                                Ok(parameters) => parameters,
                                Err(e) => {
                                    return Err(e);
                                },
                            };
                            let body = match self.group('{') {
                                Ok(body) => body,
                                Err(e) => {
                                    return Err(e);
                                },
                            };
                            return Ok(
                                Node::Function(
                                    FuncNode::new(second, first, ParamsNode::new(parameters), body),
                                ),
                            );
                        }
                    },
                    _ => {},
                }
                (second, true)
            },
            None => {
                match self.mark() {
                    Mark::Punctuation(c) => {
                        if c == '(' {
                            if first == "if".to_owned() {
                                let condition = match self.group('(') {
                                    Ok(condition) => condition,
                                    Err(e) => {
                                        return Err(e);
                                    },
                                };
                                if condition.len() == 0 {
                                    return Err(ParseError::UnexpectedToken);
                                }
                                let body = match self.group('{') {
                                    Ok(body) => body,
                                    Err(e) => {
                                        return Err(e);
                                    },
                                };
                                return Ok(
                                    Node::Conditional(
                                        ConditionalNode::new(Condition::new(condition), body),
                                    ),
                                );
                            }
                            let parameters = match self.group('(') {
                                Ok(parameters) => parameters,
                                Err(e) => {
                                    return Err(e);
                                },
                            };
                            match self.mark() {
                                Mark::Punctuation(c) => {
                                    if c != ';' {
                                        return Err(ParseError::UnexpectedToken);
                                    }
                                },
                                _ => {
                                    return Err(ParseError::UnexpectedToken);
                                },
                            }
                            self.advance();
                            return Ok(Node::Invocation(InvocationNode::new(first, parameters)));
                        }
                    },
                    _ => {},
                }
                (first, false)
            },
        };
        let ghost words = if declares {
            2int
        } else {
            1int
        };
        assert(self@.position == i + words);
        assert(shape_at(t, i) == shape_after_name(t, i + words - 1, name@, words));
        match self.mark() {
            Mark::Punctuation(c) => {
                if c == '=' {
                    self.assignment(name, declares)
                } else if c == ',' {
                    self.advance();
                    Ok(Node::Var(VarNode::new(name)))
                } else {
                    Err(ParseError::UnexpectedToken)
                }
            },
            Mark::End => Ok(Node::Var(VarNode::new(name))),
            Mark::Word => Err(ParseError::UnexpectedToken),
        }
    }

    /// Parses the statements from the cursor to the end of the tokens.
    pub fn walk(&mut self) -> (result: Result<Vec<Node>, ParseError>)
        requires
            old(self)@.wf(),
        ensures
            final(self)@.wf(),
            final(self)@.tokens == old(self)@.tokens,
            match result {
                Ok(nodes) => {
                    &&& parse_from(old(self)@.tokens, old(self)@.position) == Ok::<
                        Seq<NodeView>,
                        ParseError,
                    >(node_views(nodes@))
                    &&& final(self)@.position == final(self)@.tokens.len() - 1
                },
                Err(e) => parse_from(old(self)@.tokens, old(self)@.position) == Err::<
                    Seq<NodeView>,
                    ParseError,
                >(e),
            },
        decreases old(self)@.tokens.len(), 2int,
    {
        let ghost t = self@.tokens;
        let ghost start = self@.position;
        let mut node_tree: Vec<Node> = Vec::new();
        proof {
            lemma_prepend_no_nodes(parse_from(t, start));
            assert(node_views(node_tree@) =~= Seq::<NodeView>::empty());
        }
        loop
            invariant
                self@.wf(),
                self@.tokens == t,
                t == old(self)@.tokens,
                start == old(self)@.position,
                parse_from(t, start) == prepend_nodes(
                    node_views(node_tree@),
                    parse_from(t, self@.position),
                ),
            decreases t.len() - self@.position,
        {
            match self.mark() {
                Mark::End => {
                    proof {
                        assert(node_views(node_tree@) + Seq::<NodeView>::empty() =~= node_views(
                            node_tree@,
                        ));
                    }
                    return Ok(node_tree);
                },
                _ => {},
            }
            let ghost before = node_views(node_tree@);
            let ghost here = self@.position;
            proof {
                lemma_statement_next_bounds(t, here);
            }
            match self.statement() {
                Ok(node) => {
                    proof {
                        lemma_prepend_node_step(before, node@, parse_from(t, self@.position));
                        assert(node_views(node_tree@.push(node)) =~= before.push(node@));
                    }
                    node_tree.push(node);
                },
                Err(e) => {
                    return Err(e);
                },
            }
        }
    }

    /// Parses the token stream from the cursor on into its syntax tree. For
    /// a parser that has not moved yet this is the tree of the whole stream.
    pub fn parse(&mut self) -> (result: Result<Vec<Node>, ParseError>)
        requires
            old(self)@.wf(),
        ensures
            final(self)@.wf(),
            final(self)@.tokens == old(self)@.tokens,
            match result {
                Ok(nodes) => {
                    &&& parse_from(old(self)@.tokens, old(self)@.position) == Ok::<
                        Seq<NodeView>,
                        ParseError,
                    >(node_views(nodes@))
                    &&& final(self)@.position == final(self)@.tokens.len() - 1
                },
                Err(e) => parse_from(old(self)@.tokens, old(self)@.position) == Err::<
                    Seq<NodeView>,
                    ParseError,
                >(e),
            },
    {
        self.walk()
    }
}

/// With no node found yet, the result is that of the rest of the tokens.
proof fn lemma_prepend_no_nodes(rest: Result<Seq<NodeView>, ParseError>)
    ensures
        prepend_nodes(Seq::empty(), rest) == rest,
{
    match rest {
        Ok(nodes) => {
            assert(Seq::<NodeView>::empty() + nodes =~= nodes);
        },
        Err(_) => {},
    }
}

/// Taking one more node into the nodes found so far leaves the whole result
/// as it was.
proof fn lemma_prepend_node_step(
    before: Seq<NodeView>,
    node: NodeView,
    rest: Result<Seq<NodeView>, ParseError>,
)
    ensures
        prepend_nodes(before, prepend_nodes(seq![node], rest)) == prepend_nodes(
            before.push(node),
            rest,
        ),
{
    match rest {
        Ok(nodes) => {
            assert(before + (seq![node] + nodes) =~= before.push(node) + nodes);
        },
        Err(_) => {},
    }
}

/// A function with no parameter and an empty body, `type name ( ) { }`, is
/// one node: the function of that name and type, with nothing in it.
pub proof fn lemma_bare_function(t: Seq<TokenView>, return_type: Seq<char>, name: Seq<char>)
    requires
        t.len() == 7,
        t[0].value == TokenValueView::Identifier(return_type),
        t[1].value == TokenValueView::Identifier(name),
        t[2].value == TokenValueView::Character('('),
        t[3].value == TokenValueView::Character(')'),
        t[4].value == TokenValueView::Character('{'),
        t[5].value == TokenValueView::Character('}'),
        t[6].value is EOF,
    ensures
        parse_spec(t) == Ok::<Seq<NodeView>, ParseError>(
            seq![
                NodeView::Function(
                    FuncView {
                        name,
                        return_type,
                        parameters: ParamsView { parameters: Seq::empty() },
                        body: Seq::empty(),
                    },
                ),
            ],
        ),
{
    let inside_parameters = group_tokens(t, 3, 3);
    let inside_body = group_tokens(t, 5, 5);
    assert(shape_at(t, 0) == Shape::Function { return_type, name });
    assert(group_end(t, 3, '(', ')', 0) == 3);
    assert(group_end(t, 5, '{', '}', 0) == 5);
    assert(value_at(inside_parameters, 0) is EOF);
    assert(value_at(inside_body, 0) is EOF);
    assert(parse_from(inside_parameters, 0) == Ok::<Seq<NodeView>, ParseError>(Seq::empty()));
    assert(parse_from(inside_body, 0) == Ok::<Seq<NodeView>, ParseError>(Seq::empty()));
    assert(parse_group(t, 2, '(') == Ok::<Seq<NodeView>, ParseError>(Seq::empty()));
    assert(group_after(t, 2, '(') == 4);
    assert(parse_group(t, 4, '{') == Ok::<Seq<NodeView>, ParseError>(Seq::empty()));
    assert(statement_next(t, 0) == 6);
    assert(parse_from(t, 6) == Ok::<Seq<NodeView>, ParseError>(Seq::empty()));
    let node = statement_node(t, 0).unwrap();
    assert(seq![node] + Seq::<NodeView>::empty() =~= seq![node]);
}

} // verus!
