use langfront::error::ParseError;
use langfront::lexer::Lexer;
use langfront::nodes::{Condition, Node, VarNode};
use langfront::parser::Parser;
use langfront::token::{Token, TokenValue};

fn tokens_of(source: &str) -> Vec<Token> {
    Lexer::new(source.to_string()).lex().unwrap()
}

fn parse(source: &str) -> Result<Vec<Node>, ParseError> {
    Parser::new(tokens_of(source)).parse()
}

fn token_values(tokens: &[Token]) -> Vec<TokenValue> {
    tokens.iter().map(|token| token.value().clone()).collect()
}

fn word(name: &str) -> TokenValue {
    TokenValue::Identifier(name.to_string())
}

fn variable(name: &str) -> Node {
    Node::Var(VarNode::new(name.to_string()))
}

#[test]
fn bracketed_extraction_returns_the_tokens_inside() {
    let mut parser = Parser::new(tokens_of("(a, b)"));
    parser.advance();
    let inside = parser.get_parameters('(').unwrap();
    assert_eq!(token_values(&inside), vec![word("a"), TokenValue::Character(','), word("b")]);
    assert_eq!(*parser.current_token().value(), TokenValue::EOF);
    assert_eq!(parser.current_token().position(), 6);
}

#[test]
fn bracketed_extraction_without_close_is_unterminated() {
    let mut parser = Parser::new(tokens_of("(a, b"));
    parser.advance();
    assert_eq!(parser.get_parameters('('), Err(ParseError::UnterminatedBracketGroup));
}

#[test]
fn bracketed_extraction_passes_over_inner_pairs() {
    let mut parser = Parser::new(tokens_of("(a (b) c) d"));
    parser.advance();
    let inside = parser.get_parameters('(').unwrap();
    assert_eq!(
        token_values(&inside),
        vec![
            word("a"),
            TokenValue::Character('('),
            word("b"),
            TokenValue::Character(')'),
            word("c"),
        ]
    );
    assert_eq!(*parser.current_token().value(), word("d"));
}

#[test]
fn bracketed_extraction_counts_its_own_kind_only() {
    let mut parser = Parser::new(tokens_of("{ a ) ( } b"));
    parser.advance();
    let inside = parser.get_parameters('{').unwrap();
    assert_eq!(
        token_values(&inside),
        vec![word("a"), TokenValue::Character(')'), TokenValue::Character('(')]
    );
    assert_eq!(*parser.current_token().value(), word("b"));
}

#[test]
fn bracketed_extraction_knows_four_pairs() {
    for (open, source) in [('(', "(a)"), ('{', "{a}"), ('[', "[a]"), ('<', "<a>")] {
        let mut parser = Parser::new(tokens_of(source));
        parser.advance();
        let inside = parser.get_parameters(open).unwrap();
        assert_eq!(token_values(&inside), vec![word("a")]);
        assert_eq!(*parser.current_token().value(), TokenValue::EOF);
    }
}

#[test]
fn bracketed_extraction_of_an_empty_group() {
    let mut parser = Parser::new(tokens_of("()x"));
    parser.advance();
    assert_eq!(parser.get_parameters('(').unwrap().len(), 0);
    assert_eq!(*parser.current_token().value(), word("x"));
}

#[test]
fn unknown_opening_character_is_unrecognized() {
    let mut parser = Parser::new(tokens_of("(a)"));
    parser.advance();
    assert_eq!(parser.get_parameters('x'), Err(ParseError::UnrecognizedBracket));
    assert_eq!(parser.get_parameters(')'), Err(ParseError::UnrecognizedBracket));
    assert_eq!(*parser.current_token().value(), word("a"));
}

#[test]
fn statement_extraction_stops_before_the_semicolon() {
    let mut parser = Parser::new(tokens_of("x = 1 + 2; y"));
    parser.advance();
    let value = parser.get_until_eos().unwrap();
    assert_eq!(
        token_values(&value),
        vec![TokenValue::Integer(1), TokenValue::Character('+'), TokenValue::Integer(2)]
    );
    assert_eq!(*parser.current_token().value(), word("y"));
}

#[test]
fn statement_extraction_without_semicolon_is_rejected() {
    let mut parser = Parser::new(tokens_of("x = 1"));
    assert_eq!(parser.get_until_eos(), Err(ParseError::UnexpectedToken));
}

#[test]
fn cursor_stays_on_the_last_token() {
    let mut parser = Parser::new(tokens_of("a"));
    assert_eq!(*parser.current_token().value(), word("a"));
    parser.advance();
    assert_eq!(*parser.current_token().value(), TokenValue::EOF);
    parser.advance();
    parser.advance();
    assert_eq!(*parser.current_token().value(), TokenValue::EOF);
    assert_eq!(parser.current_token().position(), 1);
}

#[test]
fn function_declaration_with_empty_body() {
    let tree = parse("int add(int a, int b){ }").unwrap();
    assert_eq!(tree.len(), 1);
    match &tree[0] {
        Node::Function(function) => {
            assert_eq!(function.name(), "add");
            assert_eq!(function.return_type(), "int");
            assert_eq!(function.body().len(), 0);
            assert_eq!(function.parameters().parameters(), &vec![variable("a"), variable("b")]);
        },
        other => panic!("not a function: {:?}", other),
    }
}

#[test]
fn function_declaration_without_parameters() {
    let tree = parse("void main() { }").unwrap();
    match &tree[0] {
        Node::Function(function) => {
            assert_eq!(function.name(), "main");
            assert_eq!(function.return_type(), "void");
            assert_eq!(function.parameters().parameters().len(), 0);
        },
        other => panic!("not a function: {:?}", other),
    }
}

#[test]
fn function_body_holds_its_statements() {
    let tree = parse("int f(int a) { int x = 3; x = a; print(x); }").unwrap();
    assert_eq!(tree.len(), 1);
    let Node::Function(function) = &tree[0] else { panic!("not a function") };
    let body = function.body();
    assert_eq!(body.len(), 3);
    let Node::Assign(declaration) = &body[0] else { panic!("not an assignment") };
    assert_eq!(declaration.var_name().var_name(), "x");
    assert_eq!(*declaration.value().value(), TokenValue::Integer(3));
    assert_eq!(declaration.value().position(), 24);
    assert!(declaration.first_time());
    let Node::Assign(assignment) = &body[1] else { panic!("not an assignment") };
    assert_eq!(assignment.var_name().var_name(), "x");
    assert_eq!(*assignment.value().value(), word("a"));
    assert!(!assignment.first_time());
    let Node::Invocation(call) = &body[2] else { panic!("not a call") };
    assert_eq!(call.method_name(), "print");
    assert_eq!(call.parameters(), &vec![variable("x")]);
}

#[test]
fn two_functions_in_a_row() {
    let tree = parse("int f() { } int g() { }").unwrap();
    assert_eq!(tree.len(), 2);
    let Node::Function(second) = &tree[1] else { panic!("not a function") };
    assert_eq!(second.name(), "g");
}

#[test]
fn conditional_with_guard_and_body() {
    let tree = parse("if (ready) { go(); }").unwrap();
    assert_eq!(tree.len(), 1);
    let Node::Conditional(conditional) = &tree[0] else { panic!("not a conditional") };
    assert_eq!(conditional.condition().condition(), &vec![variable("ready")]);
    assert_eq!(conditional.body().len(), 1);
    let Node::Invocation(call) = &conditional.body()[0] else { panic!("not a call") };
    assert_eq!(call.method_name(), "go");
    assert_eq!(call.parameters().len(), 0);
}

#[test]
fn nested_groups_of_the_same_kind() {
    let tree = parse("if (a) { if (b) { f(c); } }").unwrap();
    let Node::Conditional(outer) = &tree[0] else { panic!("not a conditional") };
    let Node::Conditional(inner) = &outer.body()[0] else { panic!("not a conditional") };
    let Node::Invocation(call) = &inner.body()[0] else { panic!("not a call") };
    assert_eq!(call.parameters(), &vec![variable("c")]);
}

#[test]
fn declaration_and_assignment_differ_in_first_time() {
    let tree = parse("bool b = true; b = false;").unwrap();
    assert_eq!(tree.len(), 2);
    let Node::Assign(first) = &tree[0] else { panic!("not an assignment") };
    let Node::Assign(second) = &tree[1] else { panic!("not an assignment") };
    assert!(first.first_time());
    assert!(!second.first_time());
    assert_eq!(*first.value().value(), TokenValue::Boolean(true));
    assert_eq!(*second.value().value(), TokenValue::Boolean(false));
}

#[test]
fn string_may_be_assigned() {
    let tree = parse("string s = \"Hello, world!\";").unwrap();
    let Node::Assign(node) = &tree[0] else { panic!("not an assignment") };
    assert_eq!(*node.value().value(), TokenValue::String("Hello, world!".to_string()));
}

#[test]
fn variables_in_a_list() {
    assert_eq!(parse("a, int b, c").unwrap(), vec![variable("a"), variable("b"), variable("c")]);
    assert_eq!(parse("a,").unwrap(), vec![variable("a")]);
}

#[test]
fn empty_stream_is_an_empty_tree() {
    assert_eq!(parse("").unwrap().len(), 0);
    assert_eq!(parse("  \n ").unwrap().len(), 0);
}

#[test]
fn missing_brace_is_unexpected() {
    assert_eq!(parse("int add(int a) ;"), Err(ParseError::UnexpectedToken));
    assert_eq!(parse("int add(int a)"), Err(ParseError::UnexpectedToken));
    assert_eq!(parse("if (a) b"), Err(ParseError::UnexpectedToken));
}

#[test]
fn unclosed_groups_are_unterminated() {
    assert_eq!(parse("int add(int a"), Err(ParseError::UnterminatedBracketGroup));
    assert_eq!(parse("int add(int a) { x = 1;"), Err(ParseError::UnterminatedBracketGroup));
    assert_eq!(parse("f(a;"), Err(ParseError::UnterminatedBracketGroup));
}

#[test]
fn unknown_shapes_are_unexpected() {
    assert_eq!(parse("+"), Err(ParseError::UnexpectedToken));
    assert_eq!(parse("3 4"), Err(ParseError::UnexpectedToken));
    assert_eq!(parse("3 = 4;"), Err(ParseError::UnexpectedToken));
    assert_eq!(parse("\"f\"(a);"), Err(ParseError::UnexpectedToken));
    assert_eq!(parse("a b c"), Err(ParseError::UnexpectedToken));
    assert_eq!(parse("myInt++;"), Err(ParseError::UnexpectedToken));
    assert_eq!(parse("f(a)"), Err(ParseError::UnexpectedToken));
    assert_eq!(parse("f(a) g"), Err(ParseError::UnexpectedToken));
}

#[test]
fn assignment_takes_one_value() {
    assert_eq!(parse("x = ;"), Err(ParseError::UnexpectedToken));
    assert_eq!(parse("x = 1 2;"), Err(ParseError::UnexpectedToken));
    assert_eq!(parse("x = +;"), Err(ParseError::UnexpectedToken));
    assert_eq!(parse("x = 1"), Err(ParseError::UnexpectedToken));
}

#[test]
fn error_inside_a_group_comes_out() {
    assert_eq!(parse("int f() { + }"), Err(ParseError::UnexpectedToken));
    assert_eq!(parse("int f(+) { }"), Err(ParseError::UnexpectedToken));
    assert_eq!(parse("int f() { g(a }"), Err(ParseError::UnterminatedBracketGroup));
}

#[test]
fn first_error_in_the_order_of_the_tokens_wins() {
    assert_eq!(parse("int f(+) "), Err(ParseError::UnexpectedToken));
    assert_eq!(parse("int f(a) { g( } +"), Err(ParseError::UnterminatedBracketGroup));
}

#[test]
fn parsing_goes_on_from_the_cursor() {
    let mut parser = Parser::new(tokens_of("; a = 1;"));
    parser.advance();
    let tree = parser.parse().unwrap();
    assert_eq!(tree.len(), 1);
    assert_eq!(parser.parse().unwrap().len(), 0);
}

#[test]
fn walk_is_what_parse_does() {
    let mut first = Parser::new(tokens_of("int f(int a) { a = 1; }"));
    let mut second = Parser::new(tokens_of("int f(int a) { a = 1; }"));
    assert_eq!(first.walk(), second.parse());
}

fn literal(text: &str, value: TokenValue, position: i32) -> Node {
    Node::Var(VarNode::with_value(text.to_string(), Token::new(value, position)))
}

#[test]
fn values_in_a_list() {
    let tree = parse("print(3, \"a b\", true, x, 2.5);").unwrap();
    let Node::Invocation(call) = &tree[0] else { panic!("not a call") };
    assert_eq!(
        call.parameters(),
        &vec![
            literal("3", TokenValue::Integer(3), 7),
            literal("\"a b\"", TokenValue::String("a b".to_string()), 12),
            literal("true", TokenValue::Boolean(true), 20),
            variable("x"),
            literal("2.5", TokenValue::Float("2.5".to_string()), 28),
        ]
    );
}

#[test]
fn guard_of_a_value_can_be_calculated() {
    let tree = parse("if (1) { } if (0) { } if (true) { } if (x) { }").unwrap();
    let mut answers = Vec::new();
    for node in tree {
        let Node::Conditional(conditional) = node else { panic!("not a conditional") };
        let guard = &conditional.condition().condition()[0];
        let Node::Var(var) = guard else { panic!("not a variable") };
        let copy = match var.value() {
            Some(token) => VarNode::with_value(var.var_name().clone(), token.clone()),
            None => VarNode::new(var.var_name().clone()),
        };
        answers.push(Condition::new(vec![Node::Var(copy)]).calculate());
    }
    assert_eq!(answers, vec![true, false, true, false]);
}

#[test]
fn guard_must_hold_a_node() {
    assert_eq!(parse("if () { }"), Err(ParseError::UnexpectedToken));
    assert_eq!(parse("if () "), Err(ParseError::UnexpectedToken));
    assert_eq!(parse("if ( { }"), Err(ParseError::UnterminatedBracketGroup));
}

#[test]
fn condition_word_is_not_a_call() {
    assert_eq!(parse("if (a);"), Err(ParseError::UnexpectedToken));
    let tree = parse("iff (a);").unwrap();
    let Node::Invocation(call) = &tree[0] else { panic!("not a call") };
    assert_eq!(call.method_name(), "iff");
}

#[test]
fn parse_errors_name_themselves() {
    assert_eq!(
        ParseError::UnterminatedBracketGroup.message(),
        "Could not get parameters, reached EOF!"
    );
    assert_eq!(
        ParseError::UnrecognizedBracket.message(),
        "Could not find matching closing character!"
    );
    assert_eq!(ParseError::UnexpectedToken.message(), "Unexpected token!");
}
