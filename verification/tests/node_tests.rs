use langfront::classes::CharClasses;
use langfront::helper_functions::{integer_text, token_line, token_lines};
use langfront::nodes::{
    AssignNode, Condition, ConditionalNode, FuncNode, InvocationNode, Node, ParamsNode, VarNode,
};
use langfront::state::State;
use langfront::token::{Token, TokenValue};

fn valued(value: TokenValue) -> Node {
    Node::Var(VarNode::with_value("x".to_string(), Token::new(value, 0)))
}

fn holds(nodes: Vec<Node>) -> bool {
    Condition::new(nodes).calculate()
}

#[test]
fn nonzero_integer_holds() {
    assert!(holds(vec![valued(TokenValue::Integer(1))]));
    assert!(holds(vec![valued(TokenValue::Integer(-7))]));
    assert!(!holds(vec![valued(TokenValue::Integer(0))]));
}

#[test]
fn boolean_holds_where_true() {
    assert!(holds(vec![valued(TokenValue::Boolean(true))]));
    assert!(!holds(vec![valued(TokenValue::Boolean(false))]));
}

#[test]
fn other_values_do_not_hold() {
    assert!(!holds(vec![valued(TokenValue::Identifier("a".to_string()))]));
    assert!(!holds(vec![valued(TokenValue::String("true".to_string()))]));
    assert!(!holds(vec![valued(TokenValue::Float("1.0".to_string()))]));
    assert!(!holds(vec![valued(TokenValue::Character('1'))]));
    assert!(!holds(vec![valued(TokenValue::Char('1'))]));
    assert!(!holds(vec![valued(TokenValue::EOF)]));
}

#[test]
fn variable_without_value_does_not_hold() {
    assert!(!holds(vec![Node::Var(VarNode::new("x".to_string()))]));
}

#[test]
fn other_nodes_do_not_hold() {
    assert!(!holds(vec![Node::Parameters(ParamsNode::new(vec![valued(TokenValue::Integer(1))]))]));
    assert!(!holds(vec![Node::Invocation(InvocationNode::new("f".to_string(), Vec::new()))]));
}

#[test]
fn guard_of_no_node_or_several_does_not_hold() {
    assert!(!holds(Vec::new()));
    assert!(!holds(vec![valued(TokenValue::Integer(1)), valued(TokenValue::Boolean(true))]));
}

#[test]
fn calculating_leaves_the_guard() {
    let mut guard = Condition::new(vec![valued(TokenValue::Integer(1))]);
    assert!(guard.calculate());
    assert!(guard.calculate());
    assert_eq!(guard.condition().len(), 1);
}

#[test]
fn nodes_hold_what_they_were_made_of() {
    let var = VarNode::new("v".to_string());
    assert_eq!(var.var_name(), "v");
    assert_eq!(var.value(), None);
    let bound = VarNode::with_value("v".to_string(), Token::new(TokenValue::Integer(2), 9));
    assert_eq!(bound.value(), Some(&Token::new(TokenValue::Integer(2), 9)));
    let assign = AssignNode::new(var, Token::new(TokenValue::Integer(3), 4), true);
    assert_eq!(assign.var_name().var_name(), "v");
    assert_eq!(assign.value().position(), 4);
    assert!(assign.first_time());
    let params = ParamsNode::new(vec![Node::Var(bound)]);
    assert_eq!(params.parameters().len(), 1);
    let function = FuncNode::new("f".to_string(), "int".to_string(), params, vec![Node::Assign(assign)]);
    assert_eq!(function.name(), "f");
    assert_eq!(function.return_type(), "int");
    assert_eq!(function.parameters().parameters().len(), 1);
    assert_eq!(function.body().len(), 1);
    let call = InvocationNode::new("g".to_string(), Vec::new());
    assert_eq!(call.method_name(), "g");
    assert_eq!(call.parameters().len(), 0);
    let guard = Condition::new(vec![Node::Var(VarNode::new("g".to_string()))]);
    let conditional = ConditionalNode::new(guard, vec![Node::Function(function)]);
    assert_eq!(conditional.condition().condition().len(), 1);
    assert_eq!(conditional.body().len(), 1);
}

#[test]
fn integers_are_written_in_base_ten() {
    assert_eq!(integer_text(0), "0");
    assert_eq!(integer_text(7), "7");
    assert_eq!(integer_text(10), "10");
    assert_eq!(integer_text(12345), "12345");
    assert_eq!(integer_text(-1), "-1");
    assert_eq!(integer_text(i32::MAX), "2147483647");
    assert_eq!(integer_text(i32::MIN), "-2147483648");
}

#[test]
fn each_kind_of_token_has_its_line() {
    let line = |value: TokenValue| token_line(&Token::new(value, 0));
    assert_eq!(line(TokenValue::Identifier("abc".to_string())), "Token: IDENTIFIER: abc");
    assert_eq!(line(TokenValue::Character(';')), "Token: CHARACTER: ;");
    assert_eq!(line(TokenValue::String("a b".to_string())), "Token: STRING: a b");
    assert_eq!(line(TokenValue::Char('c')), "Token: CHAR: c");
    assert_eq!(line(TokenValue::Integer(-42)), "Token: INTEGER: -42");
    assert_eq!(line(TokenValue::Float("2.5".to_string())), "Token: FLOAT: 2.5");
    assert_eq!(line(TokenValue::Boolean(true)), "Token: BOOLEAN: true");
    assert_eq!(line(TokenValue::Boolean(false)), "Token: BOOLEAN: false");
    assert_eq!(line(TokenValue::EOF), "Token: EOF");
}

#[test]
fn lines_come_one_for_each_token() {
    let tokens = vec![Token::new(TokenValue::Integer(3), 1), Token::new(TokenValue::EOF, 1)];
    assert_eq!(token_lines(&tokens), vec!["Token: INTEGER: 3".to_string(), "Token: EOF".to_string()]);
    assert_eq!(token_lines(&Vec::new()).len(), 0);
}

#[test]
fn classes_tell_characters_apart() {
    let classes = CharClasses::new();
    for c in ['0', '5', '9'] {
        assert!(classes.is_number(c) && classes.is_number_full(c) && classes.is_identifier_full(c));
        assert!(!classes.is_identifier(c) && !classes.is_discard(c));
    }
    for c in ['a', 'z', 'A', 'Z', '_', 'q'] {
        assert!(classes.is_identifier(c) && classes.is_identifier_full(c));
        assert!(!classes.is_number(c) && !classes.is_number_full(c) && !classes.is_discard(c));
    }
    assert!(classes.is_number_full('.') && !classes.is_number('.') && !classes.is_identifier_full('.'));
    for c in [' ', '\t', '\r', '\n'] {
        assert!(classes.is_discard(c));
        assert!(!classes.is_number_full(c) && !classes.is_identifier_full(c));
    }
    for c in ['/', ':', '@', '[', '`', '{', '-', '\0', 'é', '٣', '\u{b}', '\u{a0}'] {
        assert!(!classes.is_number(c) && !classes.is_number_full(c));
        assert!(!classes.is_identifier(c) && !classes.is_identifier_full(c));
        assert!(!classes.is_discard(c));
    }
}

#[test]
fn scan_states_differ() {
    assert_ne!(State::Go, State::Stop);
}
