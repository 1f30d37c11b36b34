use vstd::prelude::*;
use crate::token::{Token, TokenValue, TokenValueView, TokenView};

verus! {

/// The guard of a conditional: the nodes that say whether its body runs.
#[derive(Debug, PartialEq, Eq)]
pub struct Condition {
    condition: Vec<Node>,
}

/// A body that runs only where its guard holds. The guard holds at least one
/// node.
#[derive(Debug, PartialEq, Eq)]
pub struct ConditionalNode {
    condition: Condition,
    body: Vec<Node>,
}

/// A call of a function with arguments.
#[derive(Debug, PartialEq, Eq)]
pub struct InvocationNode {
    method_name: String,
    parameters: Vec<Node>,
}

/// A value given to a variable, at its declaration or later.
#[derive(Debug, PartialEq, Eq)]
pub struct AssignNode {
    var_name: VarNode,
    value: Token,
    first_time: bool,
}

/// A variable, with the token that holds its value once that is known.
#[derive(Debug, PartialEq, Eq)]
pub struct VarNode {
    var_name: String,
    value: Option<Token>,
}

/// A list of parameters.
#[derive(Debug, PartialEq, Eq)]
pub struct ParamsNode {
    parameters: Vec<Node>,
}

/// The declaration of a function.
#[derive(Debug, PartialEq, Eq)]
pub struct FuncNode {
    name: String,
    return_type: String,
    parameters: ParamsNode,
    body: Vec<Node>,
}

/// A node of the syntax tree. A node owns the nodes below it.
#[derive(Debug, PartialEq, Eq)]
pub enum Node {
    Conditional(ConditionalNode),
    Invocation(InvocationNode),
    Assign(AssignNode),
    Var(VarNode),
    Parameters(ParamsNode),
    Function(FuncNode),
}

/// What a [`ConditionalNode`] stands for.
pub ghost struct ConditionalView {
    pub condition: Seq<NodeView>,
    pub body: Seq<NodeView>,
}

/// What an [`InvocationNode`] stands for.
pub ghost struct InvocationView {
    pub method_name: Seq<char>,
    pub parameters: Seq<NodeView>,
}

/// What an [`AssignNode`] stands for.
pub ghost struct AssignView {
    pub var_name: VarView,
    pub value: TokenView,
    pub first_time: bool,
}

/// What a [`VarNode`] stands for.
pub ghost struct VarView {
    pub var_name: Seq<char>,
    pub value: Option<TokenView>,
}

/// What a [`ParamsNode`] stands for.
pub ghost struct ParamsView {
    pub parameters: Seq<NodeView>,
}

/// What a [`FuncNode`] stands for.
pub ghost struct FuncView {
    pub name: Seq<char>,
    pub return_type: Seq<char>,
    pub parameters: ParamsView,
    pub body: Seq<NodeView>,
}

/// What a [`Node`] stands for.
pub ghost enum NodeView {
    Conditional(ConditionalView),
    Invocation(InvocationView),
    Assign(AssignView),
    Var(VarView),
    Parameters(ParamsView),
    Function(FuncView),
}

impl View for VarNode {
    type V = VarView;

    closed spec fn view(&self) -> VarView {
        VarView {
            var_name: self.var_name@,
            value: match self.value {
                Some(token) => Some(token@),
                None => None,
            },
        }
    }
}

impl View for AssignNode {
    type V = AssignView;

    closed spec fn view(&self) -> AssignView {
        AssignView { var_name: self.var_name@, value: self.value@, first_time: self.first_time }
    }
}

impl View for Condition {
    type V = Seq<NodeView>;

    closed spec fn view(&self) -> Seq<NodeView>
        decreases self,
    {
        node_views(self.condition@)
    }
}

impl View for ConditionalNode {
    type V = ConditionalView;

    closed spec fn view(&self) -> ConditionalView
        decreases self,
    {
        ConditionalView { condition: self.condition@, body: node_views(self.body@) }
    }
}

impl View for InvocationNode {
    type V = InvocationView;

    closed spec fn view(&self) -> InvocationView
        decreases self,
    {
        InvocationView { method_name: self.method_name@, parameters: node_views(self.parameters@) }
    }
}

impl View for ParamsNode {
    type V = ParamsView;

    closed spec fn view(&self) -> ParamsView
        decreases self,
    {
        ParamsView { parameters: node_views(self.parameters@) }
    }
}

impl View for FuncNode {
    type V = FuncView;

    closed spec fn view(&self) -> FuncView
        decreases self,
    {
        FuncView {
            name: self.name@,
            return_type: self.return_type@,
            parameters: self.parameters@,
            body: node_views(self.body@),
        }
    }
}

impl View for Node {
    type V = NodeView;

    open spec fn view(&self) -> NodeView
        decreases self,
    {
        match self {
            Node::Conditional(node) => NodeView::Conditional(node@),
            Node::Invocation(node) => NodeView::Invocation(node@),
            Node::Assign(node) => NodeView::Assign(node@),
            Node::Var(node) => NodeView::Var(node@),
            Node::Parameters(node) => NodeView::Parameters(node@),
            Node::Function(node) => NodeView::Function(node@),
        }
    }
}

/// The nodes that a sequence of [`Node`]s stands for.
pub open spec fn node_views(nodes: Seq<Node>) -> Seq<NodeView>
    decreases nodes,
{
    Seq::new(
        nodes.len(),
        |i: int|
            if 0 <= i < nodes.len() {
                nodes[i]@
            } else {
                arbitrary()
            },
    )
}

/// Whether a guard holds. A guard of one variable whose value is an integer
/// holds where the integer is not zero; one whose value is a boolean holds
/// where the boolean is true. Every other guard, and every guard that is not
/// of exactly one node, does not hold.
pub open spec fn guard_holds(condition: Seq<NodeView>) -> bool {
    &&& condition.len() == 1
    &&& condition[0] matches NodeView::Var(var)
    &&& var.value matches Some(token)
    &&& match token.value {
        TokenValueView::Integer(n) => n != 0,
        TokenValueView::Boolean(b) => b,
        _ => false,
    }
}

impl Condition {
    /// A guard made of the given nodes.
    pub fn new(condition: Vec<Node>) -> (guard: Condition)
        ensures
            guard@ == node_views(condition@),
    {
        Condition { condition }
    }

    /// The nodes of the guard.
    pub fn condition(&self) -> (nodes: &Vec<Node>)
        ensures
            node_views(nodes@) == self@,
    {
        &self.condition
    }

    /// Whether the guard holds. The guard is left as it was.
    pub fn calculate(&mut self) -> (holds: bool)
        ensures
            holds == guard_holds(old(self)@),
            *final(self) == *old(self),
    {
        if self.condition.len() == 1 {
            match &self.condition[0] {
                Node::Var(var_node) => {
                    match &var_node.value {
                        Some(token) => {
                            match token.value() {
                                TokenValue::Integer(integer_value) => *integer_value != 0,
                                TokenValue::Boolean(boolean_value) => *boolean_value,
                                _ => false,
                            }
                        },
                        None => false,
                    }
                },
                _ => false,
            }
        } else {
            false
        }
    }
}

impl ConditionalNode {
    #[verifier::type_invariant]
    spec fn guarded(self) -> bool {
        self.condition.condition@.len() > 0
    }

    /// A conditional with the given guard, which holds at least one node,
    /// and body.
    pub fn new(condition: Condition, body: Vec<Node>) -> (node: ConditionalNode)
        requires
            condition@.len() > 0,
        ensures
            node@ == (ConditionalView { condition: condition@, body: node_views(body@) }),
    {
        ConditionalNode { condition, body }
    }

    /// The guard. It holds at least one node.
    pub fn condition(&self) -> (guard: &Condition)
        ensures
            guard@ == self@.condition,
            guard@.len() > 0,
    {
        proof {
            use_type_invariant(self);
        }
        &self.condition
    }

    /// The nodes of the body.
    pub fn body(&self) -> (nodes: &Vec<Node>)
        ensures
            node_views(nodes@) == self@.body,
    {
        &self.body
    }
}

impl InvocationNode {
    /// A call of `method_name` with the given arguments.
    pub fn new(method_name: String, parameters: Vec<Node>) -> (node: InvocationNode)
        ensures
            node@ == (InvocationView {
                method_name: method_name@,
                parameters: node_views(parameters@),
            }),
    {
        InvocationNode { method_name, parameters }
    }

    /// The name of the function that is called.
    pub fn method_name(&self) -> (name: &String)
        ensures
            name@ == self@.method_name,
    {
        &self.method_name
    }

    /// The arguments.
    pub fn parameters(&self) -> (nodes: &Vec<Node>)
        ensures
            node_views(nodes@) == self@.parameters,
    {
        &self.parameters
    }
}

impl AssignNode {
    /// An assignment of `value` to `var_name`; `first_time` says whether it
    /// declares the variable.
    pub fn new(var_name: VarNode, value: Token, first_time: bool) -> (node: AssignNode)
        ensures
            node@ == (AssignView { var_name: var_name@, value: value@, first_time }),
    {
        AssignNode { var_name, value, first_time }
    }

    /// The variable that is assigned to.
    pub fn var_name(&self) -> (var: &VarNode)
        ensures
            var@ == self@.var_name,
    {
        &self.var_name
    }

    /// The token that holds the value.
    pub fn value(&self) -> (token: &Token)
        ensures
            token@ == self@.value,
    {
        &self.value
    }

    /// Whether the assignment declares the variable.
    pub fn first_time(&self) -> (first_time: bool)
        ensures
            first_time == self@.first_time,
    {
        self.first_time
    }
}

impl VarNode {
    /// The variable `var_name`, with no value known.
    pub fn new(var_name: String) -> (node: VarNode)
        ensures
            node@ == (VarView { var_name: var_name@, value: None }),
    {
        VarNode { var_name, value: None }
    }

    /// The variable `var_name`, whose value `value` holds.
    pub fn with_value(var_name: String, value: Token) -> (node: VarNode)
        ensures
            node@ == (VarView { var_name: var_name@, value: Some(value@) }),
    {
        VarNode { var_name, value: Some(value) }
    }

    /// The variable's name.
    pub fn var_name(&self) -> (name: &String)
        ensures
            name@ == self@.var_name,
    {
        &self.var_name
    }

    /// The token that holds the variable's value, where it is known.
    pub fn value(&self) -> (token: Option<&Token>)
        ensures
            match token {
                Some(token) => self@.value == Some(token@),
                None => self@.value is None,
            },
    {
        match &self.value {
            Some(token) => Some(token),
            None => None,
        }
    }
}

impl ParamsNode {
    /// A list of the given parameters.
    pub fn new(parameters: Vec<Node>) -> (node: ParamsNode)
        ensures
            node@ == (ParamsView { parameters: node_views(parameters@) }),
    {
        ParamsNode { parameters }
    }

    /// The parameters.
    pub fn parameters(&self) -> (nodes: &Vec<Node>)
        ensures
            node_views(nodes@) == self@.parameters,
    {
        &self.parameters
    }
}

impl FuncNode {
    /// The declaration of the function `name`.
    pub fn new(name: String, return_type: String, parameters: ParamsNode, body: Vec<Node>) -> (node:
        FuncNode)
        ensures
            node@ == (FuncView {
                name: name@,
                return_type: return_type@,
                parameters: parameters@,
                body: node_views(body@),
            }),
    {
        FuncNode { name, return_type, parameters, body }
    }

    /// The function's name.
    pub fn name(&self) -> (name: &String)
        ensures
            name@ == self@.name,
    {
        &self.name
    }

    /// The name of the type that the function returns.
    pub fn return_type(&self) -> (name: &String)
        ensures
            name@ == self@.return_type,
    {
        &self.return_type
    }

    /// The function's parameters.
    pub fn parameters(&self) -> (parameters: &ParamsNode)
        ensures
            parameters@ == self@.parameters,
    {
        &self.parameters
    }

    /// The nodes of the function's body.
    pub fn body(&self) -> (nodes: &Vec<Node>)
        ensures
            node_views(nodes@) == self@.body,
    {
        &self.body
    }
}

} // verus!
