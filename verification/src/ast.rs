//! The source language's AST, as the parser hands it to the analyzer:
//! assignments, endpoint and test declarations, object and array literals,
//! arithmetic, member access, calls, and the async markers.

use vstd::prelude::*;

verus! {

/// A binary operator.
#[derive(Debug, Clone, Copy, PartialEq, Eq, Structural)]
pub enum BinaryOp {
    Add,
    Subtract,
    Multiply,
    Divide,
    Equal,
}

/// A unary operator.
#[derive(Debug, Clone, Copy, PartialEq, Eq, Structural)]
pub enum UnaryOp {
    Negate,
    Not,
}

/// An HTTP method.
#[derive(Debug, Clone, Copy, PartialEq, Eq, Structural)]
pub enum HttpMethod {
    Get,
    Post,
    Put,
    Delete,
    Patch,
}

impl HttpMethod {
    /// The method name as diagnostics render it.
    pub fn describe(&self) -> (r: &'static str)
        ensures
            r@ == self.spec_describe(),
    {
        proof {
            reveal_strlit("Get");
            reveal_strlit("Post");
            reveal_strlit("Put");
            reveal_strlit("Delete");
            reveal_strlit("Patch");
        }
        match self {
            HttpMethod::Get => "Get",
            HttpMethod::Post => "Post",
            HttpMethod::Put => "Put",
            HttpMethod::Delete => "Delete",
            HttpMethod::Patch => "Patch",
        }
    }

    /// The rendering `describe` produces.
    pub open spec fn spec_describe(self) -> Seq<char> {
        match self {
            HttpMethod::Get => "Get"@,
            HttpMethod::Post => "Post"@,
            HttpMethod::Put => "Put"@,
            HttpMethod::Delete => "Delete"@,
            HttpMethod::Patch => "Patch"@,
        }
    }
}

/// One node of the source AST. Numbers are carried as the bit patterns of
/// the doubles the source spelled. Object fields and test inputs are kept
/// in source order as key-value pairs with distinct keys.
#[derive(Debug, PartialEq)]
pub enum AstNode {
    /// The program root.
    Program(Vec<AstNode>),
    Assignment { name: String, value: Box<AstNode>, line: usize },
    Binary { left: Box<AstNode>, operator: BinaryOp, right: Box<AstNode>, line: usize },
    Unary { operator: UnaryOp, operand: Box<AstNode>, line: usize },
    MemberAccess { object: Box<AstNode>, property: String, line: usize },
    String(String),
    /// A numeric literal, as the bit pattern of its double value.
    Number(u64),
    Boolean(bool),
    Null,
    Identifier(String),
    Object { fields: Vec<(String, AstNode)>, line: usize },
    Array { elements: Vec<AstNode>, line: usize },
    FunctionCall { name: String, arguments: Vec<AstNode>, line: usize },
    Promise { expression: Box<AstNode>, line: usize },
    Endpoint { name: String, method: HttpMethod, path: String, handler: Box<AstNode>, line: usize },
    HttpCall {
        url: Box<AstNode>,
        method: HttpMethod,
        body: Option<Box<AstNode>>,
        headers: Option<Vec<(String, AstNode)>>,
        line: usize,
    },
    Test {
        name: String,
        expect_expression: Box<AstNode>,
        inputs: Vec<(String, AstNode)>,
        expected_output: Box<AstNode>,
        is_regex: bool,
        line: usize,
    },
}


impl Clone for AstNode {
    /// A deep copy of the node.
    fn clone(&self) -> (r: Self)
        decreases self,
    {
        match self {
            AstNode::Program(statements) => AstNode::Program(clone_nodes(statements)),
            AstNode::Assignment { name, value, line } => AstNode::Assignment {
                name: name.clone(),
                value: Box::new((**value).clone()),
                line: *line,
            },
            AstNode::Binary { left, operator, right, line } => AstNode::Binary {
                left: Box::new((**left).clone()),
                operator: *operator,
                right: Box::new((**right).clone()),
                line: *line,
            },
            AstNode::Unary { operator, operand, line } => AstNode::Unary {
                operator: *operator,
                operand: Box::new((**operand).clone()),
                line: *line,
            },
            AstNode::MemberAccess { object, property, line } => AstNode::MemberAccess {
                object: Box::new((**object).clone()),
                property: property.clone(),
                line: *line,
            },
            AstNode::String(s) => AstNode::String(s.clone()),
            AstNode::Number(b) => AstNode::Number(*b),
            AstNode::Boolean(b) => AstNode::Boolean(*b),
            AstNode::Null => AstNode::Null,
            AstNode::Identifier(s) => AstNode::Identifier(s.clone()),
            AstNode::Object { fields, line } => AstNode::Object {
                fields: clone_pairs(fields),
                line: *line,
            },
            AstNode::Array { elements, line } => AstNode::Array {
                elements: clone_nodes(elements),
                line: *line,
            },
            AstNode::FunctionCall { name, arguments, line } => AstNode::FunctionCall {
                name: name.clone(),
                arguments: clone_nodes(arguments),
                line: *line,
            },
            AstNode::Promise { expression, line } => AstNode::Promise {
                expression: Box::new((**expression).clone()),
                line: *line,
            },
            AstNode::Endpoint { name, method, path, handler, line } => AstNode::Endpoint {
                name: name.clone(),
                method: *method,
                path: path.clone(),
                handler: Box::new((**handler).clone()),
                line: *line,
            },
            AstNode::HttpCall { url, method, body, headers, line } => AstNode::HttpCall {
                url: Box::new((**url).clone()),
                method: *method,
                body: match body {
                    Option::Some(b) => Option::Some(Box::new((**b).clone())),
                    Option::None => Option::None,
                },
                headers: match headers {
                    Option::Some(hs) => Option::Some(clone_pairs(hs)),
                    Option::None => Option::None,
                },
                line: *line,
            },
            AstNode::Test { name, expect_expression, inputs, expected_output, is_regex, line } => {
                AstNode::Test {
                    name: name.clone(),
                    expect_expression: Box::new((**expect_expression).clone()),
                    inputs: clone_pairs(inputs),
                    expected_output: Box::new((**expected_output).clone()),
                    is_regex: *is_regex,
                    line: *line,
                }
            },
        }
    }
}

/// A deep copy of a run of nodes.
fn clone_nodes(nodes: &Vec<AstNode>) -> (r: Vec<AstNode>)
    decreases nodes,
{
    let mut out: Vec<AstNode> = Vec::new();
    let mut i: usize = 0;
    while i < nodes.len()
        invariant
            i <= nodes@.len(),
        decreases nodes@.len() - i,
    {
        proof {
            assert(decreases_to!(*nodes => nodes@));
            assert(decreases_to!(nodes@ => nodes@[i as int]));
        }
        out.push(nodes[i].clone());
        i = i + 1;
    }
    out
}

/// A deep copy of a run of keyed nodes.
fn clone_pairs(pairs: &Vec<(String, AstNode)>) -> (r: Vec<(String, AstNode)>)
    decreases pairs,
{
    let mut out: Vec<(String, AstNode)> = Vec::new();
    let mut i: usize = 0;
    while i < pairs.len()
        invariant
            i <= pairs@.len(),
        decreases pairs@.len() - i,
    {
        proof {
            assert(decreases_to!(*pairs => pairs@));
            assert(decreases_to!(pairs@ => pairs@[i as int]));
            assert(decreases_to!(pairs@[i as int] => pairs@[i as int].1));
        }
        let key = pairs[i].0.clone();
        let value = pairs[i].1.clone();
        out.push((key, value));
        i = i + 1;
    }
    out
}


/// The names an expression reads: an identifier contributes itself,
/// compound expressions contribute the union of their children, and
/// literals contribute nothing.
pub open spec fn deps_of(node: AstNode) -> Set<Seq<char>>
    decreases node,
{
    match node {
        AstNode::Identifier(name) => Set::empty().insert(name@),
        AstNode::Binary { left, right, .. } => deps_of(*left) + deps_of(*right),
        AstNode::Unary { operand, .. } => deps_of(*operand),
        AstNode::MemberAccess { object, .. } => deps_of(*object),
        AstNode::Object { fields, .. } => deps_of_pairs(fields@),
        AstNode::Array { elements, .. } => deps_of_list(elements@),
        AstNode::Promise { expression, .. } => deps_of(*expression),
        AstNode::HttpCall { url, body, headers, .. } => deps_of(*url) + (match body {
            Option::Some(b) => deps_of(*b),
            Option::None => Set::empty(),
        }) + (match headers {
            Option::Some(hs) => deps_of_pairs(hs@),
            Option::None => Set::empty(),
        }),
        AstNode::FunctionCall { arguments, .. } => deps_of_list(arguments@),
        _ => Set::empty(),
    }
}

/// The union of the names a run of expressions reads.
pub open spec fn deps_of_list(nodes: Seq<AstNode>) -> Set<Seq<char>>
    decreases nodes,
{
    if nodes.len() == 0 {
        Set::empty()
    } else {
        deps_of_list(nodes.drop_last()) + deps_of(nodes.last())
    }
}

/// The union of the names a run of keyed expressions reads.
pub open spec fn deps_of_pairs(pairs: Seq<(String, AstNode)>) -> Set<Seq<char>>
    decreases pairs,
{
    if pairs.len() == 0 {
        Set::empty()
    } else {
        deps_of_pairs(pairs.drop_last()) + deps_of(pairs.last().1)
    }
}

} // verus!
