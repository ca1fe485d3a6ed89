//! The abstract syntax tree and its mathematical model.
use vstd::prelude::*;
use crate::types::{FuncParam, Type};

verus! {

/// A statement-level or expression-level syntax node.
#[derive(Debug, PartialEq)]
pub enum ASTNode {
    Include(String),
    FuncDecl { name: String, params: Vec<FuncParam>, ret_type: Type, body: Vec<Box<ASTNode>> },
    FunCall { name: String, args: Vec<Box<ASTNode>> },
    Return(Box<ASTNode>),
    StrLit(String),
    StrVal(String),
    IntLit(i32),
    Semicolon,
    EOF,
}

/// The mathematical model of a syntax node: strings become character
/// sequences and child vectors become sequences of models.
pub ghost enum Node {
    Include(Seq<char>),
    FuncDecl { name: Seq<char>, params: Seq<FuncParam>, ret_type: Type, body: Seq<Node> },
    FunCall { name: Seq<char>, args: Seq<Node> },
    Return(Box<Node>),
    StrLit(Seq<char>),
    StrVal(Seq<char>),
    IntLit(i32),
    Semicolon,
    Eof,
}

/// The models of a sequence of boxed nodes, in order.
pub open spec fn nodes_view(s: Seq<Box<ASTNode>>) -> Seq<Node>
    decreases s,
{
    if s.len() == 0 {
        Seq::empty()
    } else {
        nodes_view(s.subrange(0, s.len() - 1)).push(node_view(*s[s.len() - 1]))
    }
}

/// The model of one node.
pub open spec fn node_view(n: ASTNode) -> Node
    decreases n,
{
    match n {
        ASTNode::Include(p) => Node::Include(p@),
        ASTNode::FuncDecl { name, params, ret_type, body } => Node::FuncDecl {
            name: name@,
            params: params@,
            ret_type,
            body: nodes_view(body@),
        },
        ASTNode::FunCall { name, args } => Node::FunCall { name: name@, args: nodes_view(args@) },
        ASTNode::Return(e) => Node::Return(Box::new(node_view(*e))),
        ASTNode::StrLit(s) => Node::StrLit(s@),
        ASTNode::StrVal(s) => Node::StrVal(s@),
        ASTNode::IntLit(v) => Node::IntLit(v),
        ASTNode::Semicolon => Node::Semicolon,
        ASTNode::EOF => Node::Eof,
    }
}

impl View for ASTNode {
    type V = Node;

    open spec fn view(&self) -> Node {
        node_view(*self)
    }
}

/// The program as an ordered sequence of statement-level nodes.
#[derive(Debug, PartialEq)]
pub struct AST {
    body: Vec<ASTNode>,
}

impl View for AST {
    type V = Seq<Node>;

    closed spec fn view(&self) -> Seq<Node> {
        self.body@.map_values(|n: ASTNode| n@)
    }
}

impl AST {
    pub fn new() -> (r: Self)
        ensures
            r@ == Seq::<Node>::empty(),
    {
        let r = Self { body: Vec::new() };
        proof {
            assert(r@ =~= Seq::<Node>::empty());
        }
        r
    }

    /// Appends a node at the end.
    pub fn push(&mut self, token: ASTNode)
        ensures
            final(self)@ == old(self)@.push(token@),
    {
        self.body.push(token);
        proof {
            assert(self@ =~= old(self)@.push(token@));
        }
    }

    /// Removes and returns the first node, if any.
    pub fn next(&mut self) -> (r: Option<ASTNode>)
        ensures
            old(self)@.len() == 0 ==> r is None && final(self)@ == old(self)@,
            old(self)@.len() > 0 ==> r is Some && r->0@ == old(self)@[0] && final(self)@ == old(self)@.subrange(
                1,
                old(self)@.len() as int,
            ),
    {
        if self.body.len() == 0 {
            return None;
        }
        let n = self.body.remove(0);
        proof {
            assert(self@ =~= old(self)@.subrange(1, old(self)@.len() as int));
        }
        Some(n)
    }
}

/// Pushing a node onto a vector of children pushes its model.
pub proof fn lemma_nodes_view_push(s: Seq<Box<ASTNode>>, b: Box<ASTNode>)
    ensures
        nodes_view(s.push(b)) == nodes_view(s).push(node_view(*b)),
{
    assert(s.push(b).subrange(0, s.len() as int) =~= s);
}

} // verus!
