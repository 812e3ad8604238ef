//! The expression tree and its mathematical model.

use vstd::prelude::*;

verus! {

/// The mathematical model of an expression: what contracts speak of.
pub enum Tree {
    /// An integer literal.
    Num(int),
    /// An identifier or operator name.
    Word(Seq<char>),
    /// The empty list, which also ends every list.
    Nil,
    /// A cons cell: one element followed by the rest of a list.
    Cons { head: Box<Tree>, tail: Box<Tree> },
}

/// Whether every list in `t` is well formed: whether every chain of cons
/// cells, at any depth, ends in the empty list.
pub open spec fn is_proper(t: Tree) -> bool
    decreases t,
{
    match t {
        Tree::Cons { head, tail } => is_proper(*head) && (*tail is Cons || *tail is Nil)
            && is_proper(*tail),
        _ => true,
    }
}

/// An expression tree. A list is a chain of `Cons` cells that ends in `Nil`.
#[derive(Debug, PartialEq, Eq)]
pub enum AST {
    /// An integer literal.
    Num(i64),
    /// An identifier or operator name.
    Word(String),
    /// The empty list, which also ends every list.
    Nil,
    /// A cons cell: one element followed by the rest of a list.
    Cons { head: Box<AST>, tail: Box<AST> },
}

impl AST {
    /// The model of this tree, node for node.
    pub open spec fn model(&self) -> Tree
        decreases self,
    {
        match self {
            AST::Num(n) => Tree::Num(*n as int),
            AST::Word(w) => Tree::Word(w@),
            AST::Nil => Tree::Nil,
            AST::Cons { head, tail } => Tree::Cons {
                head: Box::new(head.model()),
                tail: Box::new(tail.model()),
            },
        }
    }
}

impl View for AST {
    type V = Tree;

    open spec fn view(&self) -> Tree {
        self.model()
    }
}

impl Clone for AST {
    /// A deep copy: a fresh tree with the same model.
    fn clone(&self) -> (res: Self)
        ensures
            res@ == self@,
        decreases self,
    {
        match self {
            AST::Num(n) => AST::Num(*n),
            AST::Word(w) => AST::Word(w.clone()),
            AST::Nil => AST::Nil,
            AST::Cons { head, tail } => AST::Cons {
                head: Box::new((&**head).clone()),
                tail: Box::new((&**tail).clone()),
            },
        }
    }
}

} // verus!
