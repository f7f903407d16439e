//! The part of a script's syntax tree that lowering reads. Every other node
//! kind of the scripting dialect is represented by an `Unsupported` variant.
use vstd::prelude::*;

verus! {

/// A prefix sign operator.
#[derive(Debug, Clone, Copy, PartialEq, Eq)]
pub enum Sign {
    Minus,
    Plus,
}

/// The key of a plain key/value property. A numeric key holds the canonical
/// decimal text of its number.
#[derive(Debug)]
pub enum PropKey {
    Str(String),
    Ident(String),
    Num(String),
}

/// An entry of an object literal.
#[derive(Debug)]
pub enum Prop {
    KeyValue(PropKey, Expr),
    /// A spread, a shorthand, a method, a getter, a computed key.
    Unsupported,
}

/// A slot of an array literal.
#[derive(Debug)]
pub enum Elem {
    Hole,
    Spread,
    Item(Expr),
}

/// An expression; `Num` holds the IEEE-754 bit pattern of the literal.
#[derive(Debug)]
pub enum Expr {
    Object(Vec<Prop>),
    Array(Vec<Elem>),
    Str(String),
    Num(u64),
    Bool(bool),
    Null,
    Unary(Sign, Box<Expr>),
    /// Functions, arrows, binary expressions, identifiers, calls and the like.
    Unsupported,
}

/// A top-level statement: a variable declaration with the initializers of its
/// declarators, or anything else.
#[derive(Debug)]
pub enum Stmt {
    Var(Vec<Option<Expr>>),
    Other,
}

/// A whole script: its statements in source order.
#[derive(Debug)]
pub struct Script {
    pub body: Vec<Stmt>,
}

} // verus!
