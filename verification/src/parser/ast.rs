//! The syntax tree of one Ruby source, as far as constants are read from it.

use vstd::prelude::*;

verus! {

/// A span of the source text, in bytes: from `begin` up to, not including, `end`.
#[derive(Debug, PartialEq, Eq, Clone, Copy, Default, Structural)]
pub struct Loc {
    pub begin: usize,
    pub end: usize,
}

/// `class name < superclass; body; end`
#[derive(Debug, PartialEq, Eq)]
pub struct Class {
    pub name: Box<Node>,
    pub superclass: Option<Box<Node>>,
    pub body: Option<Box<Node>>,
}

/// `module name; body; end`
#[derive(Debug, PartialEq, Eq)]
pub struct Module {
    pub name: Box<Node>,
    pub body: Option<Box<Node>>,
}

/// A constant: `name`, `scope::name`, or `::name` where the scope is the root.
#[derive(Debug, PartialEq, Eq)]
pub struct Const {
    pub scope: Option<Box<Node>>,
    pub name: String,
    pub expression_l: Loc,
}

/// The root namespace, as in `::Name`.
#[derive(Debug, PartialEq, Eq)]
pub struct Cbase {
    pub expression_l: Loc,
}

/// An assignment to a constant: `NAME = value` or `scope::NAME = value`. The
/// value is absent where the constant is one target of a multiple assignment.
#[derive(Debug, PartialEq, Eq)]
pub struct Casgn {
    pub scope: Option<Box<Node>>,
    pub name: String,
    pub value: Option<Box<Node>>,
    pub expression_l: Loc,
}

/// A method call: `recv.method_name(args)`.
#[derive(Debug, PartialEq, Eq)]
pub struct Send {
    pub recv: Option<Box<Node>>,
    pub method_name: String,
    pub args: Vec<Node>,
    pub expression_l: Loc,
}

/// Keyword arguments of a call: `key: value, ...`.
#[derive(Debug, PartialEq, Eq)]
pub struct Kwargs {
    pub pairs: Vec<Node>,
}

/// One `key: value` of a hash or of keyword arguments.
#[derive(Debug, PartialEq, Eq)]
pub struct Pair {
    pub key: Box<Node>,
    pub value: Box<Node>,
}

/// A symbol literal: `:name`.
#[derive(Debug, PartialEq, Eq)]
pub struct Sym {
    pub name: String,
}

/// A string literal.
#[derive(Debug, PartialEq, Eq)]
pub struct Str {
    pub value: String,
}

/// Any other piece of syntax, with the pieces below it in source order.
#[derive(Debug, PartialEq, Eq)]
pub struct Other {
    pub children: Vec<Node>,
}

/// One piece of syntax.
#[derive(Debug, PartialEq, Eq)]
pub enum Node {
    Class(Class),
    Module(Module),
    Const(Const),
    Cbase(Cbase),
    Casgn(Casgn),
    Send(Send),
    Kwargs(Kwargs),
    Pair(Pair),
    Sym(Sym),
    Str(Str),
    Other(Other),
}

impl Loc {
    /// Is this a span of a text of `len` bytes: does it end inside the text,
    /// and not before it begins?
    pub open spec fn within(self, len: int) -> bool {
        self.begin <= self.end && self.end <= len
    }

    /// Is this a span of a text of `len` bytes?
    pub fn is_within(&self, len: usize) -> (r: bool)
        ensures
            r == self.within(len as int),
    {
        self.begin <= self.end && self.end <= len
    }
}

/// Is every span of the tree below an optional node a span of a text of `len` bytes?
pub open spec fn optional_within(node: Option<Box<Node>>, len: int) -> bool
    decreases node,
{
    match node {
        Some(inner) => inner.within(len),
        None => true,
    }
}

/// Is every span of the trees from `from` on a span of a text of `len` bytes?
pub open spec fn all_within(nodes: Seq<Node>, from: int, len: int) -> bool
    decreases nodes, nodes.len() - from,
{
    if 0 <= from < nodes.len() {
        nodes[from].within(len) && all_within(nodes, from + 1, len)
    } else {
        true
    }
}

impl Node {
    /// Is every span of the tree a span of a text of `len` bytes?
    pub open spec fn within(self, len: int) -> bool
        decreases self,
    {
        match self {
            Node::Class(c) => c.name.within(len) && optional_within(c.superclass, len)
                && optional_within(c.body, len),
            Node::Module(m) => m.name.within(len) && optional_within(m.body, len),
            Node::Const(c) => c.expression_l.within(len) && optional_within(c.scope, len),
            Node::Cbase(c) => c.expression_l.within(len),
            Node::Casgn(c) => c.expression_l.within(len) && optional_within(c.scope, len)
                && optional_within(c.value, len),
            Node::Send(s) => s.expression_l.within(len) && optional_within(s.recv, len)
                && all_within(s.args@, 0, len),
            Node::Kwargs(k) => all_within(k.pairs@, 0, len),
            Node::Pair(p) => p.key.within(len) && p.value.within(len),
            Node::Sym(_) => true,
            Node::Str(_) => true,
            Node::Other(o) => all_within(o.children@, 0, len),
        }
    }

    /// Is every span of the tree a span of a text of `len` bytes?
    pub fn is_within(&self, len: usize) -> (r: bool)
        ensures
            r == self.within(len as int),
        decreases self,
    {
        match self {
            Node::Class(c) => c.name.is_within(len) && is_optional_within(&c.superclass, len)
                && is_optional_within(&c.body, len),
            Node::Module(m) => m.name.is_within(len) && is_optional_within(&m.body, len),
            Node::Const(c) => c.expression_l.is_within(len) && is_optional_within(&c.scope, len),
            Node::Cbase(c) => c.expression_l.is_within(len),
            Node::Casgn(c) => c.expression_l.is_within(len) && is_optional_within(&c.scope, len)
                && is_optional_within(&c.value, len),
            Node::Send(s) => s.expression_l.is_within(len) && is_optional_within(&s.recv, len)
                && are_all_within(&s.args, len),
            Node::Kwargs(k) => are_all_within(&k.pairs, len),
            Node::Pair(p) => p.key.is_within(len) && p.value.is_within(len),
            Node::Sym(_) => true,
            Node::Str(_) => true,
            Node::Other(o) => are_all_within(&o.children, len),
        }
    }
}

/// Is every span of the tree below an optional node a span of a text of `len` bytes?
pub fn is_optional_within(node: &Option<Box<Node>>, len: usize) -> (r: bool)
    ensures
        r == optional_within(*node, len as int),
    decreases node,
{
    match node {
        Some(inner) => inner.is_within(len),
        None => true,
    }
}

/// Is every span of the trees a span of a text of `len` bytes?
pub fn are_all_within(nodes: &Vec<Node>, len: usize) -> (r: bool)
    ensures
        r == all_within(nodes@, 0, len as int),
    decreases nodes,
{
    let mut i: usize = nodes.len();
    while i > 0
        invariant
            i <= nodes.len(),
            all_within(nodes@, i as int, len as int),
        decreases i,
    {
        i -= 1;
        if !nodes[i].is_within(len) {
            proof {
                lemma_one_outside(nodes@, i as int, len as int);
            }
            return false;
        }
    }
    true
}

/// Where one tree holds what is no span of the text, the trees together do.
pub proof fn lemma_one_outside(nodes: Seq<Node>, i: int, len: int)
    requires
        0 <= i < nodes.len(),
        !nodes[i].within(len),
    ensures
        !all_within(nodes, 0, len),
{
    lemma_outside_from(nodes, 0, i, len);
}

proof fn lemma_outside_from(nodes: Seq<Node>, from: int, i: int, len: int)
    requires
        0 <= from <= i < nodes.len(),
        !nodes[i].within(len),
    ensures
        !all_within(nodes, from, len),
    decreases i - from,
{
    if from < i {
        lemma_outside_from(nodes, from + 1, i, len);
    }
}

} // verus!
