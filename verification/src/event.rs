//! The syntax events that the rules read: a walk over a syntax tree enters
//! and leaves nodes, and each node carries, as plain values, what a rule
//! needs of it.

use vstd::prelude::*;

verus! {

/// A place in a source text: byte offset, line and length.
#[derive(Clone, Copy, Debug, PartialEq, Eq, Structural)]
pub struct Locate {
    pub offset: usize,
    pub line: u32,
    pub len: usize,
}

/// A variable named by a declaration or assigned by an assignment, with the
/// place of its identifier.
#[derive(Debug)]
pub struct Variable {
    pub name: String,
    pub locate: Locate,
}

/// The kinds of node that the rules tell apart.
#[derive(Debug)]
pub enum NodeKind {
    /// A module declaration: its identifier, and the path of the file it
    /// stands in, where that is known.
    ModuleDeclaration { identifier: String, path: Option<String> },
    /// A package declaration, with the place of the first parameter
    /// declaration inside it, if there is one.
    PackageDeclaration { parameter: Option<Locate> },
    /// An `always` construct.
    AlwaysConstruct,
    /// A `case` item with a pattern.
    CaseItemNondefault,
    /// The `default` item of a `case` statement.
    CaseItemDefault,
    /// A statement that runs its body only under a condition (`if`/`else`, loops).
    ConditionalStatement,
    /// A declaration inside a block, with the first variable that it declares.
    BlockItemDeclaration { variable: Option<Variable> },
    /// A blocking assignment, with the first variable on its left-hand side.
    BlockingAssignment { variable: Option<Variable> },
    /// A comment and its text.
    Comment { text: String },
    /// Any other node.
    Other,
}

/// A node: its kind and the place where it begins, if it has one.
#[derive(Debug)]
pub struct SyntaxNode {
    pub kind: NodeKind,
    pub locate: Option<Locate>,
}

/// Entering or leaving a node during a walk over a syntax tree.
#[derive(Debug)]
pub enum NodeEvent {
    Enter(SyntaxNode),
    Leave(SyntaxNode),
}

/// What a rule says of one event.
#[derive(Clone, Copy, Debug, PartialEq, Eq, Structural)]
pub enum SyntaxRuleResult {
    Pass,
    /// The rule fails at the node of the event.
    Fail,
    /// The rule fails at the given place.
    FailLocate(Locate),
}

} // verus!
