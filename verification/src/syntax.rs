//! A plain model of the parts of a parsed Rust source file that the rules
//! read: impl blocks with their attributes and functions, and, for each
//! function body, the method calls and `let` bindings it contains.
//! [`crate::parse::parse_source`] builds it from source text.
//!
//! A body is flattened: every method call anywhere in the body (inside
//! branches, loops, closures, nested blocks and items, receivers and
//! arguments alike) is one node, in the order `syn`'s depth-first
//! traversal meets it (a call before the calls in its receiver, those
//! before the calls in its arguments); a `let` statement is one node placed
//! after the nodes of its initializer. So everything a body contains
//! belongs to the function that encloses it.

use vstd::prelude::*;

verus! {

/// One segment of a path, e.g. `Client` in `pool::Client::new`.
pub struct PathSegment {
    /// The segment's identifier, as written.
    pub ident: String,
    /// Whether the segment carries generic arguments (`Foo::<T>`).
    pub has_arguments: bool,
}

/// A path such as `env`, `PoolClient::new` or `::core::mem::swap`.
pub struct ItemPath {
    /// Whether the path starts with `::`.
    pub leading_colon: bool,
    pub segments: Vec<PathSegment>,
}

/// An outer attribute such as `#[contractimpl]`; only its path is kept.
pub struct Attribute {
    pub path: ItemPath,
}

/// The visibility of an item.
pub enum FnVisibility {
    /// `pub`
    Public,
    /// `pub(crate)`, `pub(super)`, `pub(in path)`
    Restricted,
    /// No visibility keyword.
    Inherited,
}

/// An expression, kept as deep as the rules look into it.
pub enum ExprNode {
    /// `receiver.method(args)`
    MethodCall(MethodCall),
    /// `func(args)`
    Call(ExprCall),
    /// A path expression such as `env` or `PoolClient::new`.
    Path(ItemPath),
    /// Any other expression.
    Other,
}

/// A method call `receiver.method(...)`.
pub struct MethodCall {
    pub receiver: Box<ExprNode>,
    /// The method's name.
    pub method: String,
    /// 1-based line of the method name.
    pub line: usize,
}

/// A function call `func(...)`.
pub struct ExprCall {
    pub func: Box<ExprNode>,
}

/// The pattern of a `let` statement.
pub enum Pattern {
    /// A binding such as `client` or `mut client`.
    Ident(String),
    /// A typed pattern `pat: Type`.
    Type(Box<Pattern>),
    /// Any other pattern.
    Other,
}

/// A `let` statement.
pub struct LetStmt {
    pub pat: Pattern,
    /// The initializer, if any.
    pub init: Option<ExprNode>,
}

/// One node of a flattened function body.
pub enum BodyNode {
    MethodCall(MethodCall),
    Local(LetStmt),
}

/// A flattened function body.
pub struct FnBody {
    pub nodes: Vec<BodyNode>,
}

/// A function inside an impl block.
pub struct ImplFn {
    pub vis: FnVisibility,
    /// The function's name.
    pub ident: String,
    pub block: FnBody,
}

/// An item inside an impl block.
pub enum ImplMember {
    Fn(ImplFn),
    /// A constant, type, macro or other non-function item.
    Other,
}

/// An impl block.
pub struct ImplBlock {
    pub attrs: Vec<Attribute>,
    pub items: Vec<ImplMember>,
}

/// A parsed source file: every impl block in it, nested ones included
/// (inside modules, functions and other impls), each listed before the ones
/// nested within it, in source order.
pub struct SourceFile {
    pub impls: Vec<ImplBlock>,
}

/// The single identifier a path consists of, if it is one: no leading
/// `::`, one segment, no generic arguments.
pub open spec fn path_ident(p: ItemPath) -> Option<Seq<char>> {
    if !p.leading_colon && p.segments@.len() == 1 && !p.segments@[0].has_arguments {
        Some(p.segments@[0].ident@)
    } else {
        None
    }
}

/// A method-call node lies on a line numbered from 1.
pub open spec fn call_line_positive(node: BodyNode) -> bool {
    match node {
        BodyNode::MethodCall(c) => c.line >= 1,
        BodyNode::Local(_) => true,
    }
}

/// Every method call of the function's body lies on a line numbered from 1.
pub open spec fn fn_lines_positive(f: ImplFn) -> bool {
    forall|k: int| 0 <= k < f.block.nodes@.len() ==> call_line_positive(#[trigger] f.block.nodes@[k])
}

/// A function member's calls lie on lines numbered from 1.
pub open spec fn member_lines_positive(m: ImplMember) -> bool {
    match m {
        ImplMember::Fn(f) => fn_lines_positive(f),
        ImplMember::Other => true,
    }
}

/// The calls of every function of the impl block lie on lines numbered
/// from 1.
pub open spec fn impl_lines_positive(b: ImplBlock) -> bool {
    forall|j: int| 0 <= j < b.items@.len() ==> member_lines_positive(#[trigger] b.items@[j])
}

/// The line of every method call in every function body of the file is at
/// least 1.
pub open spec fn body_lines_positive(file: SourceFile) -> bool {
    forall|i: int| 0 <= i < file.impls@.len() ==> impl_lines_positive(#[trigger] file.impls@[i])
}

} // verus!
