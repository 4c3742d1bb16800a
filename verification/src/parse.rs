//! Parsing Rust source text with `syn` into the syntax model of
//! [`crate::syntax`].
//!
//! Everything here is trusted: the parser is `syn::parse_file`, its tree is
//! walked with `syn`'s own `Visit` traversal, and each node the rules read
//! is converted one for one into the model. What the conversion keeps, and
//! in which order, is described in [`crate::syntax`].

use syn::spanned::Spanned;
use syn::visit::Visit;
use vstd::prelude::*;

use crate::syntax::{
    body_lines_positive, Attribute, BodyNode, ExprCall, ExprNode, FnBody, FnVisibility, ImplBlock, ImplFn, ImplMember,
    ItemPath, LetStmt, MethodCall, PathSegment, Pattern, SourceFile,
};

verus! {

#[verifier::external_type_specification]
#[verifier::external_body]
pub struct ExSynItemImpl(syn::ItemImpl);

#[verifier::external_type_specification]
#[verifier::external_body]
pub struct ExSynImplItem(syn::ImplItem);

#[verifier::external_type_specification]
#[verifier::external_body]
pub struct ExSynVisibility(syn::Visibility);

#[verifier::external_type_specification]
#[verifier::external_body]
pub struct ExSynBlock(syn::Block);

#[verifier::external_type_specification]
#[verifier::external_body]
pub struct ExSynExprMethodCall(syn::ExprMethodCall);

#[verifier::external_type_specification]
#[verifier::external_body]
pub struct ExSynExpr(syn::Expr);

#[verifier::external_type_specification]
#[verifier::external_body]
pub struct ExSynPath(syn::Path);

#[verifier::external_type_specification]
#[verifier::external_body]
pub struct ExSynPat(syn::Pat);

#[verifier::external_type_specification]
#[verifier::external_body]
pub struct ExSynLocal(syn::Local);

/// What `syn::parse_file` makes of a source text, in the syntax model: the
/// model of the parsed file, or the parser's error message.
pub uninterp spec fn parsed_source(source: Seq<char>) -> Result<SourceFile, Seq<char>>;

/// A text short enough for the parser's source positions: proc-macro2
/// numbers the characters of the text being parsed with 32-bit offsets
/// starting at 1, which must not overflow.
pub open spec fn fits_parser(source: Seq<char>) -> bool {
    source.len() < u32::MAX
}

/// Parses Rust source text with `syn::parse_file`. On success, gives the
/// syntax model of the file; on failure, the parser's message
/// (`syn::Error`'s `Display`).
///
/// Before parsing, `proc_macro2::extra::invalidate_current_thread_spans`
/// clears the thread's table of earlier parsed texts, as proc-macro2
/// documents for programs that parse many files on one thread: source
/// positions then start afresh, so they cannot wrap and the result does
/// not depend on earlier calls. No span of an earlier parse outlives it.
///
/// Trusted: the result is `parsed_source(source)`, a function of the text
/// alone; and every recorded line is at least 1, as
/// `proc_macro2::LineColumn::line` is documented to be 1-indexed. Nothing
/// further about the parser is stated; in particular `syn`'s parser and
/// the walk are recursive, and no bound is stated on how deeply nested a
/// text can be before they exhaust the thread's stack.
#[verifier::external_body]
pub fn parse_source(source: &str) -> (r: Result<SourceFile, String>)
    requires
        fits_parser(source@),
    ensures
        match r {
            Ok(f) => parsed_source(source@) == Ok::<SourceFile, Seq<char>>(f) && body_lines_positive(
                f,
            ),
            Err(m) => parsed_source(source@) == Err::<SourceFile, Seq<char>>(m@),
        },
{
    proc_macro2::extra::invalidate_current_thread_spans();
    match syn::parse_file(source) {
        Ok(ast) => {
            let mut collector = ImplCollector { impls: Vec::new() };
            collector.visit_file(&ast);
            Ok(SourceFile { impls: collector.impls })
        },
        Err(error) => Err(error.to_string()),
    }
}

/// Collects every impl block of a file, each before those nested in it.
struct ImplCollector {
    impls: Vec<ImplBlock>,
}

impl<'ast> Visit<'ast> for ImplCollector {
    /// Records the impl block, then walks into it with `syn::visit`.
    #[verifier::external_body]
    fn visit_item_impl(&mut self, node: &'ast syn::ItemImpl) {
        self.impls.push(convert_impl(node));
        syn::visit::visit_item_impl(self, node);
    }
}

/// Flattens a function body: every method call in `syn::visit` order, and
/// each `let` after the nodes of its initializer.
struct BodyCollector {
    nodes: Vec<BodyNode>,
}

impl<'ast> Visit<'ast> for BodyCollector {
    /// Records the method call, then walks its receiver and arguments.
    #[verifier::external_body]
    fn visit_expr_method_call(&mut self, node: &'ast syn::ExprMethodCall) {
        self.nodes.push(BodyNode::MethodCall(convert_method_call(node)));
        syn::visit::visit_expr_method_call(self, node);
    }

    /// Walks the `let` statement, then records it.
    #[verifier::external_body]
    fn visit_local(&mut self, node: &'ast syn::Local) {
        syn::visit::visit_local(self, node);
        let init = node.init.as_ref().map(|init| convert_expr(&init.expr));
        self.nodes.push(BodyNode::Local(LetStmt { pat: convert_pattern(&node.pat), init }));
    }
}

/// Converts a `syn::ItemImpl`: the path of each attribute, and each item,
/// a function with its visibility, name and flattened body.
#[verifier::external_body]
fn convert_impl(node: &syn::ItemImpl) -> ImplBlock {
    let attrs = node.attrs.iter().map(|a| Attribute { path: convert_path(a.path()) }).collect();
    let items = node.items.iter().map(|item| match item {
        syn::ImplItem::Fn(f) => ImplMember::Fn(ImplFn {
            vis: convert_visibility(&f.vis),
            ident: f.sig.ident.to_string(),
            block: convert_body(&f.block),
        }),
        _ => ImplMember::Other,
    }).collect();
    ImplBlock { attrs, items }
}

/// Flattens a `syn::Block` with [`BodyCollector`].
#[verifier::external_body]
fn convert_body(block: &syn::Block) -> FnBody {
    let mut collector = BodyCollector { nodes: Vec::new() };
    collector.visit_block(block);
    FnBody { nodes: collector.nodes }
}

/// Converts a `syn::Visibility`, variant for variant.
#[verifier::external_body]
fn convert_visibility(vis: &syn::Visibility) -> FnVisibility {
    match vis {
        syn::Visibility::Public(_) => FnVisibility::Public,
        syn::Visibility::Restricted(_) => FnVisibility::Restricted,
        syn::Visibility::Inherited => FnVisibility::Inherited,
    }
}

/// Converts a `syn::Path`: leading `::`, and each segment's identifier and
/// whether it has generic arguments.
#[verifier::external_body]
fn convert_path(path: &syn::Path) -> ItemPath {
    let segments = path.segments.iter().map(|s| PathSegment {
        ident: s.ident.to_string(),
        has_arguments: !s.arguments.is_none(),
    }).collect();
    ItemPath { leading_colon: path.leading_colon.is_some(), segments }
}

/// Converts a `syn::ExprMethodCall`: its receiver, its method's name, and
/// the line on which the method's name starts.
#[verifier::external_body]
fn convert_method_call(node: &syn::ExprMethodCall) -> MethodCall {
    MethodCall {
        receiver: Box::new(convert_expr(&node.receiver)),
        method: node.method.to_string(),
        line: node.method.span().start().line,
    }
}

/// Converts a `syn::Expr`: method calls, calls and paths, and every other
/// expression as `Other`.
#[verifier::external_body]
fn convert_expr(expr: &syn::Expr) -> ExprNode {
    match expr {
        syn::Expr::MethodCall(c) => ExprNode::MethodCall(convert_method_call(c)),
        syn::Expr::Call(c) => ExprNode::Call(ExprCall { func: Box::new(convert_expr(&c.func)) }),
        syn::Expr::Path(p) => ExprNode::Path(convert_path(&p.path)),
        _ => ExprNode::Other,
    }
}

/// Converts a `syn::Pat`: identifier and typed patterns, every other
/// pattern as `Other`.
#[verifier::external_body]
fn convert_pattern(pat: &syn::Pat) -> Pattern {
    match pat {
        syn::Pat::Ident(binding) => Pattern::Ident(binding.ident.to_string()),
        syn::Pat::Type(typed) => Pattern::Type(Box::new(convert_pattern(&typed.pat))),
        _ => Pattern::Other,
    }
}

} // verus!
