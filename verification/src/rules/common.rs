//! Shared primitives used by every rule: entry-point discovery,
//! storage-mutation detection, external-call detection and body walking.
//! Every file is checked by both rules, SG001 and SG002 (see
//! [`crate::check_parsed`]).
//!
//! A cross-contract call is recognised in three forms: `invoke_contract`
//! or `try_invoke_contract` on any receiver; a call chained on a
//! generated-client constructor, `XxxClient::new(..).method(..)`; and a
//! call on a variable bound by `let` to such a constructor,
//! `let c = XxxClient::new(..); c.method(..)`. The third form looks the
//! variable up in the flattened body, where the latest `let` of that name
//! before the call decides; block scopes are not modelled, so a name
//! rebound only inside an inner block counts as rebound for the rest of
//! the body.

use vstd::prelude::*;
use vstd::string::*;

use crate::syntax::{
    path_ident, Attribute, FnBody, BodyNode, ExprNode, MethodCall, ImplMember, ImplFn, ImplBlock,
    Pattern, ItemPath, PathSegment, SourceFile, FnVisibility,
};
use crate::text::{seq_ends_with, str_ends_with, str_eq};

verus! {

/// Method names that perform authorization on an `Address`.
pub open spec fn is_auth_method(m: Seq<char>) -> bool {
    m == "require_auth"@ || m == "require_auth_for_args"@
}

/// Method names that mutate state on `Persistent` / `Instance` /
/// `Temporary` storage handles (`put` is the older name of `set`).
pub open spec fn is_mutating_method(m: Seq<char>) -> bool {
    ||| m == "set"@
    ||| m == "put"@
    ||| m == "remove"@
    ||| m == "update"@
    ||| m == "try_update"@
    ||| m == "extend_ttl"@
    ||| m == "extend_ttl_with_limits"@
}

/// `Storage` accessors that select the storage kind.
pub open spec fn is_storage_accessor(m: Seq<char>) -> bool {
    m == "persistent"@ || m == "instance"@ || m == "temporary"@
}

/// Cross-contract call method names on `Env`: `invoke_contract` and its
/// fallible variant `try_invoke_contract`.
pub open spec fn is_external_call_method(m: Seq<char>) -> bool {
    m == "invoke_contract"@ || m == "try_invoke_contract"@
}

pub fn is_auth_method_name(m: &str) -> (r: bool)
    ensures
        r == is_auth_method(m@),
{
    str_eq(m, "require_auth") || str_eq(m, "require_auth_for_args")
}

pub fn is_mutating_method_name(m: &str) -> (r: bool)
    ensures
        r == is_mutating_method(m@),
{
    str_eq(m, "set") || str_eq(m, "put") || str_eq(m, "remove") || str_eq(m, "update")
        || str_eq(m, "try_update") || str_eq(m, "extend_ttl") || str_eq(
        m,
        "extend_ttl_with_limits",
    )
}

pub fn is_storage_accessor_name(m: &str) -> (r: bool)
    ensures
        r == is_storage_accessor(m@),
{
    str_eq(m, "persistent") || str_eq(m, "instance") || str_eq(m, "temporary")
}

pub fn is_external_call_method_name(m: &str) -> (r: bool)
    ensures
        r == is_external_call_method(m@),
{
    str_eq(m, "invoke_contract") || str_eq(m, "try_invoke_contract")
}

/// Which storage kind a mutating call targets.
#[derive(Debug, Clone, Copy, PartialEq, Eq)]
pub enum StorageKind {
    Persistent,
    Instance,
    Temporary,
    /// `env.storage()` without a recognized accessor.
    Contract,
}

/// The word that names a storage kind in messages.
pub open spec fn kind_label(kind: StorageKind) -> Seq<char> {
    match kind {
        StorageKind::Persistent => "persistent"@,
        StorageKind::Instance => "instance"@,
        StorageKind::Temporary => "temporary"@,
        StorageKind::Contract => "contract"@,
    }
}

impl StorageKind {
    pub fn label(self) -> (r: &'static str)
        ensures
            r@ == kind_label(self),
    {
        match self {
            StorageKind::Persistent => "persistent",
            StorageKind::Instance => "instance",
            StorageKind::Temporary => "temporary",
            StorageKind::Contract => "contract",
        }
    }
}

/// `expr` is exactly `env.storage()`.
pub open spec fn spec_is_env_storage(expr: ExprNode) -> bool {
    match expr {
        ExprNode::MethodCall(call) => call.method@ == "storage"@ && match *call.receiver {
            ExprNode::Path(p) => path_ident(p) == Some("env"@),
            _ => false,
        },
        _ => false,
    }
}

/// The storage kind that an accessor name selects.
pub open spec fn accessor_kind(m: Seq<char>) -> StorageKind {
    if m == "persistent"@ {
        StorageKind::Persistent
    } else if m == "instance"@ {
        StorageKind::Instance
    } else {
        StorageKind::Temporary
    }
}

/// The storage kind targeted by `call` if it is a mutating method reached
/// through `env.storage().persistent()/instance()/temporary()`, or directly
/// through `env.storage()` (kind `Contract`).
pub open spec fn spec_storage_mutation(call: MethodCall) -> Option<StorageKind> {
    if !is_mutating_method(call.method@) {
        None
    } else {
        match *call.receiver {
            ExprNode::MethodCall(accessor) => {
                if !is_storage_accessor(accessor.method@) {
                    if spec_is_env_storage(*call.receiver) {
                        Some(StorageKind::Contract)
                    } else {
                        None
                    }
                } else if !spec_is_env_storage(*accessor.receiver) {
                    None
                } else {
                    Some(accessor_kind(accessor.method@))
                }
            },
            _ => None,
        }
    }
}

/// The identifiers of `segs` joined by `::`.
pub open spec fn joined_idents(segs: Seq<PathSegment>) -> Seq<char>
    decreases segs.len(),
{
    if segs.len() == 0 {
        seq![]
    } else if segs.len() == 1 {
        segs[0].ident@
    } else {
        joined_idents(segs.drop_last()) + "::"@ + segs.last().ident@
    }
}

/// `expr` is a generated-client constructor call such as
/// `XxxClient::new(&env, &addr)` or `contract_a::Client::new(&env, &addr)`:
/// a call of a path whose last segment is `new` and whose other segments,
/// joined by `::`, end with `Client`.
pub open spec fn spec_is_client_constructor(expr: ExprNode) -> bool {
    match expr {
        ExprNode::Call(call) => match *call.func {
            ExprNode::Path(p) => {
                &&& p.segments@.len() > 0
                &&& p.segments@.last().ident@ == "new"@
                &&& seq_ends_with(joined_idents(p.segments@.drop_last()), "Client"@)
            },
            _ => false,
        },
        _ => false,
    }
}

/// The pattern binds the variable `name`.
pub open spec fn pat_binds(p: Pattern, name: Seq<char>) -> bool
    decreases p,
{
    match p {
        Pattern::Ident(n) => n@ == name,
        Pattern::Type(inner) => pat_binds(*inner, name),
        Pattern::Other => false,
    }
}

/// In a body prefix, the latest `let` that binds `name` is initialized by a
/// generated-client constructor.
pub open spec fn client_bound(nodes: Seq<BodyNode>, name: Seq<char>) -> bool
    decreases nodes.len(),
{
    if nodes.len() == 0 {
        false
    } else {
        match nodes.last() {
            BodyNode::Local(l) => if pat_binds(l.pat, name) {
                match l.init {
                    Some(e) => spec_is_client_constructor(e),
                    None => false,
                }
            } else {
                client_bound(nodes.drop_last(), name)
            },
            _ => client_bound(nodes.drop_last(), name),
        }
    }
}

/// A method call, preceded in its body by `prior`, is a cross-contract
/// call: `invoke_contract` / `try_invoke_contract` on any receiver, a call
/// chained on a client constructor, or a call on a variable that `prior`
/// last bound to a client constructor.
pub open spec fn spec_is_external_call(prior: Seq<BodyNode>, call: MethodCall) -> bool {
    ||| is_external_call_method(call.method@)
    ||| spec_is_client_constructor(*call.receiver)
    ||| match *call.receiver {
        ExprNode::Path(p) => match path_ident(p) {
            Some(x) => client_bound(prior, x),
            None => false,
        },
        _ => false,
    }
}

/// Returns the single identifier `p` consists of, if any.
pub fn get_ident(p: &ItemPath) -> (r: Option<&String>)
    ensures
        r matches Some(s) ==> path_ident(*p) == Some(s@),
        r is None ==> path_ident(*p) is None,
{
    if !p.leading_colon && p.segments.len() == 1 && !p.segments[0].has_arguments {
        Some(&p.segments[0].ident)
    } else {
        None
    }
}

/// Whether `p` is exactly the identifier `name`.
pub fn is_ident(p: &ItemPath, name: &str) -> (r: bool)
    ensures
        r == (path_ident(*p) == Some(name@)),
{
    match get_ident(p) {
        Some(s) => str_eq(s.as_str(), name),
        None => false,
    }
}

/// True when `expr` is exactly `env.storage()`.
pub fn is_env_storage(expr: &ExprNode) -> (r: bool)
    ensures
        r == spec_is_env_storage(*expr),
{
    match expr {
        ExprNode::MethodCall(call) => {
            if !str_eq(call.method.as_str(), "storage") {
                return false;
            }
            match &*call.receiver {
                ExprNode::Path(p) => is_ident(p, "env"),
                _ => false,
            }
        },
        _ => false,
    }
}

/// Returns the storage kind targeted by `call` if it is a mutating method
/// reached through an `env.storage()` chain, else `None`.
pub fn storage_mutation_of(call: &MethodCall) -> (r: Option<StorageKind>)
    ensures
        r == spec_storage_mutation(*call),
{
    if !is_mutating_method_name(call.method.as_str()) {
        return None;
    }
    let accessor = match &*call.receiver {
        ExprNode::MethodCall(accessor) => accessor,
        _ => {
            return None;
        },
    };
    if !is_storage_accessor_name(accessor.method.as_str()) {
        return if is_env_storage(&call.receiver) {
            Some(StorageKind::Contract)
        } else {
            None
        };
    }
    if !is_env_storage(&accessor.receiver) {
        return None;
    }
    if str_eq(accessor.method.as_str(), "persistent") {
        Some(StorageKind::Persistent)
    } else if str_eq(accessor.method.as_str(), "instance") {
        Some(StorageKind::Instance)
    } else {
        Some(StorageKind::Temporary)
    }
}

/// The identifiers of the first `n` segments joined by `::`.
fn join_idents(segs: &Vec<PathSegment>, n: usize) -> (r: String)
    requires
        n <= segs@.len(),
    ensures
        r@ == joined_idents(segs@.take(n as int)),
{
    let mut r = String::new();
    let mut i: usize = 0;
    while i < n
        invariant
            n <= segs@.len(),
            i <= n,
            r@ == joined_idents(segs@.take(i as int)),
        decreases n - i,
    {
        let ghost prev = r@;
        if i > 0 {
            r.append("::");
        }
        r.append(segs[i].ident.as_str());
        assert(segs@.take(i + 1).drop_last() =~= segs@.take(i as int));
        if i == 0 {
            assert(r@ =~= segs@.take(1)[0].ident@);
        }
        i += 1;
    }
    r
}

/// True when `expr` is a generated-client constructor call such as
/// `XxxClient::new(&env, &addr)`.
pub fn is_client_constructor(expr: &ExprNode) -> (r: bool)
    ensures
        r == spec_is_client_constructor(*expr),
{
    let call = match expr {
        ExprNode::Call(call) => call,
        _ => {
            return false;
        },
    };
    let path = match &*call.func {
        ExprNode::Path(p) => p,
        _ => {
            return false;
        },
    };
    let n = path.segments.len();
    if n == 0 {
        return false;
    }
    if !str_eq(path.segments[n - 1].ident.as_str(), "new") {
        return false;
    }
    let parent = join_idents(&path.segments, n - 1);
    assert(path.segments@.take(n - 1) =~= path.segments@.drop_last());
    str_ends_with(parent.as_str(), "Client")
}

/// True when `call` is chained on a generated-client constructor, as in
/// `XxxClient::new(&env, &addr).method(...)`.
fn is_client_call(call: &MethodCall) -> (r: bool)
    ensures
        r == spec_is_client_constructor(*call.receiver),
{
    is_client_constructor(&call.receiver)
}

/// Whether pattern `p` binds the variable `name`.
fn pat_binds_name(p: &Pattern, name: &str) -> (r: bool)
    ensures
        r == pat_binds(*p, name@),
    decreases p,
{
    match p {
        Pattern::Ident(n) => str_eq(n.as_str(), name),
        Pattern::Type(inner) => pat_binds_name(inner, name),
        Pattern::Other => false,
    }
}

/// Whether, among the first `i` nodes, the latest `let` binding `name`
/// is initialized by a client constructor.
fn is_client_variable(nodes: &Vec<BodyNode>, i: usize, name: &str) -> (r: bool)
    requires
        i <= nodes@.len(),
    ensures
        r == client_bound(nodes@.take(i as int), name@),
{
    let mut j = i;
    while j > 0
        invariant
            j <= i <= nodes@.len(),
            client_bound(nodes@.take(i as int), name@) == client_bound(
                nodes@.take(j as int),
                name@,
            ),
        decreases j,
    {
        assert(nodes@.take(j as int).drop_last() =~= nodes@.take(j - 1));
        assert(nodes@.take(j as int).last() == nodes@[j - 1]);
        if let BodyNode::Local(l) = &nodes[j - 1] {
            if pat_binds_name(&l.pat, name) {
                return match &l.init {
                    Some(e) => is_client_constructor(e),
                    None => false,
                };
            }
        }
        j -= 1;
    }
    false
}

/// A storage-mutating call found in a function body.
#[derive(Debug, Clone, Copy)]
pub struct StorageMutation {
    pub line: usize,
    pub kind: StorageKind,
}

/// Events collected from one function body, with their source line numbers.
#[derive(Debug)]
pub struct BodyEvents {
    /// Lines of `require_auth()` / `require_auth_for_args()` calls.
    pub auth_lines: Vec<usize>,
    /// Storage-mutating calls reached through `env.storage()`.
    pub mutations: Vec<StorageMutation>,
    /// Lines of cross-contract calls (`env.invoke_contract[_...]`, clients).
    pub external_call_lines: Vec<usize>,
}

/// Lines of the authorization calls of a body, in walk order.
pub open spec fn spec_auth_lines(nodes: Seq<BodyNode>) -> Seq<usize>
    decreases nodes.len(),
{
    if nodes.len() == 0 {
        seq![]
    } else {
        let rest = spec_auth_lines(nodes.drop_last());
        match nodes.last() {
            BodyNode::MethodCall(c) => if is_auth_method(c.method@) {
                rest.push(c.line)
            } else {
                rest
            },
            _ => rest,
        }
    }
}

/// The storage mutations of a body, in walk order.
pub open spec fn spec_mutations(nodes: Seq<BodyNode>) -> Seq<StorageMutation>
    decreases nodes.len(),
{
    if nodes.len() == 0 {
        seq![]
    } else {
        let rest = spec_mutations(nodes.drop_last());
        match nodes.last() {
            BodyNode::MethodCall(c) => match spec_storage_mutation(c) {
                Some(kind) => rest.push(StorageMutation { line: c.line, kind }),
                None => rest,
            },
            _ => rest,
        }
    }
}

/// Lines of the cross-contract calls of a body, in walk order.
pub open spec fn spec_external_call_lines(nodes: Seq<BodyNode>) -> Seq<usize>
    decreases nodes.len(),
{
    if nodes.len() == 0 {
        seq![]
    } else {
        let rest = spec_external_call_lines(nodes.drop_last());
        match nodes.last() {
            BodyNode::MethodCall(c) => if spec_is_external_call(nodes.drop_last(), c) {
                rest.push(c.line)
            } else {
                rest
            },
            _ => rest,
        }
    }
}

/// Walks a function body and records auth calls, storage mutations, and
/// external contract calls with their line numbers. The walk is flat:
/// calls in branches, loops and closures all belong to the function.
pub fn collect_body_events(block: &FnBody) -> (events: BodyEvents)
    ensures
        events.auth_lines@ == spec_auth_lines(block.nodes@),
        events.mutations@ == spec_mutations(block.nodes@),
        events.external_call_lines@ == spec_external_call_lines(block.nodes@),
{
    let nodes = &block.nodes;
    let mut auth_lines: Vec<usize> = Vec::new();
    let mut mutations: Vec<StorageMutation> = Vec::new();
    let mut external_call_lines: Vec<usize> = Vec::new();
    let mut i: usize = 0;
    while i < nodes.len()
        invariant
            i <= nodes@.len(),
            auth_lines@ == spec_auth_lines(nodes@.take(i as int)),
            mutations@ == spec_mutations(nodes@.take(i as int)),
            external_call_lines@ == spec_external_call_lines(nodes@.take(i as int)),
        decreases nodes@.len() - i,
    {
        assert(nodes@.take(i + 1).drop_last() =~= nodes@.take(i as int));
        assert(nodes@.take(i + 1).last() == nodes@[i as int]);
        if let BodyNode::MethodCall(node) = &nodes[i] {
            if is_auth_method_name(node.method.as_str()) {
                auth_lines.push(node.line);
            }
            if let Some(kind) = storage_mutation_of(node) {
                mutations.push(StorageMutation { line: node.line, kind });
            }
            let external = if is_external_call_method_name(node.method.as_str()) {
                true
            } else if is_client_call(node) {
                true
            } else {
                match &*node.receiver {
                    ExprNode::Path(p) => match get_ident(p) {
                        Some(x) => is_client_variable(nodes, i, x.as_str()),
                        None => false,
                    },
                    _ => false,
                }
            };
            if external {
                external_call_lines.push(node.line);
            }
        }
        i += 1;
    }
    assert(nodes@.take(nodes@.len() as int) =~= nodes@);
    BodyEvents { auth_lines, mutations, external_call_lines }
}

/// The attribute's path ends in the segment `contractimpl`.
pub open spec fn is_contractimpl_attr(attr: Attribute) -> bool {
    attr.path.segments@.len() > 0 && attr.path.segments@.last().ident@ == "contractimpl"@
}

/// The impl block carries a `#[contractimpl]` attribute (under any path).
pub open spec fn spec_is_contractimpl(node: ImplBlock) -> bool {
    exists|k: int| 0 <= k < node.attrs@.len() && is_contractimpl_attr(#[trigger] node.attrs@[k])
}

/// The `pub fn` items among the items of an impl block, in order.
pub open spec fn public_fns(items: Seq<ImplMember>) -> Seq<ImplFn>
    decreases items.len(),
{
    if items.len() == 0 {
        seq![]
    } else {
        let rest = public_fns(items.drop_last());
        match items.last() {
            ImplMember::Fn(f) => if f.vis is Public {
                rest.push(f)
            } else {
                rest
            },
            _ => rest,
        }
    }
}

/// All entry points of a sequence of impl blocks: the `pub fn` items of
/// the `#[contractimpl]` blocks, in order.
pub open spec fn spec_entry_points(impls: Seq<ImplBlock>) -> Seq<ImplFn>
    decreases impls.len(),
{
    if impls.len() == 0 {
        seq![]
    } else {
        let rest = spec_entry_points(impls.drop_last());
        if spec_is_contractimpl(impls.last()) {
            rest + public_fns(impls.last().items@)
        } else {
            rest
        }
    }
}

/// Whether the impl block carries a `#[contractimpl]` attribute.
pub fn is_contractimpl_impl(node: &ImplBlock) -> (r: bool)
    ensures
        r == spec_is_contractimpl(*node),
{
    let mut k: usize = 0;
    while k < node.attrs.len()
        invariant
            k <= node.attrs@.len(),
            forall|j: int| 0 <= j < k ==> !is_contractimpl_attr(#[trigger] node.attrs@[j]),
        decreases node.attrs@.len() - k,
    {
        let segments = &node.attrs[k].path.segments;
        if segments.len() > 0 && str_eq(segments[segments.len() - 1].ident.as_str(), "contractimpl") {
            assert(is_contractimpl_attr(node.attrs@[k as int]));
            return true;
        }
        k += 1;
    }
    false
}

/// Whether the visibility is plain `pub`.
pub fn is_public(vis: &FnVisibility) -> (r: bool)
    ensures
        r == (*vis is Public),
{
    match vis {
        FnVisibility::Public => true,
        _ => false,
    }
}

/// All entry points in a parsed file: `pub fn` items of `#[contractimpl]`
/// impl blocks (including impls nested inside modules).
pub fn entry_points(ast: &SourceFile) -> (methods: Vec<&ImplFn>)
    ensures
        methods@.len() == spec_entry_points(ast.impls@).len(),
        forall|k: int|
            0 <= k < methods@.len() ==> *methods@[k] == spec_entry_points(ast.impls@)[k],
{
    let impls = &ast.impls;
    let mut methods: Vec<&ImplFn> = Vec::new();
    let mut i: usize = 0;
    while i < impls.len()
        invariant
            i <= impls@.len(),
            methods@.len() == spec_entry_points(impls@.take(i as int)).len(),
            forall|k: int|
                0 <= k < methods@.len() ==> *methods@[k] == spec_entry_points(
                    impls@.take(i as int),
                )[k],
        decreases impls@.len() - i,
    {
        assert(impls@.take(i + 1).drop_last() =~= impls@.take(i as int));
        assert(impls@.take(i + 1).last() == impls@[i as int]);
        let node = &impls[i];
        if is_contractimpl_impl(node) {
            let ghost before = methods@;
            let ghost base = spec_entry_points(impls@.take(i as int));
            let items = &node.items;
            let mut j: usize = 0;
            while j < items.len()
                invariant
                    j <= items@.len(),
                    items == impls@[i as int].items,
                    before.len() == base.len(),
                    forall|k: int| 0 <= k < before.len() ==> *before[k] == base[k],
                    methods@.len() == base.len() + public_fns(items@.take(j as int)).len(),
                    forall|k: int| 0 <= k < before.len() ==> methods@[k] == before[k],
                    forall|k: int|
                        0 <= k < public_fns(items@.take(j as int)).len() ==> *methods@[base.len()
                            + k] == public_fns(items@.take(j as int))[k],
                decreases items@.len() - j,
            {
                assert(items@.take(j + 1).drop_last() =~= items@.take(j as int));
                assert(items@.take(j + 1).last() == items@[j as int]);
                if let ImplMember::Fn(method) = &items[j] {
                    if is_public(&method.vis) {
                        methods.push(method);
                    }
                }
                j += 1;
            }
            assert(items@.take(items@.len() as int) =~= items@);
        }
        i += 1;
    }
    assert(impls@.take(impls@.len() as int) =~= impls@);
    methods
}

} // verus!
