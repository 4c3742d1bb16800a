//! SG001 — Storage mutation without authorization.
//!
//! Flags an entry point (`pub fn` inside a `#[contractimpl]` impl block) that
//! mutates contract storage — via an `env.storage()` chain — without a
//! `require_auth()` / `require_auth_for_args()` call on a strictly earlier
//! line of the same function body.
//!
//! Detection is deliberately syntax-level and line-based: method calls are
//! matched by name and receiver shape, with no control-flow or dataflow
//! analysis.

use vstd::prelude::*;
use vstd::string::*;

use crate::finding::{finding_views, Finding, FindingView};
use crate::rules::common::{
    collect_body_events, entry_points, kind_label, spec_auth_lines, spec_entry_points,
    spec_mutations, StorageKind, StorageMutation,
};
use crate::syntax::{ImplFn, SourceFile};

verus! {

/// Some authorization call lies on a line strictly before `line`.
pub open spec fn authorized_before(auth_lines: Seq<usize>, line: usize) -> bool {
    exists|k: int| 0 <= k < auth_lines.len() && auth_lines[k] < line
}

/// The first mutation, in walk order, with no authorization call on an
/// earlier line.
pub open spec fn first_unauthorized(
    mutations: Seq<StorageMutation>,
    auth_lines: Seq<usize>,
) -> Option<StorageMutation>
    decreases mutations.len(),
{
    if mutations.len() == 0 {
        None
    } else if !authorized_before(auth_lines, mutations[0].line) {
        Some(mutations[0])
    } else {
        first_unauthorized(mutations.drop_first(), auth_lines)
    }
}

/// The message of an SG001 finding.
pub open spec fn sg001_message(function: Seq<char>, kind: StorageKind) -> Seq<char> {
    "Entry point '"@ + function + "' mutates "@ + kind_label(kind)
        + " storage without a preceding require_auth() call."@
}

/// The SG001 finding of one entry point, if any.
pub open spec fn spec_check_entry_point(method: ImplFn, file: Seq<char>) -> Option<
    FindingView,
> {
    let nodes = method.block.nodes@;
    match first_unauthorized(spec_mutations(nodes), spec_auth_lines(nodes)) {
        Some(m) => Some(
            FindingView {
                rule_id: "SG001"@,
                severity: "high"@,
                file,
                line: m.line,
                function: method.ident@,
                message: sg001_message(method.ident@, m.kind),
            },
        ),
        None => None,
    }
}

/// The SG001 findings of a sequence of entry points, in order.
pub open spec fn spec_run(methods: Seq<ImplFn>, file: Seq<char>) -> Seq<FindingView>
    decreases methods.len(),
{
    if methods.len() == 0 {
        seq![]
    } else {
        let rest = spec_run(methods.drop_last(), file);
        match spec_check_entry_point(methods.last(), file) {
            Some(f) => rest.push(f),
            None => rest,
        }
    }
}

/// Runs the SG001 rule over a parsed file.
pub fn run(ast: &SourceFile, file: &str) -> (findings: Vec<Finding>)
    ensures
        finding_views(findings@) == spec_run(spec_entry_points(ast.impls@), file@),
{
    let methods = entry_points(ast);
    let ghost eps = spec_entry_points(ast.impls@);
    let mut findings: Vec<Finding> = Vec::new();
    let mut i: usize = 0;
    while i < methods.len()
        invariant
            i <= methods@.len(),
            methods@.len() == eps.len(),
            forall|k: int| 0 <= k < methods@.len() ==> *methods@[k] == eps[k],
            finding_views(findings@) == spec_run(eps.take(i as int), file@),
        decreases methods@.len() - i,
    {
        assert(eps.take(i + 1).drop_last() =~= eps.take(i as int));
        assert(eps.take(i + 1).last() == eps[i as int]);
        let ghost prev = findings@;
        if let Some(f) = check_entry_point(methods[i], file) {
            findings.push(f);
            assert(finding_views(findings@) =~= finding_views(prev).push(f@));
        }
        i += 1;
    }
    assert(eps.take(eps.len() as int) =~= eps);
    findings
}

/// Analyzes one entry point; returns a finding if it mutates storage without
/// a preceding auth call.
pub fn check_entry_point(method: &ImplFn, file: &str) -> (r: Option<Finding>)
    ensures
        match r {
            Some(f) => spec_check_entry_point(*method, file@) == Some(f@),
            None => spec_check_entry_point(*method, file@) is None,
        },
{
    let events = collect_body_events(&method.block);
    let ghost muts = events.mutations@;
    let ghost auths = events.auth_lines@;
    assert(muts.skip(0) =~= muts);
    let mut i: usize = 0;
    while i < events.mutations.len()
        invariant
            i <= muts.len(),
            muts == events.mutations@,
            auths == events.auth_lines@,
            muts == spec_mutations(method.block.nodes@),
            auths == spec_auth_lines(method.block.nodes@),
            first_unauthorized(muts, auths) == first_unauthorized(muts.skip(i as int), auths),
        decreases muts.len() - i,
    {
        let mutation = events.mutations[i];
        let mut authorized = false;
        let mut k: usize = 0;
        while k < events.auth_lines.len()
            invariant
                k <= auths.len(),
                auths == events.auth_lines@,
                authorized == exists|j: int| 0 <= j < k && auths[j] < mutation.line,
            decreases auths.len() - k,
        {
            if events.auth_lines[k] < mutation.line {
                authorized = true;
            }
            k += 1;
        }
        assert(muts.skip(i as int)[0] == mutation);
        if !authorized {
            assert(!authorized_before(auths, mutation.line));
            let mut message = String::from_str("Entry point '");
            message.append(method.ident.as_str());
            message.append("' mutates ");
            message.append(mutation.kind.label());
            message.append(" storage without a preceding require_auth() call.");
            assert(message@ =~= sg001_message(method.ident@, mutation.kind));
            let finding = Finding {
                rule_id: String::from_str("SG001"),
                severity: String::from_str("high"),
                file: String::from_str(file),
                line: mutation.line,
                function: String::from_str(method.ident.as_str()),
                message,
            };
            assert(first_unauthorized(muts.skip(i as int), auths) == Some(mutation));
            assert(first_unauthorized(muts, auths) == Some(mutation));
            return Some(finding);
        }
        assert(muts.skip(i as int).drop_first() =~= muts.skip(i + 1));
        i += 1;
    }
    None
}

} // verus!
