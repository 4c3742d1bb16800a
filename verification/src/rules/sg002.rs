//! SG002 — Storage mutation after an external contract call (reentrancy
//! ordering).
//!
//! Flags an entry point that mutates its own contract storage on a line
//! after a cross-contract call, instead of before it. Per the
//! checks-effects-interactions pattern, state writes should precede
//! external calls: a callee could re-enter the caller before the caller's
//! own state update lands.
//!
//! Detection is syntax-level and line-based, like SG001.

use vstd::prelude::*;
use vstd::string::*;

use crate::finding::{finding_views, Finding, FindingView};
use crate::rules::common::{
    collect_body_events, entry_points, spec_entry_points, spec_external_call_lines,
    spec_mutations, StorageMutation,
};
use crate::syntax::{ImplFn, SourceFile};

verus! {

/// The smallest element of a non-empty sequence of lines.
pub open spec fn min_line(lines: Seq<usize>) -> usize
    recommends
        lines.len() > 0,
    decreases lines.len(),
{
    if lines.len() <= 1 {
        lines[0]
    } else {
        let rest = min_line(lines.drop_last());
        if lines.last() < rest {
            lines.last()
        } else {
            rest
        }
    }
}

/// The first mutation, in walk order, on a line strictly after `line`.
pub open spec fn first_mutation_after(mutations: Seq<StorageMutation>, line: usize) -> Option<
    StorageMutation,
>
    decreases mutations.len(),
{
    if mutations.len() == 0 {
        None
    } else if line < mutations[0].line {
        Some(mutations[0])
    } else {
        first_mutation_after(mutations.drop_first(), line)
    }
}

/// The message of an SG002 finding.
pub open spec fn sg002_message(function: Seq<char>) -> Seq<char> {
    "Entry point '"@ + function
        + "' mutates storage after an external contract call, which can allow reentrancy if the callee re-enters before state is finalized."@
}

/// The SG002 finding of one entry point, if any: the first mutation on a
/// line after the earliest external call.
pub open spec fn spec_check_entry_point(method: ImplFn, file: Seq<char>) -> Option<
    FindingView,
> {
    let nodes = method.block.nodes@;
    let calls = spec_external_call_lines(nodes);
    if calls.len() == 0 {
        None
    } else {
        match first_mutation_after(spec_mutations(nodes), min_line(calls)) {
            Some(m) => Some(
                FindingView {
                    rule_id: "SG002"@,
                    severity: "high"@,
                    file,
                    line: m.line,
                    function: method.ident@,
                    message: sg002_message(method.ident@),
                },
            ),
            None => None,
        }
    }
}

/// The SG002 findings of a sequence of entry points, in order.
pub open spec fn spec_run(methods: Seq<ImplFn>, file: Seq<char>) -> Seq<FindingView>
    decreases methods.len(),
{
    if methods.len() == 0 {
        seq![]
    } else {
        let rest = spec_run(methods.drop_last(), file);
        match spec_check_entry_point(methods.last(), file) {
            Some(f) => rest.push(f),
            None => rest,
        }
    }
}

/// Runs the SG002 rule over a parsed file.
pub fn run(ast: &SourceFile, file: &str) -> (findings: Vec<Finding>)
    ensures
        finding_views(findings@) == spec_run(spec_entry_points(ast.impls@), file@),
{
    let methods = entry_points(ast);
    let ghost eps = spec_entry_points(ast.impls@);
    let mut findings: Vec<Finding> = Vec::new();
    let mut i: usize = 0;
    while i < methods.len()
        invariant
            i <= methods@.len(),
            methods@.len() == eps.len(),
            forall|k: int| 0 <= k < methods@.len() ==> *methods@[k] == eps[k],
            finding_views(findings@) == spec_run(eps.take(i as int), file@),
        decreases methods@.len() - i,
    {
        assert(eps.take(i + 1).drop_last() =~= eps.take(i as int));
        assert(eps.take(i + 1).last() == eps[i as int]);
        let ghost prev = findings@;
        if let Some(f) = check_entry_point(methods[i], file) {
            findings.push(f);
            assert(finding_views(findings@) =~= finding_views(prev).push(f@));
        }
        i += 1;
    }
    assert(eps.take(eps.len() as int) =~= eps);
    findings
}

/// Analyzes one entry point; returns a finding if an external call
/// precedes a storage mutation.
pub fn check_entry_point(method: &ImplFn, file: &str) -> (r: Option<Finding>)
    ensures
        match r {
            Some(f) => spec_check_entry_point(*method, file@) == Some(f@),
            None => spec_check_entry_point(*method, file@) is None,
        },
{
    let events = collect_body_events(&method.block);
    let ghost calls = events.external_call_lines@;
    let ghost muts = events.mutations@;
    let n = events.external_call_lines.len();
    if n == 0 {
        return None;
    }
    let mut first_external = events.external_call_lines[0];
    let mut k: usize = 1;
    while k < n
        invariant
            1 <= k <= n,
            n == calls.len(),
            calls == events.external_call_lines@,
            first_external == min_line(calls.take(k as int)),
        decreases n - k,
    {
        assert(calls.take(k + 1).drop_last() =~= calls.take(k as int));
        if events.external_call_lines[k] < first_external {
            first_external = events.external_call_lines[k];
        }
        k += 1;
    }
    assert(calls.take(n as int) =~= calls);
    assert(muts.skip(0) =~= muts);
    let mut i: usize = 0;
    while i < events.mutations.len()
        invariant
            i <= muts.len(),
            muts == events.mutations@,
            muts == spec_mutations(method.block.nodes@),
            calls == spec_external_call_lines(method.block.nodes@),
            calls.len() > 0,
            first_external == min_line(calls),
            first_mutation_after(muts, first_external) == first_mutation_after(
                muts.skip(i as int),
                first_external,
            ),
        decreases muts.len() - i,
    {
        let mutation = events.mutations[i];
        assert(muts.skip(i as int)[0] == mutation);
        if first_external < mutation.line {
            let mut message = String::from_str("Entry point '");
            message.append(method.ident.as_str());
            message.append(
                "' mutates storage after an external contract call, which can allow reentrancy if the callee re-enters before state is finalized.",
            );
            assert(message@ =~= sg002_message(method.ident@));
            let finding = Finding {
                rule_id: String::from_str("SG002"),
                severity: String::from_str("high"),
                file: String::from_str(file),
                line: mutation.line,
                function: String::from_str(method.ident.as_str()),
                message,
            };
            assert(first_mutation_after(muts, first_external) == Some(mutation));
            return Some(finding);
        }
        assert(muts.skip(i as int).drop_first() =~= muts.skip(i + 1));
        i += 1;
    }
    None
}

} // verus!
