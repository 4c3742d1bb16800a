//! Properties that hold of the rules on every input.

use vstd::prelude::*;

use crate::rules::common::{
    joined_idents, spec_is_client_constructor,
    is_contractimpl_attr, spec_storage_mutation, StorageKind,
    public_fns,
    spec_auth_lines, spec_entry_points, spec_external_call_lines, spec_is_contractimpl,
    spec_mutations, StorageMutation,
};
use crate::finding::FindingView;
use crate::rules::{sg001, sg002};
use crate::syntax::{
    LetStmt, PathSegment, Pattern,
    path_ident, Attribute, ExprNode, MethodCall,
    body_lines_positive, call_line_positive, fn_lines_positive, impl_lines_positive, BodyNode, ImplBlock,
    ImplFn, ImplMember, SourceFile,
};

verus! {

proof fn lemma_first_unauthorized(muts: Seq<StorageMutation>, auths: Seq<usize>)
    ensures
        sg001::first_unauthorized(muts, auths) is Some <==> exists|k: int|
            0 <= k < muts.len() && !sg001::authorized_before(auths, #[trigger] muts[k].line),
        sg001::first_unauthorized(muts, auths) matches Some(m) ==> exists|k: int|
            0 <= k < muts.len() && #[trigger] muts[k] == m && !sg001::authorized_before(
                auths,
                m.line,
            ) && forall|j: int| 0 <= j < k ==> sg001::authorized_before(auths, #[trigger] muts[j].line),
    decreases muts.len(),
{
    if muts.len() > 0 {
        let rest = muts.drop_first();
        lemma_first_unauthorized(rest, auths);
        if sg001::authorized_before(auths, muts[0].line) {
            if exists|k: int| 0 <= k < muts.len() && !sg001::authorized_before(auths, #[trigger] muts[k].line) {
                let k = choose|k: int| 0 <= k < muts.len() && !sg001::authorized_before(auths, #[trigger] muts[k].line);
                assert(rest[k - 1] == muts[k]);
            }
            if let Some(m) = sg001::first_unauthorized(muts, auths) {
                let k = choose|k: int|
                    0 <= k < rest.len() && #[trigger] rest[k] == m && !sg001::authorized_before(auths, m.line)
                        && forall|j: int| 0 <= j < k ==> sg001::authorized_before(auths, #[trigger] rest[j].line);
                assert(muts[k + 1] == m);
                assert forall|j: int| 0 <= j < k + 1 implies sg001::authorized_before(
                    auths,
                    #[trigger] muts[j].line,
                ) by {
                    if j > 0 {
                        assert(muts[j] == rest[j - 1]);
                    }
                }
            }
        }
    }
}

/// Some authorization call lies on a line strictly before `line`.
pub open spec fn has_auth_before(auth_lines: Seq<usize>, line: usize) -> bool {
    exists|a: int| 0 <= a < auth_lines.len() && auth_lines[a] < line
}

/// SG001 flags an entry point exactly when one of its storage mutations
/// has no authorization call on a strictly earlier line; the finding points
/// at the first such mutation in the body and names the entry point.
pub proof fn law_sg001_flags_unauthorized_mutation(method: ImplFn, file: Seq<char>)
    ensures
        ({
            let muts = spec_mutations(method.block.nodes@);
            let auths = spec_auth_lines(method.block.nodes@);
            &&& sg001::spec_check_entry_point(method, file) is Some <==> exists|k: int|
                0 <= k < muts.len() && !has_auth_before(auths, #[trigger] muts[k].line)
            &&& sg001::spec_check_entry_point(method, file) matches Some(f) ==> {
                &&& f.function == method.ident@
                &&& f.file == file
                &&& exists|k: int|
                    0 <= k < muts.len() && #[trigger] muts[k].line == f.line
                        && !has_auth_before(auths, f.line) && forall|j: int|
                        0 <= j < k ==> has_auth_before(auths, #[trigger] muts[j].line)
            }
        }),
{
    let muts = spec_mutations(method.block.nodes@);
    let auths = spec_auth_lines(method.block.nodes@);
    lemma_first_unauthorized(muts, auths);
    if let Some(m) = sg001::first_unauthorized(muts, auths) {
        let k = choose|k: int|
            0 <= k < muts.len() && #[trigger] muts[k] == m && !sg001::authorized_before(auths, m.line)
                && forall|j: int| 0 <= j < k ==> sg001::authorized_before(auths, #[trigger] muts[j].line);
        assert(muts[k].line == m.line);
    }
}

/// An entry point whose every storage mutation follows some authorization
/// call is not flagged by SG001.
pub proof fn law_sg001_auth_before_every_mutation(method: ImplFn, file: Seq<char>)
    requires
        forall|k: int|
            0 <= k < spec_mutations(method.block.nodes@).len() ==> has_auth_before(
                spec_auth_lines(method.block.nodes@),
                #[trigger] spec_mutations(method.block.nodes@)[k].line,
            ),
    ensures
        sg001::spec_check_entry_point(method, file) is None,
{
    law_sg001_flags_unauthorized_mutation(method, file);
}

proof fn lemma_min_line(lines: Seq<usize>)
    requires
        lines.len() > 0,
    ensures
        exists|k: int| 0 <= k < lines.len() && lines[k] == sg002::min_line(lines),
        forall|k: int| 0 <= k < lines.len() ==> sg002::min_line(lines) <= #[trigger] lines[k],
    decreases lines.len(),
{
    if lines.len() == 1 {
        assert(lines[0] == sg002::min_line(lines));
    } else {
        let rest = lines.drop_last();
        lemma_min_line(rest);
        let k0 = choose|k: int| 0 <= k < rest.len() && rest[k] == sg002::min_line(rest);
        assert(lines[k0] == rest[k0]);
        assert(lines[lines.len() - 1] == lines.last());
        if lines.last() < sg002::min_line(rest) {
            assert(lines[lines.len() - 1] == sg002::min_line(lines));
        } else {
            assert(lines[k0] == sg002::min_line(lines));
        }
        assert forall|k: int| 0 <= k < lines.len() implies sg002::min_line(lines) <= #[trigger] lines[k] by {
            if k < lines.len() - 1 {
                assert(lines[k] == rest[k]);
            }
        }
    }
}

proof fn lemma_first_mutation_after(muts: Seq<StorageMutation>, line: usize)
    ensures
        sg002::first_mutation_after(muts, line) is Some <==> exists|k: int|
            0 <= k < muts.len() && line < #[trigger] muts[k].line,
        sg002::first_mutation_after(muts, line) matches Some(m) ==> exists|k: int|
            0 <= k < muts.len() && #[trigger] muts[k] == m && line < m.line && forall|j: int|
                0 <= j < k ==> #[trigger] muts[j].line <= line,
    decreases muts.len(),
{
    if muts.len() > 0 {
        let rest = muts.drop_first();
        lemma_first_mutation_after(rest, line);
        if muts[0].line <= line {
            if exists|k: int| 0 <= k < muts.len() && line < #[trigger] muts[k].line {
                let k = choose|k: int| 0 <= k < muts.len() && line < #[trigger] muts[k].line;
                assert(rest[k - 1] == muts[k]);
            }
            if let Some(m) = sg002::first_mutation_after(muts, line) {
                let k = choose|k: int|
                    0 <= k < rest.len() && #[trigger] rest[k] == m && line < m.line && forall|j: int|
                        0 <= j < k ==> #[trigger] rest[j].line <= line;
                assert(muts[k + 1] == m);
                assert forall|j: int| 0 <= j < k + 1 implies #[trigger] muts[j].line <= line by {
                    if j > 0 {
                        assert(muts[j] == rest[j - 1]);
                    }
                }
            }
        }
    }
}

/// Some mutation lies on a line strictly after some call line.
pub open spec fn mutation_after_call(muts: Seq<StorageMutation>, calls: Seq<usize>) -> bool {
    exists|i: int, k: int|
        0 <= i < calls.len() && 0 <= k < muts.len() && #[trigger] calls[i] < #[trigger] muts[k].line
}

/// Mutation `k` is the first, in walk order, on a line strictly after the
/// earliest call line, `calls[i]`.
pub open spec fn first_mutation_after_earliest_call(
    muts: Seq<StorageMutation>,
    calls: Seq<usize>,
    i: int,
    k: int,
) -> bool {
    &&& 0 <= i < calls.len()
    &&& 0 <= k < muts.len()
    &&& forall|i2: int| 0 <= i2 < calls.len() ==> calls[i] <= #[trigger] calls[i2]
    &&& calls[i] < muts[k].line
    &&& forall|j: int| 0 <= j < k ==> #[trigger] muts[j].line <= calls[i]
}

proof fn lemma_sg002_iff(muts: Seq<StorageMutation>, calls: Seq<usize>)
    requires
        calls.len() > 0,
    ensures
        sg002::first_mutation_after(muts, sg002::min_line(calls)) is Some <==> mutation_after_call(
            muts,
            calls,
        ),
{
    let first = sg002::min_line(calls);
    lemma_min_line(calls);
    lemma_first_mutation_after(muts, first);
    if mutation_after_call(muts, calls) {
        let (i, k) = choose|i: int, k: int|
            0 <= i < calls.len() && 0 <= k < muts.len() && #[trigger] calls[i] < #[trigger] muts[k].line;
        assert(first <= calls[i]);
        assert(first < muts[k].line);
    }
    if sg002::first_mutation_after(muts, first) is Some {
        let i0 = choose|i: int| 0 <= i < calls.len() && calls[i] == first;
        let k = choose|k: int| 0 <= k < muts.len() && first < #[trigger] muts[k].line;
        assert(calls[i0] < muts[k].line);
    }
}

proof fn lemma_sg002_witness(muts: Seq<StorageMutation>, calls: Seq<usize>)
    requires
        calls.len() > 0,
    ensures
        sg002::first_mutation_after(muts, sg002::min_line(calls)) matches Some(m) ==> exists|
            i: int,
            k: int,
        |
            first_mutation_after_earliest_call(muts, calls, i, k) && #[trigger] muts[k] == m
                && #[trigger] calls[i] == calls[i],
{
    let first = sg002::min_line(calls);
    lemma_min_line(calls);
    lemma_first_mutation_after(muts, first);
    if let Some(m) = sg002::first_mutation_after(muts, first) {
        let i0 = choose|i: int| 0 <= i < calls.len() && calls[i] == first;
        let k = choose|k: int|
            0 <= k < muts.len() && #[trigger] muts[k] == m && first < m.line && forall|j: int|
                0 <= j < k ==> #[trigger] muts[j].line <= first;
        assert(first_mutation_after_earliest_call(muts, calls, i0, k));
        assert(muts[k] == m && calls[i0] == calls[i0]);
    }
}

/// SG002 flags an entry point exactly when some storage mutation lies on a
/// line strictly after some external contract call; the finding points at
/// the first mutation in the body that lies after the earliest external
/// call, and names the entry point.
pub proof fn law_sg002_flags_mutation_after_external_call(method: ImplFn, file: Seq<char>)
    ensures
        ({
            let muts = spec_mutations(method.block.nodes@);
            let calls = spec_external_call_lines(method.block.nodes@);
            &&& sg002::spec_check_entry_point(method, file) is Some <==> mutation_after_call(
                muts,
                calls,
            )
            &&& sg002::spec_check_entry_point(method, file) matches Some(f) ==> {
                &&& f.function == method.ident@
                &&& f.file == file
                &&& exists|i: int, k: int|
                    first_mutation_after_earliest_call(muts, calls, i, k) && #[trigger] muts[k].line
                        == f.line && #[trigger] calls[i] == calls[i]
            }
        }),
{
    let muts = spec_mutations(method.block.nodes@);
    let calls = spec_external_call_lines(method.block.nodes@);
    if calls.len() > 0 {
        lemma_sg002_iff(muts, calls);
        lemma_sg002_witness(muts, calls);
    }
}

/// Checks-effects-interactions: an entry point whose storage mutations all
/// lie on or before the line of every external call is not flagged by
/// SG002.
pub proof fn law_sg002_effects_before_interactions(method: ImplFn, file: Seq<char>)
    requires
        !mutation_after_call(
            spec_mutations(method.block.nodes@),
            spec_external_call_lines(method.block.nodes@),
        ),
    ensures
        sg002::spec_check_entry_point(method, file) is None,
{
    law_sg002_flags_mutation_after_external_call(method, file);
}

/// An entry point that mutates no storage is flagged by neither rule.
pub proof fn law_no_mutation_no_finding(method: ImplFn, file: Seq<char>)
    requires
        spec_mutations(method.block.nodes@).len() == 0,
    ensures
        sg001::spec_check_entry_point(method, file) is None,
        sg002::spec_check_entry_point(method, file) is None,
{
    law_sg001_flags_unauthorized_mutation(method, file);
    law_sg002_flags_mutation_after_external_call(method, file);
}

/// Each rule reports at most one finding per entry point, and each of its
/// findings carries the rule's identifier, severity `high`, the file label
/// verbatim, and the name of one of the entry points.
pub proof fn law_findings_belong_to_entry_points(methods: Seq<ImplFn>, file: Seq<char>)
    ensures
        sg001::spec_run(methods, file).len() <= methods.len(),
        sg002::spec_run(methods, file).len() <= methods.len(),
        forall|j: int|
            0 <= j < sg001::spec_run(methods, file).len() ==> {
                let f = #[trigger] sg001::spec_run(methods, file)[j];
                &&& f.rule_id == "SG001"@
                &&& f.severity == "high"@
                &&& f.file == file
                &&& exists|k: int| 0 <= k < methods.len() && #[trigger] methods[k].ident@ == f.function
            },
        forall|j: int|
            0 <= j < sg002::spec_run(methods, file).len() ==> {
                let f = #[trigger] sg002::spec_run(methods, file)[j];
                &&& f.rule_id == "SG002"@
                &&& f.severity == "high"@
                &&& f.file == file
                &&& exists|k: int| 0 <= k < methods.len() && #[trigger] methods[k].ident@ == f.function
            },
    decreases methods.len(),
{
    if methods.len() > 0 {
        let rest = methods.drop_last();
        law_findings_belong_to_entry_points(rest, file);
        let last = methods.last();
        assert(methods[methods.len() - 1] == last);
        assert forall|k: int| 0 <= k < rest.len() implies #[trigger] rest[k] == methods[k] by {}
        let r1 = sg001::spec_run(methods, file);
        assert forall|j: int| 0 <= j < r1.len() implies {
            let f = #[trigger] r1[j];
            &&& f.rule_id == "SG001"@
            &&& f.severity == "high"@
            &&& f.file == file
            &&& exists|k: int| 0 <= k < methods.len() && #[trigger] methods[k].ident@ == f.function
        } by {
            if j < sg001::spec_run(rest, file).len() {
                let f = sg001::spec_run(rest, file)[j];
                assert(r1[j] == f);
                let k = choose|k: int| 0 <= k < rest.len() && #[trigger] rest[k].ident@ == f.function;
                assert(methods[k] == rest[k]);
            } else {
                assert(methods[methods.len() - 1].ident@ == r1[j].function);
            }
        }
        let r2 = sg002::spec_run(methods, file);
        assert forall|j: int| 0 <= j < r2.len() implies {
            let f = #[trigger] r2[j];
            &&& f.rule_id == "SG002"@
            &&& f.severity == "high"@
            &&& f.file == file
            &&& exists|k: int| 0 <= k < methods.len() && #[trigger] methods[k].ident@ == f.function
        } by {
            if j < sg002::spec_run(rest, file).len() {
                let f = sg002::spec_run(rest, file)[j];
                assert(r2[j] == f);
                let k = choose|k: int| 0 <= k < rest.len() && #[trigger] rest[k].ident@ == f.function;
                assert(methods[k] == rest[k]);
            } else {
                assert(methods[methods.len() - 1].ident@ == r2[j].function);
            }
        }
    }
}

proof fn lemma_entry_points_concat(a: Seq<ImplBlock>, b: Seq<ImplBlock>)
    ensures
        spec_entry_points(a + b) == spec_entry_points(a) + spec_entry_points(b),
    decreases b.len(),
{
    if b.len() == 0 {
        assert(a + b =~= a);
        assert(spec_entry_points(a) + spec_entry_points(b) =~= spec_entry_points(a));
    } else {
        lemma_entry_points_concat(a, b.drop_last());
        assert((a + b).drop_last() =~= a + b.drop_last());
        assert((a + b).last() == b.last());
        let l = spec_entry_points(a);
        let r = spec_entry_points(b.drop_last());
        if spec_is_contractimpl(b.last()) {
            let x = crate::rules::common::public_fns(b.last().items@);
            assert((l + r) + x =~= l + (r + x));
        }
    }
}

/// Impl blocks without `#[contractimpl]` do not matter: inserting one
/// anywhere among a file's impl blocks leaves its entry points, and so the
/// findings of both rules, unchanged.
pub proof fn law_non_contract_impls_are_ignored(
    impls: Seq<ImplBlock>,
    i: int,
    extra: ImplBlock,
    file: Seq<char>,
)
    requires
        0 <= i <= impls.len(),
        !spec_is_contractimpl(extra),
    ensures
        spec_entry_points(impls.insert(i, extra)) == spec_entry_points(impls),
        sg001::spec_run(spec_entry_points(impls.insert(i, extra)), file) == sg001::spec_run(
            spec_entry_points(impls),
            file,
        ),
        sg002::spec_run(spec_entry_points(impls.insert(i, extra)), file) == sg002::spec_run(
            spec_entry_points(impls),
            file,
        ),
{
    let pre = impls.take(i);
    let post = impls.skip(i);
    assert(impls =~= pre + post);
    assert(impls.insert(i, extra) =~= (pre + seq![extra]) + post);
    lemma_entry_points_concat(pre + seq![extra], post);
    lemma_entry_points_concat(pre, seq![extra]);
    lemma_entry_points_concat(pre, post);
    assert(seq![extra].drop_last() =~= Seq::<ImplBlock>::empty());
    assert(spec_entry_points(Seq::<ImplBlock>::empty()) =~= Seq::<ImplFn>::empty());
    assert(spec_entry_points(seq![extra]) =~= Seq::<ImplFn>::empty());
    assert(spec_entry_points(pre) + Seq::<ImplFn>::empty() =~= spec_entry_points(pre));
}

proof fn lemma_mutation_lines(nodes: Seq<BodyNode>)
    requires
        forall|k: int| 0 <= k < nodes.len() ==> call_line_positive(#[trigger] nodes[k]),
    ensures
        forall|k: int| 0 <= k < spec_mutations(nodes).len() ==> #[trigger] spec_mutations(nodes)[k].line >= 1,
    decreases nodes.len(),
{
    if nodes.len() > 0 {
        let rest = nodes.drop_last();
        assert forall|k: int| 0 <= k < rest.len() implies call_line_positive(#[trigger] rest[k]) by {
            assert(rest[k] == nodes[k]);
        }
        lemma_mutation_lines(rest);
        assert(call_line_positive(nodes[nodes.len() - 1]));
    }
}

proof fn lemma_public_fn_lines(items: Seq<ImplMember>)
    requires
        forall|j: int| 0 <= j < items.len() ==> crate::syntax::member_lines_positive(#[trigger] items[j]),
    ensures
        forall|k: int| 0 <= k < public_fns(items).len() ==> fn_lines_positive(#[trigger] public_fns(items)[k]),
    decreases items.len(),
{
    if items.len() > 0 {
        let rest = items.drop_last();
        assert forall|j: int| 0 <= j < rest.len() implies crate::syntax::member_lines_positive(
            #[trigger] rest[j],
        ) by {
            assert(rest[j] == items[j]);
        }
        lemma_public_fn_lines(rest);
        assert(crate::syntax::member_lines_positive(items[items.len() - 1]));
        assert(items.last() == items[items.len() - 1]);
        let r = public_fns(rest);
        assert forall|k: int| 0 <= k < public_fns(items).len() implies fn_lines_positive(
            #[trigger] public_fns(items)[k],
        ) by {
            if k < r.len() {
                assert(public_fns(items)[k] == r[k]);
            }
        }
    }
}

proof fn lemma_entry_point_lines(impls: Seq<ImplBlock>)
    requires
        forall|i: int| 0 <= i < impls.len() ==> impl_lines_positive(#[trigger] impls[i]),
    ensures
        forall|k: int|
            0 <= k < spec_entry_points(impls).len() ==> fn_lines_positive(
                #[trigger] spec_entry_points(impls)[k],
            ),
    decreases impls.len(),
{
    if impls.len() > 0 {
        let rest = impls.drop_last();
        assert forall|i: int| 0 <= i < rest.len() implies impl_lines_positive(#[trigger] rest[i]) by {
            assert(rest[i] == impls[i]);
        }
        lemma_entry_point_lines(rest);
        assert(impl_lines_positive(impls[impls.len() - 1]));
        assert(impls.last() == impls[impls.len() - 1]);
        let items = impls.last().items@;
        assert forall|j: int| 0 <= j < items.len() implies crate::syntax::member_lines_positive(
            #[trigger] items[j],
        ) by {}
        lemma_public_fn_lines(items);
        let r = spec_entry_points(rest);
        assert forall|k: int| 0 <= k < spec_entry_points(impls).len() implies fn_lines_positive(
            #[trigger] spec_entry_points(impls)[k],
        ) by {
            if k < r.len() {
                assert(spec_entry_points(impls)[k] == r[k]);
            } else {
                assert(spec_entry_points(impls)[k] == public_fns(items)[k - r.len()]);
            }
        }
    }
}

proof fn lemma_run_lines(methods: Seq<ImplFn>, file: Seq<char>)
    requires
        forall|k: int| 0 <= k < methods.len() ==> fn_lines_positive(#[trigger] methods[k]),
    ensures
        forall|j: int| 0 <= j < sg001::spec_run(methods, file).len() ==> #[trigger] sg001::spec_run(methods, file)[j].line >= 1,
        forall|j: int| 0 <= j < sg002::spec_run(methods, file).len() ==> #[trigger] sg002::spec_run(methods, file)[j].line >= 1,
    decreases methods.len(),
{
    if methods.len() > 0 {
        let rest = methods.drop_last();
        assert forall|k: int| 0 <= k < rest.len() implies fn_lines_positive(#[trigger] rest[k]) by {
            assert(rest[k] == methods[k]);
        }
        lemma_run_lines(rest, file);
        let m = methods.last();
        assert(fn_lines_positive(methods[methods.len() - 1]));
        assert(methods.last() == methods[methods.len() - 1]);
        let nodes = m.block.nodes@;
        assert forall|k: int| 0 <= k < nodes.len() implies call_line_positive(#[trigger] nodes[k]) by {}
        lemma_mutation_lines(nodes);
        law_sg001_flags_unauthorized_mutation(m, file);
        law_sg002_flags_mutation_after_external_call(m, file);
        let muts = spec_mutations(nodes);
        let r1 = sg001::spec_run(rest, file);
        assert forall|j: int| 0 <= j < sg001::spec_run(methods, file).len() implies #[trigger] sg001::spec_run(
            methods,
            file,
        )[j].line >= 1 by {
            if j < r1.len() {
                assert(sg001::spec_run(methods, file)[j] == r1[j]);
            } else {
                let f = sg001::spec_check_entry_point(m, file).unwrap();
                assert(sg001::spec_run(methods, file)[j] == f);
                let k = choose|k: int|
                    0 <= k < muts.len() && #[trigger] muts[k].line == f.line
                        && !sg001::authorized_before(spec_auth_lines(nodes), f.line) && forall|i: int|
                        0 <= i < k ==> sg001::authorized_before(spec_auth_lines(nodes), #[trigger] muts[i].line);
                assert(muts[k].line >= 1);
            }
        }
        let r2 = sg002::spec_run(rest, file);
        assert forall|j: int| 0 <= j < sg002::spec_run(methods, file).len() implies #[trigger] sg002::spec_run(
            methods,
            file,
        )[j].line >= 1 by {
            if j < r2.len() {
                assert(sg002::spec_run(methods, file)[j] == r2[j]);
            } else {
                let f = sg002::spec_check_entry_point(m, file).unwrap();
                assert(sg002::spec_run(methods, file)[j] == f);
                let calls = spec_external_call_lines(nodes);
                let (i, k) = choose|i: int, k: int|
                    first_mutation_after_earliest_call(muts, calls, i, k) && #[trigger] muts[k].line
                        == f.line && #[trigger] calls[i] == calls[i];
                assert(muts[k].line >= 1);
            }
        }
    }
}

/// Every finding on a file whose body calls carry lines numbered from 1
/// (as parsing gives them) lies on a line numbered from 1.
pub proof fn law_finding_lines_positive(ast: SourceFile, file: Seq<char>)
    requires
        body_lines_positive(ast),
    ensures
        forall|j: int| 0 <= j < crate::spec_check(ast, file).len() ==> #[trigger] crate::spec_check(ast, file)[j].line >= 1,
{
    lemma_entry_point_lines(ast.impls@);
    lemma_run_lines(spec_entry_points(ast.impls@), file);
}

/// A finding with its file label replaced by `file`, all else kept.
pub open spec fn relabeled(f: FindingView, file: Seq<char>) -> FindingView {
    FindingView {
        rule_id: f.rule_id,
        severity: f.severity,
        file,
        line: f.line,
        function: f.function,
        message: f.message,
    }
}

/// The findings of `b` are those of `a`, each carrying the label `file_b`
/// in place of `file_a`, which every finding of `a` carries.
pub open spec fn relabeled_findings(
    a: Seq<FindingView>,
    file_a: Seq<char>,
    b: Seq<FindingView>,
    file_b: Seq<char>,
) -> bool {
    &&& a.len() == b.len()
    &&& forall|i: int| 0 <= i < a.len() ==> (#[trigger] a[i]).file == file_a
    &&& forall|i: int| 0 <= i < a.len() ==> #[trigger] b[i] == relabeled(a[i], file_b)
}

proof fn lemma_run_relabeled(methods: Seq<ImplFn>, f1: Seq<char>, f2: Seq<char>)
    ensures
        relabeled_findings(sg001::spec_run(methods, f1), f1, sg001::spec_run(methods, f2), f2),
        relabeled_findings(sg002::spec_run(methods, f1), f1, sg002::spec_run(methods, f2), f2),
    decreases methods.len(),
{
    if methods.len() > 0 {
        let rest = methods.drop_last();
        lemma_run_relabeled(rest, f1, f2);
        let m = methods.last();
        let a1 = sg001::spec_run(methods, f1);
        let b1 = sg001::spec_run(methods, f2);
        let r1 = sg001::spec_run(rest, f1);
        let q1 = sg001::spec_run(rest, f2);
        assert forall|i: int| 0 <= i < a1.len() implies (#[trigger] a1[i]).file == f1 by {
            if i < r1.len() {
                assert(a1[i] == r1[i]);
            }
        }
        assert forall|i: int| 0 <= i < a1.len() implies #[trigger] b1[i] == relabeled(a1[i], f2) by {
            if i < r1.len() {
                assert(a1[i] == r1[i]);
                assert(b1[i] == q1[i]);
            }
        }
        let a2 = sg002::spec_run(methods, f1);
        let b2 = sg002::spec_run(methods, f2);
        let r2 = sg002::spec_run(rest, f1);
        let q2 = sg002::spec_run(rest, f2);
        assert forall|i: int| 0 <= i < a2.len() implies (#[trigger] a2[i]).file == f1 by {
            if i < r2.len() {
                assert(a2[i] == r2[i]);
            }
        }
        assert forall|i: int| 0 <= i < a2.len() implies #[trigger] b2[i] == relabeled(a2[i], f2) by {
            if i < r2.len() {
                assert(a2[i] == r2[i]);
                assert(b2[i] == q2[i]);
            }
        }
    }
}

/// The file label is attached verbatim and decides nothing else: checking
/// a parsed file under two labels gives the same findings in the same
/// order, each carrying its label.
pub proof fn law_file_label_is_attached_verbatim(ast: SourceFile, f1: Seq<char>, f2: Seq<char>)
    ensures
        relabeled_findings(crate::spec_check(ast, f1), f1, crate::spec_check(ast, f2), f2),
{
    let eps = spec_entry_points(ast.impls@);
    lemma_run_relabeled(eps, f1, f2);
    let a = crate::spec_check(ast, f1);
    let b = crate::spec_check(ast, f2);
    let n = sg001::spec_run(eps, f1).len();
    assert forall|i: int| 0 <= i < a.len() implies (#[trigger] a[i]).file == f1 by {
        if i < n {
            assert(a[i] == sg001::spec_run(eps, f1)[i]);
        } else {
            assert(a[i] == sg002::spec_run(eps, f1)[i - n]);
        }
    }
    assert forall|i: int| 0 <= i < a.len() implies #[trigger] b[i] == relabeled(a[i], f2) by {
        if i < n {
            assert(a[i] == sg001::spec_run(eps, f1)[i]);
            assert(b[i] == sg001::spec_run(eps, f2)[i]);
        } else {
            assert(a[i] == sg002::spec_run(eps, f1)[i - n]);
            assert(b[i] == sg002::spec_run(eps, f2)[i - n]);
        }
    }
}

proof fn lemma_sg001_run_concat(a: Seq<ImplFn>, b: Seq<ImplFn>, file: Seq<char>)
    ensures
        sg001::spec_run(a + b, file) == sg001::spec_run(a, file) + sg001::spec_run(b, file),
    decreases b.len(),
{
    if b.len() == 0 {
        assert(a + b =~= a);
        assert(sg001::spec_run(a, file) + sg001::spec_run(b, file) =~= sg001::spec_run(a, file));
    } else {
        lemma_sg001_run_concat(a, b.drop_last(), file);
        assert((a + b).drop_last() =~= a + b.drop_last());
        assert((a + b).last() == b.last());
        let l = sg001::spec_run(a, file);
        let r = sg001::spec_run(b.drop_last(), file);
        if let Some(f) = sg001::spec_check_entry_point(b.last(), file) {
            assert((l + r).push(f) =~= l + r.push(f));
        }
    }
}

proof fn lemma_sg002_run_concat(a: Seq<ImplFn>, b: Seq<ImplFn>, file: Seq<char>)
    ensures
        sg002::spec_run(a + b, file) == sg002::spec_run(a, file) + sg002::spec_run(b, file),
    decreases b.len(),
{
    if b.len() == 0 {
        assert(a + b =~= a);
        assert(sg002::spec_run(a, file) + sg002::spec_run(b, file) =~= sg002::spec_run(a, file));
    } else {
        lemma_sg002_run_concat(a, b.drop_last(), file);
        assert((a + b).drop_last() =~= a + b.drop_last());
        assert((a + b).last() == b.last());
        let l = sg002::spec_run(a, file);
        let r = sg002::spec_run(b.drop_last(), file);
        if let Some(f) = sg002::spec_check_entry_point(b.last(), file) {
            assert((l + r).push(f) =~= l + r.push(f));
        }
    }
}

/// The finding of one entry point as a sequence of zero or one findings.
pub open spec fn finding_of(f: Option<FindingView>) -> Seq<FindingView> {
    match f {
        Some(v) => seq![v],
        None => seq![],
    }
}

/// SG001 reports every flagged entry point, each on its own: the findings
/// on entry points `a` followed by `b` are those on `a` followed by those
/// on `b`, and the findings on a single entry point are its own finding,
/// if any. So the findings on entry points `m0 .. mn` are the findings of
/// `m0`, ..., `mn` in order, as many as there are flagged entry points.
pub proof fn law_sg001_reports_every_entry_point(
    a: Seq<ImplFn>,
    b: Seq<ImplFn>,
    m: ImplFn,
    file: Seq<char>,
)
    ensures
        sg001::spec_run(a + b, file) == sg001::spec_run(a, file) + sg001::spec_run(b, file),
        sg001::spec_run(seq![m], file) == finding_of(sg001::spec_check_entry_point(m, file)),
        sg001::spec_run(a.push(m), file) == sg001::spec_run(a, file) + finding_of(
            sg001::spec_check_entry_point(m, file),
        ),
{
    lemma_sg001_run_concat(a, b, file);
    lemma_sg001_run_concat(a, seq![m], file);
    assert(a + seq![m] =~= a.push(m));
    assert(seq![m].drop_last() =~= Seq::<ImplFn>::empty());
    assert(seq![m].last() == m);
    assert(sg001::spec_run(Seq::<ImplFn>::empty(), file) =~= Seq::<FindingView>::empty());
    assert(sg001::spec_run(seq![m], file) =~= finding_of(sg001::spec_check_entry_point(m, file)));
}

/// SG002 reports every flagged entry point, each on its own: the findings
/// on entry points `a` followed by `b` are those on `a` followed by those
/// on `b`, and the findings on a single entry point are its own finding,
/// if any.
pub proof fn law_sg002_reports_every_entry_point(
    a: Seq<ImplFn>,
    b: Seq<ImplFn>,
    m: ImplFn,
    file: Seq<char>,
)
    ensures
        sg002::spec_run(a + b, file) == sg002::spec_run(a, file) + sg002::spec_run(b, file),
        sg002::spec_run(seq![m], file) == finding_of(sg002::spec_check_entry_point(m, file)),
        sg002::spec_run(a.push(m), file) == sg002::spec_run(a, file) + finding_of(
            sg002::spec_check_entry_point(m, file),
        ),
{
    lemma_sg002_run_concat(a, b, file);
    lemma_sg002_run_concat(a, seq![m], file);
    assert(a + seq![m] =~= a.push(m));
    assert(seq![m].drop_last() =~= Seq::<ImplFn>::empty());
    assert(seq![m].last() == m);
    assert(sg002::spec_run(Seq::<ImplFn>::empty(), file) =~= Seq::<FindingView>::empty());
    assert(sg002::spec_run(seq![m], file) =~= finding_of(sg002::spec_check_entry_point(m, file)));
}

/// The attribute's path ends in a segment named `contractimpl`.
pub open spec fn names_contractimpl(attr: Attribute) -> bool {
    let segs = attr.path.segments@;
    segs.len() > 0 && segs[segs.len() - 1].ident@ == "contractimpl"@
}

/// An impl block is a contract impl exactly when some attribute, at any
/// position, has a path whose last segment is `contractimpl`; adding an
/// attribute that does not, anywhere among the others (a doc comment, say),
/// changes nothing.
pub proof fn law_contractimpl_attribute_anywhere(b1: ImplBlock, b2: ImplBlock, j: int, extra: Attribute)
    ensures
        spec_is_contractimpl(b1) <==> exists|k: int|
            0 <= k < b1.attrs@.len() && names_contractimpl(#[trigger] b1.attrs@[k]),
        0 <= j <= b1.attrs@.len() && b2.attrs@ == b1.attrs@.insert(j, extra) && !names_contractimpl(
            extra,
        ) ==> spec_is_contractimpl(b2) == spec_is_contractimpl(b1),
{
    if spec_is_contractimpl(b1) {
        let k = choose|k: int| 0 <= k < b1.attrs@.len() && is_contractimpl_attr(#[trigger] b1.attrs@[k]);
        assert(names_contractimpl(b1.attrs@[k]));
    }
    if exists|k: int| 0 <= k < b1.attrs@.len() && names_contractimpl(#[trigger] b1.attrs@[k]) {
        let k = choose|k: int| 0 <= k < b1.attrs@.len() && names_contractimpl(#[trigger] b1.attrs@[k]);
        assert(is_contractimpl_attr(b1.attrs@[k]));
    }
    if 0 <= j <= b1.attrs@.len() && b2.attrs@ == b1.attrs@.insert(j, extra) && !names_contractimpl(extra) {
        let a1 = b1.attrs@;
        let a2 = b2.attrs@;
        if spec_is_contractimpl(b1) {
            let k = choose|k: int| 0 <= k < a1.len() && is_contractimpl_attr(#[trigger] a1[k]);
            if k < j {
                assert(a2[k] == a1[k]);
            } else {
                assert(a2[k + 1] == a1[k]);
            }
        }
        if spec_is_contractimpl(b2) {
            let k = choose|k: int| 0 <= k < a2.len() && is_contractimpl_attr(#[trigger] a2[k]);
            if k < j {
                assert(a2[k] == a1[k]);
            } else if k == j {
                assert(a2[k] == extra);
                assert(names_contractimpl(extra));
            } else {
                assert(a2[k] == a1[k - 1]);
            }
        }
    }
}

/// The call's receiver is `env.storage().<accessor>()`.
pub open spec fn on_storage_accessor(call: MethodCall, accessor: Seq<char>) -> bool {
    match *call.receiver {
        ExprNode::MethodCall(acc) => acc.method@ == accessor && match *acc.receiver {
            ExprNode::MethodCall(st) => st.method@ == "storage"@ && match *st.receiver {
                ExprNode::Path(p) => path_ident(p) == Some("env"@),
                _ => false,
            },
            _ => false,
        },
        _ => false,
    }
}

/// The seven methods that change a storage handle's contents or lifetime.
pub open spec fn names_storage_write(m: Seq<char>) -> bool {
    ||| m == "set"@
    ||| m == "put"@
    ||| m == "remove"@
    ||| m == "update"@
    ||| m == "try_update"@
    ||| m == "extend_ttl"@
    ||| m == "extend_ttl_with_limits"@
}

/// Each of `set`, `put`, `remove`, `update`, `try_update`, `extend_ttl` and
/// `extend_ttl_with_limits` called on `env.storage().persistent()`,
/// `.instance()` or `.temporary()` is a storage mutation of that kind; a
/// call by any other name is no storage mutation.
pub proof fn law_storage_writes_are_mutations(call: MethodCall)
    ensures
        names_storage_write(call.method@) && on_storage_accessor(call, "persistent"@)
            ==> spec_storage_mutation(call) == Some(StorageKind::Persistent),
        names_storage_write(call.method@) && on_storage_accessor(call, "instance"@)
            ==> spec_storage_mutation(call) == Some(StorageKind::Instance),
        names_storage_write(call.method@) && on_storage_accessor(call, "temporary"@)
            ==> spec_storage_mutation(call) == Some(StorageKind::Temporary),
        !names_storage_write(call.method@) ==> spec_storage_mutation(call) is None,
{
    reveal_strlit("persistent");
    reveal_strlit("instance");
    reveal_strlit("temporary");
    assert("instance"@ != "persistent"@) by {
        assert("instance"@.len() != "persistent"@.len());
    }
    assert("temporary"@ != "persistent"@) by {
        assert("temporary"@.len() != "persistent"@.len());
    }
    assert("temporary"@ != "instance"@) by {
        assert("temporary"@.len() != "instance"@.len());
    }
}

/// A file's checks are SG001's findings followed by SG002's, both over the
/// file's entry points: neither rule is left out.
pub proof fn law_check_runs_both_rules(ast: SourceFile, file: Seq<char>)
    ensures
        crate::spec_check(ast, file) == sg001::spec_run(spec_entry_points(ast.impls@), file)
            + sg002::spec_run(spec_entry_points(ast.impls@), file),
        crate::spec_check(ast, file).len() == sg001::spec_run(spec_entry_points(ast.impls@), file).len()
            + sg002::spec_run(spec_entry_points(ast.impls@), file).len(),
{
}

proof fn lemma_public_fns_concat(a: Seq<ImplMember>, b: Seq<ImplMember>)
    ensures
        public_fns(a + b) == public_fns(a) + public_fns(b),
    decreases b.len(),
{
    if b.len() == 0 {
        assert(a + b =~= a);
        assert(public_fns(a) + public_fns(b) =~= public_fns(a));
    } else {
        lemma_public_fns_concat(a, b.drop_last());
        assert((a + b).drop_last() =~= a + b.drop_last());
        assert((a + b).last() == b.last());
        let l = public_fns(a);
        let r = public_fns(b.drop_last());
        if let ImplMember::Fn(f) = b.last() {
            assert((l + r).push(f) =~= l + r.push(f));
        }
    }
}

/// The entry points of a file are found block by block and member by
/// member: the entry points of blocks `a` then `b` are those of `a` then
/// those of `b`; a block without `#[contractimpl]` has none; in a contract
/// block, members `x` then `y` give those of `x` then those of `y`; a
/// function member is an entry point exactly when it is plain `pub`, and
/// any other member is none.
pub proof fn law_entry_points_block_by_block(
    a: Seq<ImplBlock>,
    b: Seq<ImplBlock>,
    blk: ImplBlock,
    x: Seq<ImplMember>,
    y: Seq<ImplMember>,
    f: ImplFn,
)
    ensures
        spec_entry_points(a + b) == spec_entry_points(a) + spec_entry_points(b),
        spec_entry_points(seq![blk]) == (if spec_is_contractimpl(blk) {
            public_fns(blk.items@)
        } else {
            Seq::<ImplFn>::empty()
        }),
        public_fns(x + y) == public_fns(x) + public_fns(y),
        public_fns(seq![ImplMember::Fn(f)]) == (if f.vis is Public {
            seq![f]
        } else {
            Seq::<ImplFn>::empty()
        }),
        public_fns(seq![ImplMember::Other]) == Seq::<ImplFn>::empty(),
{
    lemma_entry_points_concat(a, b);
    lemma_public_fns_concat(x, y);
    assert(seq![blk].drop_last() =~= Seq::<ImplBlock>::empty());
    assert(seq![blk].last() == blk);
    assert(spec_entry_points(Seq::<ImplBlock>::empty()) =~= Seq::<ImplFn>::empty());
    if spec_is_contractimpl(blk) {
        assert(Seq::<ImplFn>::empty() + public_fns(blk.items@) =~= public_fns(blk.items@));
    }
    let one = seq![ImplMember::Fn(f)];
    assert(one.drop_last() =~= Seq::<ImplMember>::empty());
    assert(one.last() == ImplMember::Fn(f));
    assert(public_fns(Seq::<ImplMember>::empty()) =~= Seq::<ImplFn>::empty());
    if f.vis is Public {
        assert(Seq::<ImplFn>::empty().push(f) =~= seq![f]);
    }
    let other = seq![ImplMember::Other];
    assert(other.drop_last() =~= Seq::<ImplMember>::empty());
    assert(other.last() == ImplMember::Other);
}

proof fn lemma_events_concat(a: Seq<BodyNode>, b: Seq<BodyNode>)
    ensures
        spec_auth_lines(a + b) == spec_auth_lines(a) + spec_auth_lines(b),
        spec_mutations(a + b) == spec_mutations(a) + spec_mutations(b),
    decreases b.len(),
{
    if b.len() == 0 {
        assert(a + b =~= a);
        assert(spec_auth_lines(a) + spec_auth_lines(b) =~= spec_auth_lines(a));
        assert(spec_mutations(a) + spec_mutations(b) =~= spec_mutations(a));
    } else {
        lemma_events_concat(a, b.drop_last());
        assert((a + b).drop_last() =~= a + b.drop_last());
        assert((a + b).last() == b.last());
        let l = spec_auth_lines(a);
        let r = spec_auth_lines(b.drop_last());
        let lm = spec_mutations(a);
        let rm = spec_mutations(b.drop_last());
        if let BodyNode::MethodCall(c) = b.last() {
            assert((l + r).push(c.line) =~= l + r.push(c.line));
            if let Some(kind) = spec_storage_mutation(c) {
                let m = StorageMutation { line: c.line, kind };
                assert((lm + rm).push(m) =~= lm + rm.push(m));
            }
        }
    }
}

/// A body's authorization calls and storage mutations are collected node
/// by node, in order: those of nodes `a` then `b` are those of `a` then
/// those of `b`. A call named `require_auth` or `require_auth_for_args`,
/// on any receiver, is an authorization call on its line, and no other
/// node is; a call is a storage mutation on its line, of the kind its
/// receiver chain selects, exactly when it is one; a `let` is neither.
pub proof fn law_body_events_node_by_node(
    a: Seq<BodyNode>,
    b: Seq<BodyNode>,
    call: MethodCall,
    local: LetStmt,
)
    ensures
        spec_auth_lines(a + b) == spec_auth_lines(a) + spec_auth_lines(b),
        spec_mutations(a + b) == spec_mutations(a) + spec_mutations(b),
        spec_auth_lines(seq![BodyNode::MethodCall(call)]) == (if call.method@ == "require_auth"@
            || call.method@ == "require_auth_for_args"@ {
            seq![call.line]
        } else {
            Seq::<usize>::empty()
        }),
        spec_mutations(seq![BodyNode::MethodCall(call)]) == match spec_storage_mutation(call) {
            Some(kind) => seq![StorageMutation { line: call.line, kind }],
            None => Seq::<StorageMutation>::empty(),
        },
        spec_auth_lines(seq![BodyNode::Local(local)]) == Seq::<usize>::empty(),
        spec_mutations(seq![BodyNode::Local(local)]) == Seq::<StorageMutation>::empty(),
        spec_external_call_lines(seq![BodyNode::Local(local)]) == Seq::<usize>::empty(),
{
    lemma_events_concat(a, b);
    let one = seq![BodyNode::MethodCall(call)];
    assert(one.drop_last() =~= Seq::<BodyNode>::empty());
    assert(one.last() == BodyNode::MethodCall(call));
    let two = seq![BodyNode::Local(local)];
    assert(two.drop_last() =~= Seq::<BodyNode>::empty());
    assert(two.last() == BodyNode::Local(local));
    assert(spec_auth_lines(Seq::<BodyNode>::empty()) =~= Seq::<usize>::empty());
    assert(spec_mutations(Seq::<BodyNode>::empty()) =~= Seq::<StorageMutation>::empty());
    assert(spec_external_call_lines(Seq::<BodyNode>::empty()) =~= Seq::<usize>::empty());
    assert(spec_auth_lines(one) =~= (if call.method@ == "require_auth"@ || call.method@
        == "require_auth_for_args"@ {
        seq![call.line]
    } else {
        Seq::<usize>::empty()
    }));
    assert(spec_mutations(one) =~= match spec_storage_mutation(call) {
        Some(kind) => seq![StorageMutation { line: call.line, kind }],
        None => Seq::<StorageMutation>::empty(),
    });
}

/// `expr` calls `<..>::XClient::new(..)`: a path of at least two segments
/// ending in `new`, whose segment before `new` ends with `Client`.
pub open spec fn calls_client_new(expr: ExprNode) -> bool {
    match expr {
        ExprNode::Call(c) => match *c.func {
            ExprNode::Path(p) => {
                let s = p.segments@;
                let owner = s[s.len() - 2].ident@;
                &&& s.len() >= 2
                &&& s[s.len() - 1].ident@ == "new"@
                &&& owner.len() >= "Client"@.len()
                &&& owner.subrange(owner.len() - "Client"@.len(), owner.len() as int) == "Client"@
            },
            _ => false,
        },
        _ => false,
    }
}

proof fn lemma_joined_ends_with_last(segs: Seq<PathSegment>)
    requires
        segs.len() > 0,
    ensures
        ({
            let j = joined_idents(segs);
            let l = segs.last().ident@;
            l.len() <= j.len() && j.subrange(j.len() - l.len(), j.len() as int) == l
        }),
{
    let j = joined_idents(segs);
    let l = segs.last().ident@;
    if segs.len() == 1 {
        assert(segs[0] == segs.last());
        assert(j.subrange(0, j.len() as int) =~= j);
    } else {
        let pre = joined_idents(segs.drop_last()) + "::"@;
        assert(j == pre + l);
        assert(j.subrange(j.len() - l.len(), j.len() as int) =~= l);
    }
}

proof fn lemma_client_new_is_constructor(expr: ExprNode)
    requires
        calls_client_new(expr),
    ensures
        spec_is_client_constructor(expr),
{
    if let ExprNode::Call(c) = expr {
        if let ExprNode::Path(p) = *c.func {
            let s = p.segments@;
            let parent = s.drop_last();
            lemma_joined_ends_with_last(parent);
            let j = joined_idents(parent);
            let owner = parent.last().ident@;
            let cl = "Client"@;
            assert(owner == s[s.len() - 2].ident@);
            assert(j.subrange(j.len() - cl.len(), j.len() as int) =~= owner.subrange(
                owner.len() - cl.len(),
                owner.len() as int,
            )) by {
                assert forall|i: int| 0 <= i < cl.len() implies #[trigger] j.subrange(
                    j.len() - cl.len(),
                    j.len() as int,
                )[i] == owner.subrange(owner.len() - cl.len(), owner.len() as int)[i] by {
                    assert(j.subrange(j.len() - owner.len(), j.len() as int)[owner.len() - cl.len()
                        + i] == owner[owner.len() - cl.len() + i]);
                }
            }
        }
    }
}

/// The node is `let <name> = <..>::XClient::new(..);`.
pub open spec fn binds_client(node: BodyNode, name: Seq<char>) -> bool {
    match node {
        BodyNode::Local(l) => match l.pat {
            Pattern::Ident(n) => n@ == name && match l.init {
                Some(e) => calls_client_new(e),
                None => false,
            },
            _ => false,
        },
        _ => false,
    }
}

/// The expression is the plain variable `name`.
pub open spec fn is_variable(expr: ExprNode, name: Seq<char>) -> bool {
    match expr {
        ExprNode::Path(p) => !p.leading_colon && p.segments@.len() == 1
            && !p.segments@[0].has_arguments && p.segments@[0].ident@ == name,
        _ => false,
    }
}

proof fn lemma_external_prefix(a: Seq<BodyNode>, b: Seq<BodyNode>)
    ensures
        spec_external_call_lines(a).len() <= spec_external_call_lines(a + b).len(),
        spec_external_call_lines(a + b).take(spec_external_call_lines(a).len() as int)
            == spec_external_call_lines(a),
    decreases b.len(),
{
    if b.len() == 0 {
        assert(a + b =~= a);
        assert(spec_external_call_lines(a).take(spec_external_call_lines(a).len() as int)
            =~= spec_external_call_lines(a));
    } else {
        lemma_external_prefix(a, b.drop_last());
        assert((a + b).drop_last() =~= a + b.drop_last());
        let e = spec_external_call_lines(a + b.drop_last());
        let n = spec_external_call_lines(a).len() as int;
        assert(forall|x: usize| e.push(x).take(n) =~= e.take(n));
    }
}

/// A cross-contract call is recognised where it happens and later nodes
/// change nothing before it: the external calls of nodes `a` are the first
/// ones of `a` followed by anything. A call named `invoke_contract` or
/// `try_invoke_contract`, on any receiver, adds its line; so does a call
/// chained on `<..>::XClient::new(..)`, and a call on a variable that the
/// last node bound by `let` to `<..>::XClient::new(..)`.
pub proof fn law_external_calls_where_they_happen(
    a: Seq<BodyNode>,
    b: Seq<BodyNode>,
    call: MethodCall,
    name: Seq<char>,
)
    ensures
        spec_external_call_lines(a + b).take(spec_external_call_lines(a).len() as int)
            == spec_external_call_lines(a),
        call.method@ == "invoke_contract"@ || call.method@ == "try_invoke_contract"@
            ==> spec_external_call_lines(a.push(BodyNode::MethodCall(call)))
            == spec_external_call_lines(a).push(call.line),
        calls_client_new(*call.receiver) ==> spec_external_call_lines(
            a.push(BodyNode::MethodCall(call)),
        ) == spec_external_call_lines(a).push(call.line),
        a.len() > 0 && binds_client(a.last(), name) && is_variable(*call.receiver, name)
            ==> spec_external_call_lines(a.push(BodyNode::MethodCall(call)))
            == spec_external_call_lines(a).push(call.line),
{
    lemma_external_prefix(a, b);
    let n = a.push(BodyNode::MethodCall(call));
    assert(n.drop_last() =~= a);
    assert(n.last() == BodyNode::MethodCall(call));
    if calls_client_new(*call.receiver) {
        lemma_client_new_is_constructor(*call.receiver);
    }
    if a.len() > 0 {
        if let BodyNode::Local(l) = a.last() {
            if let Some(e) = l.init {
                if calls_client_new(e) {
                    lemma_client_new_is_constructor(e);
                }
            }
        }
    }
}

} // verus!
