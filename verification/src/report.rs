//! Ordering findings for a report, and the exit status that a report
//! yields.

use vstd::prelude::*;
use vstd::string::*;

use crate::finding::Finding;
use crate::text::str_eq;
use crate::ScanError;

verus! {

/// Lexicographic order on character sequences by code point; for UTF-8
/// strings this is the byte-wise order in which `String`s compare.
pub open spec fn chars_lt(a: Seq<char>, b: Seq<char>) -> bool
    decreases a.len(),
{
    if a.len() == 0 {
        b.len() > 0
    } else if b.len() == 0 {
        false
    } else if a[0] != b[0] {
        (a[0] as u32) < (b[0] as u32)
    } else {
        chars_lt(a.drop_first(), b.drop_first())
    }
}

/// `a` sorts strictly before `b`: by file, then by line.
pub open spec fn location_lt(a: Finding, b: Finding) -> bool {
    chars_lt(a.file@, b.file@) || (a.file@ == b.file@ && a.line < b.line)
}

/// No finding sorts strictly before one that precedes it.
pub open spec fn sorted_by_location(s: Seq<Finding>) -> bool {
    forall|i: int, j: int| 0 <= i < j < s.len() ==> !location_lt(#[trigger] s[j], #[trigger] s[i])
}

/// The findings of `s` at location (`file`, `line`), in their order in `s`.
pub open spec fn at_location(s: Seq<Finding>, file: Seq<char>, line: usize) -> Seq<Finding>
    decreases s.len(),
{
    if s.len() == 0 {
        seq![]
    } else {
        let rest = at_location(s.drop_last(), file, line);
        if s.last().file@ == file && s.last().line == line {
            rest.push(s.last())
        } else {
            rest
        }
    }
}

proof fn lemma_chars_lt_asymmetric(a: Seq<char>, b: Seq<char>)
    requires
        chars_lt(a, b),
    ensures
        !chars_lt(b, a),
        a != b,
    decreases a.len(),
{
    if a.len() > 0 && b.len() > 0 && a[0] == b[0] {
        lemma_chars_lt_asymmetric(a.drop_first(), b.drop_first());
        if a == b {
            assert(a.drop_first() == b.drop_first());
        }
    }
}

proof fn lemma_chars_lt_transitive(a: Seq<char>, b: Seq<char>, c: Seq<char>)
    requires
        chars_lt(a, b),
        chars_lt(b, c),
    ensures
        chars_lt(a, c),
    decreases a.len(),
{
    if a.len() > 0 && b.len() > 0 && c.len() > 0 && a[0] == b[0] && b[0] == c[0] {
        lemma_chars_lt_transitive(a.drop_first(), b.drop_first(), c.drop_first());
    }
}

proof fn lemma_chars_lt_total(a: Seq<char>, b: Seq<char>)
    requires
        a != b,
    ensures
        chars_lt(a, b) || chars_lt(b, a),
    decreases a.len(),
{
    if a.len() == 0 || b.len() == 0 {
        if a.len() == 0 && b.len() == 0 {
            assert(a =~= b);
        }
    } else if a[0] == b[0] {
        if a.drop_first() =~= b.drop_first() {
            assert(a =~= seq![a[0]] + a.drop_first());
            assert(b =~= seq![b[0]] + b.drop_first());
            assert(false);
        }
        lemma_chars_lt_total(a.drop_first(), b.drop_first());
    } else {
        let x = a[0];
        let y = b[0];
        vstd::utf8::char_u32_cast(x, x as u32);
        vstd::utf8::char_u32_cast(y, y as u32);
        assert((x as u32) != (y as u32));
    }
}

/// If `x` sorts before `y` and `z` does not sort before `y`, then `x`
/// sorts before `z`.
proof fn lemma_location_lt_le(x: Finding, y: Finding, z: Finding)
    requires
        location_lt(x, y),
        !location_lt(z, y),
    ensures
        location_lt(x, z),
{
    if y.file@ != z.file@ {
        lemma_chars_lt_total(y.file@, z.file@);
    }
    if chars_lt(x.file@, y.file@) && chars_lt(y.file@, z.file@) {
        lemma_chars_lt_transitive(x.file@, y.file@, z.file@);
    }
}

proof fn lemma_location_lt_asymmetric(x: Finding, y: Finding)
    requires
        location_lt(x, y),
    ensures
        !location_lt(y, x),
{
    if chars_lt(x.file@, y.file@) {
        lemma_chars_lt_asymmetric(x.file@, y.file@);
    }
}

proof fn lemma_at_location_concat(a: Seq<Finding>, b: Seq<Finding>, file: Seq<char>, line: usize)
    ensures
        at_location(a + b, file, line) == at_location(a, file, line) + at_location(b, file, line),
    decreases b.len(),
{
    if b.len() == 0 {
        assert(a + b =~= a);
        assert(at_location(a, file, line) + at_location(b, file, line) =~= at_location(a, file, line));
    } else {
        lemma_at_location_concat(a, b.drop_last(), file, line);
        assert((a + b).drop_last() =~= a + b.drop_last());
        assert((a + b).last() == b.last());
        let l = at_location(a, file, line);
        let r = at_location(b.drop_last(), file, line);
        assert((l + r).push(b.last()) =~= l + r.push(b.last()));
    }
}

proof fn lemma_at_location_none(s: Seq<Finding>, file: Seq<char>, line: usize)
    requires
        forall|k: int| 0 <= k < s.len() ==> !(s[k].file@ == file && s[k].line == line),
    ensures
        at_location(s, file, line) == Seq::<Finding>::empty(),
    decreases s.len(),
{
    if s.len() > 0 {
        lemma_at_location_none(s.drop_last(), file, line);
    }
}

/// `a` is a strict prefix of `b`.
pub open spec fn is_proper_prefix(a: Seq<char>, b: Seq<char>) -> bool {
    a.len() < b.len() && forall|j: int| 0 <= j < a.len() ==> #[trigger] a[j] == b[j]
}

/// `a` and `b` agree before position `i`, where `a` has the lower code
/// point.
pub open spec fn first_difference_lower(a: Seq<char>, b: Seq<char>, i: int) -> bool {
    &&& 0 <= i < a.len()
    &&& i < b.len()
    &&& forall|j: int| 0 <= j < i ==> #[trigger] a[j] == b[j]
    &&& (a[i] as u32) < (b[i] as u32)
}

/// File names are ordered lexicographically by code point: `a` sorts
/// before `b` exactly when `a` is a strict prefix of `b`, or at the first
/// position where they differ `a` has the lower character.
pub proof fn law_file_order_is_lexicographic(a: Seq<char>, b: Seq<char>)
    ensures
        chars_lt(a, b) <==> is_proper_prefix(a, b) || exists|i: int|
            #[trigger] first_difference_lower(a, b, i),
    decreases a.len(),
{
    if a.len() == 0 {
    } else if b.len() == 0 {
    } else if a[0] != b[0] {
        if chars_lt(a, b) {
            assert(first_difference_lower(a, b, 0));
        }
        if exists|i: int| #[trigger] first_difference_lower(a, b, i) {
            let i = choose|i: int| #[trigger] first_difference_lower(a, b, i);
            if i > 0 {
                assert(a[0] == b[0]);
            }
        }
        if is_proper_prefix(a, b) {
            assert(a[0] == b[0]);
        }
    } else {
        let a2 = a.drop_first();
        let b2 = b.drop_first();
        law_file_order_is_lexicographic(a2, b2);
        if is_proper_prefix(a, b) {
            assert forall|j: int| 0 <= j < a2.len() implies #[trigger] a2[j] == b2[j] by {
                assert(a[j + 1] == b[j + 1]);
            }
        }
        if is_proper_prefix(a2, b2) {
            assert forall|j: int| 0 <= j < a.len() implies #[trigger] a[j] == b[j] by {
                if j > 0 {
                    assert(a2[j - 1] == b2[j - 1]);
                }
            }
        }
        if exists|i: int| #[trigger] first_difference_lower(a, b, i) {
            let i = choose|i: int| #[trigger] first_difference_lower(a, b, i);
            assert(i > 0);
            assert forall|j: int| 0 <= j < i - 1 implies #[trigger] a2[j] == b2[j] by {
                assert(a[j + 1] == b[j + 1]);
            }
            assert(first_difference_lower(a2, b2, i - 1));
        }
        if exists|i: int| #[trigger] first_difference_lower(a2, b2, i) {
            let i = choose|i: int| #[trigger] first_difference_lower(a2, b2, i);
            assert forall|j: int| 0 <= j < i + 1 implies #[trigger] a[j] == b[j] by {
                if j > 0 {
                    assert(a2[j - 1] == b2[j - 1]);
                }
            }
            assert(first_difference_lower(a, b, i + 1));
        }
    }
}

/// The report order is a strict total order on locations: irreflexive,
/// asymmetric, transitive, and any two findings at different locations
/// are ordered one way or the other.
pub proof fn law_report_order_is_strict_total(x: Finding, y: Finding, z: Finding)
    ensures
        !location_lt(x, x),
        location_lt(x, y) ==> !location_lt(y, x),
        location_lt(x, y) && location_lt(y, z) ==> location_lt(x, z),
        x.file@ != y.file@ || x.line != y.line ==> location_lt(x, y) || location_lt(y, x),
{
    if chars_lt(x.file@, x.file@) {
        lemma_chars_lt_asymmetric(x.file@, x.file@);
    }
    if location_lt(x, y) {
        lemma_location_lt_asymmetric(x, y);
    }
    if location_lt(x, y) && location_lt(y, z) {
        if chars_lt(x.file@, y.file@) && chars_lt(y.file@, z.file@) {
            lemma_chars_lt_transitive(x.file@, y.file@, z.file@);
        }
    }
    if x.file@ != y.file@ {
        lemma_chars_lt_total(x.file@, y.file@);
    }
}

/// The findings at one location are exactly those of `s` whose file and
/// line are that location, in their order in `s`.
pub proof fn law_at_location_is_filter(s: Seq<Finding>, file: Seq<char>, line: usize)
    ensures
        at_location(s, file, line) == s.filter(|f: Finding| f.file@ == file && f.line == line),
    decreases s.len(),
{
    reveal(Seq::filter);
    let pred = |f: Finding| f.file@ == file && f.line == line;
    if s.len() == 0 {
        assert(s.filter(pred) =~= at_location(s, file, line));
    } else {
        law_at_location_is_filter(s.drop_last(), file, line);
        assert(s.filter(pred) == (if pred(s.last()) {
            s.drop_last().filter(pred).push(s.last())
        } else {
            s.drop_last().filter(pred)
        }));
    }
}

/// Whether `a` sorts strictly before `b`.
fn location_less(a: &Finding, b: &Finding) -> (r: bool)
    ensures
        r == location_lt(*a, *b),
{
    let x = a.file.as_str();
    let y = b.file.as_str();
    let n = x.unicode_len();
    let m = y.unicode_len();
    let mut i: usize = 0;
    proof {
        assert(x@.skip(0) =~= x@);
        assert(y@.skip(0) =~= y@);
    }
    while i < n && i < m
        invariant
            n == x@.len(),
            m == y@.len(),
            i <= n,
            i <= m,
            x@ == a.file@,
            y@ == b.file@,
            chars_lt(x@, y@) == chars_lt(x@.skip(i as int), y@.skip(i as int)),
            x@.take(i as int) == y@.take(i as int),
        decreases n - i,
    {
        let c = x.get_char(i);
        let d = y.get_char(i);
        assert(x@.skip(i as int)[0] == c);
        assert(y@.skip(i as int)[0] == d);
        if c != d {
            proof {
                if x@ == y@ {
                    assert(x@[i as int] == y@[i as int]);
                }
            }
            return (c as u32) < (d as u32);
        }
        assert(x@.skip(i as int).drop_first() =~= x@.skip(i + 1));
        assert(y@.skip(i as int).drop_first() =~= y@.skip(i + 1));
        assert(x@.take(i + 1) =~= x@.take(i as int).push(c));
        assert(y@.take(i + 1) =~= y@.take(i as int).push(d));
        i += 1;
    }
    proof {
        if n == m {
            assert(x@ =~= x@.take(i as int));
            assert(y@ =~= y@.take(i as int));
        } else if n < m {
            assert(x@ =~= x@.take(i as int));
            assert(x@ != y@);
        } else {
            assert(y@ =~= y@.take(i as int));
            assert(x@ != y@);
        }
    }
    if n < m {
        true
    } else if n > m {
        false
    } else {
        a.line < b.line
    }
}

/// Sorts findings by file, then line, keeping the relative order of
/// findings at the same location.
pub fn sort_findings(findings: Vec<Finding>) -> (sorted: Vec<Finding>)
    ensures
        sorted@.len() == findings@.len(),
        sorted@.to_multiset() == findings@.to_multiset(),
        sorted_by_location(sorted@),
        forall|file: Seq<char>, line: usize|
            #![trigger at_location(sorted@, file, line)]
            at_location(sorted@, file, line) == at_location(findings@, file, line),
{
    let ghost input = findings@;
    let mut rest = findings;
    let mut sorted: Vec<Finding> = Vec::new();
    let ghost mut done: int = 0;
    assert(sorted@ =~= input.take(0));
    while rest.len() > 0
        invariant
            0 <= done <= input.len(),
            rest@ == input.skip(done),
            sorted@.len() == done,
            sorted@.to_multiset() == input.take(done).to_multiset(),
            sorted_by_location(sorted@),
            forall|file: Seq<char>, line: usize|
                #![trigger at_location(sorted@, file, line)]
                at_location(sorted@, file, line) == at_location(input.take(done), file, line),
        decreases rest@.len(),
    {
        let x = rest.remove(0);
        assert(x == input[done]);
        let mut p = sorted.len();
        while p > 0 && location_less(&x, &sorted[p - 1])
            invariant
                p <= sorted@.len(),
                forall|q: int| p <= q < sorted@.len() ==> location_lt(x, #[trigger] sorted@[q]),
            decreases p,
        {
            p -= 1;
        }
        let ghost old_sorted = sorted@;
        sorted.insert(p, x);
        proof {
            let s = sorted@;
            assert(s.to_multiset() == input.take(done + 1).to_multiset()) by {
                broadcast use vstd::seq_lib::group_to_multiset_ensures;

                assert(input.take(done + 1) =~= input.take(done).push(x));
            }
            assert(s =~= old_sorted.take(p as int) + seq![x] + old_sorted.skip(p as int));
            assert forall|i: int, j: int| 0 <= i < j < s.len() implies !location_lt(
                #[trigger] s[j],
                #[trigger] s[i],
            ) by {
                if i < p && j < p {
                    assert(s[i] == old_sorted[i] && s[j] == old_sorted[j]);
                } else if i > p && j > p {
                    assert(s[i] == old_sorted[i - 1] && s[j] == old_sorted[j - 1]);
                } else if i < p && j > p {
                    assert(s[i] == old_sorted[i] && s[j] == old_sorted[j - 1]);
                } else if i == p {
                    assert(s[j] == old_sorted[j - 1]);
                    lemma_location_lt_asymmetric(x, s[j]);
                } else {
                    // j == p, i < p
                    assert(s[i] == old_sorted[i]);
                    if location_lt(x, s[i]) {
                        assert(!location_lt(x, old_sorted[p - 1]));
                        if i < p - 1 {
                            assert(!location_lt(old_sorted[p - 1], old_sorted[i]));
                            lemma_location_lt_le(x, old_sorted[i], old_sorted[p - 1]);
                        }
                    }
                }
            }
            assert(input.take(done + 1) =~= input.take(done).push(x));
            assert(input.take(done + 1).drop_last() =~= input.take(done));
            let pre = old_sorted.take(p as int);
            let post = old_sorted.skip(p as int);
            assert(old_sorted =~= pre + post);
            assert(s =~= (pre + seq![x]) + post);
            assert forall|file: Seq<char>, line: usize|
                #![trigger at_location(s, file, line)]
                at_location(s, file, line) == at_location(input.take(done + 1), file, line) by {
                assert(at_location(old_sorted, file, line) == at_location(input.take(done), file, line));
                lemma_at_location_concat(pre, post, file, line);
                lemma_at_location_concat(pre + seq![x], post, file, line);
                lemma_at_location_concat(pre, seq![x], file, line);
                assert(seq![x].drop_last() =~= Seq::<Finding>::empty());
                assert(seq![x].last() == x);
                if x.file@ == file && x.line == line {
                    assert forall|k: int| 0 <= k < post.len() implies !(#[trigger] post[k].file@ == file
                        && post[k].line == line) by {
                        assert(post[k] == old_sorted[p + k]);
                        assert(location_lt(x, old_sorted[p + k]));
                        if chars_lt(x.file@, post[k].file@) {
                            lemma_chars_lt_asymmetric(x.file@, post[k].file@);
                        }
                    }
                    lemma_at_location_none(post, file, line);
                    assert(at_location(old_sorted, file, line) =~= at_location(pre, file, line));
                    assert(at_location(Seq::<Finding>::empty(), file, line) =~= Seq::<Finding>::empty());
                    assert(at_location(seq![x], file, line) =~= seq![x]);
                    assert(at_location(s, file, line) =~= at_location(pre, file, line).push(x));
                } else {
                    assert(at_location(Seq::<Finding>::empty(), file, line) =~= Seq::<Finding>::empty());
                    assert(at_location(seq![x], file, line) =~= Seq::<Finding>::empty());
                    assert(at_location(s, file, line) =~= at_location(old_sorted, file, line));
                }
            }
            done = done + 1;
        }
    }
    assert(input.take(done) =~= input);
    sorted
}

/// The findings of several files, one file after another.
pub open spec fn concat_findings(per_file: Seq<Vec<Finding>>) -> Seq<Finding>
    decreases per_file.len(),
{
    if per_file.len() == 0 {
        seq![]
    } else {
        concat_findings(per_file.drop_last()) + per_file.last()@
    }
}

/// Every finding of every file, in full, one file after another:
/// `concat_findings` is the flattening of the files' finding lists.
pub proof fn law_concat_keeps_every_finding(per_file: Seq<Vec<Finding>>)
    ensures
        concat_findings(per_file) == per_file.map_values(|v: Vec<Finding>| v@).flatten(),
    decreases per_file.len(),
{
    if per_file.len() > 0 {
        let rest = per_file.drop_last();
        law_concat_keeps_every_finding(rest);
        let views = per_file.map_values(|v: Vec<Finding>| v@);
        let rest_views = rest.map_values(|v: Vec<Finding>| v@);
        assert(views =~= rest_views.push(per_file.last()@));
        rest_views.lemma_flatten_push(per_file.last()@);
    } else {
        assert(per_file.map_values(|v: Vec<Finding>| v@) =~= Seq::<Seq<Finding>>::empty());
    }
}

/// Gathers the findings of every scanned file into one report: all of
/// them, sorted by file then line, findings at one location in the order
/// the files gave them.
pub fn collect_findings(per_file: Vec<Vec<Finding>>) -> (report: Vec<Finding>)
    ensures
        report@.len() == per_file@.map_values(|v: Vec<Finding>| v@).flatten().len(),
        report@.to_multiset() == per_file@.map_values(|v: Vec<Finding>| v@).flatten().to_multiset(),
        report@.to_multiset() == concat_findings(per_file@).to_multiset(),
        sorted_by_location(report@),
        forall|file: Seq<char>, line: usize|
            #![trigger at_location(report@, file, line)]
            at_location(report@, file, line) == at_location(concat_findings(per_file@), file, line),
{
    let ghost input = per_file@;
    let mut rest = per_file;
    let mut all: Vec<Finding> = Vec::new();
    let ghost mut done: int = 0;
    assert(input.take(0) =~= Seq::<Vec<Finding>>::empty());
    while rest.len() > 0
        invariant
            0 <= done <= input.len(),
            rest@ == input.skip(done),
            all@ == concat_findings(input.take(done)),
        decreases rest@.len(),
    {
        let mut next = rest.remove(0);
        assert(next == input[done]);
        all.append(&mut next);
        proof {
            assert(input.take(done + 1).drop_last() =~= input.take(done));
            assert(input.take(done + 1).last() == input[done]);
            done = done + 1;
        }
    }
    assert(input.take(done) =~= input);
    proof {
        law_concat_keeps_every_finding(input);
    }
    sort_findings(all)
}

/// Findings whose severity is `high`.
pub open spec fn has_high_severity(s: Seq<Finding>) -> bool {
    exists|i: int| 0 <= i < s.len() && s[i].severity@ == "high"@
}

/// Whether some finding has severity `high`.
pub fn any_high_severity(findings: &Vec<Finding>) -> (r: bool)
    ensures
        r == has_high_severity(findings@),
{
    let mut i: usize = 0;
    while i < findings.len()
        invariant
            i <= findings@.len(),
            forall|j: int| 0 <= j < i ==> findings@[j].severity@ != "high"@,
        decreases findings@.len() - i,
    {
        if str_eq(findings[i].severity.as_str(), "high") {
            assert(findings@[i as int].severity@ == "high"@);
            return true;
        }
        i += 1;
    }
    false
}

/// The process exit status for the outcome of a scan: 0 when it completed
/// with no high-severity finding, 1 when it found one, 2 when it failed.
pub fn exit_code(outcome: &Result<Vec<Finding>, ScanError>) -> (code: u8)
    ensures
        match outcome {
            Ok(findings) => code == (if has_high_severity(findings@) {
                1u8
            } else {
                0u8
            }),
            Err(_) => code == 2,
        },
{
    match outcome {
        Ok(findings) => if any_high_severity(findings) {
            1
        } else {
            0
        },
        Err(_) => 2,
    }
}

/// Whether the command-line arguments (program name included) ask for a
/// scan: exactly `<program> scan <path>`.
pub fn is_scan_invocation(args: &Vec<String>) -> (r: bool)
    ensures
        r == (args@.len() == 3 && args@[1]@ == "scan"@),
{
    args.len() == 3 && str_eq(args[1].as_str(), "scan")
}

} // verus!
