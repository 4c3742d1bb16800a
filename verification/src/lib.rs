//! Static analysis of Soroban smart contracts: finds contract entry points
//! that mutate storage without a preceding authorization call (SG001) and
//! entry points that mutate storage after an external contract call (SG002).
//!
//! The analysis runs over [`syntax::SourceFile`], a plain model of the parts
//! of a parsed Rust file that the rules read.

pub mod finding;
pub mod parse;
pub mod text;

pub use finding::Finding;
pub mod syntax;
pub mod report;
pub mod rules;

use vstd::prelude::*;
use vstd::string::*;

use crate::finding::finding_views;
use crate::rules::common::spec_entry_points;
use crate::parse::{fits_parser, parse_source, parsed_source};
use crate::syntax::SourceFile;

verus! {

/// Errors that can occur while scanning. Messages from the file system,
/// the directory walk and the parser are kept as text.
#[derive(Debug)]
pub enum ScanError {
    /// The target path does not exist.
    NotFound(String),
    /// Failed to read a file from disk.
    Io(String),
    /// Failed while walking a directory tree.
    Walk(String),
    /// Failed to parse a `.rs` file.
    Parse { file: String, error: String },
}

/// The text that describes a scan error.
pub open spec fn scan_error_message(e: ScanError) -> Seq<char> {
    match e {
        ScanError::NotFound(path) => "path not found: "@ + path@,
        ScanError::Io(err) => "failed to read file: "@ + err@,
        ScanError::Walk(err) => "failed to walk directory: "@ + err@,
        ScanError::Parse { file, error } => "failed to parse "@ + file@ + ": "@ + error@,
    }
}

impl ScanError {
    /// Describes the error for a person reading the tool's output.
    pub fn message(&self) -> (r: String)
        ensures
            r@ == scan_error_message(*self),
    {
        match self {
            ScanError::NotFound(path) => {
                let mut r = String::from_str("path not found: ");
                r.append(path.as_str());
                r
            },
            ScanError::Io(err) => {
                let mut r = String::from_str("failed to read file: ");
                r.append(err.as_str());
                r
            },
            ScanError::Walk(err) => {
                let mut r = String::from_str("failed to walk directory: ");
                r.append(err.as_str());
                r
            },
            ScanError::Parse { file, error } => {
                let mut r = String::from_str("failed to parse ");
                r.append(file.as_str());
                r.append(": ");
                r.append(error.as_str());
                r
            },
        }
    }
}

/// The findings of every rule on a parsed file: SG001's, then SG002's.
pub open spec fn spec_check(ast: SourceFile, file: Seq<char>) -> Seq<finding::FindingView> {
    let eps = spec_entry_points(ast.impls@);
    rules::sg001::spec_run(eps, file) + rules::sg002::spec_run(eps, file)
}

/// Parses a Rust source string and runs all rules. The `file` label is
/// attached to any findings, verbatim; text that does not parse gives a
/// `Parse` error for that file with the parser's message, and so does text
/// too long for the parser's source positions.
pub fn check_source(source: &str, file: &str) -> (r: Result<Vec<Finding>, ScanError>)
    ensures
        !fits_parser(source@) ==> (r matches Err(ScanError::Parse { file: f, error }) && f@
            == file@ && error@ == "the source text is too long to parse"@),
        fits_parser(source@) ==> match parsed_source(source@) {
            Ok(ast) => r matches Ok(findings) && finding_views(findings@) == spec_check(ast, file@),
            Err(message) => r matches Err(ScanError::Parse { file: f, error }) && f@ == file@
                && error@ == message,
        },
        r matches Ok(findings) ==> forall|j: int|
            0 <= j < findings@.len() ==> #[trigger] findings@[j].line >= 1,
{
    if source.unicode_len() >= u32::MAX as usize {
        return Err(
            ScanError::Parse {
                file: String::from_str(file),
                error: String::from_str("the source text is too long to parse"),
            },
        );
    }
    let parsed = parse_source(source);
    proof {
        if parsed is Ok {
            rules::laws::law_finding_lines_positive(parsed->Ok_0, file@);
        }
    }
    let r = check_parsed(parsed, file);
    proof {
        if r is Ok {
            let findings = r->Ok_0;
            assert forall|j: int| 0 <= j < findings@.len() implies #[trigger] findings@[j].line
                >= 1 by {
                assert(finding_views(findings@)[j].line == findings@[j].line);
            }
        }
    }
    r
}

/// Runs all rules on the outcome of parsing a Rust source file. The `file`
/// label is attached to any findings, verbatim; a parse failure (given as
/// the parser's message) becomes a `Parse` error for that file.
pub fn check_parsed(parsed: Result<SourceFile, String>, file: &str) -> (r: Result<
    Vec<Finding>,
    ScanError,
>)
    ensures
        match parsed {
            Ok(ast) => r matches Ok(findings) && finding_views(findings@) == spec_check(ast, file@),
            Err(message) => r matches Err(ScanError::Parse { file: f, error }) && f@ == file@
                && error@ == message@,
        },
{
    match parsed {
        Ok(ast) => {
            let mut findings = rules::sg001::run(&ast, file);
            let mut second = rules::sg002::run(&ast, file);
            let ghost a = findings@;
            let ghost b = second@;
            findings.append(&mut second);
            assert(finding_views(findings@) =~= finding_views(a) + finding_views(b));
            Ok(findings)
        },
        Err(message) => Err(ScanError::Parse { file: String::from_str(file), error: message }),
    }
}

/// Index just after the last `/` of `p`, or 0 when `p` has none.
pub open spec fn component_start(p: Seq<char>) -> int
    decreases p.len(),
{
    if p.len() == 0 {
        0
    } else if p.last() == '/' {
        p.len() as int
    } else {
        component_start(p.drop_last())
    }
}

pub proof fn lemma_component_start(p: Seq<char>)
    ensures
        0 <= component_start(p) <= p.len(),
        p.len() > 0 && p.last() != '/' ==> component_start(p) < p.len(),
        forall|k: int| component_start(p) <= k < p.len() ==> p[k] != '/',
        component_start(p) > 0 ==> p[component_start(p) - 1] == '/',
    decreases p.len(),
{
    if p.len() > 0 && p.last() != '/' {
        lemma_component_start(p.drop_last());
        assert forall|k: int| component_start(p) <= k < p.len() implies p[k] != '/' by {
            if k < p.len() - 1 {
                assert(p[k] == p.drop_last()[k]);
            }
        }
        if component_start(p) > 0 {
            assert(p[component_start(p) - 1] == p.drop_last()[component_start(p) - 1]);
        }
    }
}

/// The final component of a `/`-separated path, as `std::path::Path::file_name`
/// finds it: trailing separators and `.` components are skipped; there is
/// none when nothing is left or when the component is `..`.
pub open spec fn file_name(p: Seq<char>) -> Option<Seq<char>>
    decreases p.len(),
{
    if p.len() == 0 {
        None
    } else if p.last() == '/' {
        file_name(p.drop_last())
    } else {
        let start = component_start(p);
        let name = p.subrange(start, p.len() as int);
        proof {
            lemma_component_start(p);
        }
        if name == seq!['.'] {
            file_name(p.subrange(0, start))
        } else if name == seq!['.', '.'] {
            None
        } else {
            Some(name)
        }
    }
}

/// A file name whose extension (the part after the last `.`, where the
/// name is not just a leading `.` and that part) is `rs`.
pub open spec fn has_rs_extension(name: Option<Seq<char>>) -> bool {
    match name {
        Some(n) => n.len() > 3 && n.subrange(n.len() - 3, n.len() as int) == seq!['.', 'r', 's'],
        None => false,
    }
}

/// Whether a path names a Rust source file: its file name has the
/// extension `rs`.
pub fn is_rs_file(path: &str) -> (r: bool)
    ensures
        r == has_rs_extension(file_name(path@)),
{
    let n = path.unicode_len();
    let mut end: usize = n;
    assert(path@.take(n as int) =~= path@);
    loop
        invariant
            end <= n,
            n == path@.len(),
            file_name(path@) == file_name(path@.take(end as int)),
        decreases end,
    {
        let ghost p = path@.take(end as int);
        if end == 0 {
            return false;
        }
        assert(p.last() == path@[end - 1]);
        if path.get_char(end - 1) == '/' {
            assert(p.drop_last() =~= path@.take(end - 1));
            end -= 1;
            continue;
        }
        let mut start = end;
        while start > 0 && path.get_char(start - 1) != '/'
            invariant
                start <= end <= n,
                n == path@.len(),
                p == path@.take(end as int),
                p.last() != '/',
                end > 0,
                component_start(p) == component_start(path@.take(start as int)),
            decreases start,
        {
            assert(path@.take(start as int).drop_last() =~= path@.take(start - 1));
            start -= 1;
        }
        proof {
            lemma_component_start(p);
            if start > 0 {
                assert(path@.take(start as int).last() == '/');
            }
        }
        assert(component_start(p) == start);
        let ghost name = p.subrange(start as int, end as int);
        assert(name =~= path@.subrange(start as int, end as int));
        let len = end - start;
        if len == 1 && path.get_char(start) == '.' {
            assert(name =~= seq!['.']);
            assert(p.subrange(0, start as int) =~= path@.take(start as int));
            end = start;
            continue;
        }
        if len == 2 && path.get_char(start) == '.' && path.get_char(start + 1) == '.' {
            assert(name =~= seq!['.', '.']);
            return false;
        }
        if len == 1 {
            assert(name[0] == path@[start as int]);
            assert(name != seq!['.']);
        }
        if len == 2 {
            assert(name[0] == path@[start as int]);
            assert(name[1] == path@[start + 1]);
            assert(name != seq!['.', '.']);
        }
        assert(file_name(p) == Some(name));
        if len <= 3 {
            return false;
        }
        let r = path.get_char(end - 3) == '.' && path.get_char(end - 2) == 'r' && path.get_char(
            end - 1,
        ) == 's';
        assert(name.subrange(name.len() - 3, name.len() as int) =~= seq![
            path@[end - 3],
            path@[end - 2],
            path@[end - 1],
        ]);
        return r;
    }
}

} // verus!
