//! Scan-level behaviour: running every rule on a file, reporting parse
//! failures, ordering findings, exit statuses and which paths are scanned.

use stellar_guard_core::report::{exit_code, is_scan_invocation, sort_findings};
use stellar_guard_core::rules::common::StorageKind;
use stellar_guard_core::syntax::{
    Attribute, FnBody, BodyNode, ExprNode, MethodCall, ImplMember, ImplFn, ImplBlock, ItemPath,
    PathSegment, SourceFile, FnVisibility,
};
use stellar_guard_core::{check_parsed, check_source, is_rs_file, Finding, ScanError};

fn ident(name: &str) -> ItemPath {
    ItemPath {
        leading_colon: false,
        segments: vec![PathSegment { ident: name.to_string(), has_arguments: false }],
    }
}

fn finding(file: &str, line: usize, tag: &str) -> Finding {
    Finding {
        rule_id: "SG001".to_string(),
        severity: "high".to_string(),
        file: file.to_string(),
        line,
        function: tag.to_string(),
        message: String::new(),
    }
}

/// A contract whose `swap` calls `env.invoke_contract` on line 11 and
/// writes persistent storage on line 12, with no auth call.
fn both_rules_fire() -> SourceFile {
    let storage = || MethodCall {
        receiver: Box::new(ExprNode::Path(ident("env"))),
        method: "storage".to_string(),
        line: 12,
    };
    let handle = || MethodCall {
        receiver: Box::new(ExprNode::MethodCall(storage())),
        method: "persistent".to_string(),
        line: 12,
    };
    let nodes = vec![
        BodyNode::MethodCall(MethodCall {
            receiver: Box::new(ExprNode::Path(ident("env"))),
            method: "invoke_contract".to_string(),
            line: 11,
        }),
        BodyNode::MethodCall(MethodCall {
            receiver: Box::new(ExprNode::MethodCall(handle())),
            method: "set".to_string(),
            line: 12,
        }),
        BodyNode::MethodCall(handle()),
        BodyNode::MethodCall(storage()),
    ];
    SourceFile {
        impls: vec![ImplBlock {
            attrs: vec![Attribute { path: ident("contractimpl") }],
            items: vec![
                ImplMember::Other,
                ImplMember::Fn(ImplFn {
                    vis: FnVisibility::Public,
                    ident: "swap".to_string(),
                    block: FnBody { nodes },
                }),
            ],
        }],
    }
}

#[test]
fn check_source_runs_both_rules_in_order() {
    let findings = check_parsed(Ok(both_rules_fire()), "src/lib.rs").unwrap();
    assert_eq!(findings.len(), 2);
    assert_eq!(findings[0].rule_id, "SG001");
    assert_eq!(findings[1].rule_id, "SG002");
    assert!(findings.iter().all(|f| f.file == "src/lib.rs" && f.line == 12 && f.function == "swap"));
}

#[test]
fn check_source_reports_parse_failure_for_the_file() {
    match check_parsed(Err("expected `;`".to_string()), "bad.rs") {
        Err(ScanError::Parse { file, error }) => {
            assert_eq!(file, "bad.rs");
            assert_eq!(error, "expected `;`");
        }
        other => panic!("expected a parse error, got {other:?}"),
    }
}

#[test]
fn check_source_reports_unparsable_text() {
    match check_source("impl {", "broken.rs") {
        Err(ScanError::Parse { file, error }) => {
            assert_eq!(file, "broken.rs");
            assert!(!error.is_empty());
        }
        other => panic!("expected a parse error, got {other:?}"),
    }
}

#[test]
fn scan_error_messages() {
    let parse = ScanError::Parse { file: "a.rs".to_string(), error: "oops".to_string() };
    assert_eq!(parse.message(), "failed to parse a.rs: oops");
    assert_eq!(ScanError::NotFound("x/y".to_string()).message(), "path not found: x/y");
    assert_eq!(ScanError::Io("denied".to_string()).message(), "failed to read file: denied");
    assert_eq!(ScanError::Walk("loop".to_string()).message(), "failed to walk directory: loop");
}

#[test]
fn sort_orders_by_file_then_line_and_is_stable() {
    let sorted = sort_findings(vec![
        finding("b.rs", 3, "first"),
        finding("a.rs", 9, "a9"),
        finding("b.rs", 1, "b1"),
        finding("b.rs", 3, "second"),
        finding("ab.rs", 2, "ab2"),
        finding("a.rs", 9, "a9-again"),
    ]);
    let order: Vec<&str> = sorted.iter().map(|f| f.function.as_str()).collect();
    assert_eq!(order, vec!["a9", "a9-again", "ab2", "b1", "first", "second"]);
}

#[test]
fn sort_compares_file_names_by_code_point() {
    let sorted = sort_findings(vec![
        finding("é.rs", 1, "accent"),
        finding("z.rs", 1, "z"),
        finding("Z.rs", 1, "upper"),
        finding("", 5, "empty"),
    ]);
    let order: Vec<&str> = sorted.iter().map(|f| f.function.as_str()).collect();
    assert_eq!(order, vec!["empty", "upper", "z", "accent"]);
}

#[test]
fn exit_codes() {
    assert_eq!(exit_code(&Ok(vec![])), 0);
    let mut low = finding("a.rs", 1, "f");
    low.severity = "low".to_string();
    assert_eq!(exit_code(&Ok(vec![low.clone()])), 0);
    assert_eq!(exit_code(&Ok(vec![low, finding("a.rs", 2, "g")])), 1);
    assert_eq!(exit_code(&Err(ScanError::NotFound("nope".to_string()))), 2);
}

#[test]
fn scan_invocation_needs_exactly_scan_and_a_path() {
    let args = |v: &[&str]| v.iter().map(|s| s.to_string()).collect::<Vec<String>>();
    assert!(is_scan_invocation(&args(&["stellar-guard", "scan", "src"])));
    assert!(!is_scan_invocation(&args(&["stellar-guard", "scan"])));
    assert!(!is_scan_invocation(&args(&["stellar-guard", "check", "src"])));
    assert!(!is_scan_invocation(&args(&["stellar-guard", "scan", "a", "b"])));
}

#[test]
fn rust_files_are_recognized_by_extension() {
    assert!(is_rs_file("src/lib.rs"));
    assert!(is_rs_file("lib.rs"));
    assert!(is_rs_file("a/b/.hidden.rs"));
    assert!(is_rs_file("dir/lib.rs/"));
    assert!(is_rs_file("dir/lib.rs/."));
    assert!(!is_rs_file(".rs"));
    assert!(!is_rs_file("dir/.rs"));
    assert!(!is_rs_file("lib.rs.bak"));
    assert!(!is_rs_file("lib.RS"));
    assert!(!is_rs_file("dir/.."));
    assert!(!is_rs_file("a.rs/.."));
    assert!(!is_rs_file(""));
    assert!(!is_rs_file("/"));
    assert!(!is_rs_file("README"));
}

#[test]
fn storage_kind_labels() {
    assert_eq!(StorageKind::Persistent.label(), "persistent");
    assert_eq!(StorageKind::Instance.label(), "instance");
    assert_eq!(StorageKind::Temporary.label(), "temporary");
    assert_eq!(StorageKind::Contract.label(), "contract");
}
