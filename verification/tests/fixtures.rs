//! The sample Soroban contracts the scanner is exercised on, checked one
//! by one and as a whole directory.

use stellar_guard_core::report::{collect_findings, exit_code};
use stellar_guard_core::{check_source, Finding};

/// `fixtures/vulnerable.rs`
const VULNERABLE: &str = r##"//! Vulnerable fixture for rule SG001.
//!
//! Entry point `withdraw` mutates persistent storage without calling
//! `require_auth()` (or `require_auth_for_args()`) on the caller, so the
//! scanner must flag it.

#![no_std]

use soroban_sdk::{contract, contractimpl, Address, Env, Symbol};

#[contract]
pub struct VaultContract;

#[contractimpl]
impl VaultContract {
    /// Withdraws `amount` from the vault. MISSING require_auth().
    pub fn withdraw(env: Env, caller: Address, amount: i128) -> i128 {
        let balance_key = Symbol::new(&env, "balance");
        let current = env
            .storage()
            .persistent()
            .get::<Symbol, i128>(&balance_key)
            .unwrap_or(0);

        let new_balance = current - amount;

        // VULNERABILITY: no require_auth() before this write.
        env.storage().persistent().set(&balance_key, &new_balance);

        new_balance
    }
}
"##;

/// `fixtures/safe.rs`
const SAFE: &str = r##"//! Safe fixture for rule SG001.
//!
//! Entry point `withdraw` calls `require_auth()` on the caller before
//! mutating persistent storage, so the scanner must NOT flag it.

#![no_std]

use soroban_sdk::{contract, contractimpl, Address, Env, Symbol};

#[contract]
pub struct VaultContract;

#[contractimpl]
impl VaultContract {
    /// Withdraws `amount` from the vault after authenticating `caller`.
    pub fn withdraw(env: Env, caller: Address, amount: i128) -> i128 {
        caller.require_auth();

        let balance_key = Symbol::new(&env, "balance");
        let current = env
            .storage()
            .persistent()
            .get::<Symbol, i128>(&balance_key)
            .unwrap_or(0);

        let new_balance = current - amount;

        env.storage().persistent().set(&balance_key, &new_balance);

        new_balance
    }
}
"##;

/// `fixtures/reentrant.rs`
const REENTRANT: &str = r##"//! Reentrancy-risk fixture for rule SG002.
//!
//! Entry point `swap` calls out to an external contract FIRST and mutates
//! its own persistent storage AFTER the call returns — the
//! "interaction-then-effect" ordering that can let a malicious or
//! upgradeable callee re-enter before state is finalized. Rule SG002 must
//! flag it.

#![no_std]

use soroban_sdk::{contract, contractimpl, Address, Env, Symbol, Vec};

#[contract]
pub struct RouterContract;

#[contractimpl]
impl RouterContract {
    /// Swaps tokens via an external pool, then records the trade.
    pub fn swap(env: Env, caller: Address, pool: Address, amount: i128) -> i128 {
        caller.require_auth();

        // INTERACTION first: call out to the external pool contract.
        let received = env.invoke_contract::<i128>(
            &pool,
            &Symbol::new(&env, "swap"),
            vec![&env, amount.into_val(&env)],
        );

        // EFFECT second: mutate our own storage AFTER the external call.
        let total_key = Symbol::new(&env, "total_swapped");
        env.storage().persistent().set(&total_key, &received);

        received
    }
}
"##;

/// `fixtures/reentrant_client_pattern.rs`
const REENTRANT_CLIENT_PATTERN: &str = r##"//! Reentrancy-risk fixture for rule SG002 — generated-client pattern.
//!
//! Entry point `swap` calls out to an external contract via a
//! `let client = PoolClient::new(...)` binding FIRST and mutates its own
//! persistent storage AFTER the call returns. Rule SG002 must flag it.

#![no_std]

use soroban_sdk::{contract, contractimpl, Address, Env, Symbol};

mod pool {
    soroban_sdk::contractimport!(
        file = "../pool/target/wasm32v1-none/release/soroban_pool_contract.wasm"
    );
}

#[contract]
pub struct RouterContract;

#[contractimpl]
impl RouterContract {
    /// Swaps tokens via an external pool, then records the trade.
    pub fn swap(env: Env, caller: Address, pool: Address, amount: i128) -> i128 {
        caller.require_auth();

        // INTERACTION first: call out to the external pool contract.
        let client = pool::Client::new(&env, &pool);
        let received = client.swap(&amount);

        // EFFECT second: mutate our own storage AFTER the external call.
        let total_key = Symbol::new(&env, "total_swapped");
        env.storage().persistent().set(&total_key, &received);

        received
    }
}
"##;

/// `fixtures/safe_client_pattern.rs`
const SAFE_CLIENT_PATTERN: &str = r##"//! Safe-ordering fixture for rule SG002 — generated-client pattern.
//!
//! Entry point `swap` finalizes its own storage state BEFORE making the
//! external contract call via a `let client = PoolClient::new(...)` binding
//! (checks-effects-interactions). Rule SG002 must NOT flag it.

#![no_std]

use soroban_sdk::{contract, contractimpl, Address, Env, Symbol};

mod pool {
    soroban_sdk::contractimport!(
        file = "../pool/target/wasm32v1-none/release/soroban_pool_contract.wasm"
    );
}

#[contract]
pub struct RouterContract;

#[contractimpl]
impl RouterContract {
    /// Swaps tokens via an external pool, recording the trade first.
    pub fn swap(env: Env, caller: Address, pool: Address, amount: i128) -> i128 {
        caller.require_auth();

        // EFFECT first: finalize our own storage before interacting.
        let total_key = Symbol::new(&env, "total_swapped");
        let current = env
            .storage()
            .persistent()
            .get::<Symbol, i128>(&total_key)
            .unwrap_or(0);
        env.storage().persistent().set(&total_key, &(current + amount));

        // INTERACTION second: call out to the external pool contract.
        let client = pool::Client::new(&env, &pool);
        client.swap(&amount)
    }
}
"##;

fn scan(source: &str, file: &str) -> Vec<Finding> {
    check_source(source, file).expect("the fixture parses")
}

fn with_rule<'a>(findings: &'a [Finding], rule: &str) -> Vec<&'a Finding> {
    findings.iter().filter(|f| f.rule_id == rule).collect()
}

/// Scans the fixture directory: every file, findings sorted by file and
/// line.
fn scan_directory() -> Vec<Finding> {
    collect_findings(vec![
        scan(REENTRANT, "fixtures/reentrant.rs"),
        scan(REENTRANT_CLIENT_PATTERN, "fixtures/reentrant_client_pattern.rs"),
        scan(SAFE, "fixtures/safe.rs"),
        scan(SAFE_CLIENT_PATTERN, "fixtures/safe_client_pattern.rs"),
        scan(VULNERABLE, "fixtures/vulnerable.rs"),
    ])
}

#[test]
fn flags_vulnerable_fixture() {
    let findings = scan(VULNERABLE, "fixtures/vulnerable.rs");
    assert_ne!(exit_code(&Ok(findings.clone())), 0, "scanning the vulnerable fixture must exit non-zero");
    assert_eq!(findings.len(), 1, "expected exactly one finding: {findings:#?}");
    let finding = &findings[0];
    assert_eq!(finding.rule_id, "SG001");
    assert_eq!(finding.severity, "high");
    assert_eq!(finding.function, "withdraw");
    assert_eq!(finding.line, 28, "line must point at the env.storage().persistent().set(...) call");
    assert!(finding.file.ends_with("fixtures/vulnerable.rs"));
    assert!(finding.message.contains("mutates persistent storage"));
}

#[test]
fn does_not_flag_safe_fixture() {
    let findings = scan(SAFE, "fixtures/safe.rs");
    assert_eq!(exit_code(&Ok(findings.clone())), 0, "scanning the safe fixture must exit zero");
    assert!(findings.is_empty(), "expected no findings: {findings:#?}");
}

#[test]
fn flags_reentrant_fixture() {
    let findings = scan(REENTRANT, "fixtures/reentrant.rs");
    assert_ne!(exit_code(&Ok(findings.clone())), 0, "scanning the reentrant fixture must exit non-zero");
    let sg002 = with_rule(&findings, "SG002");
    assert_eq!(sg002.len(), 1, "expected exactly one SG002 finding: {sg002:#?}");
    let finding = sg002[0];
    assert_eq!(finding.severity, "high");
    assert_eq!(finding.function, "swap");
    assert_eq!(
        finding.line, 31,
        "line must point at the env.storage().persistent().set(...) call after the external call"
    );
    assert!(finding.file.ends_with("fixtures/reentrant.rs"));
    assert!(finding.message.contains("mutates storage after an external contract call"));
}

#[test]
fn flags_reentrant_client_pattern_fixture() {
    let findings = scan(REENTRANT_CLIENT_PATTERN, "fixtures/reentrant_client_pattern.rs");
    assert_ne!(
        exit_code(&Ok(findings.clone())),
        0,
        "scanning the reentrant-client-pattern fixture must exit non-zero"
    );
    let sg002 = with_rule(&findings, "SG002");
    assert_eq!(sg002.len(), 1, "expected exactly one SG002 finding: {sg002:#?}");
    let finding = sg002[0];
    assert_eq!(finding.severity, "high");
    assert_eq!(finding.function, "swap");
    assert!(finding.message.contains("mutates storage after an external contract call"));
}

#[test]
fn does_not_flag_safe_client_pattern_fixture() {
    let findings = scan(SAFE_CLIENT_PATTERN, "fixtures/safe_client_pattern.rs");
    assert_eq!(exit_code(&Ok(findings.clone())), 0, "scanning the safe-client-pattern fixture must exit zero");
    let sg002 = with_rule(&findings, "SG002");
    assert!(sg002.is_empty(), "expected no SG002 findings: {sg002:#?}");
}

#[test]
fn directory_scan_reports_both_rules() {
    let findings = scan_directory();
    assert_ne!(exit_code(&Ok(findings.clone())), 0, "directory scan must exit non-zero");
    let sg001 = with_rule(&findings, "SG001");
    let sg002 = with_rule(&findings, "SG002");
    assert_eq!(sg001.len(), 1, "expected one SG001 finding: {findings:#?}");
    assert_eq!(sg002.len(), 2, "expected two SG002 findings: {findings:#?}");
    assert!(sg001[0].file.ends_with("fixtures/vulnerable.rs"));
    let sg002_files: Vec<&str> = sg002.iter().map(|f| f.file.as_str()).collect();
    assert!(
        sg002_files.iter().any(|f| f.ends_with("fixtures/reentrant.rs")),
        "expected reentrant.rs in SG002 findings: {sg002_files:?}"
    );
    assert!(
        sg002_files.iter().any(|f| f.ends_with("fixtures/reentrant_client_pattern.rs")),
        "expected reentrant_client_pattern.rs in SG002 findings: {sg002_files:?}"
    );
}

#[test]
fn directory_scan_flags_only_the_vulnerable_fixture() {
    let findings = scan_directory();
    assert_ne!(exit_code(&Ok(findings.clone())), 0, "directory scan must exit non-zero");
    let sg001 = with_rule(&findings, "SG001");
    assert_eq!(
        sg001.len(),
        1,
        "expected exactly one SG001 finding (other rules may also fire): {findings:#?}"
    );
    assert!(sg001[0].file.ends_with("vulnerable.rs"));
}

#[test]
fn directory_scan_is_sorted_by_file_then_line() {
    let findings = scan_directory();
    let locations: Vec<(&str, usize)> = findings.iter().map(|f| (f.file.as_str(), f.line)).collect();
    assert_eq!(
        locations,
        vec![
            ("fixtures/reentrant.rs", 31),
            ("fixtures/reentrant_client_pattern.rs", 32),
            ("fixtures/vulnerable.rs", 28),
        ]
    );
}

#[test]
fn file_label_is_attached_verbatim() {
    let a = scan(REENTRANT, "fixtures/reentrant.rs");
    let b = scan(REENTRANT, "some/other label");
    assert_eq!(a.len(), b.len());
    for (x, y) in a.iter().zip(b.iter()) {
        assert_eq!(x.file, "fixtures/reentrant.rs");
        assert_eq!(y.file, "some/other label");
        assert_eq!((&x.rule_id, &x.severity, x.line, &x.function, &x.message), (&y.rule_id, &y.severity, y.line, &y.function, &y.message));
    }
}

#[test]
fn repeated_parses_give_the_same_findings() {
    let first = scan(VULNERABLE, "fixtures/vulnerable.rs");
    for _ in 0..3 {
        scan(REENTRANT_CLIENT_PATTERN, "fixtures/reentrant_client_pattern.rs");
    }
    let again = scan(VULNERABLE, "fixtures/vulnerable.rs");
    assert_eq!(first, again);
}
