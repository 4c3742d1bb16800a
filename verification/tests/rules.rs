//! The SG001 and SG002 rules on contract sources, parsed as the scanner
//! parses them.

use stellar_guard_core::parse::parse_source;
use stellar_guard_core::rules::{sg001, sg002};
use stellar_guard_core::Finding;

/// Wraps a function body in a minimal `#[contractimpl]` contract.
fn contract_with(body: &str) -> String {
    format!(
        r#"
#![no_std]
use soroban_sdk::{{contract, contractimpl, Address, Env, Symbol}};

#[contract]
pub struct Vault;

#[contractimpl]
impl Vault {{
    {body}
}}
"#
    )
}

fn check_sg001(source: &str) -> Vec<Finding> {
    let ast = parse_source(source).expect("test source must parse");
    sg001::run(&ast, "test.rs")
}

fn check_sg002(source: &str) -> Vec<Finding> {
    let ast = parse_source(source).expect("test source must parse");
    sg002::run(&ast, "test.rs")
}

fn sg001_flagged(source: &str) -> Finding {
    let mut findings = check_sg001(source);
    assert_eq!(findings.len(), 1, "expected exactly one finding: {findings:?}");
    findings.remove(0)
}

fn sg001_clean(source: &str) {
    let findings = check_sg001(source);
    assert!(findings.is_empty(), "expected no findings: {findings:?}");
}

fn sg002_flagged(source: &str) -> Finding {
    let mut findings = check_sg002(source);
    assert_eq!(findings.len(), 1, "expected exactly one finding: {findings:?}");
    findings.remove(0)
}

fn sg002_clean(source: &str) {
    let findings = check_sg002(source);
    assert!(findings.is_empty(), "expected no findings: {findings:?}");
}

// ---- SG001 ----

#[test]
fn flags_persistent_mutation_without_auth() {
    let finding = sg001_flagged(&contract_with(
        "pub fn withdraw(env: Env, amount: i128) -> i128 {
                env.storage().persistent().set(&Symbol::new(&env, \"k\"), &amount);
                amount
            }",
    ));
    assert_eq!(finding.rule_id, "SG001");
    assert_eq!(finding.severity, "high");
    assert_eq!(finding.file, "test.rs");
    assert_eq!(finding.function, "withdraw");
    assert!(finding.message.contains("mutates persistent storage"));
    assert!(finding.message.contains("'withdraw'"));
    assert_eq!(finding.line, 11);
    assert_eq!(
        finding.message,
        "Entry point 'withdraw' mutates persistent storage without a preceding require_auth() call."
    );
}

#[test]
fn does_not_flag_when_auth_precedes_mutation() {
    sg001_clean(&contract_with(
        "pub fn withdraw(env: Env, caller: Address, amount: i128) -> i128 {
                caller.require_auth();
                env.storage().persistent().set(&Symbol::new(&env, \"k\"), &amount);
                amount
            }",
    ));
}

#[test]
fn require_auth_for_args_counts_as_auth() {
    sg001_clean(&contract_with(
        "pub fn withdraw(env: Env, caller: Address, amount: i128) -> i128 {
                caller.require_auth_for_args(vec![&env, amount.into_val(&env)]);
                env.storage().persistent().set(&Symbol::new(&env, \"k\"), &amount);
                amount
            }",
    ));
}

#[test]
fn flags_mutation_when_auth_comes_after() {
    let finding = sg001_flagged(&contract_with(
        "pub fn withdraw(env: Env, caller: Address, amount: i128) -> i128 {
                env.storage().persistent().set(&Symbol::new(&env, \"k\"), &amount);
                caller.require_auth();
                amount
            }",
    ));
    assert!(finding.message.contains("mutates persistent storage"));
}

#[test]
fn flags_instance_and_temporary_mutations() {
    let finding = sg001_flagged(&contract_with(
        "pub fn init(env: Env, v: u32) {
                env.storage().instance().set(&Symbol::new(&env, \"k\"), &v);
            }",
    ));
    assert!(finding.message.contains("mutates instance storage"));

    let finding = sg001_flagged(&contract_with(
        "pub fn cache(env: Env, v: u32) {
                env.storage().temporary().set(&Symbol::new(&env, \"k\"), &v);
            }",
    ));
    assert!(finding.message.contains("mutates temporary storage"));
}

#[test]
fn flags_remove_and_extend_ttl() {
    sg001_flagged(&contract_with(
        "pub fn clean(env: Env) {
                env.storage().persistent().remove(&Symbol::new(&env, \"k\"));
            }",
    ));
    sg001_flagged(&contract_with(
        "pub fn bump(env: Env) {
                env.storage().persistent().extend_ttl(&Symbol::new(&env, \"k\"), 1_000, 5_000);
            }",
    ));
}

#[test]
fn read_only_storage_calls_are_not_flagged() {
    sg001_clean(&contract_with(
        "pub fn peek(env: Env) -> i128 {
                env.storage().persistent().get(&Symbol::new(&env, \"k\")).unwrap_or(0)
            }",
    ));
}

#[test]
fn set_on_unrelated_receiver_is_not_flagged() {
    sg001_clean(&contract_with(
        "pub fn tweak(env: Env, s: Vec<u32>) {
                let mut other = s;
                other.set(0, 1);
            }",
    ));
}

#[test]
fn sg001_only_contractimpl_impl_blocks_are_checked() {
    sg001_clean(
        r#"
            pub struct Vault;

            impl Vault {
                pub fn withdraw(env: Env, amount: i128) -> i128 {
                    env.storage().persistent().set(&Symbol::new(&env, "k"), &amount);
                    amount
                }
            }
            "#,
    );
}

#[test]
fn walks_nested_blocks() {
    sg001_flagged(&contract_with(
        "pub fn maybe(env: Env, flag: bool, amount: i128) -> i128 {
                if flag {
                    env.storage().persistent().set(&Symbol::new(&env, \"k\"), &amount);
                }
                amount
            }",
    ));
}

#[test]
fn auth_on_the_same_line_does_not_count() {
    let finding = sg001_flagged(&contract_with(
        "pub fn withdraw(env: Env, caller: Address, amount: i128) -> i128 {
                caller.require_auth(); env.storage().persistent().set(&Symbol::new(&env, \"k\"), &amount);
                amount
            }",
    ));
    assert_eq!(finding.line, 11);
}

#[test]
fn private_functions_are_not_entry_points() {
    sg001_clean(&contract_with(
        "fn withdraw(env: Env, amount: i128) {
                env.storage().persistent().set(&Symbol::new(&env, \"k\"), &amount);
            }",
    ));
}

#[test]
fn storage_reached_through_another_name_is_not_flagged() {
    sg001_clean(&contract_with(
        "pub fn withdraw(e: Env, amount: i128) {
                e.storage().persistent().set(&Symbol::new(&e, \"k\"), &amount);
            }",
    ));
}

#[test]
fn mutation_on_storage_itself_is_contract_kind() {
    let finding = sg001_flagged(&contract_with(
        "pub fn odd(env: Env) {
                env.storage().update(1);
            }",
    ));
    assert!(finding.message.contains("mutates contract storage"));
}

#[test]
fn reports_first_unauthorized_mutation() {
    let finding = sg001_flagged(&contract_with(
        "pub fn two(env: Env, caller: Address) {
                env.storage().temporary().put(&1, &2);
                caller.require_auth();
                env.storage().persistent().try_update(&1, |v| v);
                env.storage().instance().extend_ttl_with_limits(1, 2);
            }",
    ));
    assert_eq!(finding.line, 11);
    assert!(finding.message.contains("mutates temporary storage"));
}

#[test]
fn calls_inside_closures_belong_to_the_entry_point() {
    let finding = sg001_flagged(&contract_with(
        "pub fn later(env: Env) {
                let f = || {
                    env.storage().persistent().set(&1, &2);
                };
                f();
            }",
    ));
    assert_eq!(finding.line, 12);
}

#[test]
fn contractimpl_under_a_path_counts() {
    sg001_flagged(
        r#"
mod inner {
    #[soroban_sdk::contractimpl]
    impl Vault {
        pub fn withdraw(env: Env) {
            env.storage().persistent().set(&1, &2);
        }
    }
}
"#,
    );
}

// ---- SG002 ----

#[test]
fn flags_external_call_before_mutation() {
    let finding = sg002_flagged(&contract_with(
        "pub fn swap(env: Env, pool: Address, amount: i128) -> i128 {
                let received = env.invoke_contract::<i128>(&pool, &Symbol::new(&env, \"swap\"), vec![&env, amount.into_val(&env)]);
                env.storage().persistent().set(&Symbol::new(&env, \"total\"), &received);
                received
            }",
    ));
    assert_eq!(finding.rule_id, "SG002");
    assert_eq!(finding.severity, "high");
    assert_eq!(finding.file, "test.rs");
    assert_eq!(finding.function, "swap");
    assert!(finding.message.contains("mutates storage after an external contract call"));
    assert_eq!(finding.line, 12);
}

#[test]
fn does_not_flag_when_mutation_precedes_external_call() {
    sg002_clean(&contract_with(
        "pub fn swap(env: Env, pool: Address, amount: i128) -> i128 {
                env.storage().persistent().set(&Symbol::new(&env, \"total\"), &amount);
                env.invoke_contract::<i128>(&pool, &Symbol::new(&env, \"swap\"), vec![&env, amount.into_val(&env)])
            }",
    ));
}

#[test]
fn flags_try_invoke_contract() {
    sg002_flagged(&contract_with(
        "pub fn swap(env: Env, pool: Address, amount: i128) -> i128 {
                let r = env.try_invoke_contract::<i128, _>(&pool, &Symbol::new(&env, \"swap\"), vec![&env, amount.into_val(&env)]);
                env.storage().persistent().set(&Symbol::new(&env, \"total\"), &r);
                r
            }",
    ));
}

#[test]
fn flags_chained_client_call_before_mutation() {
    sg002_flagged(&contract_with(
        "pub fn swap(env: Env, pool: Address, amount: i128) -> i128 {
                let received = PoolClient::new(&env, &pool).swap(&amount);
                env.storage().persistent().set(&Symbol::new(&env, \"total\"), &received);
                received
            }",
    ));
}

#[test]
fn read_only_storage_after_external_call_is_not_flagged() {
    sg002_clean(&contract_with(
        "pub fn peek(env: Env, pool: Address) -> i128 {
                let received = env.invoke_contract::<i128>(&pool, &Symbol::new(&env, \"quote\"), vec![&env]);
                env.storage().persistent().get(&Symbol::new(&env, \"total\")).unwrap_or(received)
            }",
    ));
}

#[test]
fn external_call_without_mutation_is_not_flagged() {
    sg002_clean(&contract_with(
        "pub fn relay(env: Env, pool: Address, amount: i128) -> i128 {
                env.invoke_contract::<i128>(&pool, &Symbol::new(&env, \"swap\"), vec![&env, amount.into_val(&env)])
            }",
    ));
}

#[test]
fn sg002_only_contractimpl_impl_blocks_are_checked() {
    sg002_clean(
        r#"
            pub struct Router;

            impl Router {
                pub fn swap(env: Env, pool: Address, amount: i128) -> i128 {
                    let received = env.invoke_contract::<i128>(&pool, &Symbol::new(&env, "swap"), vec![&env, amount.into_val(&env)]);
                    env.storage().persistent().set(&Symbol::new(&env, "total"), &received);
                    received
                }
            }
            "#,
    );
}

#[test]
fn flags_tracked_client_call_before_mutation() {
    let finding = sg002_flagged(&contract_with(
        "pub fn swap(env: Env, pool: Address, amount: i128) -> i128 {
                let client = PoolClient::new(&env, &pool);
                let received = client.swap(&amount);
                env.storage().persistent().set(&Symbol::new(&env, \"total\"), &received);
                received
            }",
    ));
    assert_eq!(finding.line, 13);
}

#[test]
fn does_not_flag_tracked_client_call_when_mutation_precedes() {
    sg002_clean(&contract_with(
        "pub fn swap(env: Env, pool: Address, amount: i128) -> i128 {
                env.storage().persistent().set(&Symbol::new(&env, \"total\"), &amount);
                let client = PoolClient::new(&env, &pool);
                client.swap(&amount)
            }",
    ));
}

#[test]
fn flags_module_qualified_client_call_before_mutation() {
    sg002_flagged(&contract_with(
        "pub fn swap(env: Env, pool: Address, amount: i128) -> i128 {
                let client = pool::Client::new(&env, &pool);
                let received = client.swap(&amount);
                env.storage().persistent().set(&Symbol::new(&env, \"total\"), &received);
                received
            }",
    ));
}

#[test]
fn rebinding_a_client_variable_stops_tracking_it() {
    sg002_clean(&contract_with(
        "pub fn swap(env: Env, pool: Address, other: Thing) {
                let client = PoolClient::new(&env, &pool);
                let client = other;
                client.swap(&1);
                env.storage().persistent().set(&1, &2);
            }",
    ));
}

#[test]
fn typed_client_binding_is_tracked() {
    sg002_flagged(&contract_with(
        "pub fn swap(env: Env, pool: Address) {
                let client: PoolClient = PoolClient::new(&env, &pool);
                client.swap(&1);
                env.storage().persistent().set(&1, &2);
            }",
    ));
}

#[test]
fn constructor_not_named_client_is_not_external() {
    sg002_clean(&contract_with(
        "pub fn swap(env: Env, pool: Address) {
                Pool::new(&env, &pool).swap(&1);
                PoolClient::build(&env, &pool).swap(&1);
                env.storage().persistent().set(&1, &2);
            }",
    ));
}

#[test]
fn earliest_external_call_decides() {
    let finding = sg002_flagged(&contract_with(
        "pub fn swap(env: Env, pool: Address) {
                env.storage().persistent().set(&1, &2);
                env.invoke_contract::<i128>(&pool, &s, v);
                env.storage().instance().set(&1, &2);
                env.invoke_contract::<i128>(&pool, &s, v);
            }",
    ));
    assert_eq!(finding.line, 13);
    assert_eq!(
        finding.message,
        "Entry point 'swap' mutates storage after an external contract call, which can allow reentrancy if the callee re-enters before state is finalized."
    );
}

#[test]
fn text_that_does_not_parse_is_an_error() {
    assert!(parse_source("fn broken( {").is_err());
}
