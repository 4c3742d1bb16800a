# stellar_guard_core

Static analysis of Soroban smart contracts, verified with Verus.

Two rules run over every `pub fn` of a `#[contractimpl]` impl block:

- **SG001** — the function mutates contract storage (through
  `env.storage()`) with no `require_auth()` / `require_auth_for_args()`
  call on a strictly earlier line.
- **SG002** — the function mutates contract storage on a line after a
  cross-contract call (`invoke_contract`, `try_invoke_contract`, or a call
  on a generated contract client).

Layout:

- `src/` — the library: the syntax model the rules read (`syntax`),
  parsing source text into it with `syn` (`parse`, trusted), the rules and
  their shared primitives (`rules`), the properties proved of them
  (`rules::laws`), finding order and exit status (`report`), and
  `check_source` / `check_parsed` / `is_rs_file` at the root. All of it
  but `parse` is verified.
- `app/` — the `stellar-guard scan <path>` command: file and directory
  walking and JSON output.
- `tests/` — the rules and the sample contracts on source text, and the
  scan-level behaviour.
