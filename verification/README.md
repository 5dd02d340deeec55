# rust-coding-challenge

A toy payments engine, verified with Verus. It applies a stream of
transactions (deposits, withdrawals, disputes, resolves, chargebacks) to
per-client accounts and reports the final state of every account as CSV.

## Layout

- `src/amount.rs`: decimal amounts, held as the sign, mantissa and scale of a
  `rust_decimal::Decimal`; the arithmetic is delegated to that crate through a
  few trusted wrappers whose contracts are stated over the value of a decimal
  in units of 10^-28.
- `src/transaction.rs`: transactions and the records a dispute refers back to.
- `src/account.rs`: an account and the checked operations that move its
  balances; each either applies in full or leaves the account untouched.
- `src/engine.rs`: the engine, specified as a state machine (`apply_step`) over
  maps of accounts and records, with the balance movements of each kind of
  transaction (`balances_move`).
- `src/output.rs`: the report row of an account, every amount with exactly
  four fractional digits.
- `src/laws.rs`: properties of the engine over all states and transactions.
- `app/`: the command-line program: argument handling, reading the CSV with
  `csv` and `serde`, and writing the report to standard output.
- `tests/`: tests of the library.

## Running

```sh
cargo run -- transactions.csv > accounts.csv
```
