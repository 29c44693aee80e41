# payment_engine

A payments engine for a stream of client transactions (deposits,
withdrawals, disputes, resolves, chargebacks) over fixed-precision amounts,
written in Verus and proved against its contracts.

- `src/amt.rs`: `Amt`, an `i128` scaled by 10 000; reading amounts from text
  (`parse_amt`) and writing them (`Amt::to_string`), with the proof that
  reading back a written amount gives the amount.
- `src/account.rs`: a client's account and its five operations, each
  specified as an outcome on the account.
- `src/engine.rs`: the engine over all accounts and recorded deposits; its
  state is specified as a `Ledger`, each transaction as a `step` on it, and
  the laws of the engine (balances never negative, held funds equal to the
  disputed deposits, locked accounts frozen, ...) are proved over `step`.
- `src/transaction.rs`, `src/account_balance.rs`, `src/types.rs`,
  `src/txn.rs`: the record types.
- `app/`: the command line program: argument handling, CSV input and output
  with `csv` and `serde`.
