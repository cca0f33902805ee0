# scc

The Stader strategy contract (SCC): users' staking rewards are deposited into strategies
(each run by a SIC contract) according to each user's portfolio, tracked as shares, unbonded
in batches, and paid out; airdrops claimed by the strategies are shared among their
shareholders.

- `src/` is the contract's logic, verified with Verus: every request is a method of `Store`
  (the contract's records) with a contract stating the new records and the response. The
  answers of the SIC contracts a request needs are handed in as plain values (`SicAnswers`).
  `src/laws.rs` and a few functions elsewhere named `law_*` state properties across requests.
- `app/` holds the chain plumbing: entry points, storage, the queries to the SICs, and the
  serialised forms of the records and messages.
- `tests/` runs the library on concrete requests.
