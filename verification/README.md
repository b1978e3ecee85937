# b-table

A database table with support for multiple indices, each of which is a persistent B+ tree.
The library is written in Verus: what each function does is stated in its contract and proved.

## Layout

- `src/schema.rs`: the schema of a table, which its users implement, and ranges of rows
- `src/table.rs`: a table that is locked, and what each operation asks of its indices
- `src/table/validity.rs`: which schemata and which keys are accepted, and the errors for the others
- `src/table/columns.rs`: picking the values of columns out of a row
- `src/table/ranges.rs`: turning a range of rows into a range of the keys of one index
- `src/table/opening.rs`, `src/table/table_lock.rs`: creating, loading and locking a table
- `src/table/acquire.rs`: locking a table step by step, for callers that wait for each lock
- `src/index_map.rs`: a map from the names of indices, in the order of the names
- `src/equality.rs`: what `==` decides, for the contracts of generic functions
- `src/storage.rs`: what the library takes on trust of `b-tree`, `freqfs` and `tokio`
- `src/laws.rs`: what holds of these operations together
- `app/`: the asynchronous side, which waits for locks and runs queries

## Trust

A schema is a trait with a contract, so the proofs hold for schemata that keep it.
The locks and directories of the storage crates are opaque: the contracts say which of their
methods were called on what, and in which order. Contracts that look up the columns of a range
in a `HashMap` hold for column names that Verus knows to be proper keys.
