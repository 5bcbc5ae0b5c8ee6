# transaction_solver

A toy payments engine. It streams a CSV of transactions, applies them to per-client
accounts, handles disputes, resolutions and chargebacks, and writes the resulting account
states to stdout as CSV.

The rules that move money, the routing of records to shards and the rendering of the result
are a library verified with Verus; what reads, writes and runs threads stands around it.

```
src/          the verified library
  decimal     decimal numbers, with the arithmetic of rust_decimal behind a few trusted calls
  digits      whole numbers as text
  amount      validated monetary amounts
  record      a CSV row, and the validated Transaction it becomes
  account     balances, disputable history, and every rule that moves money
  engine      routes a transaction to the account it belongs to, and freezes clients
  pipeline    what the CSV stream gives, and the single-engine loop over it
  route       which shard owns a client
  dispatch    staging, routing and batching of records
  parallel    the stages of the sharded pipeline: reader, shards, writer
  output      account rows as CSV
  error       RecordError (skip the record) and FatalError (stop the run)
  cli         what the command line asks for
  *_laws      what holds of accounts, engines, sharding and the pipeline as a whole
tests/        tests of the library
app/          the program: arguments, CSV stream, threads and channels
```

Withdrawals cannot be disputed by default. An account, an engine or a shard can be made so
that they can; a disputed withdrawal is then a provisional credit. The program does so when it
is built with `--cfg feature="dispute-withdraw"`.

Money is never rounded: an update whose balances or total no decimal could hold to the last
digit is refused. Every rejected row is reported with its line, the reason and its transaction
ID.
