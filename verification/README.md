# block_executor

Executes blocks of transactions, one after the other or speculatively on the workers of a thread
pool, and hands back one output per transaction. A sequential run is verified with Verus as a whole.
Of a parallel run the decisions of the workers are verified; the scheduler and the stores that they
share are not, and are asked to keep the number of outputs.

* `src/` is the library.
  * `executor` chooses between a parallel and a sequential run, and falls back to the latter when a
    module was both read and written.
  * `sequential` runs a block one transaction after the other, up to the gas limit.
    `delayed_fields` applies outputs to the state of such a run, `unsync_map` holds that state, and
    `determinism` shows that two sequential runs of a block end alike if the machine does the same
    in the same state, and how runs of a prefix or under a lower gas limit relate.
  * `patching` replaces the identifiers of delayed fields in writes, reads and events by values.
  * `parallel` holds the decisions of the workers of a parallel run: the loop of a worker, the
    execution and the validation of a transaction, the commits, and the materialization of what was
    committed. Each is a machine that says what to do next and is told what came of it.
  * `task` and `txn_commit_hook` are the traits of the machine that executes a transaction and of
    the listener that is told of commits.
  * `host` and `raw_bytes` hold what is taken from other crates.
* `app/` runs the machines on threads and stores, and holds the metrics of remote executors.
* `tests/` runs the library on concrete blocks.

A rule that the inputs of a run break is reported as an `InvariantViolation`; `app/` panics on it.
