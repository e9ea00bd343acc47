//! The executor of blocks.
use crate::errors::DelayedFieldFailure;
use crate::errors::Error;
use crate::host::available_cpus;
use crate::parallel::materialize::commits_first;
use crate::parallel::materialize::committed_results_come_first;
use crate::parallel::materialize::committed_up_to;
use crate::parallel::materialize::results_after;
use crate::patching::Replaced;
use crate::sequential::run_sequential;
use crate::sequential::SequentialSetup;
use crate::task::ExecutorTask;
use crate::task::TransactionOutput;
use crate::txn_commit_hook::TransactionCommitHook;
use crate::types::Transaction;
use crate::types::TxnIndex;
use crate::unsync_map::LatestView;
use bytes::Bytes;
use rayon::ThreadPool;
use std::marker::PhantomData;
use std::sync::Arc;
use vstd::prelude::*;

verus! {

/// A number of workers that the machine does not have.
#[derive(Clone, Copy, Debug, PartialEq, Eq, Structural)]
pub struct ConcurrencyLevelError {
    pub concurrency_level: usize,
    pub num_cpus: usize,
}

/// Executes blocks of transactions.
#[verifier::reject_recursive_types(T)]
#[verifier::reject_recursive_types(E)]
#[verifier::reject_recursive_types(S)]
#[verifier::reject_recursive_types(L)]
pub struct BlockExecutor<T, E, S, L> {
    concurrency_level: usize,
    executor_thread_pool: Arc<ThreadPool>,
    maybe_block_gas_limit: Option<u64>,
    transaction_commit_hook: Option<L>,
    phantom: PhantomData<(T, E, S, L)>,
}

impl<T, E, S, L> BlockExecutor<T, E, S, L> {
    /// The number of workers of a parallel run. A block is run sequentially on one.
    pub closed spec fn spec_concurrency_level(&self) -> usize {
        self.concurrency_level
    }

    /// The threads that the workers of a parallel run live on.
    pub closed spec fn spec_thread_pool(&self) -> Arc<ThreadPool> {
        self.executor_thread_pool
    }

    /// The gas that the transactions of a block may use before the rest is skipped.
    pub closed spec fn spec_gas_limit(&self) -> Option<u64> {
        self.maybe_block_gas_limit
    }

    /// The listener that is told of the transactions.
    pub closed spec fn spec_commit_hook(&self) -> Option<L> {
        self.transaction_commit_hook
    }

    /// An executor with `concurrency_level` workers on a machine with `num_cpus` processors.
    /// There must be at least one worker, and no more than processors.
    pub fn with_num_cpus(
        concurrency_level: usize,
        num_cpus: usize,
        executor_thread_pool: Arc<ThreadPool>,
        maybe_block_gas_limit: Option<u64>,
        transaction_commit_hook: Option<L>,
    ) -> (r: Result<Self, ConcurrencyLevelError>)
        ensures
            r is Ok <==> 0 < concurrency_level <= num_cpus,
            r matches Ok(executor) ==> {
                &&& executor.spec_concurrency_level() == concurrency_level
                &&& executor.spec_thread_pool() == executor_thread_pool
                &&& executor.spec_gas_limit() == maybe_block_gas_limit
                &&& executor.spec_commit_hook() == transaction_commit_hook
            },
            r matches Err(error) ==> error == (ConcurrencyLevelError {
                concurrency_level,
                num_cpus,
            }),
    {
        if concurrency_level > 0 && concurrency_level <= num_cpus {
            Ok(
                BlockExecutor {
                    concurrency_level,
                    executor_thread_pool,
                    maybe_block_gas_limit,
                    transaction_commit_hook,
                    phantom: PhantomData,
                },
            )
        } else {
            Err(ConcurrencyLevelError { concurrency_level, num_cpus })
        }
    }

    /// An executor with `concurrency_level` workers on this machine. There must be at least
    /// one worker, and no more than processors.
    pub fn new(
        concurrency_level: usize,
        executor_thread_pool: Arc<ThreadPool>,
        maybe_block_gas_limit: Option<u64>,
        transaction_commit_hook: Option<L>,
    ) -> (r: Result<Self, ConcurrencyLevelError>)
        ensures
            concurrency_level == 1 ==> r is Ok,
            r matches Ok(executor) ==> {
                &&& concurrency_level > 0
                &&& executor.spec_concurrency_level() == concurrency_level
                &&& executor.spec_thread_pool() == executor_thread_pool
                &&& executor.spec_gas_limit() == maybe_block_gas_limit
                &&& executor.spec_commit_hook() == transaction_commit_hook
            },
            r matches Err(error) ==> {
                &&& error.concurrency_level == concurrency_level
                &&& error.num_cpus >= 1
                &&& !(0 < concurrency_level <= error.num_cpus)
            },
    {
        Self::with_num_cpus(
            concurrency_level,
            available_cpus(),
            executor_thread_pool,
            maybe_block_gas_limit,
            transaction_commit_hook,
        )
    }

    pub fn concurrency_level(&self) -> (r: usize)
        ensures
            r == self.spec_concurrency_level(),
    {
        self.concurrency_level
    }

    pub fn executor_thread_pool(&self) -> (r: &Arc<ThreadPool>)
        ensures
            *r == self.spec_thread_pool(),
    {
        &self.executor_thread_pool
    }

    pub fn maybe_block_gas_limit(&self) -> (r: Option<u64>)
        ensures
            r == self.spec_gas_limit(),
    {
        self.maybe_block_gas_limit
    }

    pub fn transaction_commit_hook(&self) -> (r: &Option<L>)
        ensures
            *r == self.spec_commit_hook(),
    {
        &self.transaction_commit_hook
    }
}

impl<T, E, S, L> BlockExecutor<T, E, S, L> where
    T: Transaction,
    E: ExecutorTask<Txn = T, View = S>,
    L: TransactionCommitHook<Txn = T>,
 {
    /// The listener may be told what happens in a sequential run of `block`, on a machine made
    /// from `executor_arguments`.
    pub open spec fn listener_accepts<R, A>(
        &self,
        executor_arguments: E::Argument,
        block: Seq<T>,
        base_view: S,
        replace: R,
        apply: A,
    ) -> bool where
        R: Fn(&LatestView<'_, T, S>, &Bytes, &T::Layout) -> Replaced,
        A: Fn(&T::ApplyEntry, &T::FieldValue) -> Result<T::FieldValue, DelayedFieldFailure>,
     {
        forall|executor: E| #[trigger]
            E::initialized(executor_arguments, executor) ==> (SequentialSetup {
                executor,
                block,
                base_view,
                maybe_block_gas_limit: self.spec_gas_limit(),
                commit_hook: self.spec_commit_hook(),
                replace,
                apply,
            }).listener_accepts()
    }

    /// A sequential run of `block`, on a machine made from `executor_arguments`, may come to
    /// `result`.
    pub open spec fn sequential_may_return<R, A>(
        &self,
        executor_arguments: E::Argument,
        block: Seq<T>,
        base_view: S,
        replace: R,
        apply: A,
        result: Result<Vec<TransactionOutput<T>>, Error<E::Error>>,
    ) -> bool where
        R: Fn(&LatestView<'_, T, S>, &Bytes, &T::Layout) -> Replaced,
        A: Fn(&T::ApplyEntry, &T::FieldValue) -> Result<T::FieldValue, DelayedFieldFailure>,
     {
        exists|executor: E|
            {
                &&& #[trigger] E::initialized(executor_arguments, executor)
                &&& (SequentialSetup {
                    executor,
                    block,
                    base_view,
                    maybe_block_gas_limit: self.spec_gas_limit(),
                    commit_hook: self.spec_commit_hook(),
                    replace,
                    apply,
                }).may_return(result)
            }
    }

    /// Runs a block one transaction after the other.
    pub fn execute_transactions_sequential<R, A>(
        &self,
        executor_arguments: E::Argument,
        signature_verified_block: &[T],
        base_view: &S,
        replace: &R,
        apply: &A,
    ) -> (result: Result<Vec<TransactionOutput<T>>, Error<E::Error>>) where
        R: Fn(&LatestView<'_, T, S>, &Bytes, &T::Layout) -> Replaced,
        A: Fn(&T::ApplyEntry, &T::FieldValue) -> Result<T::FieldValue, DelayedFieldFailure>,

        requires
            signature_verified_block@.len() <= u32::MAX,
            forall|view: &LatestView<'_, T, S>, bytes: &Bytes, layout: &T::Layout| #[trigger]
                call_requires(*replace, (view, bytes, layout)),
            forall|entry: &T::ApplyEntry, base: &T::FieldValue| #[trigger]
                call_requires(*apply, (entry, base)),
            self.listener_accepts(
                executor_arguments,
                signature_verified_block@,
                *base_view,
                *replace,
                *apply,
            ),
        ensures
            self.sequential_may_return(
                executor_arguments,
                signature_verified_block@,
                *base_view,
                *replace,
                *apply,
                result,
            ),
            result matches Ok(outputs) ==> outputs@.len() == signature_verified_block@.len(),
            signature_verified_block@.len() == 0 ==> result is Ok,
            !(result matches Err(Error::ModulePathReadWrite)),
    {
        let executor = E::init(executor_arguments);
        run_sequential(
            &executor,
            signature_verified_block,
            base_view,
            self.maybe_block_gas_limit,
            &self.transaction_commit_hook,
            replace,
            apply,
        )
    }

    /// A parallel run of `block` whose workers, as many as there are, behave as `run_workers` may
    /// come to `result`.
    pub open spec fn parallel_may_return<W>(
        &self,
        executor_arguments: E::Argument,
        block: &[T],
        base_view: &S,
        run_workers: W,
        result: Result<Vec<TransactionOutput<T>>, Error<E::Error>>,
    ) -> bool where
        W: FnOnce(usize, E::Argument, &[T], &S, Vec<TransactionOutput<T>>) -> (
            Vec<TransactionOutput<T>>,
            Option<Error<E::Error>>,
        ),
     {
        if block@.len() == 0 {
            result matches Ok(outputs) && outputs@.len() == 0
        } else {
            exists|
                initial: Vec<TransactionOutput<T>>,
                reply: (Vec<TransactionOutput<T>>, Option<Error<E::Error>>),
            |
                {
                    &&& initial@.len() == block@.len()
                    &&& all_skipped(initial@)
                    &&& #[trigger] call_ensures(
                        run_workers,
                        (
                            self.spec_concurrency_level(),
                            executor_arguments,
                            block,
                            base_view,
                            initial,
                        ),
                        reply,
                    )
                    &&& result == match reply.1 {
                        Some(error) => Err(error),
                        None => Ok(reply.0),
                    }
                }
        }
    }

    /// As many workers as there are can be run on `block`, and give back as many results as they
    /// are given.
    pub open spec fn workers_keep_results<W>(
        &self,
        executor_arguments: E::Argument,
        block: &[T],
        base_view: &S,
        run_workers: W,
    ) -> bool where
        W: FnOnce(usize, E::Argument, &[T], &S, Vec<TransactionOutput<T>>) -> (
            Vec<TransactionOutput<T>>,
            Option<Error<E::Error>>,
        ),
     {
        &&& forall|initial: Vec<TransactionOutput<T>>|
            initial@.len() == block@.len() && all_skipped(initial@) ==> #[trigger] call_requires(
                run_workers,
                (self.spec_concurrency_level(), executor_arguments, block, base_view, initial),
            )
        &&& forall|
            initial: Vec<TransactionOutput<T>>,
            reply: (Vec<TransactionOutput<T>>, Option<Error<E::Error>>),
        |
            #[trigger]
            call_ensures(
                run_workers,
                (self.spec_concurrency_level(), executor_arguments, block, base_view, initial),
                reply,
            )
                ==> reply.0@.len() == initial@.len()
    }

    /// Runs a block on all workers at once. `run_workers` lets as many of them as it is told work
    /// until no task is left; it is given one skip output for each transaction, and gives back what
    /// became of these, and the error that stopped the block, if any. No worker is run on an empty
    /// block.
    pub fn execute_transactions_parallel<W>(
        &self,
        executor_arguments: E::Argument,
        signature_verified_block: &[T],
        base_view: &S,
        run_workers: W,
    ) -> (result: Result<Vec<TransactionOutput<T>>, Error<E::Error>>) where
        W: FnOnce(usize, E::Argument, &[T], &S, Vec<TransactionOutput<T>>) -> (
            Vec<TransactionOutput<T>>,
            Option<Error<E::Error>>,
        ),

        requires
            self.spec_concurrency_level() > 1,
            signature_verified_block@.len() <= u32::MAX,
            signature_verified_block@.len() > 0 ==> self.workers_keep_results(
                executor_arguments,
                signature_verified_block,
                base_view,
                run_workers,
            ),
        ensures
            self.parallel_may_return(
                executor_arguments,
                signature_verified_block,
                base_view,
                run_workers,
                result,
            ),
            result matches Ok(outputs) ==> outputs@.len() == signature_verified_block@.len(),
    {
        if signature_verified_block.len() == 0 {
            return Ok(Vec::new());
        }
        let num_txns: usize = signature_verified_block.len();
        let mut initial: Vec<TransactionOutput<T>> = Vec::new();
        while initial.len() < num_txns
            invariant
                initial@.len() <= num_txns,
                forall|i: int|
                    #![trigger initial@[i]]
                    0 <= i < initial@.len() ==> initial@[i].is_skip_output(),
            decreases num_txns - initial.len(),
        {
            initial.push(TransactionOutput::skip_output());
        }
        let ghost start = initial;
        let (final_results, maybe_error) = run_workers(
            self.concurrency_level,
            executor_arguments,
            signature_verified_block,
            base_view,
            initial,
        );
        assert(call_ensures(
            run_workers,
            (
                self.concurrency_level,
                executor_arguments,
                signature_verified_block,
                base_view,
                start,
            ),
            (final_results, maybe_error),
        ));
        match maybe_error {
            Some(err) => Err(err),
            None => Ok(final_results),
        }
    }

    /// Executes a block: in parallel if there is more than one worker, and sequentially
    /// otherwise. A parallel run that finds a module both read and written is given up:
    /// `init_speculative_logs` starts the logs of the block afresh, so that none of that run are
    /// reported, and the block is run again sequentially.
    pub fn execute_block<R, A, W, G>(
        &self,
        executor_arguments: E::Argument,
        signature_verified_block: &[T],
        base_view: &S,
        replace: &R,
        apply: &A,
        run_workers: W,
        init_speculative_logs: G,
    ) -> (result: Result<Vec<TransactionOutput<T>>, Error<E::Error>>) where
        R: Fn(&LatestView<'_, T, S>, &Bytes, &T::Layout) -> Replaced,
        A: Fn(&T::ApplyEntry, &T::FieldValue) -> Result<T::FieldValue, DelayedFieldFailure>,
        W: FnOnce(usize, E::Argument, &[T], &S, Vec<TransactionOutput<T>>) -> (
            Vec<TransactionOutput<T>>,
            Option<Error<E::Error>>,
        ),
        G: FnOnce(usize),

        requires
            signature_verified_block@.len() <= u32::MAX,
            forall|view: &LatestView<'_, T, S>, bytes: &Bytes, layout: &T::Layout| #[trigger]
                call_requires(*replace, (view, bytes, layout)),
            forall|entry: &T::ApplyEntry, base: &T::FieldValue| #[trigger]
                call_requires(*apply, (entry, base)),
            self.listener_accepts(
                executor_arguments,
                signature_verified_block@,
                *base_view,
                *replace,
                *apply,
            ),
            self.spec_concurrency_level() > 1 && signature_verified_block@.len() > 0 ==> {
                &&& self.workers_keep_results(
                    executor_arguments,
                    signature_verified_block,
                    base_view,
                    run_workers,
                )
                &&& call_requires(
                    init_speculative_logs,
                    (signature_verified_block@.len() as usize,),
                )
            },
        ensures
            self.spec_concurrency_level() <= 1 ==> self.sequential_may_return(
                executor_arguments,
                signature_verified_block@,
                *base_view,
                *replace,
                *apply,
                result,
            ),
            self.spec_concurrency_level() > 1 ==> {
                ||| {
                    &&& !(result matches Err(Error::ModulePathReadWrite))
                    &&& self.parallel_may_return(
                        executor_arguments,
                        signature_verified_block,
                        base_view,
                        run_workers,
                        result,
                    )
                }
                ||| {
                    &&& self.parallel_may_return(
                        executor_arguments,
                        signature_verified_block,
                        base_view,
                        run_workers,
                        Err(Error::ModulePathReadWrite),
                    )
                    &&& call_ensures(
                        init_speculative_logs,
                        (signature_verified_block@.len() as usize,),
                        (),
                    )
                    &&& self.sequential_may_return(
                        executor_arguments,
                        signature_verified_block@,
                        *base_view,
                        *replace,
                        *apply,
                        result,
                    )
                }
            },
            !(result matches Err(Error::ModulePathReadWrite)),
            result matches Ok(outputs) ==> outputs@.len() == signature_verified_block@.len(),
            signature_verified_block@.len() == 0 ==> (result matches Ok(outputs) && outputs@.len()
                == 0),
    {
        if self.concurrency_level > 1 {
            let ret = self.execute_transactions_parallel(
                executor_arguments,
                signature_verified_block,
                base_view,
                run_workers,
            );
            match ret {
                Err(Error::ModulePathReadWrite) => {
                    init_speculative_logs(signature_verified_block.len());
                },
                _ => {
                    return ret;
                },
            }
        }
        self.execute_transactions_sequential(
            executor_arguments,
            signature_verified_block,
            base_view,
            replace,
            apply,
        )
    }

    /// If workers that report no error have ended the commits of the first transactions, in
    /// whatever order, and done nothing else to the results, then a parallel run that succeeds has
    /// one output for each transaction: those of the committed ones, followed by skip outputs.
    pub proof fn parallel_runs_commit_a_prefix<W>(
        &self,
        executor_arguments: E::Argument,
        block: &[T],
        base_view: &S,
        run_workers: W,
        outputs: Vec<TransactionOutput<T>>,
    ) where
        W: FnOnce(usize, E::Argument, &[T], &S, Vec<TransactionOutput<T>>) -> (
            Vec<TransactionOutput<T>>,
            Option<Error<E::Error>>,
        ),

        requires
            self.parallel_may_return(
                executor_arguments,
                block,
                base_view,
                run_workers,
                Ok(outputs),
            ),
            forall|
                initial: Vec<TransactionOutput<T>>,
                reply: (Vec<TransactionOutput<T>>, Option<Error<E::Error>>),
            |
                #[trigger]
                call_ensures(
                    run_workers,
                    (self.spec_concurrency_level(), executor_arguments, block, base_view, initial),
                    reply,
                )
                    && reply.1 is None ==> commits_some_prefix(initial@, reply.0@),
        ensures
            outputs@.len() == block@.len(),
            exists|k: int| #[trigger] committed_up_to(outputs@, k),
    {
        if block@.len() == 0 {
            assert(committed_up_to(outputs@, 0));
        } else {
            let (initial, reply) = choose|
                initial: Vec<TransactionOutput<T>>,
                reply: (Vec<TransactionOutput<T>>, Option<Error<E::Error>>),
            |
                {
                    &&& initial@.len() == block@.len()
                    &&& all_skipped(initial@)
                    &&& #[trigger] call_ensures(
                        run_workers,
                        (
                            self.spec_concurrency_level(),
                            executor_arguments,
                            block,
                            base_view,
                            initial,
                        ),
                        reply,
                    )
                    &&& Ok::<Vec<TransactionOutput<T>>, Error<E::Error>>(outputs) == match reply.1 {
                        Some(error) => Err(error),
                        None => Ok(reply.0),
                    }
                };
            let (commits, k) = choose|
                commits: Seq<(TxnIndex, Option<TransactionOutput<T>>)>,
                k: int,
            |
                {
                    &&& #[trigger] commits_first(commits, k)
                    &&& 0 <= k <= initial@.len()
                    &&& reply.0@ == results_after(initial@, commits)
                };
            committed_results_come_first(initial@, commits, k);
        }
    }
}

/// All of `outputs` are those of skipped transactions.
pub open spec fn all_skipped<T: Transaction>(outputs: Seq<TransactionOutput<T>>) -> bool {
    forall|i: int|
        #![trigger outputs[i]]
        0 <= i < outputs.len() ==> outputs[i].is_skip_output()
}

/// `after` is what `before` becomes when the first transactions, however many, have ended their
/// commits.
pub open spec fn commits_some_prefix<T: Transaction>(
    before: Seq<TransactionOutput<T>>,
    after: Seq<TransactionOutput<T>>,
) -> bool {
    exists|commits: Seq<(TxnIndex, Option<TransactionOutput<T>>)>, k: int|
        {
            &&& #[trigger] commits_first(commits, k)
            &&& 0 <= k <= before.len()
            &&& after == results_after(before, commits)
        }
}

} // verus!
