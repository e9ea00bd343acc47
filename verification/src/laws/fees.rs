//! What the gas of transactions amounts to.
use crate::fee_statement::fees_fit;
use crate::fee_statement::gas_limit_reached;
use crate::fee_statement::total_execution_gas;
use crate::fee_statement::total_io_gas;
use crate::fee_statement::total_storage_gas;
use crate::fee_statement::FeeStatement;
use vstd::prelude::*;

verus! {

/// The sums over no fees are zero, and one more fee adds its own gas to each, whatever was charged
/// before.
pub proof fn fees_add_up(fees: Seq<FeeStatement>, fee: FeeStatement)
    ensures
        total_execution_gas(Seq::empty()) == 0,
        total_io_gas(Seq::empty()) == 0,
        total_storage_gas(Seq::empty()) == 0,
        total_execution_gas(fees.push(fee)) == total_execution_gas(fees) + fee.execution_gas_used,
        total_io_gas(fees.push(fee)) == total_io_gas(fees) + fee.io_gas_used,
        total_storage_gas(fees.push(fee)) == total_storage_gas(fees) + fee.storage_gas_used,
{
    assert(fees.push(fee).drop_last() =~= fees);
}

/// The sums over two lists of fees, one after the other, are those over the first and those over
/// the second.
pub proof fn sums_split(fees: Seq<FeeStatement>, more: Seq<FeeStatement>)
    ensures
        total_execution_gas(fees + more) == total_execution_gas(fees) + total_execution_gas(more),
        total_io_gas(fees + more) == total_io_gas(fees) + total_io_gas(more),
        total_storage_gas(fees + more) == total_storage_gas(fees) + total_storage_gas(more),
    decreases more.len(),
{
    if more.len() == 0 {
        assert(fees + more =~= fees);
    } else {
        sums_split(fees, more.drop_last());
        assert((fees + more).drop_last() =~= fees + more.drop_last());
    }
}

/// The order in which two transactions are charged makes no difference.
pub proof fn sums_do_not_depend_on_the_order(fees: Seq<FeeStatement>, i: int, j: int)
    requires
        0 <= i < j < fees.len(),
    ensures
        ({
            let swapped = fees.update(i, fees[j]).update(j, fees[i]);
            &&& total_execution_gas(swapped) == total_execution_gas(fees)
            &&& total_io_gas(swapped) == total_io_gas(fees)
            &&& total_storage_gas(swapped) == total_storage_gas(fees)
        }),
{
    lemma_sums_after_update(fees, i, fees[j]);
    lemma_sums_after_update(fees.update(i, fees[j]), j, fees[i]);
}

/// What charging `fee` in place of the fee at `i` makes of the sums.
proof fn lemma_sums_after_update(fees: Seq<FeeStatement>, i: int, fee: FeeStatement)
    requires
        0 <= i < fees.len(),
    ensures
        total_execution_gas(fees.update(i, fee)) == total_execution_gas(fees)
            - fees[i].execution_gas_used + fee.execution_gas_used,
        total_io_gas(fees.update(i, fee)) == total_io_gas(fees) - fees[i].io_gas_used
            + fee.io_gas_used,
        total_storage_gas(fees.update(i, fee)) == total_storage_gas(fees) - fees[i].storage_gas_used
            + fee.storage_gas_used,
    decreases fees.len(),
{
    let updated = fees.update(i, fee);
    if i == fees.len() - 1 {
        assert(updated.drop_last() =~= fees.drop_last());
    } else {
        lemma_sums_after_update(fees.drop_last(), i, fee);
        assert(updated.drop_last() =~= fees.drop_last().update(i, fee));
    }
}

/// A limit is reached if and only if there is one and the execution and io gas together come up to
/// it. What is used exactly reaches it.
pub proof fn limits_count_execution_and_io(fees: Seq<FeeStatement>, max: u64)
    ensures
        gas_limit_reached(fees, Some(max)) <==> total_execution_gas(fees) + total_io_gas(fees)
            >= max,
        !gas_limit_reached(fees, None),
{
}

/// A fee statement holds the sums over a list of fees if and only if each of its fields is the sum
/// of that kind of gas, and there is one if and only if none of the sums is too large.
pub proof fn statements_hold_the_sums(sum: FeeStatement, fees: Seq<FeeStatement>)
    ensures
        sum.sums(fees) <==> {
            &&& sum.execution_gas_used == total_execution_gas(fees)
            &&& sum.io_gas_used == total_io_gas(fees)
            &&& sum.storage_gas_used == total_storage_gas(fees)
        },
        fees_fit(fees) <==> {
            &&& total_execution_gas(fees) <= u64::MAX
            &&& total_io_gas(fees) <= u64::MAX
            &&& total_storage_gas(fees) <= u64::MAX
        },
{
}

} // verus!
