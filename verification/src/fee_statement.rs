//! What transactions are charged, and the gas limit of a block.
use vstd::prelude::*;

verus! {

/// The gas that one transaction, or a prefix of a block, has used.
#[derive(Clone, Copy, Debug, PartialEq, Eq, Structural)]
pub struct FeeStatement {
    pub execution_gas_used: u64,
    pub io_gas_used: u64,
    pub storage_gas_used: u64,
}

/// The sum of the execution gas of `fees`.
pub open spec fn total_execution_gas(fees: Seq<FeeStatement>) -> nat
    decreases fees.len(),
{
    if fees.len() == 0 {
        0
    } else {
        total_execution_gas(fees.drop_last()) + fees.last().execution_gas_used as nat
    }
}

/// The sum of the io gas of `fees`.
pub open spec fn total_io_gas(fees: Seq<FeeStatement>) -> nat
    decreases fees.len(),
{
    if fees.len() == 0 {
        0
    } else {
        total_io_gas(fees.drop_last()) + fees.last().io_gas_used as nat
    }
}

/// The sum of the storage gas of `fees`.
pub open spec fn total_storage_gas(fees: Seq<FeeStatement>) -> nat
    decreases fees.len(),
{
    if fees.len() == 0 {
        0
    } else {
        total_storage_gas(fees.drop_last()) + fees.last().storage_gas_used as nat
    }
}

/// The gas of `fees` that counts towards the limit of a block: storage gas does not.
pub open spec fn non_storage_gas(fees: Seq<FeeStatement>) -> nat {
    total_execution_gas(fees) + total_io_gas(fees)
}

/// Every sum over `fees` fits in the field that holds it.
pub open spec fn fees_fit(fees: Seq<FeeStatement>) -> bool {
    &&& total_execution_gas(fees) <= u64::MAX
    &&& total_io_gas(fees) <= u64::MAX
    &&& total_storage_gas(fees) <= u64::MAX
}

/// Whether a block that has used the gas of `fees` so far must stop.
pub open spec fn gas_limit_reached(fees: Seq<FeeStatement>, limit: Option<u64>) -> bool {
    limit matches Some(max) && non_storage_gas(fees) >= max
}

impl FeeStatement {
    /// No gas at all.
    pub fn zero() -> (r: FeeStatement)
        ensures
            r.sums(Seq::empty()),
    {
        FeeStatement { execution_gas_used: 0, io_gas_used: 0, storage_gas_used: 0 }
    }

    /// `self` holds the sums over `fees`, field by field.
    pub open spec fn sums(self, fees: Seq<FeeStatement>) -> bool {
        &&& self.execution_gas_used == total_execution_gas(fees)
        &&& self.io_gas_used == total_io_gas(fees)
        &&& self.storage_gas_used == total_storage_gas(fees)
    }

    /// Adds `other` field by field, unless a sum would not fit in its field.
    pub fn add_fee_statement(&self, other: &FeeStatement) -> (r: Option<FeeStatement>)
        ensures
            r is Some <==> {
                &&& self.execution_gas_used + other.execution_gas_used <= u64::MAX
                &&& self.io_gas_used + other.io_gas_used <= u64::MAX
                &&& self.storage_gas_used + other.storage_gas_used <= u64::MAX
            },
            r matches Some(sum) ==> {
                &&& sum.execution_gas_used == self.execution_gas_used + other.execution_gas_used
                &&& sum.io_gas_used == self.io_gas_used + other.io_gas_used
                &&& sum.storage_gas_used == self.storage_gas_used + other.storage_gas_used
            },
            forall|fees: Seq<FeeStatement>| #[trigger]
                self.sums(fees) ==> {
                    &&& r is Some <==> fees_fit(fees.push(*other))
                    &&& r matches Some(sum) ==> sum.sums(fees.push(*other))
                },
    {
        proof {
            assert forall|fees: Seq<FeeStatement>| #[trigger] self.sums(fees) implies {
                &&& total_execution_gas(fees.push(*other)) == self.execution_gas_used
                    + other.execution_gas_used
                &&& total_io_gas(fees.push(*other)) == self.io_gas_used + other.io_gas_used
                &&& total_storage_gas(fees.push(*other)) == self.storage_gas_used
                    + other.storage_gas_used
            } by {
                assert(fees.push(*other).drop_last() == fees);
            }
        }
        let execution_gas_used: u64 = self.execution_gas_used.checked_add(
            other.execution_gas_used,
        )?;
        let io_gas_used: u64 = self.io_gas_used.checked_add(other.io_gas_used)?;
        let storage_gas_used: u64 = self.storage_gas_used.checked_add(other.storage_gas_used)?;
        Some(FeeStatement { execution_gas_used, io_gas_used, storage_gas_used })
    }

    /// Whether the gas accumulated in `self` reaches `limit`. Execution and io gas count,
    /// storage gas does not; without a limit nothing is ever reached.
    pub fn reaches_limit(&self, limit: Option<u64>) -> (r: bool)
        ensures
            r == (limit matches Some(max) && self.execution_gas_used + self.io_gas_used >= max),
            forall|fees: Seq<FeeStatement>| #[trigger]
                self.sums(fees) ==> r == gas_limit_reached(fees, limit),
    {
        match limit {
            Some(max) => {
                let accumulated_non_storage_gas: u128 = self.execution_gas_used as u128
                    + self.io_gas_used as u128;
                accumulated_non_storage_gas >= max as u128
            },
            None => false,
        }
    }
}

/// Storage gas does not count towards the limit of a block: charging other storage gas, for the
/// same execution and io gas, reaches the limit at the same transaction.
pub proof fn storage_gas_does_not_count(
    fees: Seq<FeeStatement>,
    others: Seq<FeeStatement>,
    limit: Option<u64>,
)
    requires
        fees.len() == others.len(),
        forall|i: int|
            #![trigger fees[i]]
            0 <= i < fees.len() ==> fees[i].execution_gas_used == others[i].execution_gas_used
                && fees[i].io_gas_used == others[i].io_gas_used,
    ensures
        gas_limit_reached(fees, limit) == gas_limit_reached(others, limit),
        non_storage_gas(fees) == non_storage_gas(others),
    decreases fees.len(),
{
    if fees.len() > 0 {
        assert(fees[fees.len() - 1] == fees.last());
        assert forall|i: int| #![trigger fees.drop_last()[i]] 0 <= i < fees.len() - 1 implies {
            &&& fees.drop_last()[i].execution_gas_used
                == others.drop_last()[i].execution_gas_used
            &&& fees.drop_last()[i].io_gas_used == others.drop_last()[i].io_gas_used
        } by {
            assert(fees[i] == fees.drop_last()[i]);
        }
        storage_gas_does_not_count(fees.drop_last(), others.drop_last(), limit);
    }
}

/// A limit that is reached stays reached, whatever is charged after that.
pub proof fn reached_limits_stay_reached(
    fees: Seq<FeeStatement>,
    more: Seq<FeeStatement>,
    limit: Option<u64>,
)
    requires
        gas_limit_reached(fees, limit),
    ensures
        gas_limit_reached(fees + more, limit),
    decreases more.len(),
{
    if more.len() == 0 {
        assert(fees + more =~= fees);
    } else {
        reached_limits_stay_reached(fees, more.drop_last(), limit);
        assert((fees + more).drop_last() =~= fees + more.drop_last());
    }
}

} // verus!
