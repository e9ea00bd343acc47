use block_executor::fee_statement::FeeStatement;

fn fee(execution: u64, io: u64, storage: u64) -> FeeStatement {
    FeeStatement { execution_gas_used: execution, io_gas_used: io, storage_gas_used: storage }
}

#[test]
fn fees_start_at_zero() {
    assert_eq!(FeeStatement::zero(), fee(0, 0, 0));
}

#[test]
fn fees_add_field_by_field() {
    assert_eq!(fee(1, 20, 300).add_fee_statement(&fee(4, 50, 600)), Some(fee(5, 70, 900)));
}

#[test]
fn fees_that_do_not_fit_are_not_added() {
    assert_eq!(fee(u64::MAX, 0, 0).add_fee_statement(&fee(1, 0, 0)), None);
    assert_eq!(fee(0, u64::MAX, 0).add_fee_statement(&fee(0, 1, 0)), None);
    assert_eq!(fee(0, 0, u64::MAX).add_fee_statement(&fee(0, 0, 1)), None);
    assert_eq!(
        fee(u64::MAX - 1, 0, 0).add_fee_statement(&fee(1, 0, 0)),
        Some(fee(u64::MAX, 0, 0))
    );
}

#[test]
fn limit_is_reached_when_gas_equals_it() {
    assert!(!fee(6, 3, 0).reaches_limit(Some(10)));
    assert!(fee(6, 4, 0).reaches_limit(Some(10)));
    assert!(fee(6, 5, 0).reaches_limit(Some(10)));
}

#[test]
fn storage_gas_is_not_counted_towards_the_limit() {
    assert!(!fee(6, 3, 1_000_000).reaches_limit(Some(10)));
    assert_eq!(
        fee(6, 4, 0).reaches_limit(Some(10)),
        fee(6, 4, 77).reaches_limit(Some(10))
    );
}

#[test]
fn without_a_limit_nothing_is_reached() {
    assert!(!fee(u64::MAX, u64::MAX, u64::MAX).reaches_limit(None));
}

#[test]
fn large_gas_reaches_every_limit() {
    assert!(fee(u64::MAX, u64::MAX, 0).reaches_limit(Some(u64::MAX)));
}

#[test]
fn a_limit_of_zero_is_always_reached() {
    assert!(FeeStatement::zero().reaches_limit(Some(0)));
}

#[test]
fn reached_limit_stays_reached_when_more_is_added() {
    let reached = fee(7, 3, 0);
    assert!(reached.reaches_limit(Some(10)));
    let more = reached.add_fee_statement(&fee(0, 5, 1)).unwrap();
    assert!(more.reaches_limit(Some(10)));
}
