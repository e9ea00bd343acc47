use block_executor::delayed_fields::apply_output_sequential;
use block_executor::errors::DelayedFieldFailure;
use block_executor::errors::InvariantViolation;
use block_executor::task::TransactionOutput;
use block_executor::types::ApplyBase;
use block_executor::types::DelayedChange;
use block_executor::types::Transaction;
use block_executor::types::WriteOp;
use block_executor::types::WriteOpKind;
use block_executor::unsync_map::UnsyncMap;
use bytes::Bytes;
use std::sync::Arc;

struct Txn;

impl Transaction for Txn {
    type Layout = u8;
    type DeltaOp = u8;
    type ApplyEntry = i64;
    type FieldValue = i64;
    type EventHeader = u8;
}

fn apply(entry: &i64, base: &i64) -> Result<i64, DelayedFieldFailure> {
    if base + entry < 0 {
        Err(DelayedFieldFailure)
    } else {
        Ok(base + entry)
    }
}

fn write(data: &'static [u8]) -> Arc<WriteOp> {
    Arc::new(WriteOp {
        kind: WriteOpKind::Creation,
        bytes: Some(Bytes::from_static(data)),
        metadata: Some(3),
    })
}

fn field(map: &UnsyncMap<Txn>, id: u64) -> Option<i64> {
    map.fetch_delayed_field(&id).map(|value| *value)
}

fn bytes_of(map: &UnsyncMap<Txn>, key: u64) -> Vec<u8> {
    map.fetch_data(&key).unwrap().0.bytes.as_ref().unwrap().to_vec()
}

#[test]
fn map_gives_back_the_latest_write() {
    let mut map: UnsyncMap<Txn> = UnsyncMap::new();
    assert!(map.fetch_data(&1).is_none());
    let first = write(b"one");
    map.write(1, Arc::clone(&first), Some(Arc::new(9)));
    let (value, layout) = map.fetch_data(&1).unwrap();
    assert!(Arc::ptr_eq(&value, &first));
    assert_eq!(*layout.unwrap(), 9);
    map.write(1, write(b"two"), None);
    assert_eq!(bytes_of(&map, 1), b"two".to_vec());
    assert!(map.fetch_data(&1).unwrap().1.is_none());
    assert!(map.fetch_data(&2).is_none());
}

#[test]
fn map_gives_back_the_latest_field_value() {
    let mut map: UnsyncMap<Txn> = UnsyncMap::new();
    assert_eq!(field(&map, 4), None);
    map.write_delayed_field(4, Arc::new(10));
    assert_eq!(field(&map, 4), Some(10));
    map.write_delayed_field(4, Arc::new(11));
    assert_eq!(field(&map, 4), Some(11));
}

#[test]
fn output_overwrites_what_was_there() {
    let mut map: UnsyncMap<Txn> = UnsyncMap::new();
    map.write(1, write(b"old"), None);
    map.write(2, write(b"kept"), None);
    let mut output: TransactionOutput<Txn> = TransactionOutput::skip_output();
    output.resource_write_set.insert(1, (write(b"resource"), Some(Arc::new(5))));
    output.aggregator_v1_write_set.insert(3, write(b"aggregator"));
    output.module_write_set.insert(4, write(b"module"));
    assert_eq!(apply_output_sequential(&mut map, &output, &apply), Ok(()));
    assert_eq!(bytes_of(&map, 1), b"resource".to_vec());
    assert_eq!(map.fetch_data(&1).unwrap().1.map(|layout| *layout), Some(5));
    assert_eq!(bytes_of(&map, 2), b"kept".to_vec());
    assert_eq!(bytes_of(&map, 3), b"aggregator".to_vec());
    assert!(map.fetch_data(&3).unwrap().1.is_none());
    assert_eq!(bytes_of(&map, 4), b"module".to_vec());
    assert!(map.fetch_data(&4).unwrap().1.is_none());
}

#[test]
fn modules_win_over_aggregators_and_resources() {
    let mut map: UnsyncMap<Txn> = UnsyncMap::new();
    let mut output: TransactionOutput<Txn> = TransactionOutput::skip_output();
    output.resource_write_set.insert(1, (write(b"resource"), None));
    output.aggregator_v1_write_set.insert(1, write(b"aggregator"));
    output.module_write_set.insert(1, write(b"module"));
    assert_eq!(apply_output_sequential(&mut map, &output, &apply), Ok(()));
    assert_eq!(bytes_of(&map, 1), b"module".to_vec());
}

#[test]
fn previous_base_does_not_see_other_changes() {
    let mut map: UnsyncMap<Txn> = UnsyncMap::new();
    map.write_delayed_field(1, Arc::new(100));
    let mut output: TransactionOutput<Txn> = TransactionOutput::skip_output();
    output
        .delayed_field_change_set
        .insert(1, DelayedChange::Apply(Arc::new(5), ApplyBase::Previous(1)));
    output
        .delayed_field_change_set
        .insert(2, DelayedChange::Apply(Arc::new(1), ApplyBase::Previous(1)));
    assert_eq!(apply_output_sequential(&mut map, &output, &apply), Ok(()));
    assert_eq!(field(&map, 1), Some(105));
    assert_eq!(field(&map, 2), Some(101));
}

#[test]
fn current_base_sees_the_first_phase() {
    let mut map: UnsyncMap<Txn> = UnsyncMap::new();
    map.write_delayed_field(1, Arc::new(100));
    let mut output: TransactionOutput<Txn> = TransactionOutput::skip_output();
    output
        .delayed_field_change_set
        .insert(1, DelayedChange::Apply(Arc::new(5), ApplyBase::Previous(1)));
    output.delayed_field_change_set.insert(3, DelayedChange::Create(Arc::new(40)));
    output
        .delayed_field_change_set
        .insert(2, DelayedChange::Apply(Arc::new(1), ApplyBase::Current(1)));
    output
        .delayed_field_change_set
        .insert(4, DelayedChange::Apply(Arc::new(2), ApplyBase::Current(3)));
    assert_eq!(apply_output_sequential(&mut map, &output, &apply), Ok(()));
    assert_eq!(field(&map, 1), Some(105));
    assert_eq!(field(&map, 2), Some(106));
    assert_eq!(field(&map, 3), Some(40));
    assert_eq!(field(&map, 4), Some(42));
}

#[test]
fn current_base_falls_back_to_the_field_before() {
    let mut map: UnsyncMap<Txn> = UnsyncMap::new();
    map.write_delayed_field(1, Arc::new(100));
    let mut output: TransactionOutput<Txn> = TransactionOutput::skip_output();
    output
        .delayed_field_change_set
        .insert(2, DelayedChange::Apply(Arc::new(1), ApplyBase::Current(1)));
    assert_eq!(apply_output_sequential(&mut map, &output, &apply), Ok(()));
    assert_eq!(field(&map, 1), Some(100));
    assert_eq!(field(&map, 2), Some(101));
}

#[test]
fn order_of_unchained_changes_makes_no_difference() {
    for _ in 0..20 {
        let mut map: UnsyncMap<Txn> = UnsyncMap::new();
        map.write_delayed_field(0, Arc::new(7));
        let mut output: TransactionOutput<Txn> = TransactionOutput::skip_output();
        for id in 1..10 {
            let base = if id % 2 == 0 { ApplyBase::Current(0) } else { ApplyBase::Previous(0) };
            output
                .delayed_field_change_set
                .insert(id, DelayedChange::Apply(Arc::new(id as i64), base));
        }
        output
            .delayed_field_change_set
            .insert(0, DelayedChange::Apply(Arc::new(1000), ApplyBase::Previous(0)));
        assert_eq!(apply_output_sequential(&mut map, &output, &apply), Ok(()));
        for id in 1..10 {
            let base = if id % 2 == 0 { 1007 } else { 7 };
            assert_eq!(field(&map, id), Some(base + id as i64));
        }
        assert_eq!(field(&map, 0), Some(1007));
    }
}

#[test]
fn existing_field_is_not_created_again() {
    let mut map: UnsyncMap<Txn> = UnsyncMap::new();
    map.write_delayed_field(1, Arc::new(100));
    let mut output: TransactionOutput<Txn> = TransactionOutput::skip_output();
    output.delayed_field_change_set.insert(1, DelayedChange::Create(Arc::new(5)));
    assert_eq!(
        apply_output_sequential(&mut map, &output, &apply),
        Err(InvariantViolation::DuplicateDelayedField)
    );
    assert_eq!(field(&map, 1), Some(100));
}

#[test]
fn missing_base_is_refused() {
    for base in [ApplyBase::Previous(8), ApplyBase::Current(8)] {
        let mut map: UnsyncMap<Txn> = UnsyncMap::new();
        let mut output: TransactionOutput<Txn> = TransactionOutput::skip_output();
        output.delayed_field_change_set.insert(1, DelayedChange::Apply(Arc::new(5), base));
        assert_eq!(
            apply_output_sequential(&mut map, &output, &apply),
            Err(InvariantViolation::MissingDelayedField)
        );
        assert_eq!(field(&map, 1), None);
    }
}

#[test]
fn change_that_does_not_apply_is_refused() {
    for base in [ApplyBase::Previous(8), ApplyBase::Current(8)] {
        let mut map: UnsyncMap<Txn> = UnsyncMap::new();
        map.write_delayed_field(8, Arc::new(2));
        let mut output: TransactionOutput<Txn> = TransactionOutput::skip_output();
        output.delayed_field_change_set.insert(8, DelayedChange::Apply(Arc::new(-3), base));
        assert_eq!(
            apply_output_sequential(&mut map, &output, &apply),
            Err(InvariantViolation::DelayedApplyFailed)
        );
        assert_eq!(field(&map, 8), Some(2));
    }
}

#[test]
fn shared_change_is_the_same_change() {
    let value = Arc::new(5);
    let change: DelayedChange<Txn> = DelayedChange::Create(Arc::clone(&value));
    match change.share() {
        DelayedChange::Create(shared) => assert!(Arc::ptr_eq(&shared, &value)),
        DelayedChange::Apply(_, _) => panic!("a creation became an application"),
    }
    let entry = Arc::new(-1);
    let change: DelayedChange<Txn> =
        DelayedChange::Apply(Arc::clone(&entry), ApplyBase::Current(6));
    match change.share() {
        DelayedChange::Create(_) => panic!("an application became a creation"),
        DelayedChange::Apply(shared, base) => {
            assert!(Arc::ptr_eq(&shared, &entry));
            assert_eq!(base, ApplyBase::Current(6));
        }
    }
}
