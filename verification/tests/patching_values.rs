use block_executor::errors::DelayedFieldFailure;
use block_executor::errors::InvariantViolation;
use block_executor::patching::extend_writes;
use block_executor::patching::key_set;
use block_executor::patching::map_id_to_values_events;
use block_executor::patching::map_id_to_values_in_read_set_parallel;
use block_executor::patching::map_id_to_values_in_read_set_sequential;
use block_executor::patching::map_id_to_values_in_write_set;
use block_executor::patching::replace_ids_with_values;
use block_executor::patching::DataRead;
use block_executor::patching::Replaced;
use block_executor::types::Event;
use block_executor::types::Transaction;
use block_executor::types::WriteOp;
use block_executor::types::WriteOpKind;
use block_executor::unsync_map::UnsyncMap;
use bytes::Bytes;
use std::collections::HashMap;
use std::collections::HashSet;
use std::sync::Arc;

struct Txn;

impl Transaction for Txn {
    type Layout = u8;
    type DeltaOp = u8;
    type ApplyEntry = i64;
    type FieldValue = i64;
    type EventHeader = u8;
}

/// The value of field `id` is `view + id`. A layout of 0 cannot be read.
fn replace(view: &u8, bytes: &Bytes, layout: &u8) -> Replaced {
    if *layout == 0 {
        return Err(DelayedFieldFailure);
    }
    let patched: Vec<u8> = bytes.iter().map(|id| view + id).collect();
    Ok((Bytes::from(patched), bytes.iter().map(|id| *id as u64).collect()))
}

fn write(kind: WriteOpKind, data: &'static [u8]) -> Arc<WriteOp> {
    Arc::new(WriteOp { kind, bytes: Some(Bytes::from_static(data)), metadata: Some(8) })
}

fn without_bytes(kind: WriteOpKind) -> Arc<WriteOp> {
    Arc::new(WriteOp { kind, bytes: None, metadata: None })
}

fn data(write: &WriteOp) -> Vec<u8> {
    write.bytes.as_ref().unwrap().to_vec()
}

fn ids(list: &[u64]) -> HashSet<u64> {
    list.iter().copied().collect()
}

type Writes = HashMap<u64, (Arc<WriteOp>, Option<Arc<u8>>)>;

#[test]
fn writes_with_layouts_are_patched() {
    let mut writes: Writes = HashMap::new();
    writes.insert(1, (write(WriteOpKind::Creation, &[1, 2]), Some(Arc::new(1))));
    writes.insert(2, (write(WriteOpKind::Modification, &[3]), None));
    writes.insert(3, (without_bytes(WriteOpKind::Deletion), Some(Arc::new(1))));
    let (patched, keys) =
        map_id_to_values_in_write_set::<Txn, u8, _>(Some(&writes), &10, &replace).unwrap();
    assert_eq!(keys, ids(&[1]));
    assert_eq!(patched.len(), 1);
    assert_eq!(data(&patched[&1]), vec![11, 12]);
    assert_eq!(patched[&1].kind, WriteOpKind::Creation);
    assert_eq!(patched[&1].metadata, Some(8));
}

#[test]
fn no_write_set_has_nothing_to_patch() {
    let (patched, keys) =
        map_id_to_values_in_write_set::<Txn, u8, _>(None, &10, &replace).unwrap();
    assert!(patched.is_empty());
    assert!(keys.is_empty());
}

#[test]
fn write_without_bytes_breaks_a_rule() {
    let mut writes: Writes = HashMap::new();
    writes.insert(1, (without_bytes(WriteOpKind::Creation), Some(Arc::new(1))));
    assert!(matches!(
        map_id_to_values_in_write_set::<Txn, u8, _>(Some(&writes), &10, &replace),
        Err(InvariantViolation::ValueWithoutBytes)
    ));
}

#[test]
fn write_that_cannot_be_replaced_breaks_a_rule() {
    let mut writes: Writes = HashMap::new();
    writes.insert(1, (write(WriteOpKind::Creation, &[1]), Some(Arc::new(0))));
    assert!(matches!(
        map_id_to_values_in_write_set::<Txn, u8, _>(Some(&writes), &10, &replace),
        Err(InvariantViolation::ReplaceFailed)
    ));
}

#[test]
fn read_value_is_patched_when_its_field_changed() {
    let value = write(WriteOpKind::Modification, &[4, 5]);
    let patched = replace_ids_with_values::<Txn, u8, _>(&value, &1, &20, &ids(&[5, 9]), &replace)
        .unwrap()
        .unwrap();
    assert_eq!(data(&patched), vec![24, 25]);
    assert_eq!(patched.kind, WriteOpKind::Modification);
    assert_eq!(patched.metadata, Some(8));
}

#[test]
fn read_value_is_left_alone_when_no_field_changed() {
    let value = write(WriteOpKind::Modification, &[4, 5]);
    let patched =
        replace_ids_with_values::<Txn, u8, _>(&value, &1, &20, &ids(&[6]), &replace).unwrap();
    assert!(patched.is_none());
}

#[test]
fn read_value_breaks_rules() {
    assert!(matches!(
        replace_ids_with_values::<Txn, u8, _>(
            &without_bytes(WriteOpKind::Creation),
            &1,
            &20,
            &ids(&[6]),
            &replace
        ),
        Err(InvariantViolation::ValueWithoutBytes)
    ));
    assert!(matches!(
        replace_ids_with_values::<Txn, u8, _>(
            &write(WriteOpKind::Creation, &[6]),
            &0,
            &20,
            &ids(&[6]),
            &replace
        ),
        Err(InvariantViolation::ReplaceFailed)
    ));
}

fn captured() -> HashMap<u64, DataRead<Txn>> {
    let value = write(WriteOpKind::Creation, &[4]);
    let mut reads: HashMap<u64, DataRead<Txn>> = HashMap::new();
    // Changed through its field.
    reads.insert(1, DataRead::Versioned(Some((3, 0)), Arc::clone(&value), Some(Arc::new(1))));
    // Written by the transaction itself.
    reads.insert(2, DataRead::Versioned(None, Arc::clone(&value), Some(Arc::new(1))));
    // Without delayed fields.
    reads.insert(3, DataRead::Versioned(None, Arc::clone(&value), None));
    // With other delayed fields.
    let other = write(WriteOpKind::Creation, &[7]);
    reads.insert(4, DataRead::Versioned(None, other, Some(Arc::new(1))));
    reads.insert(5, DataRead::Partial);
    reads
}

#[test]
fn captured_reads_are_patched() {
    let reads = captured();
    let patched = map_id_to_values_in_read_set_parallel::<Txn, u8, _>(
        Some(&ids(&[4])),
        &ids(&[2]),
        Some(&reads),
        &30,
        &replace,
    )
    .unwrap();
    assert_eq!(patched.len(), 1);
    assert_eq!(data(&patched[&1]), vec![34]);
}

#[test]
fn reads_are_left_alone_without_changes_or_reads() {
    let reads = captured();
    let patched = map_id_to_values_in_read_set_parallel::<Txn, u8, _>(
        None,
        &ids(&[2]),
        Some(&reads),
        &30,
        &replace,
    )
    .unwrap();
    assert!(patched.is_empty());
    let patched = map_id_to_values_in_read_set_parallel::<Txn, u8, _>(
        Some(&ids(&[4])),
        &ids(&[2]),
        None,
        &30,
        &replace,
    )
    .unwrap();
    assert!(patched.is_empty());
}

#[test]
fn captured_read_breaks_rules() {
    let mut reads: HashMap<u64, DataRead<Txn>> = HashMap::new();
    reads.insert(
        1,
        DataRead::Versioned(None, without_bytes(WriteOpKind::Deletion), Some(Arc::new(1))),
    );
    assert!(matches!(
        map_id_to_values_in_read_set_parallel::<Txn, u8, _>(
            Some(&ids(&[])),
            &ids(&[]),
            Some(&reads),
            &30,
            &replace
        ),
        Err(InvariantViolation::ValueWithoutBytes)
    ));
}

#[test]
fn sequential_reads_match_the_captured_ones() {
    let mut map: UnsyncMap<Txn> = UnsyncMap::new();
    let mut read_set: HashSet<u64> = HashSet::new();
    for (key, read) in captured() {
        read_set.insert(key);
        if let DataRead::Versioned(_, value, layout) = read {
            map.write(key, value, layout);
        }
    }
    // Never read.
    map.write(6, write(WriteOpKind::Creation, &[4]), Some(Arc::new(1)));
    let patched = map_id_to_values_in_read_set_sequential::<Txn, u8, _>(
        Some(&ids(&[4])),
        &ids(&[2]),
        &read_set,
        &map,
        &30,
        &replace,
    )
    .unwrap();
    assert_eq!(patched.len(), 1);
    assert_eq!(data(&patched[&1]), vec![34]);
    let none = map_id_to_values_in_read_set_sequential::<Txn, u8, _>(
        None,
        &ids(&[2]),
        &read_set,
        &map,
        &30,
        &replace,
    )
    .unwrap();
    assert!(none.is_empty());
}

#[test]
fn sequential_read_of_a_deletion_breaks_a_rule() {
    let mut map: UnsyncMap<Txn> = UnsyncMap::new();
    map.write(1, without_bytes(WriteOpKind::Deletion), Some(Arc::new(1)));
    assert!(matches!(
        map_id_to_values_in_read_set_sequential::<Txn, u8, _>(
            Some(&ids(&[4])),
            &ids(&[]),
            &ids(&[1]),
            &map,
            &30,
            &replace
        ),
        Err(InvariantViolation::ValueWithoutBytes)
    ));
}

#[test]
fn event_payloads_are_patched_in_order() {
    let header = Arc::new(77);
    let events: Vec<(Event<Txn>, Option<Arc<u8>>)> = vec![
        (Event { header: Arc::clone(&header), data: vec![1, 2] }, Some(Arc::new(1))),
        (Event { header: Arc::new(78), data: vec![3] }, None),
        (Event { header: Arc::new(79), data: vec![] }, Some(Arc::new(1))),
    ];
    let patched = map_id_to_values_events::<Txn, u8, _>(&events, &40, &replace).unwrap();
    assert_eq!(patched.len(), 3);
    assert!(Arc::ptr_eq(&patched[0].header, &header));
    assert_eq!(patched[0].data, vec![41, 42]);
    assert_eq!(*patched[1].header, 78);
    assert_eq!(patched[1].data, vec![3]);
    assert_eq!(patched[2].data, Vec::<u8>::new());
}

#[test]
fn event_that_cannot_be_replaced_breaks_a_rule() {
    let events: Vec<(Event<Txn>, Option<Arc<u8>>)> =
        vec![(Event { header: Arc::new(1), data: vec![1] }, Some(Arc::new(0)))];
    assert!(matches!(
        map_id_to_values_events::<Txn, u8, _>(&events, &40, &replace),
        Err(InvariantViolation::ReplaceFailed)
    ));
}

#[test]
fn more_writes_are_added_over_the_others() {
    let mut writes: HashMap<u64, Arc<WriteOp>> = HashMap::new();
    writes.insert(1, write(WriteOpKind::Creation, &[1]));
    writes.insert(2, write(WriteOpKind::Creation, &[2]));
    let mut more: HashMap<u64, Arc<WriteOp>> = HashMap::new();
    more.insert(2, write(WriteOpKind::Creation, &[20]));
    more.insert(3, write(WriteOpKind::Creation, &[30]));
    extend_writes(&mut writes, &more);
    assert_eq!(writes.len(), 3);
    assert_eq!(data(&writes[&1]), vec![1]);
    assert_eq!(data(&writes[&2]), vec![20]);
    assert_eq!(data(&writes[&3]), vec![30]);
}

#[test]
fn keys_of_a_map_are_all_found() {
    let map: HashMap<u64, u8> = [(4, 0), (9, 1)].into_iter().collect();
    assert_eq!(key_set(&map), ids(&[4, 9]));
}

#[test]
fn write_ops_are_what_they_say() {
    let modification = WriteOp::modification(Bytes::from_static(&[5]));
    assert_eq!(modification.kind, WriteOpKind::Modification);
    assert_eq!(data(&modification), vec![5]);
    assert_eq!(modification.metadata, None);
    assert!(!modification.is_deletion());
    assert!(without_bytes(WriteOpKind::Deletion).is_deletion());
    let changed = write(WriteOpKind::Creation, &[1]).with_bytes(Bytes::from_static(&[2, 3]));
    assert_eq!(changed.kind, WriteOpKind::Creation);
    assert_eq!(data(&changed), vec![2, 3]);
    assert_eq!(changed.metadata, Some(8));
}
