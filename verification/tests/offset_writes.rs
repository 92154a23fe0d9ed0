use std::collections::BTreeMap;

use consumer_group_store::assignment::ShardAssignments;
use consumer_group_store::offset_writes::{has_offsets, member_shard_offsets, OffsetWrites};
use consumer_group_store::statement::{
    INSERT_STATIC_GROUP_MEMBER_OFFSETS, UPDATE_CONSUMER_SHARD_OFFSET_V2,
};
use consumer_group_store::store::ScyllaConsumerGroupStore;
use consumer_group_store::types::{
    BlockchainEventType, CommitmentLevel, ConsumerGroupInfo, ConsumerGroupType, LwtResult,
    MemberOffsets, ShardOffsetMap,
};
use consumer_group_store::StoreError;

const GROUP: [u8; 16] = [1; 16];
const PRODUCER: [u8; 16] = [2; 16];

fn offsets(entries: &[(i16, i64, i64)]) -> ShardOffsetMap {
    let mut map = BTreeMap::new();
    for (shard, offset, slot) in entries {
        map.insert(*shard, (*offset, *slot));
    }
    map
}

fn log() -> ShardOffsetMap {
    offsets(&[(0, 100, 40), (1, 101, 41), (2, 102, 39), (3, 103, 43)])
}

fn group(revision: i64) -> ConsumerGroupInfo {
    let mut members = ShardAssignments::new();
    members.insert("b".to_string(), vec![2, 3]);
    members.insert("a".to_string(), vec![0, 1]);
    ConsumerGroupInfo {
        consumer_group_id: GROUP,
        group_type: ConsumerGroupType::Static,
        producer_id: Some(PRODUCER),
        revision,
        commitment_level: CommitmentLevel::Processed,
        subscribed_event_types: vec![BlockchainEventType::AccountUpdate],
        consumer_id_shard_assignments: members,
        last_access_ip_address: None,
        translation_strategy: None,
    }
}

fn begin(map: &ShardOffsetMap, revision: i64) -> OffsetWrites<'_> {
    match ScyllaConsumerGroupStore::new().set_static_group_members_shard_offset(
        &GROUP,
        &PRODUCER,
        map,
        revision,
        Some(group(5)),
    ) {
        Ok(writes) => writes,
        Err(e) => panic!("{:?}", e),
    }
}

fn refusal(producer: [u8; 16], revision: i64, info: Option<ConsumerGroupInfo>) -> Option<StoreError> {
    let map = log();
    ScyllaConsumerGroupStore::new()
        .set_static_group_members_shard_offset(&GROUP, &producer, &map, revision, info)
        .err()
}

#[test]
fn missing_group_is_refused() {
    assert_eq!(refusal(PRODUCER, 5, None), Some(StoreError::ConsumerGroupDoesNotExist));
}

#[test]
fn later_group_is_refused() {
    assert_eq!(
        refusal(PRODUCER, 4, Some(group(5))),
        Some(StoreError::ConsumerGroupMoreUpToDate)
    );
    assert_eq!(refusal(PRODUCER, 5, Some(group(5))), None);
    assert_eq!(refusal(PRODUCER, 6, Some(group(5))), None);
}

#[test]
fn other_producer_is_refused() {
    let mut other = PRODUCER;
    other[15] = 3;
    assert_eq!(refusal(other, 5, Some(group(5))), Some(StoreError::ProducerMismatch));
    let mut unused = group(5);
    unused.producer_id = None;
    assert_eq!(refusal(PRODUCER, 5, Some(unused)), Some(StoreError::ProducerMismatch));
    assert_eq!(
        refusal(other, 4, Some(group(5))),
        Some(StoreError::ConsumerGroupMoreUpToDate)
    );
}

#[test]
fn inserts_go_member_by_member() {
    let map = log();
    let mut writes = begin(&map, 5);
    let of_a = offsets(&[(0, 100, 40), (1, 101, 41)]);
    let of_b = offsets(&[(2, 102, 39), (3, 103, 43)]);

    assert!(writes.next_is_covered());
    let q = writes.write_next().unwrap();
    assert_eq!(q.statement.cql, INSERT_STATIC_GROUP_MEMBER_OFFSETS);
    assert_eq!(q.values, (GROUP, "a".to_string(), PRODUCER, of_a.clone(), of_a, 5));
    assert_eq!(writes.take_reply(LwtResult(true)), Ok(None));

    assert!(writes.next_is_covered());
    let q = writes.write_next().unwrap();
    assert_eq!(q.values, (GROUP, "b".to_string(), PRODUCER, of_b.clone(), of_b, 5));
    assert_eq!(writes.take_reply(LwtResult(true)), Ok(None));

    assert!(writes.next_is_covered());
    assert_eq!(writes.write_next(), None);
}

#[test]
fn entry_that_exists_is_updated() {
    let map = log();
    let mut writes = begin(&map, 8);
    let of_a = offsets(&[(0, 100, 40), (1, 101, 41)]);

    assert!(writes.write_next().is_some());
    let q = writes.take_reply(LwtResult(false)).unwrap().unwrap();
    assert_eq!(q.statement.cql, UPDATE_CONSUMER_SHARD_OFFSET_V2);
    assert_eq!(q.values, (of_a.clone(), of_a, 8, GROUP, "a".to_string(), PRODUCER, 8));
    assert_eq!(writes.take_reply(LwtResult(true)), Ok(None));
    assert_eq!(writes.write_next().unwrap().values.1, "b".to_string());
}

#[test]
fn update_that_is_not_applied_is_reported() {
    let map = log();
    let mut writes = begin(&map, 8);
    assert!(writes.write_next().is_some());
    assert_eq!(writes.take_reply(LwtResult(true)), Ok(None));
    assert!(writes.write_next().is_some());
    assert!(writes.take_reply(LwtResult(false)).unwrap().is_some());
    let e = writes.take_reply(LwtResult(false)).unwrap_err();
    assert_eq!(e, StoreError::ShardOffsetNotUpdated("b".to_string()));
    assert_eq!(e.message(), "failed to update b shard offset");
}

#[test]
fn shard_without_offset_shows_when_its_member_is_due() {
    let map = offsets(&[(0, 100, 40), (1, 101, 41), (2, 102, 39)]);
    let mut writes = begin(&map, 5);
    assert!(writes.next_is_covered());
    assert!(writes.write_next().is_some());
    assert_eq!(writes.take_reply(LwtResult(true)), Ok(None));
    assert!(!writes.next_is_covered());
}

#[test]
fn group_without_members_is_done_at_once() {
    let map = log();
    let mut empty = group(5);
    empty.consumer_id_shard_assignments = ShardAssignments::new();
    let store = ScyllaConsumerGroupStore::new();
    let mut writes = match store.set_static_group_members_shard_offset(
        &GROUP,
        &PRODUCER,
        &map,
        5,
        Some(empty),
    ) {
        Ok(writes) => writes,
        Err(e) => panic!("{:?}", e),
    };
    assert!(writes.next_is_covered());
    assert_eq!(writes.write_next(), None);
}

#[test]
fn offsets_of_some_shards() {
    let map = log();
    assert!(has_offsets(&map, &vec![0, 3]));
    assert!(!has_offsets(&map, &vec![0, 4]));
    assert!(has_offsets(&map, &vec![]));
    assert_eq!(
        member_shard_offsets(&map, &vec![3, 0, 3]),
        offsets(&[(0, 100, 40), (3, 103, 43)])
    );
    assert_eq!(member_shard_offsets(&map, &vec![]), BTreeMap::new());
}

#[test]
fn what_was_set_is_the_lowest_common_slot() {
    let map = log();
    let mut writes = begin(&map, 6);
    let mut rows: Vec<MemberOffsets> = Vec::new();
    while let Some(q) = writes.write_next() {
        rows.push((q.values.1, q.values.5, q.values.3, q.values.4));
        assert_eq!(writes.take_reply(LwtResult(true)), Ok(None));
    }
    let question = ScyllaConsumerGroupStore::new()
        .get_lowest_common_slot_number(&GROUP, Some(group(5)), Some(6))
        .unwrap();
    assert_eq!(question.lowest_common_slot(&rows), Ok((39, 6)));
}
