use std::collections::BTreeMap;

use consumer_group_store::assignment::ShardAssignments;
use consumer_group_store::lowest_slot::{is_behind, LowestSlotQuery};
use consumer_group_store::statement::GET_SHARD_OFFSET_FOR_SPECIFIC_GROUP_MEMBER;
use consumer_group_store::store::ScyllaConsumerGroupStore;
use consumer_group_store::types::{
    BlockchainEventType, CommitmentLevel, ConsumerGroupInfo, ConsumerGroupType, MemberOffsets,
    ShardOffsetMap,
};
use consumer_group_store::StoreError;

const GROUP: [u8; 16] = [7; 16];
const PRODUCER: [u8; 16] = [9; 16];

fn offsets(entries: &[(i16, i64, i64)]) -> ShardOffsetMap {
    let mut map = BTreeMap::new();
    for (shard, offset, slot) in entries {
        map.insert(*shard, (*offset, *slot));
    }
    map
}

fn group(revision: i64, events: Vec<BlockchainEventType>) -> ConsumerGroupInfo {
    let mut members = ShardAssignments::new();
    members.insert("b".to_string(), vec![2, 3]);
    members.insert("a".to_string(), vec![0, 1]);
    ConsumerGroupInfo {
        consumer_group_id: GROUP,
        group_type: ConsumerGroupType::Static,
        producer_id: Some(PRODUCER),
        revision,
        commitment_level: CommitmentLevel::Confirmed,
        subscribed_event_types: events,
        consumer_id_shard_assignments: members,
        last_access_ip_address: None,
        translation_strategy: None,
    }
}

fn both() -> Vec<BlockchainEventType> {
    vec![BlockchainEventType::AccountUpdate, BlockchainEventType::NewTransaction]
}

fn asked(events: Vec<BlockchainEventType>, max_revision: Option<i64>) -> LowestSlotQuery {
    ScyllaConsumerGroupStore::new()
        .get_lowest_common_slot_number(&GROUP, Some(group(1, events)), max_revision)
        .unwrap()
}

fn rows() -> Vec<MemberOffsets> {
    vec![
        ("a".to_string(), 3, offsets(&[(0, 10, 500), (1, 11, 400)]), offsets(&[(0, 1, 90)])),
        ("b".to_string(), 5, offsets(&[(2, 10, 450)]), offsets(&[(2, 1, 80), (3, 2, 300)])),
    ]
}

#[test]
fn lowest_slot_of_all_subscribed_events() {
    assert_eq!(asked(both(), None).lowest_common_slot(&rows()), Ok((80, 5)));
}

#[test]
fn unsubscribed_events_do_not_count() {
    let account_updates = vec![BlockchainEventType::AccountUpdate];
    assert_eq!(asked(account_updates, None).lowest_common_slot(&rows()), Ok((400, 5)));
    let transactions = vec![BlockchainEventType::NewTransaction];
    assert_eq!(asked(transactions, None).lowest_common_slot(&rows()), Ok((80, 5)));
    assert_eq!(
        asked(vec![], None).lowest_common_slot(&rows()),
        Err(StoreError::NoShardOffset)
    );
}

#[test]
fn order_of_entries_does_not_count() {
    let mut reversed = rows();
    reversed.reverse();
    assert_eq!(asked(both(), None).lowest_common_slot(&reversed), Ok((80, 5)));
}

#[test]
fn no_entries_is_refused() {
    assert_eq!(
        asked(both(), None).lowest_common_slot(&vec![]),
        Err(StoreError::NoShardOffset)
    );
    let empty = vec![("a".to_string(), 0, BTreeMap::new(), BTreeMap::new())];
    assert_eq!(
        asked(both(), None).lowest_common_slot(&empty),
        Err(StoreError::NoShardOffset)
    );
}

#[test]
fn greatest_slot_counts_as_none() {
    let only = vec![("a".to_string(), 4, offsets(&[(0, 1, i64::MAX)]), BTreeMap::new())];
    assert_eq!(
        asked(both(), None).lowest_common_slot(&only),
        Err(StoreError::NoShardOffset)
    );
    let below = vec![("a".to_string(), 4, offsets(&[(0, 1, i64::MAX - 1)]), BTreeMap::new())];
    assert_eq!(asked(both(), None).lowest_common_slot(&below), Ok((i64::MAX - 1, 4)));
}

#[test]
fn negative_revisions_and_slots() {
    let only = vec![("a".to_string(), -4, offsets(&[(0, 1, -7)]), BTreeMap::new())];
    assert_eq!(asked(both(), None).lowest_common_slot(&only), Ok((-7, -4)));
}

#[test]
fn entry_of_a_later_revision_is_stale() {
    assert_eq!(
        asked(both(), Some(4)).lowest_common_slot(&rows()),
        Err(StoreError::StaleRevision(4))
    );
    assert_eq!(asked(both(), Some(5)).lowest_common_slot(&rows()), Ok((80, 5)));
}

#[test]
fn stale_comes_before_missing_offsets() {
    let only = vec![("a".to_string(), 4, BTreeMap::new(), BTreeMap::new())];
    assert_eq!(
        asked(both(), Some(3)).lowest_common_slot(&only),
        Err(StoreError::StaleRevision(3))
    );
}

#[test]
fn question_names_the_members_in_order() {
    let q = asked(both(), Some(6));
    assert_eq!(q.query.statement.cql, GET_SHARD_OFFSET_FOR_SPECIFIC_GROUP_MEMBER);
    assert!(!q.query.statement.serial);
    assert_eq!(q.query.values, (GROUP, vec!["a".to_string(), "b".to_string()], PRODUCER));
    assert_eq!(q.subscribed_event_types, both());
    assert_eq!(q.max_revision, Some(6));
}

#[test]
fn unknown_group_is_refused() {
    let store = ScyllaConsumerGroupStore::new();
    assert_eq!(
        store.get_lowest_common_slot_number(&GROUP, None, None),
        Err(StoreError::ConsumerGroupNotFound)
    );
}

#[test]
fn group_of_a_later_revision_is_stale() {
    let store = ScyllaConsumerGroupStore::new();
    assert_eq!(
        store.get_lowest_common_slot_number(&GROUP, Some(group(8, both())), Some(7)),
        Err(StoreError::StaleRevision(7))
    );
    assert!(store
        .get_lowest_common_slot_number(&GROUP, Some(group(8, both())), Some(8))
        .is_ok());
}

#[test]
fn stale_group_without_producer_is_stale() {
    let store = ScyllaConsumerGroupStore::new();
    let mut unused = group(8, both());
    unused.producer_id = None;
    assert_eq!(
        store.get_lowest_common_slot_number(&GROUP, Some(unused), Some(7)),
        Err(StoreError::StaleRevision(7))
    );
}

#[test]
fn behind_is_strict() {
    assert!(is_behind(Some(1), 2));
    assert!(!is_behind(Some(2), 2));
    assert!(!is_behind(None, i64::MAX));
}
