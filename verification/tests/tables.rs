use std::collections::BTreeMap;

use consumer_group_store::assignment::ShardAssignments;
use consumer_group_store::creation::{GroupCreation, GroupValues, NUM_SHARDS};
use consumer_group_store::offset_writes::{InsertValues, UpdateValues};
use consumer_group_store::statement::{
    Query, CREATE_STATIC_CONSUMER_GROUP, GET_ACC_UPDATE_SHARD_OFFSET, GET_NEW_TX_SHARD_OFFSET,
    GET_STATIC_CONSUMER_GROUP, INSERT_STATIC_GROUP_MEMBER_OFFSETS, UPDATE_CONSUMER_SHARD_OFFSET_V2,
    UPDATE_STATIC_CONSUMER_GROUP,
};
use consumer_group_store::store::ScyllaConsumerGroupStore;
use consumer_group_store::types::{
    BlockchainEventType, CommitmentLevel, ConsumerGroupInfo, ConsumerGroupType, IpAddress,
    LwtResult, MemberOffsets, SeekLocation, ShardOffsetMap, TranslationStrategy,
};
use consumer_group_store::StoreError;

type Id = [u8; 16];

const GROUP: Id = [1; 16];
const PRODUCER: Id = [2; 16];
const OTHER_PRODUCER: Id = [3; 16];

/// The two tables, kept in memory.
struct Db {
    groups: BTreeMap<Id, ConsumerGroupInfo>,
    offsets: BTreeMap<(Id, String, Id), (i64, ShardOffsetMap, ShardOffsetMap)>,
}

fn copy_of(info: &ConsumerGroupInfo) -> ConsumerGroupInfo {
    ConsumerGroupInfo {
        consumer_group_id: info.consumer_group_id,
        group_type: info.group_type,
        producer_id: info.producer_id,
        revision: info.revision,
        commitment_level: info.commitment_level,
        subscribed_event_types: info.subscribed_event_types.clone(),
        consumer_id_shard_assignments: info.consumer_id_shard_assignments.clone(),
        last_access_ip_address: info.last_access_ip_address,
        translation_strategy: info.translation_strategy,
    }
}

impl Db {
    fn new() -> Self {
        Db { groups: BTreeMap::new(), offsets: BTreeMap::new() }
    }

    fn insert_group(&mut self, query: Query<GroupValues>) {
        assert_eq!(query.statement.cql, CREATE_STATIC_CONSUMER_GROUP);
        let v = query.values;
        self.groups.insert(
            v.0,
            ConsumerGroupInfo {
                consumer_group_id: v.0,
                group_type: v.1,
                producer_id: Some(v.2),
                revision: v.7,
                commitment_level: v.3,
                subscribed_event_types: v.4,
                consumer_id_shard_assignments: v.5,
                last_access_ip_address: v.6,
                translation_strategy: v.8,
            },
        );
    }

    fn update_group(&mut self, query: Query<(Id, i64, Id, i64)>) -> LwtResult {
        assert_eq!(query.statement.cql, UPDATE_STATIC_CONSUMER_GROUP);
        let (producer, revision, group, bound) = query.values;
        match self.groups.get_mut(&group) {
            Some(info) if info.revision < bound => {
                info.producer_id = Some(producer);
                info.revision = revision;
                LwtResult(true)
            }
            _ => LwtResult(false),
        }
    }

    fn read_group(&self, query: Query<(Id,)>) -> Option<ConsumerGroupInfo> {
        assert_eq!(query.statement.cql, GET_STATIC_CONSUMER_GROUP);
        self.groups.get(&query.values.0).map(copy_of)
    }

    fn insert_offsets(&mut self, query: Query<InsertValues>) -> LwtResult {
        assert_eq!(query.statement.cql, INSERT_STATIC_GROUP_MEMBER_OFFSETS);
        let (group, member, producer, acc, tx, revision) = query.values;
        let key = (group, member, producer);
        if self.offsets.contains_key(&key) {
            return LwtResult(false);
        }
        self.offsets.insert(key, (revision, acc, tx));
        LwtResult(true)
    }

    fn update_offsets(&mut self, query: Query<UpdateValues>) -> LwtResult {
        assert_eq!(query.statement.cql, UPDATE_CONSUMER_SHARD_OFFSET_V2);
        let (acc, tx, revision, group, member, producer, bound) = query.values;
        match self.offsets.get_mut(&(group, member, producer)) {
            Some(row) if row.0 < bound => {
                *row = (revision, acc, tx);
                LwtResult(true)
            }
            _ => LwtResult(false),
        }
    }

    fn read_offsets(&self, query: Query<(Id, String, Id)>) -> (i64, ShardOffsetMap) {
        let (revision, acc, tx) = &self.offsets[&query.values];
        if query.statement.cql == GET_ACC_UPDATE_SHARD_OFFSET {
            return (*revision, acc.clone());
        }
        assert_eq!(query.statement.cql, GET_NEW_TX_SHARD_OFFSET);
        (*revision, tx.clone())
    }

    fn rows(&self) -> Vec<((Id, String, Id), (i64, ShardOffsetMap, ShardOffsetMap))> {
        self.offsets.iter().map(|(key, row)| (key.clone(), row.clone())).collect()
    }
}

fn set(
    db: &mut Db,
    group: Id,
    producer: Id,
    map: &ShardOffsetMap,
    revision: i64,
) -> Result<(), StoreError> {
    let store = ScyllaConsumerGroupStore::new();
    let info = db.read_group(store.get_consumer_group_info(&group));
    let mut writes =
        store.set_static_group_members_shard_offset(&group, &producer, map, revision, info)?;
    loop {
        assert!(writes.next_is_covered());
        let insert = match writes.write_next() {
            Some(insert) => insert,
            None => return Ok(()),
        };
        let reply = db.insert_offsets(insert);
        if let Some(update) = writes.take_reply(reply)? {
            let reply = db.update_offsets(update);
            assert_eq!(writes.take_reply(reply)?, None);
        }
    }
}

fn update(db: &mut Db, group: Id, producer: Id, revision: i64) -> Result<(), StoreError> {
    let query = ScyllaConsumerGroupStore::new()
        .update_consumer_group_producer(&group, &producer, revision);
    let reply = db.update_group(query);
    ScyllaConsumerGroupStore::confirm_producer_update(reply)
}

fn info_of(db: &Db, group: Id) -> Option<ConsumerGroupInfo> {
    db.read_group(ScyllaConsumerGroupStore::new().get_consumer_group_info(&group))
}

fn db_with_group() -> Db {
    let mut members = ShardAssignments::new();
    members.insert("a".to_string(), vec![0, 1]);
    members.insert("b".to_string(), vec![2, 3]);
    let mut db = Db::new();
    db.groups.insert(
        GROUP,
        ConsumerGroupInfo {
            consumer_group_id: GROUP,
            group_type: ConsumerGroupType::Static,
            producer_id: Some(PRODUCER),
            revision: 5,
            commitment_level: CommitmentLevel::Confirmed,
            subscribed_event_types: vec![BlockchainEventType::AccountUpdate],
            consumer_id_shard_assignments: members,
            last_access_ip_address: Some(IpAddress::V4([10, 0, 0, 1])),
            translation_strategy: Some(TranslationStrategy::AllowLag),
        },
    );
    db
}

fn log_at(slot: i64) -> ShardOffsetMap {
    (0..NUM_SHARDS as i16).map(|shard| (shard, (slot * 10, slot + shard as i64))).collect()
}

#[test]
fn equal_or_earlier_setting_changes_nothing() {
    let mut db = db_with_group();
    assert_eq!(set(&mut db, GROUP, PRODUCER, &log_at(100), 8), Ok(()));
    let rows = db.rows();
    for revision in [8, 7, 5] {
        assert_eq!(
            set(&mut db, GROUP, PRODUCER, &log_at(200), revision),
            Err(StoreError::ShardOffsetNotUpdated("a".to_string()))
        );
        assert_eq!(db.rows(), rows);
    }
    assert_eq!(
        set(&mut db, GROUP, PRODUCER, &log_at(200), 4),
        Err(StoreError::ConsumerGroupMoreUpToDate)
    );
    assert_eq!(db.rows(), rows);
}

#[test]
fn later_setting_replaces_the_rows() {
    let mut db = db_with_group();
    let stranger = ([9; 16], "a".to_string(), PRODUCER);
    let untouched = (1, log_at(1), log_at(2));
    db.offsets.insert(stranger.clone(), untouched.clone());
    assert_eq!(set(&mut db, GROUP, PRODUCER, &log_at(100), 8), Ok(()));
    assert_eq!(set(&mut db, GROUP, PRODUCER, &log_at(200), 9), Ok(()));
    let of_a: ShardOffsetMap = [(0, (2000, 200)), (1, (2000, 201))].into_iter().collect();
    assert_eq!(
        db.offsets[&(GROUP, "a".to_string(), PRODUCER)],
        (9, of_a.clone(), of_a)
    );
    assert_eq!(db.offsets[&stranger], untouched);
    assert_eq!(db.offsets.len(), 3);
}

#[test]
fn one_row_that_is_as_late_fails_the_setting() {
    let mut db = db_with_group();
    let late = (7, log_at(1), log_at(1));
    db.offsets.insert((GROUP, "b".to_string(), PRODUCER), late.clone());
    assert_eq!(
        set(&mut db, GROUP, PRODUCER, &log_at(100), 7),
        Err(StoreError::ShardOffsetNotUpdated("b".to_string()))
    );
    assert_eq!(db.offsets[&(GROUP, "b".to_string(), PRODUCER)], late);
    assert_eq!(db.offsets[&(GROUP, "a".to_string(), PRODUCER)].0, 7);
}

#[test]
fn offsets_that_were_set_read_back() {
    let mut db = db_with_group();
    assert_eq!(set(&mut db, GROUP, PRODUCER, &log_at(100), 8), Ok(()));
    let of_b: ShardOffsetMap = [(2, (1000, 102)), (3, (1000, 103))].into_iter().collect();
    for event in [BlockchainEventType::AccountUpdate, BlockchainEventType::NewTransaction] {
        let query = ScyllaConsumerGroupStore::new().get_shard_offset_map(
            &GROUP,
            &"b".to_string(),
            &PRODUCER,
            event,
        );
        assert_eq!(db.read_offsets(query), (8, of_b.clone()));
    }
}

#[test]
fn offsets_that_were_set_give_the_lowest_common_slot() {
    let mut db = db_with_group();
    assert_eq!(set(&mut db, GROUP, PRODUCER, &log_at(100), 8), Ok(()));
    let question = ScyllaConsumerGroupStore::new()
        .get_lowest_common_slot_number(&GROUP, info_of(&db, GROUP), None)
        .unwrap();
    let (group, members, producer) = &question.query.values;
    let rows: Vec<MemberOffsets> = members
        .iter()
        .map(|member| {
            let (revision, acc, tx) = db.offsets[&(*group, member.clone(), *producer)].clone();
            (member.clone(), revision, acc, tx)
        })
        .collect();
    assert_eq!(question.lowest_common_slot(&rows), Ok((100, 8)));
}

#[test]
fn producer_updates_only_go_forward() {
    let mut db = db_with_group();
    let mut applied = Vec::new();
    for (producer, revision) in
        [(OTHER_PRODUCER, 5), (OTHER_PRODUCER, 9), (PRODUCER, 9), (PRODUCER, 6), (PRODUCER, 10)]
    {
        let before = info_of(&db, GROUP);
        match update(&mut db, GROUP, producer, revision) {
            Ok(()) => applied.push(revision),
            Err(e) => {
                assert_eq!(e, StoreError::ProducerNotUpdated);
                assert_eq!(info_of(&db, GROUP), before);
            }
        }
    }
    assert_eq!(applied, vec![9, 10]);
    assert_eq!(update(&mut db, [8; 16], PRODUCER, 99), Err(StoreError::ProducerNotUpdated));
    assert_eq!(info_of(&db, [8; 16]), None);
}

#[test]
fn updated_producer_reads_back() {
    let mut db = db_with_group();
    let earlier = info_of(&db, GROUP).unwrap();
    assert_eq!(update(&mut db, GROUP, OTHER_PRODUCER, 6), Ok(()));
    let expected = ConsumerGroupInfo {
        producer_id: Some(OTHER_PRODUCER),
        revision: 6,
        ..earlier
    };
    assert_eq!(info_of(&db, GROUP), Some(expected));
}

#[test]
fn created_group_reads_back() {
    let store = ScyllaConsumerGroupStore::new();
    let creation: GroupCreation = store.create_static_consumer_group(
        &["y".to_string(), "x".to_string()],
        CommitmentLevel::Finalized,
        &[BlockchainEventType::NewTransaction],
        SeekLocation::Latest,
        Some(IpAddress::V4([10, 0, 0, 2])),
        None,
    );
    let mut db = db_with_group();
    db.insert_group(store.insert_group(&creation, PRODUCER));
    let info = creation.into_info(PRODUCER);
    let members = store.create_static_group_members(&info, SeekLocation::Latest);
    let set_up = set(
        &mut db,
        members.consumer_group_id,
        members.producer_id,
        &log_at(100),
        members.revision,
    );
    assert_eq!(set_up, Ok(()));
    assert_eq!(info.revision, 0);
    let id = info.consumer_group_id;
    assert_eq!(info_of(&db, id), Some(info));
    assert_eq!(db.offsets.len(), 2);
    assert_eq!(db.offsets[&(id, "x".to_string(), PRODUCER)].1.len(), 32);
}
