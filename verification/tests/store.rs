use consumer_group_store::creation::NUM_SHARDS;
use consumer_group_store::statement::{
    CREATE_STATIC_CONSUMER_GROUP, GET_ACC_UPDATE_SHARD_OFFSET, GET_NEW_TX_SHARD_OFFSET,
    GET_SHARD_OFFSET_FOR_SPECIFIC_GROUP_MEMBER, GET_STATIC_CONSUMER_GROUP,
    INSERT_STATIC_GROUP_MEMBER_OFFSETS, UPDATE_CONSUMER_SHARD_OFFSET_V2,
    UPDATE_STATIC_CONSUMER_GROUP,
};
use consumer_group_store::store::ScyllaConsumerGroupStore;
use consumer_group_store::types::{
    BlockchainEventType, CommitmentLevel, ConsumerGroupType, IpAddress, LwtResult, SeekLocation,
    ShardOffsetMap, SlotRange, TranslationStrategy,
};
use consumer_group_store::StoreError;

const GROUP: [u8; 16] = [4; 16];
const PRODUCER: [u8; 16] = [6; 16];

fn ids(names: &[&str]) -> Vec<String> {
    names.iter().map(|name| name.to_string()).collect()
}

#[test]
fn statements_are_prepared_in_order() {
    let statements = ScyllaConsumerGroupStore::new().statements();
    let expected = vec![
        (CREATE_STATIC_CONSUMER_GROUP, false),
        (GET_STATIC_CONSUMER_GROUP, true),
        (UPDATE_STATIC_CONSUMER_GROUP, false),
        (INSERT_STATIC_GROUP_MEMBER_OFFSETS, false),
        (UPDATE_CONSUMER_SHARD_OFFSET_V2, false),
        (GET_ACC_UPDATE_SHARD_OFFSET, true),
        (GET_NEW_TX_SHARD_OFFSET, true),
        (GET_SHARD_OFFSET_FOR_SPECIFIC_GROUP_MEMBER, false),
    ];
    let found: Vec<(&str, bool)> = statements.iter().map(|s| (s.cql, s.serial)).collect();
    assert_eq!(found, expected);
}

#[test]
fn values_match_the_markers() {
    let markers = |cql: &str| cql.matches('?').count();
    assert_eq!(markers(CREATE_STATIC_CONSUMER_GROUP), 9);
    assert_eq!(markers(GET_STATIC_CONSUMER_GROUP), 1);
    assert_eq!(markers(UPDATE_STATIC_CONSUMER_GROUP), 4);
    assert_eq!(markers(INSERT_STATIC_GROUP_MEMBER_OFFSETS), 6);
    assert_eq!(markers(UPDATE_CONSUMER_SHARD_OFFSET_V2), 7);
    assert_eq!(markers(GET_ACC_UPDATE_SHARD_OFFSET), 3);
    assert_eq!(markers(GET_NEW_TX_SHARD_OFFSET), 3);
    assert_eq!(markers(GET_SHARD_OFFSET_FOR_SPECIFIC_GROUP_MEMBER), 3);
}

#[test]
fn event_type_chooses_the_offset_map() {
    let store = ScyllaConsumerGroupStore::new();
    let member = "m".to_string();
    let q = store.get_shard_offset_map(
        &GROUP,
        &member,
        &PRODUCER,
        BlockchainEventType::AccountUpdate,
    );
    assert_eq!(q.statement.cql, GET_ACC_UPDATE_SHARD_OFFSET);
    assert!(q.statement.serial);
    assert_eq!(q.values, (GROUP, "m".to_string(), PRODUCER));
    let q = store.get_shard_offset_map(
        &GROUP,
        &member,
        &PRODUCER,
        BlockchainEventType::NewTransaction,
    );
    assert_eq!(q.statement.cql, GET_NEW_TX_SHARD_OFFSET);
    assert!(q.statement.serial);
}

#[test]
fn producer_update_is_conditional_on_its_revision() {
    let q = ScyllaConsumerGroupStore::new().update_consumer_group_producer(&GROUP, &PRODUCER, 12);
    assert_eq!(q.statement.cql, UPDATE_STATIC_CONSUMER_GROUP);
    assert_eq!(q.values, (PRODUCER, 12, GROUP, 12));
}

#[test]
fn producer_update_that_is_not_applied_is_reported() {
    assert_eq!(ScyllaConsumerGroupStore::confirm_producer_update(LwtResult(true)), Ok(()));
    let e = ScyllaConsumerGroupStore::confirm_producer_update(LwtResult(false)).unwrap_err();
    assert_eq!(e, StoreError::ProducerNotUpdated);
    assert_eq!(e.message(), "failed to update consumer group producer");
}

#[test]
fn group_is_read_at_serial_consistency() {
    let q = ScyllaConsumerGroupStore::new().get_consumer_group_info(&GROUP);
    assert_eq!(q.statement.cql, GET_STATIC_CONSUMER_GROUP);
    assert!(q.statement.serial);
    assert_eq!(q.values, (GROUP,));
}

#[test]
fn refusals_have_their_texts() {
    assert_eq!(
        StoreError::ConsumerGroupNotFound.message(),
        "consumer group id not found"
    );
    assert_eq!(
        StoreError::ConsumerGroupDoesNotExist.message(),
        "consumer group does not exists"
    );
    assert_eq!(
        StoreError::ConsumerGroupMoreUpToDate.message(),
        "consumer group is more up to date then current operation"
    );
    assert_eq!(
        StoreError::ProducerMismatch.message(),
        "producer id does not match the consumer group"
    );
    assert_eq!(
        StoreError::NoShardOffset.message(),
        "found not shard offset map content"
    );
}

#[test]
fn new_group_ids_are_random_uuids() {
    let store = ScyllaConsumerGroupStore::new();
    let create = || {
        store
            .create_static_consumer_group(
                &ids(&["a"]),
                CommitmentLevel::Processed,
                &[],
                SeekLocation::Latest,
                None,
                None,
            )
            .consumer_group_id
    };
    let first = create();
    let second = create();
    assert_eq!(uuid::Uuid::from_bytes(first).get_version_num(), 4);
    assert_eq!(uuid::Uuid::from_bytes(first).get_variant(), uuid::Variant::RFC4122);
    assert_ne!(first, second);
}

#[test]
fn new_group_is_created_step_by_step() {
    let store = ScyllaConsumerGroupStore::new();
    let range = SlotRange { first: 10, last: 20 };
    let ip = Some(IpAddress::V4([10, 0, 0, 1]));
    let events = [BlockchainEventType::NewTransaction];
    let creation = store.create_static_consumer_group(
        &ids(&["b", "a"]),
        CommitmentLevel::Finalized,
        &events,
        SeekLocation::SlotApprox(range),
        ip,
        Some(TranslationStrategy::StrictSlot),
    );
    assert_eq!(creation.producer_criteria(), (Some(range), CommitmentLevel::Finalized));

    let group_id = creation.consumer_group_id;
    let assignments = creation.shard_assignments.clone();
    assert_eq!(assignments.shards_at(1), &(32..64).collect::<Vec<i16>>());
    let q = store.insert_group(&creation, PRODUCER);
    assert_eq!(q.statement.cql, CREATE_STATIC_CONSUMER_GROUP);
    assert_eq!(q.values.0, group_id);
    assert_eq!(q.values.1, ConsumerGroupType::Static);
    assert_eq!(q.values.2, PRODUCER);
    assert_eq!(q.values.3, CommitmentLevel::Finalized);
    assert_eq!(q.values.4, events.to_vec());
    assert_eq!(q.values.5, assignments);
    assert_eq!(q.values.6, ip);
    assert_eq!(q.values.7, 0);
    assert_eq!(q.values.8, Some(TranslationStrategy::StrictSlot));

    let info = creation.into_info(PRODUCER);
    assert_eq!(info.consumer_group_id, group_id);
    assert_eq!(info.group_type, ConsumerGroupType::Static);
    assert_eq!(info.producer_id, Some(PRODUCER));
    assert_eq!(info.revision, 0);
    assert_eq!(info.commitment_level, CommitmentLevel::Finalized);
    assert_eq!(info.subscribed_event_types, events.to_vec());
    assert_eq!(info.consumer_id_shard_assignments, assignments);
    assert_eq!(info.last_access_ip_address, ip);
    assert_eq!(info.translation_strategy, Some(TranslationStrategy::StrictSlot));

    let first_offsets = store.create_static_group_members(&info, SeekLocation::SlotApprox(range));
    assert_eq!(first_offsets.consumer_group_id, group_id);
    assert_eq!(first_offsets.producer_id, PRODUCER);
    assert_eq!(first_offsets.seek_loc, SeekLocation::SlotApprox(range));
    assert_eq!(first_offsets.revision, 0);

    let mut log = ShardOffsetMap::new();
    for shard in 0..NUM_SHARDS as i16 {
        log.insert(shard, (0, 15));
    }
    let mut writes = match store.set_static_group_members_shard_offset(
        &group_id,
        &first_offsets.producer_id,
        &log,
        first_offsets.revision,
        Some(info),
    ) {
        Ok(writes) => writes,
        Err(e) => panic!("{:?}", e),
    };
    let mut written = 0;
    while writes.next_is_covered() {
        match writes.write_next() {
            Some(_) => assert_eq!(writes.take_reply(LwtResult(true)), Ok(None)),
            None => break,
        }
        written += 1;
    }
    assert_eq!(written, 2);
}

#[test]
fn producer_need_not_reach_slots_unless_asked() {
    let store = ScyllaConsumerGroupStore::new();
    for location in [SeekLocation::Earliest, SeekLocation::Latest] {
        let creation = store.create_static_consumer_group(
            &ids(&["a"]),
            CommitmentLevel::Confirmed,
            &[],
            location,
            None,
            None,
        );
        assert_eq!(creation.producer_criteria(), (None, CommitmentLevel::Confirmed));
    }
}
