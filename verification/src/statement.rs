//! The CQL statements of the store.

use vstd::prelude::*;

verus! {

/// Adds the offsets of a member, unless the member has some.
pub const INSERT_STATIC_GROUP_MEMBER_OFFSETS: &'static str = r###"
    INSERT INTO consumer_shard_offset_v2 (
        consumer_group_id, 
        consumer_id, 
        producer_id, 
        acc_shard_offset_map,
        tx_shard_offset_map,
        revision, 
        created_at, 
        updated_at
    )
    VALUES (?, ?, ?, ?, ?, ?, currentTimestamp(), currentTimestamp())
    IF NOT EXISTS
"###;

/// Adds a group.
pub const CREATE_STATIC_CONSUMER_GROUP: &'static str = r###"
    INSERT INTO consumer_groups (
        consumer_group_id,
        group_type,
        producer_id,
        commitment_level,
        subscribed_event_types,
        instance_id_shard_assignments,
        last_access_ip_address,
        revision,
        translation_strategy,
        created_at,
        updated_at
    )
    VALUES (?, ?, ?, ?, ?, ?, ?, ?, ?, currentTimestamp(), currentTimestamp())
"###;

/// Reads a group.
pub const GET_STATIC_CONSUMER_GROUP: &'static str = r###"
    SELECT
        consumer_group_id,
        group_type,
        producer_id,
        revision,
        commitment_level,
        subscribed_event_types,
        instance_id_shard_assignments,
        last_access_ip_address,
        translation_strategy
    FROM consumer_groups
    WHERE consumer_group_id = ?
"###;

/// Gives a group another producer, if the group is of an earlier revision.
pub const UPDATE_STATIC_CONSUMER_GROUP: &'static str = r###"
    UPDATE consumer_groups
    SET producer_id = ?,
        revision = ?
    WHERE consumer_group_id = ?
    IF revision < ?
"###;

/// Replaces the offsets of a member, if they are of an earlier revision.
pub const UPDATE_CONSUMER_SHARD_OFFSET_V2: &'static str = r###"
    UPDATE consumer_shard_offset_v2
    SET acc_shard_offset_map = ?, tx_shard_offset_map = ?, revision = ?
    WHERE 
        consumer_group_id = ?
        AND consumer_id = ?
        AND producer_id = ?
    IF revision < ?
"###;

/// Reads how far a member has come in account updates.
pub const GET_ACC_UPDATE_SHARD_OFFSET: &'static str = r###"
    SELECT
        revision,
        acc_shard_offset_map
    FROM consumer_shard_offset_v2
    WHERE 
        consumer_group_id = ?
        AND consumer_id = ?
        AND producer_id = ?
"###;

/// Reads how far a member has come in transactions.
pub const GET_NEW_TX_SHARD_OFFSET: &'static str = r###"
    SELECT
        revision,
        tx_shard_offset_map
    FROM consumer_shard_offset_v2
    WHERE 
        consumer_group_id = ?
        AND consumer_id = ?
        AND producer_id = ?
"###;

/// Reads the offsets of several members.
pub const GET_SHARD_OFFSET_FOR_SPECIFIC_GROUP_MEMBER: &'static str = r###"
    SELECT
        consumer_id,
        revision,
        acc_shard_offset_map,
        tx_shard_offset_map
    FROM consumer_shard_offset_v2
    WHERE 
        consumer_group_id = ?
        AND consumer_id IN ?
        AND producer_id = ?
"###;

/// A statement, and whether it is to be run at consistency `SERIAL` in place of that of the
/// session.
#[derive(Clone, Copy, Debug, PartialEq, Eq)]
pub struct Statement {
    pub cql: &'static str,
    pub serial: bool,
}

/// A statement with the values of its markers, in the order of the markers.
#[derive(Debug, PartialEq, Eq)]
pub struct Query<V> {
    pub statement: Statement,
    pub values: V,
}

} // verus!
