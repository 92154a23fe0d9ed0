//! The two tables of the store, and how its statements act on them.
//!
//! This is a model: it says, in mathematical terms, what the CQL statements of the store ask of the
//! database. A conditional insert acts if there is no such row, a conditional update if there is one
//! and it meets the condition, and an insert without a condition replaces what was there.

use vstd::prelude::*;

use crate::creation::GroupValues;
use crate::offset_writes::{after_reply, after_turn, InsertValues, UpdateValues, WritePhase, WritesModel};
use crate::statement::{
    Statement, INSERT_STATIC_GROUP_MEMBER_OFFSETS, UPDATE_CONSUMER_SHARD_OFFSET_V2,
};
use crate::types::{
    BlockchainEventType, CommitmentLevel, ConsumerGroupId, ConsumerGroupInfo, ConsumerGroupType,
    IpAddress, MemberOffsets, ProducerId, ShardId, ShardOffset, Slot, TranslationStrategy,
};

verus! {

/// What names a row of `consumer_shard_offset_v2`: group, consumer and producer.
pub type OffsetsKey = (ConsumerGroupId, Seq<char>, ProducerId);

/// A row of `consumer_shard_offset_v2`.
pub struct OffsetsRow {
    pub revision: i64,
    pub account_updates: Map<ShardId, (ShardOffset, Slot)>,
    pub transactions: Map<ShardId, (ShardOffset, Slot)>,
}

/// The table `consumer_shard_offset_v2`.
pub type OffsetsTable = Map<OffsetsKey, OffsetsRow>;

/// A row of `consumer_groups`.
pub struct GroupRow {
    pub group_type: ConsumerGroupType,
    pub producer_id: Option<ProducerId>,
    pub revision: i64,
    pub commitment_level: CommitmentLevel,
    pub subscribed_event_types: Seq<BlockchainEventType>,
    pub members: Seq<(Seq<char>, Seq<ShardId>)>,
    pub last_access_ip_address: Option<IpAddress>,
    pub translation_strategy: Option<TranslationStrategy>,
}

/// The table `consumer_groups`.
pub type GroupsTable = Map<ConsumerGroupId, GroupRow>;

/// What is stored.
pub struct Tables {
    pub groups: GroupsTable,
    pub offsets: OffsetsTable,
}

/// Inserts a row if there is none under the key, and tells whether it did.
pub open spec fn insert_if_absent(
    table: OffsetsTable,
    key: OffsetsKey,
    row: OffsetsRow,
) -> (OffsetsTable, bool) {
    if table.contains_key(key) {
        (table, false)
    } else {
        (table.insert(key, row), true)
    }
}

/// Replaces the row under the key if there is one of an earlier revision than `bound`, and tells
/// whether it did.
pub open spec fn update_if_earlier(
    table: OffsetsTable,
    key: OffsetsKey,
    row: OffsetsRow,
    bound: i64,
) -> (OffsetsTable, bool) {
    if table.contains_key(key) && table[key].revision < bound {
        (table.insert(key, row), true)
    } else {
        (table, false)
    }
}

/// `INSERT_STATIC_GROUP_MEMBER_OFFSETS` with these values.
pub open spec fn insert_offsets(table: OffsetsTable, values: InsertValues) -> (OffsetsTable, bool) {
    insert_if_absent(
        table,
        (values.0, values.1@, values.2),
        OffsetsRow {
            revision: values.5,
            account_updates: values.3@,
            transactions: values.4@,
        },
    )
}

/// `UPDATE_CONSUMER_SHARD_OFFSET_V2` with these values.
pub open spec fn update_offsets(table: OffsetsTable, values: UpdateValues) -> (OffsetsTable, bool) {
    update_if_earlier(
        table,
        (values.3, values.4@, values.5),
        OffsetsRow {
            revision: values.2,
            account_updates: values.0@,
            transactions: values.1@,
        },
        values.6,
    )
}

/// `GET_ACC_UPDATE_SHARD_OFFSET` or `GET_NEW_TX_SHARD_OFFSET`, by the type of event, with these
/// values. A column of a map may hold an empty map as no map at all, so an empty map does not count
/// as read back.
pub open spec fn read_offsets(
    table: OffsetsTable,
    values: (ConsumerGroupId, Seq<char>, ProducerId),
    event_type: BlockchainEventType,
) -> Option<(i64, Map<ShardId, (ShardOffset, Slot)>)> {
    let offsets = match event_type {
        BlockchainEventType::AccountUpdate => table[values].account_updates,
        BlockchainEventType::NewTransaction => table[values].transactions,
    };
    if table.contains_key(values) && !offsets.is_empty() {
        Some((table[values].revision, offsets))
    } else {
        None
    }
}

/// `row` is what `GET_SHARD_OFFSET_FOR_SPECIFIC_GROUP_MEMBER` gives for the member of this key.
pub open spec fn reads_member(table: OffsetsTable, key: OffsetsKey, row: MemberOffsets) -> bool {
    &&& table.contains_key(key)
    &&& row.0@ == key.1
    &&& row.1 == table[key].revision
    &&& row.2@ == table[key].account_updates
    &&& row.3@ == table[key].transactions
}

/// `CREATE_STATIC_CONSUMER_GROUP` with these values leads from `before` to `after`. The event types
/// are stored as a list or as a set, so only which of them are stored is fixed.
pub open spec fn group_inserted(
    before: GroupsTable,
    after: GroupsTable,
    values: GroupValues,
) -> bool {
    &&& after == before.insert(values.0, after[values.0])
    &&& after[values.0].group_type == values.1
    &&& after[values.0].producer_id == Some(values.2)
    &&& after[values.0].revision == values.7
    &&& after[values.0].commitment_level == values.3
    &&& after[values.0].subscribed_event_types.to_set() == values.4@.to_set()
    &&& after[values.0].members == values.5@
    &&& after[values.0].last_access_ip_address == values.6
    &&& after[values.0].translation_strategy == values.8
}

/// `UPDATE_STATIC_CONSUMER_GROUP` with these values, and whether it was applied.
pub open spec fn update_group(
    groups: GroupsTable,
    values: (ProducerId, i64, ConsumerGroupId, i64),
) -> (GroupsTable, bool) {
    if groups.contains_key(values.2) && groups[values.2].revision < values.3 {
        (
            groups.insert(
                values.2,
                GroupRow {
                    producer_id: Some(values.0),
                    revision: values.1,
                    ..groups[values.2]
                },
            ),
            true,
        )
    } else {
        (groups, false)
    }
}

/// `info` is what `GET_STATIC_CONSUMER_GROUP` gives for this id, where the read succeeds.
pub open spec fn reads_group(
    groups: GroupsTable,
    consumer_group_id: ConsumerGroupId,
    info: Option<ConsumerGroupInfo>,
) -> bool {
    match info {
        None => !groups.contains_key(consumer_group_id),
        Some(info) => {
            let row = groups[consumer_group_id];
            &&& groups.contains_key(consumer_group_id)
            &&& info.consumer_group_id == consumer_group_id
            &&& info.group_type == row.group_type
            &&& info.producer_id == row.producer_id
            &&& info.revision == row.revision
            &&& info.commitment_level == row.commitment_level
            &&& info.subscribed_event_types@ == row.subscribed_event_types
            &&& info.consumer_id_shard_assignments@ == row.members
            &&& info.last_access_ip_address == row.last_access_ip_address
            &&& info.translation_strategy == row.translation_strategy
        },
    }
}

/// The key of the row of a member.
pub open spec fn member_key(writes: WritesModel, i: int) -> OffsetsKey {
    (writes.consumer_group_id, writes.members[i].0, writes.producer_id)
}

/// The row that a write leaves behind for a member.
pub open spec fn member_row(writes: WritesModel, i: int) -> OffsetsRow {
    OffsetsRow {
        revision: writes.revision,
        account_updates: writes.member_offsets(i),
        transactions: writes.member_offsets(i),
    }
}

/// How many turns and replies a writing can still take.
pub open spec fn steps_left(writes: WritesModel) -> int {
    let n = writes.members.len();
    match writes.phase {
        WritePhase::Ready(i) => 3 * (n - i) + 3,
        WritePhase::Inserting(i) => 3 * (n - i) + 2,
        WritePhase::Updating(i) => 3 * (n - i) + 1,
        WritePhase::Failed(_) => 0,
    }
}

/// A writing carried out on the table to its end: the phase in which it ends, and the table then.
/// Each statement that is sent acts on the table, and its reply is taken.
pub open spec fn carried_out(writes: WritesModel, table: OffsetsTable) -> (WritePhase, OffsetsTable)
    decreases steps_left(writes),
    when writes.members.len() <= usize::MAX
{
    let n = writes.members.len();
    match writes.phase {
        WritePhase::Ready(i) => if i < n {
            carried_out(WritesModel { phase: after_turn(writes.phase, n), ..writes }, table)
        } else {
            (writes.phase, table)
        },
        WritePhase::Inserting(i) => if i < n {
            let (then, applied) = insert_if_absent(
                table,
                member_key(writes, i as int),
                member_row(writes, i as int),
            );
            carried_out(WritesModel { phase: after_reply(writes.phase, applied), ..writes }, then)
        } else {
            (writes.phase, table)
        },
        WritePhase::Updating(i) => if i < n {
            let (then, applied) = update_if_earlier(
                table,
                member_key(writes, i as int),
                member_row(writes, i as int),
                writes.revision,
            );
            carried_out(WritesModel { phase: after_reply(writes.phase, applied), ..writes }, then)
        } else {
            (writes.phase, table)
        },
        WritePhase::Failed(_) => (writes.phase, table),
    }
}

/// The writing of `offsets` to the members of a stored group, before its first step.
pub open spec fn planned_writes(
    tables: Tables,
    consumer_group_id: ConsumerGroupId,
    producer_id: ProducerId,
    offsets: Map<ShardId, (ShardOffset, Slot)>,
    revision: i64,
) -> WritesModel {
    WritesModel {
        insert: Statement { cql: INSERT_STATIC_GROUP_MEMBER_OFFSETS, serial: false },
        update: Statement { cql: UPDATE_CONSUMER_SHARD_OFFSET_V2, serial: false },
        consumer_group_id,
        producer_id,
        revision,
        members: tables.groups[consumer_group_id].members,
        offsets,
        phase: WritePhase::Ready(0),
    }
}

/// Setting the offsets of the members of a group, and whether it succeeds: refused, or carried out
/// to its end, which takes an offset for each shard of each member that is turned to.
pub open spec fn set_offsets(
    tables: Tables,
    consumer_group_id: ConsumerGroupId,
    producer_id: ProducerId,
    offsets: Map<ShardId, (ShardOffset, Slot)>,
    revision: i64,
) -> (Tables, bool) {
    let group = tables.groups[consumer_group_id];
    if !tables.groups.contains_key(consumer_group_id) || group.revision > revision
        || group.producer_id != Some(producer_id) {
        (tables, false)
    } else {
        let (phase, after) = carried_out(
            planned_writes(tables, consumer_group_id, producer_id, offsets, revision),
            tables.offsets,
        );
        (Tables { offsets: after, ..tables }, phase is Ready)
    }
}

/// Several producer updates of one group, one after the other, each to a producer at a revision:
/// the table after them, and which of them were applied.
pub open spec fn update_producers(
    groups: GroupsTable,
    consumer_group_id: ConsumerGroupId,
    updates: Seq<(ProducerId, i64)>,
) -> (GroupsTable, Seq<bool>)
    decreases updates.len(),
{
    if updates.len() == 0 {
        (groups, Seq::empty())
    } else {
        let (before, applied) = update_producers(groups, consumer_group_id, updates.drop_last());
        let (producer_id, revision) = updates.last();
        let (after, last) = update_group(
            before,
            (producer_id, revision, consumer_group_id, revision),
        );
        (after, applied.push(last))
    }
}

} // verus!
