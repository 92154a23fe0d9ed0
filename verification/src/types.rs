//! The plain values that a consumer group is made of.

use std::collections::BTreeMap;

use vstd::prelude::*;

use crate::assignment::ShardAssignments;
use crate::consumer_id::ConsumerId;

verus! {

/// A Solana slot number.
pub type Slot = i64;

/// The number of a shard of the log.
pub type ShardId = i16;

/// A position in a shard.
pub type ShardOffset = i64;

/// For each shard, the position reached in it and the slot at that position.
pub type ShardOffsetMap = BTreeMap<ShardId, (ShardOffset, Slot)>;

/// The bytes of the UUID of a consumer group.
pub type ConsumerGroupId = [u8; 16];

/// The bytes of the UUID of a producer.
pub type ProducerId = [u8; 16];

/// What a consumer can be told of.
#[derive(Clone, Copy, Debug, PartialEq, Eq, Structural)]
pub enum BlockchainEventType {
    AccountUpdate,
    NewTransaction,
}

/// How settled a block is before its events are logged.
#[derive(Clone, Copy, Debug, PartialEq, Eq, Structural)]
pub enum CommitmentLevel {
    Processed,
    Confirmed,
    Finalized,
}

/// How the members of a consumer group are chosen.
#[derive(Clone, Copy, Debug, PartialEq, Eq, Structural)]
pub enum ConsumerGroupType {
    Static,
}

/// How a group moves to the timeline of another producer.
#[derive(Clone, Copy, Debug, PartialEq, Eq, Structural)]
pub enum TranslationStrategy {
    AllowLag,
    StrictSlot,
}

/// An IP address, by its bytes in network order.
#[derive(Clone, Copy, Debug, PartialEq, Eq)]
pub enum IpAddress {
    V4([u8; 4]),
    V6([u8; 16]),
}

/// The slots from `first` to `last`, both included.
#[derive(Clone, Copy, Debug, PartialEq, Eq, Structural)]
pub struct SlotRange {
    pub first: Slot,
    pub last: Slot,
}

/// Where in the log a new group starts.
#[derive(Clone, Copy, Debug, PartialEq, Eq, Structural)]
pub enum SeekLocation {
    Earliest,
    Latest,
    SlotApprox(SlotRange),
}

/// What the store holds of a consumer group.
#[derive(Debug, PartialEq, Eq)]
pub struct ConsumerGroupInfo {
    pub consumer_group_id: ConsumerGroupId,
    pub group_type: ConsumerGroupType,
    pub producer_id: Option<ProducerId>,
    pub revision: i64,
    pub commitment_level: CommitmentLevel,
    pub subscribed_event_types: Vec<BlockchainEventType>,
    pub consumer_id_shard_assignments: ShardAssignments,
    pub last_access_ip_address: Option<IpAddress>,
    pub translation_strategy: Option<TranslationStrategy>,
}

/// What is stored of the progress of one member: its id, the revision of the entry, and how far
/// it has come in account updates and in transactions.
pub type MemberOffsets = (ConsumerId, i64, ShardOffsetMap, ShardOffsetMap);

/// Whether a conditional write was applied.
#[derive(Clone, Copy, Debug, PartialEq, Eq, Structural)]
pub struct LwtResult(pub bool);

} // verus!
