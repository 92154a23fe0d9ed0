//! Creating a group with fixed members.

use uuid::Uuid;
use vstd::prelude::*;

use crate::assignment::{assign_shards, dealt_shards, ShardAssignments};
use crate::consumer_id::{id_views, ConsumerId};
use crate::types::{
    BlockchainEventType, CommitmentLevel, ConsumerGroupId, ConsumerGroupInfo, ConsumerGroupType,
    IpAddress, ProducerId, SeekLocation, SlotRange, TranslationStrategy,
};

verus! {

/// How many shards the log of a producer has.
pub const NUM_SHARDS: usize = 64;

/// The values of the insert of a group.
pub type GroupValues = (
    ConsumerGroupId,
    ConsumerGroupType,
    ProducerId,
    CommitmentLevel,
    Vec<BlockchainEventType>,
    ShardAssignments,
    Option<IpAddress>,
    i64,
    Option<TranslationStrategy>,
);

/// The bytes are those of a random UUID: version 4 of the variant of RFC 9562.
pub open spec fn is_random_uuid(id: ConsumerGroupId) -> bool {
    &&& 0x40 <= id@[6] <= 0x4f
    &&& 0x80 <= id@[8] <= 0xbf
}

/// A fresh id for a group, by `uuid::Uuid::new_v4`, as bytes by `Uuid::into_bytes`.
///
/// Claimed: the version and variant bits of the UUID, which `new_v4` sets whatever was drawn. Not
/// claimed: anything of the other bits, which are random, nor that two ids differ. `new_v4` panics
/// where the operating system gives no random bytes, which no argument can prevent.
#[verifier::external_body]
pub(crate) fn random_group_id() -> (id: ConsumerGroupId)
    ensures
        is_random_uuid(id),
{
    Uuid::new_v4().into_bytes()
}

/// A group that is about to be created, still without a producer.
#[derive(Debug, PartialEq, Eq)]
pub struct GroupCreation {
    pub consumer_group_id: ConsumerGroupId,
    pub shard_assignments: ShardAssignments,
    pub commitment_level: CommitmentLevel,
    pub subscribed_event_types: Vec<BlockchainEventType>,
    pub initial_offset: SeekLocation,
    pub remote_ip_addr: Option<IpAddress>,
    pub translation_strategy: Option<TranslationStrategy>,
}

/// The slots that the log of a suitable producer has to reach, if the start is given by slots.
pub open spec fn wanted_slots(location: SeekLocation) -> Option<SlotRange> {
    match location {
        SeekLocation::SlotApprox(range) => Some(range),
        _ => None,
    }
}

/// The values insert the group with this producer, as a static group at revision 0.
pub open spec fn inserts_group(
    values: GroupValues,
    creation: GroupCreation,
    producer_id: ProducerId,
) -> bool {
    &&& values.0 == creation.consumer_group_id
    &&& values.1 == ConsumerGroupType::Static
    &&& values.2 == producer_id
    &&& values.3 == creation.commitment_level
    &&& values.4@ == creation.subscribed_event_types@
    &&& values.5@ == creation.shard_assignments@
    &&& values.6 == creation.remote_ip_addr
    &&& values.7 == 0
    &&& values.8 == creation.translation_strategy
}

/// What is known of the group once it is created with this producer.
pub open spec fn describes_group(
    info: ConsumerGroupInfo,
    creation: GroupCreation,
    producer_id: ProducerId,
) -> bool {
    &&& info.consumer_group_id == creation.consumer_group_id
    &&& info.group_type == ConsumerGroupType::Static
    &&& info.producer_id == Some(producer_id)
    &&& info.revision == 0
    &&& info.commitment_level == creation.commitment_level
    &&& info.subscribed_event_types@ == creation.subscribed_event_types@
    &&& info.consumer_id_shard_assignments@ == creation.shard_assignments@
    &&& info.last_access_ip_address == creation.remote_ip_addr
    &&& info.translation_strategy == creation.translation_strategy
}

impl GroupCreation {
    /// A group of these consumers, each with an equal share of the shards, under this id.
    pub fn with_id(
        consumer_group_id: ConsumerGroupId,
        consumer_ids: &[ConsumerId],
        commitment_level: CommitmentLevel,
        subscribed_blockchain_event_types: &[BlockchainEventType],
        initial_offset: SeekLocation,
        remote_ip_addr: Option<IpAddress>,
        translation_strategy: Option<TranslationStrategy>,
    ) -> (r: Self)
        requires
            0 < consumer_ids@.len() <= NUM_SHARDS,
        ensures
            r.consumer_group_id == consumer_group_id,
            r.shard_assignments.wf(),
            r.shard_assignments.as_map() == dealt_shards(
                id_views(consumer_ids@),
                NUM_SHARDS as int,
            ),
            r.commitment_level == commitment_level,
            r.subscribed_event_types@ == subscribed_blockchain_event_types@,
            r.initial_offset == initial_offset,
            r.remote_ip_addr == remote_ip_addr,
            r.translation_strategy == translation_strategy,
    {
        GroupCreation {
            consumer_group_id,
            shard_assignments: assign_shards(consumer_ids, NUM_SHARDS),
            commitment_level,
            subscribed_event_types: copy_event_types(subscribed_blockchain_event_types),
            initial_offset,
            remote_ip_addr,
            translation_strategy,
        }
    }

    /// What a producer is chosen by: the slots that its log has to reach, if the group starts at
    /// given slots, and the commitment level of its events.
    pub fn producer_criteria(&self) -> (r: (Option<SlotRange>, CommitmentLevel))
        ensures
            r.0 == wanted_slots(self.initial_offset),
            r.1 == self.commitment_level,
    {
        let slots = match self.initial_offset {
            SeekLocation::SlotApprox(range) => Some(range),
            _ => None,
        };
        (slots, self.commitment_level)
    }

    /// The values of the insert of the group, once its producer is chosen. The first revision of
    /// a group is 0.
    pub fn insert_values(&self, producer_id: ProducerId) -> (values: GroupValues)
        ensures
            inserts_group(values, *self, producer_id),
    {
        (
            self.consumer_group_id,
            ConsumerGroupType::Static,
            producer_id,
            self.commitment_level,
            copy_event_types(self.subscribed_event_types.as_slice()),
            self.shard_assignments.clone(),
            self.remote_ip_addr,
            0,
            self.translation_strategy,
        )
    }

    /// The group as it is stored by the insert.
    pub fn into_info(self, producer_id: ProducerId) -> (info: ConsumerGroupInfo)
        ensures
            describes_group(info, self, producer_id),
    {
        ConsumerGroupInfo {
            consumer_group_id: self.consumer_group_id,
            group_type: ConsumerGroupType::Static,
            producer_id: Some(producer_id),
            revision: 0,
            commitment_level: self.commitment_level,
            subscribed_event_types: self.subscribed_event_types,
            consumer_id_shard_assignments: self.shard_assignments,
            last_access_ip_address: self.remote_ip_addr,
            translation_strategy: self.translation_strategy,
        }
    }
}

/// What it takes to give the members of a new group their first offsets.
#[derive(Clone, Copy, Debug, PartialEq, Eq)]
pub struct MembersCreation {
    pub consumer_group_id: ConsumerGroupId,
    pub producer_id: ProducerId,
    pub seek_loc: SeekLocation,
    pub revision: i64,
}

/// The same event types, in a vector of their own.
fn copy_event_types(events: &[BlockchainEventType]) -> (r: Vec<BlockchainEventType>)
    ensures
        r@ == events@,
{
    let mut r: Vec<BlockchainEventType> = Vec::new();
    for i in 0..events.len()
        invariant
            r@ == events@.take(i as int),
    {
        r.push(events[i]);
        assert(events@.take(i + 1) =~= events@.take(i as int).push(events@[i as int]));
    }
    assert(events@.take(events@.len() as int) =~= events@);
    r
}

/// A producer is chosen by the slots that the group is to start at, whichever they are, and by none
/// where it starts at an end of the log; and by the commitment level of the group.
pub proof fn producer_is_chosen_by_the_slots_asked_for(
    creation: &GroupCreation,
    r: (Option<SlotRange>, CommitmentLevel),
)
    requires
        call_ensures(GroupCreation::producer_criteria, (creation,), r),
    ensures
        creation.initial_offset == SeekLocation::Earliest ==> r.0 is None,
        creation.initial_offset == SeekLocation::Latest ==> r.0 is None,
        creation.initial_offset is SlotApprox ==> r.0 == Some(
            creation.initial_offset->SlotApprox_0,
        ),
        r.1 == creation.commitment_level,
{
}

/// A group that is about to be created is the one asked for, under the id given.
pub proof fn group_to_create_is_the_one_asked_for(
    consumer_group_id: ConsumerGroupId,
    consumer_ids: &[ConsumerId],
    commitment_level: CommitmentLevel,
    events: &[BlockchainEventType],
    initial_offset: SeekLocation,
    remote_ip_addr: Option<IpAddress>,
    translation_strategy: Option<TranslationStrategy>,
    creation: GroupCreation,
)
    requires
        call_ensures(
            GroupCreation::with_id,
            (
                consumer_group_id,
                consumer_ids,
                commitment_level,
                events,
                initial_offset,
                remote_ip_addr,
                translation_strategy,
            ),
            creation,
        ),
    ensures
        creation.consumer_group_id == consumer_group_id,
        creation.commitment_level == commitment_level,
        creation.subscribed_event_types@ == events@,
        creation.initial_offset == initial_offset,
        creation.remote_ip_addr == remote_ip_addr,
        creation.translation_strategy == translation_strategy,
        forall|id: Seq<char>| #[trigger]
            creation.shard_assignments.as_map().contains_key(id) == exists|i: int|
                0 <= i < consumer_ids@.len() && #[trigger] consumer_ids@[i]@ == id,
{
    let views = id_views(consumer_ids@);
    assert forall|id: Seq<char>| #[trigger]
        creation.shard_assignments.as_map().contains_key(id) == exists|i: int|
            0 <= i < consumer_ids@.len() && #[trigger] consumer_ids@[i]@ == id by {
        if views.contains(id) {
            let i = choose|i: int| 0 <= i < views.len() && views[i] == id;
            assert(consumer_ids@[i]@ == id);
        }
        if exists|i: int| 0 <= i < consumer_ids@.len() && #[trigger] consumer_ids@[i]@ == id {
            let i = choose|i: int|
                0 <= i < consumer_ids@.len() && #[trigger] consumer_ids@[i]@ == id;
            assert(views[i] == id);
        }
    }
}

/// The values of the insert of a group hold what the group was to be created with, and its
/// producer; the group is static and of revision 0.
pub proof fn inserted_values_are_those_asked_for(
    creation: &GroupCreation,
    producer_id: ProducerId,
    values: GroupValues,
)
    requires
        call_ensures(GroupCreation::insert_values, (creation, producer_id), values),
    ensures
        values.0 == creation.consumer_group_id,
        values.1 == ConsumerGroupType::Static,
        values.2 == producer_id,
        values.3 == creation.commitment_level,
        values.4@ == creation.subscribed_event_types@,
        values.5@ == creation.shard_assignments@,
        values.6 == creation.remote_ip_addr,
        values.7 == 0,
        values.8 == creation.translation_strategy,
{
}

/// What is returned of a group holds what the group was to be created with, and its producer; the
/// group is static and of revision 0.
pub proof fn returned_group_is_the_one_asked_for(
    creation: GroupCreation,
    producer_id: ProducerId,
    info: ConsumerGroupInfo,
)
    requires
        call_ensures(GroupCreation::into_info, (creation, producer_id), info),
    ensures
        info.consumer_group_id == creation.consumer_group_id,
        info.group_type == ConsumerGroupType::Static,
        info.producer_id == Some(producer_id),
        info.revision == 0,
        info.commitment_level == creation.commitment_level,
        info.subscribed_event_types@ == creation.subscribed_event_types@,
        info.consumer_id_shard_assignments@ == creation.shard_assignments@,
        info.last_access_ip_address == creation.remote_ip_addr,
        info.translation_strategy == creation.translation_strategy,
{
}

} // verus!
