//! The store: which statement each operation runs, with which values, and what the replies mean.

use vstd::prelude::*;

use crate::assignment::dealt_shards;
use crate::consumer_id::{id_views, ConsumerId};
use crate::creation::{
    inserts_group, is_random_uuid, random_group_id, GroupCreation, GroupValues, MembersCreation,
    NUM_SHARDS,
};
use crate::error::StoreError;
use crate::lowest_slot::{is_behind, is_stale, LowestSlotQuery};
use crate::offset_writes::{OffsetWrites, WritePhase, WritesModel};
use crate::statement::{
    Query, Statement, CREATE_STATIC_CONSUMER_GROUP, GET_ACC_UPDATE_SHARD_OFFSET,
    GET_NEW_TX_SHARD_OFFSET, GET_SHARD_OFFSET_FOR_SPECIFIC_GROUP_MEMBER, GET_STATIC_CONSUMER_GROUP,
    INSERT_STATIC_GROUP_MEMBER_OFFSETS, UPDATE_CONSUMER_SHARD_OFFSET_V2,
    UPDATE_STATIC_CONSUMER_GROUP,
};
use crate::types::{
    BlockchainEventType, CommitmentLevel, ConsumerGroupId, ConsumerGroupInfo, IpAddress, LwtResult,
    ProducerId, SeekLocation, ShardId, ShardOffset, ShardOffsetMap, Slot, TranslationStrategy,
};

verus! {

/// The statements that the store runs.
#[derive(Clone, Copy, Debug, PartialEq, Eq)]
pub struct ScyllaConsumerGroupStore {
    create_static_consumer_group_ps: Statement,
    get_static_consumer_group_ps: Statement,
    update_static_consumer_group_ps: Statement,
    insert_consumer_shard_offset_ps_if_not_exists: Statement,
    update_consumer_shard_offset_ps: Statement,
    get_acc_update_shard_offset_ps: Statement,
    get_new_tx_shard_offset_ps: Statement,
    get_shard_offset_for_specific_group_member_ps: Statement,
}

/// `statement` runs `cql`, at consistency `SERIAL` if `serial`.
pub open spec fn runs(statement: Statement, cql: Seq<char>, serial: bool) -> bool {
    statement.cql@ == cql && statement.serial == serial
}

/// The statements of the store, in the order in which they are prepared.
pub open spec fn are_store_statements(statements: Seq<Statement>) -> bool {
    &&& statements.len() == 8
    &&& runs(statements[0], CREATE_STATIC_CONSUMER_GROUP@, false)
    &&& runs(statements[1], GET_STATIC_CONSUMER_GROUP@, true)
    &&& runs(statements[2], UPDATE_STATIC_CONSUMER_GROUP@, false)
    &&& runs(statements[3], INSERT_STATIC_GROUP_MEMBER_OFFSETS@, false)
    &&& runs(statements[4], UPDATE_CONSUMER_SHARD_OFFSET_V2@, false)
    &&& runs(statements[5], GET_ACC_UPDATE_SHARD_OFFSET@, true)
    &&& runs(statements[6], GET_NEW_TX_SHARD_OFFSET@, true)
    &&& runs(statements[7], GET_SHARD_OFFSET_FOR_SPECIFIC_GROUP_MEMBER@, false)
}

/// Why the members' offsets are not set, if they are not.
pub open spec fn offsets_refusal(
    producer_id: ProducerId,
    current_revision: i64,
    cg_info: Option<ConsumerGroupInfo>,
) -> Option<StoreError> {
    match cg_info {
        None => Some(StoreError::ConsumerGroupDoesNotExist),
        Some(info) => if info.revision > current_revision {
            Some(StoreError::ConsumerGroupMoreUpToDate)
        } else if info.producer_id != Some(producer_id) {
            Some(StoreError::ProducerMismatch)
        } else {
            None
        },
    }
}

/// The writing of `offsets` to `members` at the revision `revision`, before its first step.
pub open spec fn writes_offsets(
    writes: WritesModel,
    consumer_group_id: ConsumerGroupId,
    producer_id: ProducerId,
    offsets: Map<ShardId, (ShardOffset, Slot)>,
    revision: i64,
    members: Seq<(Seq<char>, Seq<ShardId>)>,
) -> bool {
    &&& runs(writes.insert, INSERT_STATIC_GROUP_MEMBER_OFFSETS@, false)
    &&& runs(writes.update, UPDATE_CONSUMER_SHARD_OFFSET_V2@, false)
    &&& writes.consumer_group_id == consumer_group_id
    &&& writes.producer_id == producer_id
    &&& writes.revision == revision
    &&& writes.members == members
    &&& writes.offsets == offsets
    &&& writes.phase == WritePhase::Ready(0)
}

impl View for ScyllaConsumerGroupStore {
    type V = Seq<Statement>;

    closed spec fn view(&self) -> Seq<Statement> {
        seq![
            self.create_static_consumer_group_ps,
            self.get_static_consumer_group_ps,
            self.update_static_consumer_group_ps,
            self.insert_consumer_shard_offset_ps_if_not_exists,
            self.update_consumer_shard_offset_ps,
            self.get_acc_update_shard_offset_ps,
            self.get_new_tx_shard_offset_ps,
            self.get_shard_offset_for_specific_group_member_ps,
        ]
    }
}

impl ScyllaConsumerGroupStore {
    /// What holds of every value of this type.
    #[verifier::type_invariant]
    pub open spec fn wf(&self) -> bool {
        are_store_statements(self@)
    }

    /// The statements, in the order in which they are to be prepared.
    pub fn statements(&self) -> (statements: Vec<Statement>)
        ensures
            statements@ == self@,
            are_store_statements(statements@),
    {
        proof {
            use_type_invariant(self);
        }
        let statements = vec![
            self.create_static_consumer_group_ps,
            self.get_static_consumer_group_ps,
            self.update_static_consumer_group_ps,
            self.insert_consumer_shard_offset_ps_if_not_exists,
            self.update_consumer_shard_offset_ps,
            self.get_acc_update_shard_offset_ps,
            self.get_new_tx_shard_offset_ps,
            self.get_shard_offset_for_specific_group_member_ps,
        ];
        assert(statements@ =~= self@);
        statements
    }

    /// The store, with reads of a group and of the offsets of one member at consistency `SERIAL`.
    pub fn new() -> (r: Self)
        ensures
            are_store_statements(r@),
    {
        ScyllaConsumerGroupStore {
            create_static_consumer_group_ps: Statement {
                cql: CREATE_STATIC_CONSUMER_GROUP,
                serial: false,
            },
            get_static_consumer_group_ps: Statement { cql: GET_STATIC_CONSUMER_GROUP, serial: true },
            update_static_consumer_group_ps: Statement {
                cql: UPDATE_STATIC_CONSUMER_GROUP,
                serial: false,
            },
            insert_consumer_shard_offset_ps_if_not_exists: Statement {
                cql: INSERT_STATIC_GROUP_MEMBER_OFFSETS,
                serial: false,
            },
            update_consumer_shard_offset_ps: Statement {
                cql: UPDATE_CONSUMER_SHARD_OFFSET_V2,
                serial: false,
            },
            get_acc_update_shard_offset_ps: Statement {
                cql: GET_ACC_UPDATE_SHARD_OFFSET,
                serial: true,
            },
            get_new_tx_shard_offset_ps: Statement { cql: GET_NEW_TX_SHARD_OFFSET, serial: true },
            get_shard_offset_for_specific_group_member_ps: Statement {
                cql: GET_SHARD_OFFSET_FOR_SPECIFIC_GROUP_MEMBER,
                serial: false,
            },
        }
    }

    /// Asks how far a member has come in the events of one type.
    pub fn get_shard_offset_map(
        &self,
        consumer_group_id: &ConsumerGroupId,
        consumer_id: &ConsumerId,
        producer_id: &ProducerId,
        blockchain_event_type: BlockchainEventType,
    ) -> (query: Query<(ConsumerGroupId, ConsumerId, ProducerId)>)
        ensures
            runs(
                query.statement,
                match blockchain_event_type {
                    BlockchainEventType::AccountUpdate => GET_ACC_UPDATE_SHARD_OFFSET@,
                    BlockchainEventType::NewTransaction => GET_NEW_TX_SHARD_OFFSET@,
                },
                true,
            ),
            query.values.0 == *consumer_group_id,
            query.values.1@ == consumer_id@,
            query.values.2 == *producer_id,
    {
        proof {
            use_type_invariant(self);
        }
        let statement = match blockchain_event_type {
            BlockchainEventType::AccountUpdate => self.get_acc_update_shard_offset_ps,
            BlockchainEventType::NewTransaction => self.get_new_tx_shard_offset_ps,
        };
        Query { statement, values: (*consumer_group_id, consumer_id.clone(), *producer_id) }
    }

    /// Gives the group another producer, if the stored revision is earlier than `revision`.
    pub fn update_consumer_group_producer(
        &self,
        consumer_group_id: &ConsumerGroupId,
        producer_id: &ProducerId,
        revision: i64,
    ) -> (query: Query<(ProducerId, i64, ConsumerGroupId, i64)>)
        ensures
            runs(query.statement, UPDATE_STATIC_CONSUMER_GROUP@, false),
            query.values == (*producer_id, revision, *consumer_group_id, revision),
    {
        proof {
            use_type_invariant(self);
        }
        Query {
            statement: self.update_static_consumer_group_ps,
            values: (*producer_id, revision, *consumer_group_id, revision),
        }
    }

    /// Judges the reply to `update_consumer_group_producer`.
    pub fn confirm_producer_update(reply: LwtResult) -> (r: Result<(), StoreError>)
        ensures
            reply.0 ==> r == Ok::<(), StoreError>(()),
            !reply.0 ==> r == Err::<(), StoreError>(StoreError::ProducerNotUpdated),
    {
        if reply == LwtResult(true) {
            Ok(())
        } else {
            Err(StoreError::ProducerNotUpdated)
        }
    }

    /// Asks for what is stored of a group.
    pub fn get_consumer_group_info(&self, consumer_group_id: &ConsumerGroupId) -> (query: Query<
        (ConsumerGroupId,),
    >)
        ensures
            runs(query.statement, GET_STATIC_CONSUMER_GROUP@, true),
            query.values.0 == *consumer_group_id,
    {
        proof {
            use_type_invariant(self);
        }
        Query { statement: self.get_static_consumer_group_ps, values: (*consumer_group_id,) }
    }

    /// Asks for the entries of all members of a group, given what is stored of the group. Refused
    /// if nothing is, or if it is of a later revision than the caller asks for.
    pub fn get_lowest_common_slot_number(
        &self,
        consumer_group_id: &ConsumerGroupId,
        consumer_group_info: Option<ConsumerGroupInfo>,
        max_revision_opt: Option<i64>,
    ) -> (r: Result<LowestSlotQuery, StoreError>)
        requires
            consumer_group_info is Some && !is_stale(
                max_revision_opt,
                consumer_group_info->0.revision,
            ) ==> consumer_group_info->0.producer_id is Some,
        ensures
            match consumer_group_info {
                None => r == Err::<LowestSlotQuery, StoreError>(StoreError::ConsumerGroupNotFound),
                Some(info) => if is_stale(max_revision_opt, info.revision) {
                    r == Err::<LowestSlotQuery, StoreError>(
                        StoreError::StaleRevision(max_revision_opt->0),
                    )
                } else {
                    &&& r is Ok
                    &&& runs(
                        r->Ok_0.query.statement,
                        GET_SHARD_OFFSET_FOR_SPECIFIC_GROUP_MEMBER@,
                        false,
                    )
                    &&& r->Ok_0.query.values.0 == *consumer_group_id
                    &&& id_views(r->Ok_0.query.values.1@)
                        == info.consumer_id_shard_assignments@.map_values(
                        |e: (Seq<char>, Seq<ShardId>)| e.0,
                    )
                    &&& info.producer_id == Some(r->Ok_0.query.values.2)
                    &&& r->Ok_0.subscribed_event_types == info.subscribed_event_types
                    &&& r->Ok_0.max_revision == max_revision_opt
                },
            },
    {
        proof {
            use_type_invariant(self);
        }
        let info = match consumer_group_info {
            Some(info) => info,
            None => return Err(StoreError::ConsumerGroupNotFound),
        };
        if is_behind(max_revision_opt, info.revision) {
            return Err(StoreError::StaleRevision(max_revision_opt.unwrap()));
        }
        let producer_id = info.producer_id.unwrap();
        Ok(
            LowestSlotQuery {
                query: Query {
                    statement: self.get_shard_offset_for_specific_group_member_ps,
                    values: (
                        *consumer_group_id,
                        info.consumer_id_shard_assignments.ids(),
                        producer_id,
                    ),
                },
                subscribed_event_types: info.subscribed_event_types,
                max_revision: max_revision_opt,
            },
        )
    }

    /// Sets out to store, for each member of a group, the offsets of its shards, given what is
    /// stored of the group. Refused if nothing is, if the group is of a later revision than
    /// `current_revision`, or if it does not read from the producer `producer_id`.
    pub fn set_static_group_members_shard_offset<'a>(
        &self,
        consumer_group_id: &ConsumerGroupId,
        producer_id: &ProducerId,
        shard_offset_map: &'a ShardOffsetMap,
        current_revision: i64,
        cg_info: Option<ConsumerGroupInfo>,
    ) -> (r: Result<OffsetWrites<'a>, StoreError>)
        ensures
            match offsets_refusal(*producer_id, current_revision, cg_info) {
                Some(e) => r is Err && r->Err_0 == e,
                None => r is Ok && writes_offsets(
                    r->Ok_0@,
                    *consumer_group_id,
                    *producer_id,
                    shard_offset_map@,
                    current_revision,
                    cg_info->0.consumer_id_shard_assignments@,
                ),
            },
    {
        proof {
            use_type_invariant(self);
        }
        let info = match cg_info {
            Some(info) => info,
            None => return Err(StoreError::ConsumerGroupDoesNotExist),
        };
        if info.revision > current_revision {
            return Err(StoreError::ConsumerGroupMoreUpToDate);
        }
        match &info.producer_id {
            Some(stored) => if !same_producer(stored, producer_id) {
                return Err(StoreError::ProducerMismatch);
            },
            None => return Err(StoreError::ProducerMismatch),
        }
        Ok(
            OffsetWrites::new(
                self.insert_consumer_shard_offset_ps_if_not_exists,
                self.update_consumer_shard_offset_ps,
                *consumer_group_id,
                *producer_id,
                current_revision,
                info.consumer_id_shard_assignments,
                shard_offset_map,
            ),
        )
    }

    /// Asks for the first offsets of the members of a new group: those at `seek_loc` in the log of
    /// its producer. They are to be stored at the revision of the group.
    pub fn create_static_group_members(
        &self,
        consumer_group_info: &ConsumerGroupInfo,
        seek_loc: SeekLocation,
    ) -> (r: MembersCreation)
        requires
            consumer_group_info.producer_id is Some,
        ensures
            r.consumer_group_id == consumer_group_info.consumer_group_id,
            Some(r.producer_id) == consumer_group_info.producer_id,
            r.seek_loc == seek_loc,
            r.revision == consumer_group_info.revision,
    {
        MembersCreation {
            consumer_group_id: consumer_group_info.consumer_group_id,
            producer_id: consumer_group_info.producer_id.unwrap(),
            seek_loc,
            revision: consumer_group_info.revision,
        }
    }

    /// Sets out to create a group of these consumers under a fresh id, each with an equal share of
    /// the shards.
    pub fn create_static_consumer_group(
        &self,
        consumer_ids: &[ConsumerId],
        commitment_level: CommitmentLevel,
        subscribed_blockchain_event_types: &[BlockchainEventType],
        initial_offset: SeekLocation,
        remote_ip_addr: Option<IpAddress>,
        translation_strategy: Option<TranslationStrategy>,
    ) -> (r: GroupCreation)
        requires
            0 < consumer_ids@.len() <= NUM_SHARDS,
        ensures
            is_random_uuid(r.consumer_group_id),
            r.shard_assignments.wf(),
            r.shard_assignments.as_map() == dealt_shards(
                id_views(consumer_ids@),
                NUM_SHARDS as int,
            ),
            r.commitment_level == commitment_level,
            r.subscribed_event_types@ == subscribed_blockchain_event_types@,
            r.initial_offset == initial_offset,
            r.remote_ip_addr == remote_ip_addr,
            r.translation_strategy == translation_strategy,
    {
        GroupCreation::with_id(
            random_group_id(),
            consumer_ids,
            commitment_level,
            subscribed_blockchain_event_types,
            initial_offset,
            remote_ip_addr,
            translation_strategy,
        )
    }

    /// Adds a new group, with the producer that was chosen for it.
    pub fn insert_group(&self, creation: &GroupCreation, producer_id: ProducerId) -> (query: Query<
        GroupValues,
    >)
        ensures
            runs(query.statement, CREATE_STATIC_CONSUMER_GROUP@, false),
            inserts_group(query.values, *creation, producer_id),
    {
        proof {
            use_type_invariant(self);
        }
        Query {
            statement: self.create_static_consumer_group_ps,
            values: creation.insert_values(producer_id),
        }
    }
}

/// Whether two ids of producers are the same.
fn same_producer(a: &ProducerId, b: &ProducerId) -> (r: bool)
    ensures
        r == (*a == *b),
{
    for i in 0..16
        invariant
            forall|j: int| 0 <= j < i ==> a@[j] == b@[j],
    {
        if a[i] != b[i] {
            return false;
        }
    }
    assert(*a =~= *b);
    true
}

} // verus!
