//! Setting the offsets of the members of a group, one member after the other.

use vstd::prelude::*;

use crate::assignment::ShardAssignments;
use crate::consumer_id::ConsumerId;
use crate::error::StoreError;
use crate::statement::{Query, Statement};
use crate::types::{
    ConsumerGroupId, LwtResult, ProducerId, ShardId, ShardOffset, ShardOffsetMap, Slot,
};

verus! {

/// The values of a conditional insert of the offsets of a member.
pub type InsertValues = (
    ConsumerGroupId,
    ConsumerId,
    ProducerId,
    ShardOffsetMap,
    ShardOffsetMap,
    i64,
);

/// The values of a conditional update of the offsets of a member.
pub type UpdateValues = (
    ShardOffsetMap,
    ShardOffsetMap,
    i64,
    ConsumerGroupId,
    ConsumerId,
    ProducerId,
    i64,
);

/// How far the writing has come, by the place of a member in the list of members.
#[derive(Clone, Copy, Debug, PartialEq, Eq, Structural)]
pub enum WritePhase {
    /// All members before this one are written.
    Ready(usize),
    /// The insert for this member was sent.
    Inserting(usize),
    /// The member has an entry, and the update of it was sent.
    Updating(usize),
    /// The entry of this member was not updated.
    Failed(usize),
}

/// There is an offset for each of the shards.
pub open spec fn covers(
    offsets: Map<ShardId, (ShardOffset, Slot)>,
    shards: Seq<ShardId>,
) -> bool {
    forall|i: int| 0 <= i < shards.len() ==> offsets.contains_key(#[trigger] shards[i])
}

/// The offsets of these shards alone.
pub open spec fn offsets_of(
    offsets: Map<ShardId, (ShardOffset, Slot)>,
    shards: Seq<ShardId>,
) -> Map<ShardId, (ShardOffset, Slot)> {
    offsets.restrict(shards.to_set())
}

/// Whether there is an offset for each of the shards.
pub fn has_offsets(offsets: &ShardOffsetMap, shards: &Vec<ShardId>) -> (r: bool)
    ensures
        r == covers(offsets@, shards@),
{
    for i in 0..shards.len()
        invariant
            forall|j: int| 0 <= j < i ==> offsets@.contains_key(#[trigger] shards@[j]),
    {
        if !offsets.contains_key(&shards[i]) {
            return false;
        }
    }
    true
}

/// The offsets of these shards alone.
pub fn member_shard_offsets(offsets: &ShardOffsetMap, shards: &Vec<ShardId>) -> (r: ShardOffsetMap)
    requires
        covers(offsets@, shards@),
    ensures
        r@ == offsets_of(offsets@, shards@),
{
    let mut r = ShardOffsetMap::new();
    assert(r@ =~= offsets_of(offsets@, shards@.take(0)));
    for i in 0..shards.len()
        invariant
            covers(offsets@, shards@),
            r@ == offsets_of(offsets@, shards@.take(i as int)),
    {
        assert(offsets@.contains_key(shards@[i as int]));
        let at = *offsets.get(&shards[i]).unwrap();
        r.insert(shards[i], at);
        assert(shards@.take(i + 1) =~= shards@.take(i as int).push(shards@[i as int]));
        assert(shards@.take(i + 1).to_set() =~= shards@.take(i as int).to_set().insert(
            shards@[i as int],
        )) by {
            broadcast use vstd::seq_lib::group_seq_properties;

        }
        assert(r@ =~= offsets_of(offsets@, shards@.take(i + 1)));
    }
    assert(shards@.take(shards@.len() as int) =~= shards@);
    r
}

/// The phase after the next member, if one is left, is turned to.
pub open spec fn after_turn(phase: WritePhase, members: nat) -> WritePhase {
    match phase {
        WritePhase::Ready(i) if i < members => WritePhase::Inserting(i),
        _ => phase,
    }
}

/// The phase after the reply to the statement that was sent.
pub open spec fn after_reply(phase: WritePhase, applied: bool) -> WritePhase {
    match phase {
        WritePhase::Inserting(i) => if applied {
            WritePhase::Ready((i + 1) as usize)
        } else {
            WritePhase::Updating(i)
        },
        WritePhase::Updating(i) => if applied {
            WritePhase::Ready((i + 1) as usize)
        } else {
            WritePhase::Failed(i)
        },
        _ => phase,
    }
}

/// What is to be written, and how far the writing has come.
pub struct WritesModel {
    pub insert: Statement,
    pub update: Statement,
    pub consumer_group_id: ConsumerGroupId,
    pub producer_id: ProducerId,
    pub revision: i64,
    pub members: Seq<(Seq<char>, Seq<ShardId>)>,
    pub offsets: Map<ShardId, (ShardOffset, Slot)>,
    pub phase: WritePhase,
}

impl WritesModel {
    /// The offsets to store for a member: those of its shards.
    pub open spec fn member_offsets(self, i: int) -> Map<ShardId, (ShardOffset, Slot)> {
        offsets_of(self.offsets, self.members[i].1)
    }

    /// There is an offset for each shard of the member.
    pub open spec fn covers_member(self, i: int) -> bool {
        covers(self.offsets, self.members[i].1)
    }

    /// The insert of the offsets of a member, for account updates and for transactions alike.
    pub open spec fn is_insert(self, i: int, query: Query<InsertValues>) -> bool {
        &&& query.statement == self.insert
        &&& query.values.0 == self.consumer_group_id
        &&& query.values.1@ == self.members[i].0
        &&& query.values.2 == self.producer_id
        &&& query.values.3@ == self.member_offsets(i)
        &&& query.values.4@ == self.member_offsets(i)
        &&& query.values.5 == self.revision
    }

    /// The update of the offsets of a member, for account updates and for transactions alike,
    /// provided that its entry is of an earlier revision than the one written.
    pub open spec fn is_update(self, i: int, query: Query<UpdateValues>) -> bool {
        &&& query.statement == self.update
        &&& query.values.0@ == self.member_offsets(i)
        &&& query.values.1@ == self.member_offsets(i)
        &&& query.values.2 == self.revision
        &&& query.values.3 == self.consumer_group_id
        &&& query.values.4@ == self.members[i].0
        &&& query.values.5 == self.producer_id
        &&& query.values.6 == self.revision
    }
}

/// The writing of the offsets of the members of a group.
pub struct OffsetWrites<'a> {
    insert: Statement,
    update: Statement,
    consumer_group_id: ConsumerGroupId,
    producer_id: ProducerId,
    revision: i64,
    members: ShardAssignments,
    offsets: &'a ShardOffsetMap,
    phase: WritePhase,
}

impl<'a> View for OffsetWrites<'a> {
    type V = WritesModel;

    closed spec fn view(&self) -> WritesModel {
        WritesModel {
            insert: self.insert,
            update: self.update,
            consumer_group_id: self.consumer_group_id,
            producer_id: self.producer_id,
            revision: self.revision,
            members: self.members@,
            offsets: self.offsets@,
            phase: self.phase,
        }
    }
}

impl<'a> OffsetWrites<'a> {
    /// What holds of every value of this type: the phase is about a member, and a statement is
    /// sent only for a member with an offset for each of its shards.
    #[verifier::type_invariant]
    pub open spec fn wf(&self) -> bool {
        match self@.phase {
            WritePhase::Ready(i) => i <= self@.members.len(),
            WritePhase::Inserting(i) | WritePhase::Updating(i) => i < self@.members.len()
                && self@.covers_member(i as int),
            WritePhase::Failed(i) => i < self@.members.len(),
        }
    }

    /// Nothing written yet.
    pub(crate) fn new(
        insert: Statement,
        update: Statement,
        consumer_group_id: ConsumerGroupId,
        producer_id: ProducerId,
        revision: i64,
        members: ShardAssignments,
        offsets: &'a ShardOffsetMap,
    ) -> (r: Self)
        ensures
            r@ == (WritesModel {
                insert,
                update,
                consumer_group_id,
                producer_id,
                revision,
                members: members@,
                offsets: offsets@,
                phase: WritePhase::Ready(0),
            }),
    {
        OffsetWrites {
            insert,
            update,
            consumer_group_id,
            producer_id,
            revision,
            members,
            offsets,
            phase: WritePhase::Ready(0),
        }
    }

    /// Whether no member is left, or there is an offset for each shard of the next one.
    pub fn next_is_covered(&self) -> (r: bool)
        requires
            self@.phase is Ready,
        ensures
            r == (self@.phase->Ready_0 < self@.members.len() ==> self@.covers_member(
                self@.phase->Ready_0 as int,
            )),
    {
        match self.phase {
            WritePhase::Ready(i) => if i < self.members.len() {
                has_offsets(self.offsets, self.members.shards_at(i))
            } else {
                true
            },
            _ => true,
        }
    }

    /// Turns to the next member: gives the insert to send, or nothing if all members are written.
    pub fn write_next(&mut self) -> (query: Option<Query<InsertValues>>)
        requires
            old(self)@.phase is Ready,
            old(self)@.phase->Ready_0 < old(self)@.members.len() ==> old(self)@.covers_member(
                old(self)@.phase->Ready_0 as int,
            ),
        ensures
            final(self)@ == (WritesModel {
                phase: after_turn(old(self)@.phase, old(self)@.members.len()),
                ..old(self)@
            }),
            query is Some <==> old(self)@.phase->Ready_0 < old(self)@.members.len(),
            query is Some ==> old(self)@.is_insert(old(self)@.phase->Ready_0 as int, query->0),
    {
        proof {
            use_type_invariant(&*self);
        }
        let i = match self.phase {
            WritePhase::Ready(i) => i,
            _ => return None,
        };
        if i >= self.members.len() {
            return None;
        }
        self.phase = WritePhase::Inserting(i);
        let shards = self.members.shards_at(i);
        Some(
            Query {
                statement: self.insert,
                values: (
                    self.consumer_group_id,
                    self.members.id_at(i).clone(),
                    self.producer_id,
                    member_shard_offsets(self.offsets, shards),
                    member_shard_offsets(self.offsets, shards),
                    self.revision,
                ),
            },
        )
    }

    /// Takes the reply to the statement that was sent. An insert that was not applied is followed
    /// by the update given back; an update that was not applied ends the writing.
    pub fn take_reply(&mut self, reply: LwtResult) -> (r: Result<
        Option<Query<UpdateValues>>,
        StoreError,
    >)
        requires
            old(self)@.phase is Inserting || old(self)@.phase is Updating,
        ensures
            final(self)@ == (WritesModel {
                phase: after_reply(old(self)@.phase, reply.0),
                ..old(self)@
            }),
            match old(self)@.phase {
                WritePhase::Inserting(i) => if reply.0 {
                    r == Ok::<Option<Query<UpdateValues>>, StoreError>(None)
                } else {
                    r is Ok && r->Ok_0 is Some && old(self)@.is_update(i as int, r->Ok_0->0)
                },
                WritePhase::Updating(i) => if reply.0 {
                    r == Ok::<Option<Query<UpdateValues>>, StoreError>(None)
                } else {
                    &&& r is Err
                    &&& r->Err_0 is ShardOffsetNotUpdated
                    &&& r->Err_0->ShardOffsetNotUpdated_0@ == old(self)@.members[i as int].0
                },
                _ => false,
            },
    {
        proof {
            use_type_invariant(&*self);
        }
        let count: usize = self.members.len();
        assert(self@.members.len() == count);
        match self.phase {
            WritePhase::Inserting(i) => {
                if reply.0 {
                    self.phase = WritePhase::Ready(i + 1);
                    return Ok(None);
                }
                self.phase = WritePhase::Updating(i);
                let shards = self.members.shards_at(i);
                Ok(
                    Some(
                        Query {
                            statement: self.update,
                            values: (
                                member_shard_offsets(self.offsets, shards),
                                member_shard_offsets(self.offsets, shards),
                                self.revision,
                                self.consumer_group_id,
                                self.members.id_at(i).clone(),
                                self.producer_id,
                                self.revision,
                            ),
                        },
                    ),
                )
            },
            WritePhase::Updating(i) => {
                if reply.0 {
                    self.phase = WritePhase::Ready(i + 1);
                    return Ok(None);
                }
                self.phase = WritePhase::Failed(i);
                Err(StoreError::ShardOffsetNotUpdated(self.members.id_at(i).clone()))
            },
            _ => Ok(None),
        }
    }
}

} // verus!
