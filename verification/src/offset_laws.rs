//! What holds of every setting of the members' offsets.

use vstd::prelude::*;

use crate::assignment::{
    ascending_ids, count_up_to, dealt_shards, entries_map, lemma_chunk_fits,
    lemma_count_up_to_bounds, lemma_entry_in_map, shard_chunk,
};
use crate::creation::{describes_group, inserts_group, GroupCreation, GroupValues, NUM_SHARDS};
use crate::error::StoreError;
use crate::offset_writes::{
    after_reply, after_turn, covers, has_offsets, member_shard_offsets, InsertValues, OffsetWrites,
    UpdateValues, WritePhase, WritesModel,
};
use crate::statement::{
    Query, INSERT_STATIC_GROUP_MEMBER_OFFSETS, UPDATE_CONSUMER_SHARD_OFFSET_V2,
};
use crate::store::{offsets_refusal, ScyllaConsumerGroupStore};
use crate::types::{
    ConsumerGroupId, ConsumerGroupInfo, LwtResult, ProducerId, ShardId, ShardOffset,
    ShardOffsetMap, Slot,
};

verus! {

/// The place of the member that the phase is about.
pub open spec fn place(phase: WritePhase) -> int {
    match phase {
        WritePhase::Ready(i) => i as int,
        WritePhase::Inserting(i) => i as int,
        WritePhase::Updating(i) => i as int,
        WritePhase::Failed(i) => i as int,
    }
}

/// A statement was sent and its reply is awaited.
pub open spec fn awaits_reply(phase: WritePhase) -> bool {
    phase is Inserting || phase is Updating
}

/// The phase that a writing to `members` members is in once `replies` have been taken, turning to
/// the next member whenever one is written, and the members whose write was applied, in order.
pub open spec fn course(members: nat, replies: Seq<bool>) -> (WritePhase, Seq<int>)
    decreases replies.len(),
{
    if replies.len() == 0 {
        (after_turn(WritePhase::Ready(0), members), Seq::empty())
    } else {
        let (phase, written) = course(members, replies.drop_last());
        if awaits_reply(phase) {
            (
                after_turn(after_reply(phase, replies.last()), members),
                if replies.last() {
                    written.push(place(phase))
                } else {
                    written
                },
            )
        } else {
            (phase, written)
        }
    }
}

/// The members are written one after the other, each once: at any time, those before the place
/// that the writing has come to have been written, in their order, and no other has.
pub proof fn members_are_written_in_order(members: nat, replies: Seq<bool>)
    requires
        members <= usize::MAX,
    ensures
        0 <= place(course(members, replies).0) <= members,
        course(members, replies).1 == Seq::new(
            place(course(members, replies).0) as nat,
            |i: int| i,
        ),
        !(course(members, replies).0 is Ready) ==> place(course(members, replies).0) < members,
        course(members, replies).0 is Ready ==> place(course(members, replies).0) == members,
    decreases replies.len(),
{
    if replies.len() > 0 {
        members_are_written_in_order(members, replies.drop_last());
    }
    assert(course(members, replies).1 =~= Seq::new(
        place(course(members, replies).0) as nat,
        |i: int| i,
    ));
}

/// A writing that has come to its end has written every member.
pub proof fn finished_writing_has_written_every_member(members: nat, replies: Seq<bool>)
    requires
        members <= usize::MAX,
        course(members, replies).0 is Ready,
    ensures
        course(members, replies).1 == Seq::new(members, |i: int| i),
{
    members_are_written_in_order(members, replies);
}

/// A refused update is the end: the member it was for and those after it stay unwritten, whatever
/// replies are taken after it.
pub proof fn refused_update_ends_the_writing(members: nat, replies: Seq<bool>, more: Seq<bool>)
    requires
        course(members, replies).0 is Failed,
    ensures
        course(members, replies + more) == course(members, replies),
    decreases more.len(),
{
    if more.len() == 0 {
        assert(replies + more =~= replies);
    } else {
        refused_update_ends_the_writing(members, replies, more.drop_last());
        assert((replies + more).drop_last() =~= replies + more.drop_last());
    }
}

/// A writing fails at a member only if its insert and then its update were not applied.
pub proof fn only_a_refused_insert_and_update_fail(members: nat, replies: Seq<bool>) -> (k: int)
    requires
        course(members, replies).0 is Failed,
    ensures
        0 <= k <= replies.len() - 2,
        course(members, replies.take(k)).0 == WritePhase::Inserting(
            course(members, replies).0->Failed_0,
        ),
        !replies[k],
        !replies[k + 1],
    decreases replies.len(),
{
    let before = replies.drop_last();
    if course(members, before).0 is Failed {
        let k = only_a_refused_insert_and_update_fail(members, before);
        assert(before.take(k) =~= replies.take(k));
        k
    } else {
        let k = replies.len() - 2;
        assert(before.len() > 0);
        assert(before.drop_last() =~= replies.take(k));
        assert(before.last() == replies[k]);
        k
    }
}

/// A member that has no entry yet costs one statement: with every insert applied, as many replies
/// as there are members end the writing.
pub proof fn fresh_members_take_one_statement_each(members: nat, replies: Seq<bool>)
    requires
        members <= usize::MAX,
        replies.len() <= members,
        forall|i: int| 0 <= i < replies.len() ==> replies[i],
    ensures
        course(members, replies).0 == if replies.len() < members {
            WritePhase::Inserting(replies.len() as usize)
        } else {
            WritePhase::Ready(members as usize)
        },
    decreases replies.len(),
{
    if replies.len() > 0 {
        fresh_members_take_one_statement_each(members, replies.drop_last());
    }
}

/// Replies that are still awaited come to an end: no writing takes more than two per member.
pub proof fn writing_takes_at_most_two_replies_per_member(members: nat, replies: Seq<bool>)
    requires
        members <= usize::MAX,
        awaits_reply(course(members, replies).0),
    ensures
        replies.len() < 2 * members,
{
    lemma_replies_bound(members, replies);
    members_are_written_in_order(members, replies);
}

proof fn lemma_replies_bound(members: nat, replies: Seq<bool>)
    requires
        members <= usize::MAX,
        awaits_reply(course(members, replies).0),
    ensures
        replies.len() <= 2 * place(course(members, replies).0) + if course(
            members,
            replies,
        ).0 is Updating {
            1int
        } else {
            0int
        },
    decreases replies.len(),
{
    if replies.len() > 0 {
        let before = replies.drop_last();
        members_are_written_in_order(members, before);
        lemma_replies_bound(members, before);
    }
}

/// What is returned of a new group is what is stored of it.
pub proof fn created_group_is_the_stored_one(
    values: GroupValues,
    info: ConsumerGroupInfo,
    creation: GroupCreation,
    producer_id: ProducerId,
)
    requires
        inserts_group(values, creation, producer_id),
        describes_group(info, creation, producer_id),
    ensures
        values.0 == info.consumer_group_id,
        values.1 == info.group_type,
        Some(values.2) == info.producer_id,
        values.3 == info.commitment_level,
        values.4@ == info.subscribed_event_types@,
        values.5@ == info.consumer_id_shard_assignments@,
        values.6 == info.last_access_ip_address,
        values.7 == info.revision,
        values.8 == info.translation_strategy,
{
}

/// The first offsets of a new group, read back as it was stored, are never refused.
pub proof fn new_group_accepts_its_first_offsets(
    info: ConsumerGroupInfo,
    creation: GroupCreation,
    producer_id: ProducerId,
)
    requires
        describes_group(info, creation, producer_id),
    ensures
        offsets_refusal(producer_id, info.revision, Some(info)) is None,
{
}

/// The members of a new group have shards of the log alone: where there is an offset for every
/// shard of the log, there is one for every shard of every member.
pub proof fn offsets_of_the_log_cover_a_new_group(
    ids: Seq<Seq<char>>,
    members: Seq<(Seq<char>, Seq<ShardId>)>,
    offsets: Map<ShardId, (ShardOffset, Slot)>,
    i: int,
)
    requires
        0 < ids.len() <= NUM_SHARDS,
        ascending_ids(members),
        entries_map(members) == dealt_shards(ids, NUM_SHARDS as int),
        forall|shard: ShardId| 0 <= shard < NUM_SHARDS ==> #[trigger] offsets.contains_key(shard),
        0 <= i < members.len(),
    ensures
        covers(offsets, members[i].1),
{
    let id = members[i].0;
    let shards = members[i].1;
    lemma_entry_in_map(members, i);
    lemma_count_up_to_bounds(ids, id);
    let chunk = count_up_to(ids, id) - 1;
    let size = NUM_SHARDS as int / ids.len() as int;
    lemma_chunk_fits(chunk, ids.len() as int, NUM_SHARDS as int);
    assert(shards == shard_chunk(chunk, size));
    assert forall|j: int| 0 <= j < shards.len() implies offsets.contains_key(#[trigger] shards[j]) by {
        let shard = shards[j];
        assert(0 <= chunk * size + j < NUM_SHARDS);
        assert(shard == chunk * size + j);
    }
}

/// There is an offset for each of the shards exactly where none of them lacks one.
pub proof fn offsets_cover_shards_that_all_have_one(
    offsets: &ShardOffsetMap,
    shards: &Vec<ShardId>,
    r: bool,
)
    requires
        call_ensures(has_offsets, (offsets, shards), r),
    ensures
        r == !exists|i: int| 0 <= i < shards@.len() && !offsets@.contains_key(#[trigger] shards@[i]),
{
}

/// The map of a member holds its shards and no other, each with the very pair given for it, offset
/// and slot alike.
pub proof fn member_map_holds_the_pairs_given(
    offsets: &ShardOffsetMap,
    shards: &Vec<ShardId>,
    r: ShardOffsetMap,
    shard: ShardId,
)
    requires
        forall|i: int| 0 <= i < shards@.len() ==> offsets@.contains_key(#[trigger] shards@[i]),
        call_ensures(member_shard_offsets, (offsets, shards), r),
    ensures
        r@.contains_key(shard) == shards@.contains(shard),
        shards@.contains(shard) ==> r@[shard] == offsets@[shard],
{
}

/// Setting offsets is refused where nothing is stored of the group, where the group is of a later
/// revision, and where it does not read from the producer named, and in no other case. Where it is
/// not refused, the writing is the one asked for, for the members stored, from the first one on.
pub proof fn setting_is_refused_or_begun_as_asked(
    store: &ScyllaConsumerGroupStore,
    consumer_group_id: &ConsumerGroupId,
    producer_id: &ProducerId,
    offsets: &ShardOffsetMap,
    revision: i64,
    info: Option<ConsumerGroupInfo>,
    r: Result<OffsetWrites, StoreError>,
)
    requires
        call_ensures(
            ScyllaConsumerGroupStore::set_static_group_members_shard_offset,
            (store, consumer_group_id, producer_id, offsets, revision, info),
            r,
        ),
    ensures
        info is None ==> r is Err && r->Err_0 == StoreError::ConsumerGroupDoesNotExist,
        info is Some && revision < info->0.revision ==> r is Err && r->Err_0
            == StoreError::ConsumerGroupMoreUpToDate,
        info is Some && revision >= info->0.revision && info->0.producer_id != Some(*producer_id)
            ==> r is Err && r->Err_0 == StoreError::ProducerMismatch,
        info is Some && revision >= info->0.revision && info->0.producer_id == Some(*producer_id)
            ==> {
            &&& r is Ok
            &&& r->Ok_0@.insert.cql@ == INSERT_STATIC_GROUP_MEMBER_OFFSETS@
            &&& r->Ok_0@.update.cql@ == UPDATE_CONSUMER_SHARD_OFFSET_V2@
            &&& !r->Ok_0@.insert.serial && !r->Ok_0@.update.serial
            &&& r->Ok_0@.consumer_group_id == *consumer_group_id
            &&& r->Ok_0@.producer_id == *producer_id
            &&& r->Ok_0@.revision == revision
            &&& r->Ok_0@.members == info->0.consumer_id_shard_assignments@
            &&& r->Ok_0@.offsets == offsets@
            &&& r->Ok_0@.phase == WritePhase::Ready(0)
        },
{
}

/// The next member is covered exactly where none of its shards lacks an offset. Where no member is
/// left there is nothing to lack.
pub proof fn next_member_is_covered_if_no_shard_lacks_an_offset(writes: &OffsetWrites, r: bool)
    requires
        writes@.phase is Ready,
        call_ensures(OffsetWrites::next_is_covered, (writes,), r),
    ensures
        writes@.phase->Ready_0 >= writes@.members.len() ==> r,
        writes@.phase->Ready_0 < writes@.members.len() ==> r == !exists|j: int|
            0 <= j < writes@.members[writes@.phase->Ready_0 as int].1.len()
                && !writes@.offsets.contains_key(
                #[trigger] writes@.members[writes@.phase->Ready_0 as int].1[j],
            ),
{
}

/// Turning to the next member sends the insert of exactly its shards, each with the pair given for
/// it, in both maps, at the revision of the writing. The writing then waits for the reply. Where no
/// member is left, nothing is sent and nothing changes.
pub proof fn insert_holds_the_pairs_given(
    writes: &mut OffsetWrites,
    query: Option<Query<InsertValues>>,
    i: usize,
    shard: ShardId,
)
    requires
        old(writes)@.phase == WritePhase::Ready(i),
        i < old(writes)@.members.len() ==> forall|j: int|
            0 <= j < old(writes)@.members[i as int].1.len() ==> old(writes)@.offsets.contains_key(
                #[trigger] old(writes)@.members[i as int].1[j],
            ),
        call_ensures(OffsetWrites::write_next, (writes,), query),
    ensures
        i >= old(writes)@.members.len() ==> query is None && final(writes)@ == old(writes)@,
        i < old(writes)@.members.len() ==> {
            let (id, shards) = old(writes)@.members[i as int];
            &&& query is Some
            &&& query->0.statement == old(writes)@.insert
            &&& query->0.values.0 == old(writes)@.consumer_group_id
            &&& query->0.values.1@ == id
            &&& query->0.values.2 == old(writes)@.producer_id
            &&& query->0.values.3@.contains_key(shard) == shards.contains(shard)
            &&& shards.contains(shard) ==> query->0.values.3@[shard] == old(writes)@.offsets[shard]
            &&& query->0.values.4@.contains_key(shard) == shards.contains(shard)
            &&& shards.contains(shard) ==> query->0.values.4@[shard] == old(writes)@.offsets[shard]
            &&& query->0.values.5 == old(writes)@.revision
            &&& final(writes)@.phase == WritePhase::Inserting(i)
        },
        final(writes)@ == (WritesModel { phase: final(writes)@.phase, ..old(writes)@ }),
{
}

/// A reply that the write was applied ends the turn of the member, and the next one is due.
pub proof fn applied_write_ends_the_turn(
    writes: &mut OffsetWrites,
    r: Result<Option<Query<UpdateValues>>, StoreError>,
    i: usize,
)
    requires
        old(writes)@.phase == WritePhase::Inserting(i) || old(writes)@.phase
            == WritePhase::Updating(i),
        i < usize::MAX,
        call_ensures(OffsetWrites::take_reply, (writes, LwtResult(true)), r),
    ensures
        r is Ok,
        r->Ok_0 is None,
        final(writes)@.phase is Ready,
        final(writes)@.phase->Ready_0 == i + 1,
        final(writes)@ == (WritesModel { phase: final(writes)@.phase, ..old(writes)@ }),
{
}

/// An insert that was not applied is followed by the update of the same member: exactly its
/// shards, each with the pair given for it, in both maps, at the revision of the writing, and
/// conditional on that same revision.
pub proof fn update_holds_the_pairs_given(
    writes: &mut OffsetWrites,
    r: Result<Option<Query<UpdateValues>>, StoreError>,
    i: usize,
    shard: ShardId,
)
    requires
        old(writes)@.phase == WritePhase::Inserting(i),
        forall|j: int|
            0 <= j < old(writes)@.members[i as int].1.len() ==> old(writes)@.offsets.contains_key(
                #[trigger] old(writes)@.members[i as int].1[j],
            ),
        call_ensures(OffsetWrites::take_reply, (writes, LwtResult(false)), r),
    ensures
        ({
            let (id, shards) = old(writes)@.members[i as int];
            let query = r->Ok_0->0;
            &&& r is Ok
            &&& r->Ok_0 is Some
            &&& query.statement == old(writes)@.update
            &&& query.values.0@.contains_key(shard) == shards.contains(shard)
            &&& shards.contains(shard) ==> query.values.0@[shard] == old(writes)@.offsets[shard]
            &&& query.values.1@.contains_key(shard) == shards.contains(shard)
            &&& shards.contains(shard) ==> query.values.1@[shard] == old(writes)@.offsets[shard]
            &&& query.values.2 == old(writes)@.revision
            &&& query.values.3 == old(writes)@.consumer_group_id
            &&& query.values.4@ == id
            &&& query.values.5 == old(writes)@.producer_id
            &&& query.values.6 == old(writes)@.revision
        }),
        final(writes)@ == (WritesModel { phase: WritePhase::Updating(i), ..old(writes)@ }),
{
}

/// An update that was not applied fails the writing, and the refusal names the member.
pub proof fn refused_update_names_the_member(
    writes: &mut OffsetWrites,
    r: Result<Option<Query<UpdateValues>>, StoreError>,
    i: usize,
)
    requires
        old(writes)@.phase == WritePhase::Updating(i),
        call_ensures(OffsetWrites::take_reply, (writes, LwtResult(false)), r),
    ensures
        r is Err,
        r->Err_0 is ShardOffsetNotUpdated,
        r->Err_0->ShardOffsetNotUpdated_0@ == old(writes)@.members[i as int].0,
        final(writes)@ == (WritesModel { phase: WritePhase::Failed(i), ..old(writes)@ }),
{
}

/// From the offsets given to the insert that is sent: for each member stored, the insert holds, at
/// each of its shards, the pair given for that shard, and no other shard.
pub proof fn offsets_given_are_the_ones_inserted(
    store: &ScyllaConsumerGroupStore,
    consumer_group_id: &ConsumerGroupId,
    producer_id: &ProducerId,
    offsets: &ShardOffsetMap,
    revision: i64,
    info: ConsumerGroupInfo,
    begun: OffsetWrites,
    writes: &mut OffsetWrites,
    query: Option<Query<InsertValues>>,
    i: usize,
    shard: ShardId,
)
    requires
        call_ensures(
            ScyllaConsumerGroupStore::set_static_group_members_shard_offset,
            (store, consumer_group_id, producer_id, offsets, revision, Some(info)),
            Ok::<OffsetWrites, StoreError>(begun),
        ),
        old(writes)@ == (WritesModel { phase: WritePhase::Ready(i), ..begun@ }),
        i < info.consumer_id_shard_assignments@.len(),
        forall|j: int|
            0 <= j < info.consumer_id_shard_assignments@[i as int].1.len()
                ==> offsets@.contains_key(
                #[trigger] info.consumer_id_shard_assignments@[i as int].1[j],
            ),
        call_ensures(OffsetWrites::write_next, (writes,), query),
    ensures
        ({
            let (id, shards) = info.consumer_id_shard_assignments@[i as int];
            &&& query is Some
            &&& query->0.statement.cql@ == INSERT_STATIC_GROUP_MEMBER_OFFSETS@
            &&& query->0.values.0 == *consumer_group_id
            &&& query->0.values.1@ == id
            &&& query->0.values.2 == *producer_id
            &&& query->0.values.3@.contains_key(shard) == shards.contains(shard)
            &&& shards.contains(shard) ==> query->0.values.3@[shard] == offsets@[shard]
            &&& query->0.values.4@.contains_key(shard) == shards.contains(shard)
            &&& shards.contains(shard) ==> query->0.values.4@[shard] == offsets@[shard]
            &&& query->0.values.5 == revision
        }),
{
    setting_is_refused_or_begun_as_asked(
        store,
        consumer_group_id,
        producer_id,
        offsets,
        revision,
        Some(info),
        Ok::<OffsetWrites, StoreError>(begun),
    );
}

} // verus!
