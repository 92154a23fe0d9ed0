//! What holds of every lowest common slot.

use vstd::prelude::*;
use vstd::seq_lib::to_multiset_contains;

use crate::consumer_id::id_views;
use crate::error::StoreError;
use crate::lowest_slot::{
    group_is_at, has_slot, is_behind, is_lowest_common_slot, is_lowest_slot, is_stale,
    latest_revision, member_is_at, LowestSlotQuery,
};
use crate::offset_writes::{covers, offsets_of, InsertValues, UpdateValues, WritesModel};
use crate::statement::{Query, GET_SHARD_OFFSET_FOR_SPECIFIC_GROUP_MEMBER};
use crate::store::ScyllaConsumerGroupStore;
use crate::types::{
    BlockchainEventType, ConsumerGroupId, ConsumerGroupInfo, MemberOffsets, ShardId, ShardOffset,
    Slot,
};

verus! {

/// Two entries of a member lead to the same lowest slots: they are of the same revision, and agree
/// on what the group subscribes to.
pub open spec fn agree(
    a: MemberOffsets,
    b: MemberOffsets,
    subscribed: Seq<BlockchainEventType>,
) -> bool {
    &&& a.1 == b.1
    &&& subscribed.contains(BlockchainEventType::AccountUpdate) ==> a.2@ == b.2@
    &&& subscribed.contains(BlockchainEventType::NewTransaction) ==> a.3@ == b.3@
}

/// Where there are entries, the latest revision is that of one of them, and none is later.
pub proof fn latest_revision_is_the_greatest(rows: Seq<MemberOffsets>)
    requires
        rows.len() > 0,
    ensures
        exists|i: int| 0 <= i < rows.len() && #[trigger] rows[i].1 == latest_revision(rows),
        forall|i: int| 0 <= i < rows.len() ==> #[trigger] rows[i].1 <= latest_revision(rows),
    decreases rows.len(),
{
    let rest = rows.drop_last();
    if rows.len() == 1 || rows.last().1 >= latest_revision(rest) {
        assert(rows[rows.len() - 1].1 == latest_revision(rows));
    }
    if rest.len() > 0 {
        latest_revision_is_the_greatest(rest);
        let i = choose|i: int|
            0 <= i < rest.len() && #[trigger] rest[i].1 == latest_revision(rest);
        assert(rows[i].1 == latest_revision(rest));
        assert forall|j: int| 0 <= j < rows.len() implies #[trigger] rows[j].1 <= latest_revision(
            rows,
        ) by {
            if j < rest.len() {
                assert(rest[j].1 <= latest_revision(rest));
            }
        }
    }
}

/// Some entry is of this revision.
spec fn has_revision(rows: Seq<MemberOffsets>, revision: i64) -> bool {
    exists|i: int| 0 <= i < rows.len() && #[trigger] rows[i].1 == revision
}

proof fn lemma_same_latest_revision(a: Seq<MemberOffsets>, b: Seq<MemberOffsets>)
    requires
        a.len() == b.len(),
        forall|revision: i64| has_revision(a, revision) == has_revision(b, revision),
    ensures
        latest_revision(a) == latest_revision(b),
{
    if a.len() > 0 {
        latest_revision_is_the_greatest(a);
        latest_revision_is_the_greatest(b);
        assert(has_revision(a, latest_revision(a)));
        assert(has_revision(b, latest_revision(b)));
        assert(has_revision(b, latest_revision(a)));
        assert(has_revision(a, latest_revision(b)));
    }
}

/// No two answers: the entries, the subscription and the revision asked for decide the outcome.
pub proof fn lowest_common_slot_is_determined(
    rows: Seq<MemberOffsets>,
    subscribed: Seq<BlockchainEventType>,
    max_revision: Option<i64>,
    a: Result<(Slot, i64), StoreError>,
    b: Result<(Slot, i64), StoreError>,
)
    requires
        is_lowest_common_slot(rows, subscribed, max_revision, a),
        is_lowest_common_slot(rows, subscribed, max_revision, b),
    ensures
        a == b,
{
    if a is Ok && b is Ok {
        assert(a->Ok_0.0 <= b->Ok_0.0);
        assert(b->Ok_0.0 <= a->Ok_0.0);
    }
}

/// The slot given is one that a member is at, no member is behind it in what the group subscribes
/// to, and it is not the greatest `Slot`.
pub proof fn no_member_is_behind_the_lowest_common_slot(
    rows: Seq<MemberOffsets>,
    subscribed: Seq<BlockchainEventType>,
    max_revision: Option<i64>,
    r: Result<(Slot, i64), StoreError>,
    i: int,
    slot: Slot,
)
    requires
        is_lowest_common_slot(rows, subscribed, max_revision, r),
        r is Ok,
        0 <= i < rows.len(),
        member_is_at(rows[i], subscribed, slot),
    ensures
        r->Ok_0.0 <= slot,
        r->Ok_0.0 < i64::MAX,
{
    assert(group_is_at(rows, subscribed, slot));
    let other = choose|other: Slot| group_is_at(rows, subscribed, other) && other != i64::MAX;
    assert(group_is_at(rows, subscribed, other));
}

/// A caller that asks for no revision is never told that it is stale.
pub proof fn unasked_revision_is_never_stale(
    rows: Seq<MemberOffsets>,
    subscribed: Seq<BlockchainEventType>,
    r: Result<(Slot, i64), StoreError>,
)
    requires
        is_lowest_common_slot(rows, subscribed, None, r),
    ensures
        r is Ok || r->Err_0 == StoreError::NoShardOffset,
{
}

/// The order in which the members' entries come does not matter.
pub proof fn entry_order_is_ignored(
    a: Seq<MemberOffsets>,
    b: Seq<MemberOffsets>,
    subscribed: Seq<BlockchainEventType>,
    max_revision: Option<i64>,
    r: Result<(Slot, i64), StoreError>,
)
    requires
        a.to_multiset() == b.to_multiset(),
    ensures
        is_lowest_common_slot(a, subscribed, max_revision, r) == is_lowest_common_slot(
            b,
            subscribed,
            max_revision,
            r,
        ),
{
    lemma_contained_entries(a, b);
    lemma_contained_entries(b, a);
    assert forall|revision: i64| has_revision(a, revision) == has_revision(b, revision) by {
        if has_revision(a, revision) {
            let i = choose|i: int| 0 <= i < a.len() && #[trigger] a[i].1 == revision;
            assert(b.contains(a[i]));
        }
        if has_revision(b, revision) {
            let i = choose|i: int| 0 <= i < b.len() && #[trigger] b[i].1 == revision;
            assert(a.contains(b[i]));
        }
    }
    lemma_same_latest_revision(a, b);
    assert forall|slot: Slot| group_is_at(a, subscribed, slot) == group_is_at(b, subscribed, slot) by {
        if group_is_at(a, subscribed, slot) {
            let i = choose|i: int|
                0 <= i < a.len() && member_is_at(#[trigger] a[i], subscribed, slot);
            assert(b.contains(a[i]));
            let j = choose|j: int| 0 <= j < b.len() && b[j] == a[i];
            assert(member_is_at(b[j], subscribed, slot));
        }
        if group_is_at(b, subscribed, slot) {
            let i = choose|i: int|
                0 <= i < b.len() && member_is_at(#[trigger] b[i], subscribed, slot);
            assert(a.contains(b[i]));
            let j = choose|j: int| 0 <= j < a.len() && a[j] == b[i];
            assert(member_is_at(a[j], subscribed, slot));
        }
    }
    lemma_same_outcome(a, b, subscribed, max_revision, r);
}

proof fn lemma_contained_entries(a: Seq<MemberOffsets>, b: Seq<MemberOffsets>)
    requires
        a.to_multiset() == b.to_multiset(),
    ensures
        a.len() == b.len(),
        forall|i: int| 0 <= i < a.len() ==> b.contains(#[trigger] a[i]),
{
    broadcast use vstd::seq_lib::group_to_multiset_ensures;

    assert(a.len() == a.to_multiset().len());
    assert(b.len() == b.to_multiset().len());
    assert forall|i: int| 0 <= i < a.len() implies b.contains(#[trigger] a[i]) by {
        assert(a.contains(a[i]));
        to_multiset_contains(a, a[i]);
        to_multiset_contains(b, a[i]);
    }
}

proof fn lemma_same_outcome(
    a: Seq<MemberOffsets>,
    b: Seq<MemberOffsets>,
    subscribed: Seq<BlockchainEventType>,
    max_revision: Option<i64>,
    r: Result<(Slot, i64), StoreError>,
)
    requires
        latest_revision(a) == latest_revision(b),
        forall|slot: Slot| group_is_at(a, subscribed, slot) == group_is_at(b, subscribed, slot),
    ensures
        is_lowest_common_slot(a, subscribed, max_revision, r) == is_lowest_common_slot(
            b,
            subscribed,
            max_revision,
            r,
        ),
{
    assert((forall|slot: Slot| group_is_at(a, subscribed, slot) ==> slot == i64::MAX) == (forall|
        slot: Slot,
    |
        group_is_at(b, subscribed, slot) ==> slot == i64::MAX));
    assert(forall|slot: Slot|
        is_lowest_slot(a, subscribed, slot) == is_lowest_slot(b, subscribed, slot));
}

/// Progress in what the group does not subscribe to does not matter.
pub proof fn unsubscribed_progress_is_ignored(
    a: Seq<MemberOffsets>,
    b: Seq<MemberOffsets>,
    subscribed: Seq<BlockchainEventType>,
    max_revision: Option<i64>,
    r: Result<(Slot, i64), StoreError>,
)
    requires
        a.len() == b.len(),
        forall|i: int| 0 <= i < a.len() ==> agree(#[trigger] a[i], #[trigger] b[i], subscribed),
    ensures
        is_lowest_common_slot(a, subscribed, max_revision, r) == is_lowest_common_slot(
            b,
            subscribed,
            max_revision,
            r,
        ),
{
    assert forall|revision: i64| has_revision(a, revision) == has_revision(b, revision) by {
        if has_revision(a, revision) {
            let i = choose|i: int| 0 <= i < a.len() && #[trigger] a[i].1 == revision;
            assert(agree(a[i], b[i], subscribed));
        }
        if has_revision(b, revision) {
            let i = choose|i: int| 0 <= i < b.len() && #[trigger] b[i].1 == revision;
            assert(agree(a[i], b[i], subscribed));
        }
    }
    lemma_same_latest_revision(a, b);
    assert forall|slot: Slot| group_is_at(a, subscribed, slot) == group_is_at(b, subscribed, slot) by {
        if group_is_at(a, subscribed, slot) {
            let i = choose|i: int|
                0 <= i < a.len() && member_is_at(#[trigger] a[i], subscribed, slot);
            assert(agree(a[i], b[i], subscribed));
            assert(member_is_at(b[i], subscribed, slot));
        }
        if group_is_at(b, subscribed, slot) {
            let i = choose|i: int|
                0 <= i < b.len() && member_is_at(#[trigger] b[i], subscribed, slot);
            assert(agree(a[i], b[i], subscribed));
            assert(member_is_at(a[i], subscribed, slot));
        }
    }
    lemma_same_outcome(a, b, subscribed, max_revision, r);
}

/// `slot` is the slot of a shard of some member.
pub open spec fn is_assigned_slot(
    members: Seq<(Seq<char>, Seq<ShardId>)>,
    offsets: Map<ShardId, (ShardOffset, Slot)>,
    slot: Slot,
) -> bool {
    exists|i: int, j: int|
        0 <= i < members.len() && 0 <= j < members[i].1.len()
            && offsets[#[trigger] members[i].1[j]].1 == slot
}

/// The entries are those that setting `offsets` at the revision `revision` leaves behind: each
/// member has the offsets of its shards, for account updates and for transactions alike.
pub open spec fn hold_offsets(
    rows: Seq<MemberOffsets>,
    members: Seq<(Seq<char>, Seq<ShardId>)>,
    offsets: Map<ShardId, (ShardOffset, Slot)>,
    revision: i64,
) -> bool {
    &&& rows.len() == members.len()
    &&& forall|i: int|
        0 <= i < rows.len() ==> {
            &&& (#[trigger] rows[i]).1 == revision
            &&& rows[i].2@ == offsets_of(offsets, members[i].1)
            &&& rows[i].3@ == offsets_of(offsets, members[i].1)
        }
}

/// `row` is the entry that the write of the member `i` leaves behind where it is applied, by an
/// insert or by an update.
pub open spec fn was_written(writes: WritesModel, i: int, row: MemberOffsets) -> bool {
    ||| exists|query: Query<InsertValues>| #[trigger]
        writes.is_insert(i, query) && row.0@ == query.values.1@ && row.1 == query.values.5
            && row.2@ == query.values.3@ && row.3@ == query.values.4@
    ||| exists|query: Query<UpdateValues>| #[trigger]
        writes.is_update(i, query) && row.0@ == query.values.4@ && row.1 == query.values.2
            && row.2@ == query.values.0@ && row.3@ == query.values.1@
}

/// An insert and an update leave the same entry behind: the offsets of the member's shards, at the
/// revision of the writing.
pub proof fn written_members_hold_their_offsets(writes: WritesModel, rows: Seq<MemberOffsets>)
    requires
        rows.len() == writes.members.len(),
        forall|i: int| 0 <= i < rows.len() ==> was_written(writes, i, #[trigger] rows[i]),
    ensures
        hold_offsets(rows, writes.members, writes.offsets, writes.revision),
        forall|i: int| 0 <= i < rows.len() ==> (#[trigger] rows[i]).0@ == writes.members[i].0,
{
    assert forall|i: int| 0 <= i < rows.len() implies {
        &&& (#[trigger] rows[i]).1 == writes.revision
        &&& rows[i].0@ == writes.members[i].0
        &&& rows[i].2@ == offsets_of(writes.offsets, writes.members[i].1)
        &&& rows[i].3@ == offsets_of(writes.offsets, writes.members[i].1)
    } by {
        assert(was_written(writes, i, rows[i]));
    }
}

/// What was set is read back: after the members' offsets have been set at some revision, the
/// lowest common slot of the group is the lowest slot that was set for a shard of a member, at
/// that revision, whatever the group subscribes to.
pub proof fn lowest_common_slot_of_what_was_set(
    rows: Seq<MemberOffsets>,
    members: Seq<(Seq<char>, Seq<ShardId>)>,
    offsets: Map<ShardId, (ShardOffset, Slot)>,
    revision: i64,
    subscribed: Seq<BlockchainEventType>,
    max_revision: Option<i64>,
    lowest: Slot,
    r: Result<(Slot, i64), StoreError>,
)
    requires
        hold_offsets(rows, members, offsets, revision),
        forall|i: int| 0 <= i < members.len() ==> covers(offsets, (#[trigger] members[i]).1),
        subscribed.len() > 0,
        !is_stale(max_revision, revision),
        is_assigned_slot(members, offsets, lowest),
        forall|slot: Slot| is_assigned_slot(members, offsets, slot) ==> lowest <= slot,
        lowest < i64::MAX,
        is_lowest_common_slot(rows, subscribed, max_revision, r),
    ensures
        r == Ok::<(Slot, i64), StoreError>((lowest, revision)),
{
    let (i0, j0) = choose|i: int, j: int|
        0 <= i < members.len() && 0 <= j < members[i].1.len()
            && offsets[#[trigger] members[i].1[j]].1 == lowest;
    latest_revision_is_the_greatest(rows);
    let newest = choose|i: int| 0 <= i < rows.len() && #[trigger] rows[i].1 == latest_revision(rows);
    assert(latest_revision(rows) == revision);
    let event = subscribed[0];
    assert(subscribed.contains(event));
    assert forall|slot: Slot| group_is_at(rows, subscribed, slot) == is_assigned_slot(
        members,
        offsets,
        slot,
    ) by {
        if group_is_at(rows, subscribed, slot) {
            let i = choose|i: int|
                0 <= i < rows.len() && member_is_at(#[trigger] rows[i], subscribed, slot);
            let held = offsets_of(offsets, members[i].1);
            assert(has_slot(held, slot));
            let shard = choose|shard: ShardId|
                held.contains_key(shard) && #[trigger] held[shard].1 == slot;
            assert(members[i].1.to_set().contains(shard));
            let j = choose|j: int| 0 <= j < members[i].1.len() && members[i].1[j] == shard;
            assert(offsets[members[i].1[j]].1 == slot);
        }
        if is_assigned_slot(members, offsets, slot) {
            let (i, j) = choose|i: int, j: int|
                0 <= i < members.len() && 0 <= j < members[i].1.len()
                    && offsets[#[trigger] members[i].1[j]].1 == slot;
            let held = offsets_of(offsets, members[i].1);
            let shard = members[i].1[j];
            assert(covers(offsets, members[i].1));
            assert(offsets.contains_key(members[i].1[j]));
            assert(members[i].1.to_set().contains(shard));
            assert(held.contains_key(shard) && held[shard].1 == slot);
            assert(has_slot(held, slot));
            assert(rows[i].1 == revision);
            match event {
                BlockchainEventType::AccountUpdate => {
                    assert(member_is_at(rows[i], subscribed, slot));
                },
                BlockchainEventType::NewTransaction => {
                    assert(member_is_at(rows[i], subscribed, slot));
                },
            }
        }
    }
    assert(group_is_at(rows, subscribed, lowest));
}

/// A revision is behind another exactly where it was asked for and is the smaller of the two.
pub proof fn behind_is_a_smaller_revision(max_revision: Option<i64>, revision: i64, r: bool)
    requires
        call_ensures(is_behind, (max_revision, revision), r),
    ensures
        max_revision is None ==> !r,
        max_revision is Some ==> r == (max_revision->0 < revision),
{
}

/// No member is behind the slot that is given: whatever the group subscribes to, no shard of any
/// entry is at a lower slot, whether or not the entry holds the same for the other type of event.
pub proof fn lowest_common_slot_bounds_every_subscribed_slot(
    question: &LowestSlotQuery,
    rows: &Vec<MemberOffsets>,
    r: Result<(Slot, i64), StoreError>,
    i: int,
    shard: ShardId,
)
    requires
        call_ensures(LowestSlotQuery::lowest_common_slot, (question, rows), r),
        r is Ok,
        0 <= i < rows@.len(),
    ensures
        question.subscribed_event_types@.contains(BlockchainEventType::AccountUpdate)
            && rows@[i].2@.contains_key(shard) ==> r->Ok_0.0 <= rows@[i].2@[shard].1,
        question.subscribed_event_types@.contains(BlockchainEventType::NewTransaction)
            && rows@[i].3@.contains_key(shard) ==> r->Ok_0.0 <= rows@[i].3@[shard].1,
{
    let subscribed = question.subscribed_event_types@;
    if subscribed.contains(BlockchainEventType::AccountUpdate) && rows@[i].2@.contains_key(shard) {
        let slot = rows@[i].2@[shard].1;
        assert(has_slot(rows@[i].2@, slot));
        assert(member_is_at(rows@[i], subscribed, slot));
        assert(group_is_at(rows@, subscribed, slot));
    }
    if subscribed.contains(BlockchainEventType::NewTransaction) && rows@[i].3@.contains_key(shard) {
        let slot = rows@[i].3@[shard].1;
        assert(has_slot(rows@[i].3@, slot));
        assert(member_is_at(rows@[i], subscribed, slot));
        assert(group_is_at(rows@, subscribed, slot));
    }
}

/// The slot that is given is that of a shard of some entry, in something the group subscribes to,
/// and is not the greatest `Slot`.
pub proof fn lowest_common_slot_is_a_subscribed_slot(
    question: &LowestSlotQuery,
    rows: &Vec<MemberOffsets>,
    r: Result<(Slot, i64), StoreError>,
) -> (at: (int, ShardId))
    requires
        call_ensures(LowestSlotQuery::lowest_common_slot, (question, rows), r),
        r is Ok,
    ensures
        0 <= at.0 < rows@.len(),
        r->Ok_0.0 < i64::MAX,
        ({
            ||| question.subscribed_event_types@.contains(BlockchainEventType::AccountUpdate)
                && rows@[at.0].2@.contains_key(at.1) && rows@[at.0].2@[at.1].1 == r->Ok_0.0
            ||| question.subscribed_event_types@.contains(BlockchainEventType::NewTransaction)
                && rows@[at.0].3@.contains_key(at.1) && rows@[at.0].3@[at.1].1 == r->Ok_0.0
        }),
{
    let subscribed = question.subscribed_event_types@;
    let slot = r->Ok_0.0;
    let i = choose|i: int|
        0 <= i < rows@.len() && member_is_at(#[trigger] rows@[i], subscribed, slot);
    no_member_is_behind_the_lowest_common_slot(
        rows@,
        subscribed,
        question.max_revision,
        r,
        i,
        slot,
    );
    if subscribed.contains(BlockchainEventType::AccountUpdate) && has_slot(rows@[i].2@, slot) {
        let shard = choose|shard: ShardId|
            rows@[i].2@.contains_key(shard) && #[trigger] rows@[i].2@[shard].1 == slot;
        (i, shard)
    } else {
        let shard = choose|shard: ShardId|
            rows@[i].3@.contains_key(shard) && #[trigger] rows@[i].3@[shard].1 == slot;
        (i, shard)
    }
}

/// The revision that is given is that of some entry, no entry is of a later one, and it is not
/// later than the one asked for.
pub proof fn lowest_common_slot_comes_with_the_greatest_revision(
    question: &LowestSlotQuery,
    rows: &Vec<MemberOffsets>,
    r: Result<(Slot, i64), StoreError>,
)
    requires
        call_ensures(LowestSlotQuery::lowest_common_slot, (question, rows), r),
        r is Ok,
    ensures
        exists|i: int| 0 <= i < rows@.len() && #[trigger] rows@[i].1 == r->Ok_0.1,
        forall|i: int| 0 <= i < rows@.len() ==> #[trigger] rows@[i].1 <= r->Ok_0.1,
        question.max_revision is Some ==> r->Ok_0.1 <= question.max_revision->0,
{
    let at = lowest_common_slot_is_a_subscribed_slot(question, rows, r);
    latest_revision_is_the_greatest(rows@);
}

/// One entry of a later revision than the one asked for is enough to be refused as stale.
pub proof fn later_entry_is_stale(
    question: &LowestSlotQuery,
    rows: &Vec<MemberOffsets>,
    r: Result<(Slot, i64), StoreError>,
    i: int,
)
    requires
        call_ensures(LowestSlotQuery::lowest_common_slot, (question, rows), r),
        0 <= i < rows@.len(),
        question.max_revision is Some,
        question.max_revision->0 < rows@[i].1,
    ensures
        r == Err::<(Slot, i64), StoreError>(
            StoreError::StaleRevision(question.max_revision->0),
        ),
{
    latest_revision_is_the_greatest(rows@);
}

/// Only an entry of a later revision than the one asked for is stale. Where there is no entry, the
/// revision counts as 0. A refusal for another reason is that there is no offset.
pub proof fn stale_has_a_later_entry(
    question: &LowestSlotQuery,
    rows: &Vec<MemberOffsets>,
    r: Result<(Slot, i64), StoreError>,
)
    requires
        call_ensures(LowestSlotQuery::lowest_common_slot, (question, rows), r),
        r is Err,
        r->Err_0 != StoreError::NoShardOffset,
    ensures
        question.max_revision is Some,
        r->Err_0 == StoreError::StaleRevision(question.max_revision->0),
        ({
            ||| rows@.len() == 0 && question.max_revision->0 < 0
            ||| exists|i: int|
                0 <= i < rows@.len() && question.max_revision->0 < #[trigger] rows@[i].1
        }),
{
    if rows@.len() > 0 {
        latest_revision_is_the_greatest(rows@);
        let i = choose|i: int|
            0 <= i < rows@.len() && #[trigger] rows@[i].1 == latest_revision(rows@);
        assert(question.max_revision->0 < rows@[i].1);
    }
}

/// Where no offset is found, every shard of every entry, in whatever the group subscribes to, is
/// at the greatest `Slot`, and no entry is of a later revision than the one asked for.
pub proof fn no_offset_is_below_the_greatest_slot(
    question: &LowestSlotQuery,
    rows: &Vec<MemberOffsets>,
    r: Result<(Slot, i64), StoreError>,
    i: int,
    shard: ShardId,
)
    requires
        call_ensures(LowestSlotQuery::lowest_common_slot, (question, rows), r),
        r == Err::<(Slot, i64), StoreError>(StoreError::NoShardOffset),
        0 <= i < rows@.len(),
    ensures
        question.subscribed_event_types@.contains(BlockchainEventType::AccountUpdate)
            && rows@[i].2@.contains_key(shard) ==> rows@[i].2@[shard].1 == i64::MAX,
        question.subscribed_event_types@.contains(BlockchainEventType::NewTransaction)
            && rows@[i].3@.contains_key(shard) ==> rows@[i].3@[shard].1 == i64::MAX,
        question.max_revision is Some ==> rows@[i].1 <= question.max_revision->0,
{
    let subscribed = question.subscribed_event_types@;
    latest_revision_is_the_greatest(rows@);
    if subscribed.contains(BlockchainEventType::AccountUpdate) && rows@[i].2@.contains_key(shard) {
        let slot = rows@[i].2@[shard].1;
        assert(has_slot(rows@[i].2@, slot));
        assert(member_is_at(rows@[i], subscribed, slot));
        assert(group_is_at(rows@, subscribed, slot));
    }
    if subscribed.contains(BlockchainEventType::NewTransaction) && rows@[i].3@.contains_key(shard) {
        let slot = rows@[i].3@[shard].1;
        assert(has_slot(rows@[i].3@, slot));
        assert(member_is_at(rows@[i], subscribed, slot));
        assert(group_is_at(rows@, subscribed, slot));
    }
}

/// Without entries there is no slot: the caller is stale if it asked for a negative revision, and
/// otherwise no offset is found.
pub proof fn no_entries_have_no_slot(
    question: &LowestSlotQuery,
    rows: &Vec<MemberOffsets>,
    r: Result<(Slot, i64), StoreError>,
)
    requires
        call_ensures(LowestSlotQuery::lowest_common_slot, (question, rows), r),
        rows@.len() == 0,
    ensures
        r is Err,
        question.max_revision is Some && question.max_revision->0 < 0 ==> r->Err_0
            == StoreError::StaleRevision(question.max_revision->0),
        question.max_revision is None || question.max_revision->0 >= 0 ==> r->Err_0
            == StoreError::NoShardOffset,
{
}

/// A request is refused where nothing is stored of the group, and where the group is of a later
/// revision than the one asked for, however much later. Any other request for a group with a
/// producer is served.
pub proof fn later_group_is_refused_and_no_other(
    store: &ScyllaConsumerGroupStore,
    consumer_group_id: &ConsumerGroupId,
    info: Option<ConsumerGroupInfo>,
    max_revision: Option<i64>,
    r: Result<LowestSlotQuery, StoreError>,
)
    requires
        call_ensures(
            ScyllaConsumerGroupStore::get_lowest_common_slot_number,
            (store, consumer_group_id, info, max_revision),
            r,
        ),
    ensures
        info is None ==> r == Err::<LowestSlotQuery, StoreError>(StoreError::ConsumerGroupNotFound),
        info is Some && max_revision is Some && max_revision->0 < info->0.revision ==> r == Err::<
            LowestSlotQuery,
            StoreError,
        >(StoreError::StaleRevision(max_revision->0)),
        info is Some && max_revision is Some && max_revision->0 >= info->0.revision ==> r is Ok,
        info is Some && max_revision is None ==> r is Ok,
{
}

/// A request that is served asks for the entries of all members of the group, in their order,
/// under the producer of the group, and passes on what the group subscribes to and the revision
/// asked for.
pub proof fn served_request_asks_for_every_member(
    store: &ScyllaConsumerGroupStore,
    consumer_group_id: &ConsumerGroupId,
    info: Option<ConsumerGroupInfo>,
    max_revision: Option<i64>,
    r: Result<LowestSlotQuery, StoreError>,
)
    requires
        call_ensures(
            ScyllaConsumerGroupStore::get_lowest_common_slot_number,
            (store, consumer_group_id, info, max_revision),
            r,
        ),
        r is Ok,
    ensures
        info is Some,
        r->Ok_0.query.statement.cql@ == GET_SHARD_OFFSET_FOR_SPECIFIC_GROUP_MEMBER@,
        !r->Ok_0.query.statement.serial,
        r->Ok_0.query.values.0 == *consumer_group_id,
        r->Ok_0.query.values.1@.len() == info->0.consumer_id_shard_assignments@.len(),
        forall|i: int|
            0 <= i < r->Ok_0.query.values.1@.len() ==> (#[trigger] r->Ok_0.query.values.1@[i])@
                == info->0.consumer_id_shard_assignments@[i].0,
        info->0.producer_id == Some(r->Ok_0.query.values.2),
        r->Ok_0.subscribed_event_types@ == info->0.subscribed_event_types@,
        r->Ok_0.max_revision == max_revision,
{
    let members = info->0.consumer_id_shard_assignments@;
    let ids = r->Ok_0.query.values.1@;
    let firsts = members.map_values(|e: (Seq<char>, Seq<ShardId>)| e.0);
    assert(id_views(ids) == firsts);
    assert(id_views(ids).len() == ids.len() && firsts.len() == members.len());
    assert forall|i: int| 0 <= i < ids.len() implies (#[trigger] ids[i])@ == members[i].0 by {
        assert(id_views(ids)[i] == firsts[i]);
    }
}

/// Who asks for a revision and is given a slot is up to date: neither the group nor any entry of
/// its members is of a later revision. And no member is behind the slot in what the stored group
/// subscribes to.
pub proof fn served_request_is_up_to_date(
    store: &ScyllaConsumerGroupStore,
    consumer_group_id: &ConsumerGroupId,
    info: Option<ConsumerGroupInfo>,
    max_revision: Option<i64>,
    question: LowestSlotQuery,
    rows: &Vec<MemberOffsets>,
    r: Result<(Slot, i64), StoreError>,
    i: int,
    shard: ShardId,
)
    requires
        call_ensures(
            ScyllaConsumerGroupStore::get_lowest_common_slot_number,
            (store, consumer_group_id, info, max_revision),
            Ok::<LowestSlotQuery, StoreError>(question),
        ),
        call_ensures(LowestSlotQuery::lowest_common_slot, (&question, rows), r),
        r is Ok,
        0 <= i < rows@.len(),
    ensures
        info is Some,
        max_revision is Some ==> max_revision->0 >= info->0.revision && max_revision->0
            >= rows@[i].1,
        info->0.subscribed_event_types@.contains(BlockchainEventType::AccountUpdate)
            && rows@[i].2@.contains_key(shard) ==> r->Ok_0.0 <= rows@[i].2@[shard].1,
        info->0.subscribed_event_types@.contains(BlockchainEventType::NewTransaction)
            && rows@[i].3@.contains_key(shard) ==> r->Ok_0.0 <= rows@[i].3@[shard].1,
{
    let asked = Ok::<LowestSlotQuery, StoreError>(question);
    later_group_is_refused_and_no_other(store, consumer_group_id, info, max_revision, asked);
    served_request_asks_for_every_member(store, consumer_group_id, info, max_revision, asked);
    lowest_common_slot_bounds_every_subscribed_slot(&question, rows, r, i, shard);
    lowest_common_slot_comes_with_the_greatest_revision(&question, rows, r);
}

} // verus!
