//! The lowest slot that all members of a group have in common.

use vstd::prelude::*;

use crate::consumer_id::ConsumerId;
use crate::error::StoreError;
use crate::statement::Query;
use crate::types::{
    BlockchainEventType, ConsumerGroupId, MemberOffsets, ProducerId, ShardId, ShardOffset,
    ShardOffsetMap, Slot,
};

verus! {

/// `slot` is the slot of some shard of the map.
pub open spec fn has_slot(offsets: Map<ShardId, (ShardOffset, Slot)>, slot: Slot) -> bool {
    exists|shard: ShardId| offsets.contains_key(shard) && #[trigger] offsets[shard].1 == slot
}

/// `slot` is one that a member has reached in something the group subscribes to.
pub open spec fn member_is_at(
    row: MemberOffsets,
    subscribed: Seq<BlockchainEventType>,
    slot: Slot,
) -> bool {
    ||| subscribed.contains(BlockchainEventType::AccountUpdate) && has_slot(row.2@, slot)
    ||| subscribed.contains(BlockchainEventType::NewTransaction) && has_slot(row.3@, slot)
}

/// `slot` is one that some member has reached in something the group subscribes to.
pub open spec fn group_is_at(
    rows: Seq<MemberOffsets>,
    subscribed: Seq<BlockchainEventType>,
    slot: Slot,
) -> bool {
    exists|i: int| 0 <= i < rows.len() && member_is_at(#[trigger] rows[i], subscribed, slot)
}

/// `slot` is the lowest that some member has reached.
pub open spec fn is_lowest_slot(
    rows: Seq<MemberOffsets>,
    subscribed: Seq<BlockchainEventType>,
    slot: Slot,
) -> bool {
    &&& group_is_at(rows, subscribed, slot)
    &&& forall|other: Slot| group_is_at(rows, subscribed, other) ==> slot <= other
}

/// The latest revision among the members' entries, and 0 where there is none.
pub open spec fn latest_revision(rows: Seq<MemberOffsets>) -> i64
    decreases rows.len(),
{
    if rows.len() == 0 {
        0
    } else if rows.len() == 1 || rows.last().1 >= latest_revision(rows.drop_last()) {
        rows.last().1
    } else {
        latest_revision(rows.drop_last())
    }
}

/// The caller asked for a revision, and `revision` is later.
pub open spec fn is_stale(max_revision: Option<i64>, revision: i64) -> bool {
    max_revision is Some && max_revision->0 < revision
}

/// The smaller of `bound` and the lowest slot of the map.
fn lowest_in(offsets: &ShardOffsetMap, bound: Slot) -> (low: Slot)
    ensures
        low <= bound,
        low == bound || has_slot(offsets@, low),
        forall|slot: Slot| has_slot(offsets@, slot) ==> low <= slot,
{
    let mut low: Slot = bound;
    let ghost mut seen: Seq<(ShardOffset, Slot)> = Seq::empty();
    for at in it: offsets.values()
        invariant
            low <= bound,
            low == bound || has_slot(offsets@, low),
            it.seq().unref().to_set() == offsets@.values(),
            seen =~= it.seq().unref().take(it.index()),
            it.index() == it.seq().len() ==> seen =~= it.seq().unref(),
            forall|j: int| 0 <= j < seen.len() ==> low <= (#[trigger] seen[j]).1,
        ensures
            seen.to_set() == offsets@.values(),
    {
        if at.1 < low {
            low = at.1;
            assert(it.seq().unref()[it.index()] == *at);
            assert(it.seq().unref().to_set().contains(*at));
            assert(offsets@.values().contains(*at));
            let ghost shard = choose|shard: ShardId|
                offsets@.contains_key(shard) && #[trigger] offsets@[shard] == *at;
            assert(offsets@[shard].1 == low);
        }
        proof {
            seen = seen.push(*at);
        }
    }
    assert forall|slot: Slot| has_slot(offsets@, slot) implies low <= slot by {
        let shard = choose|shard: ShardId|
            offsets@.contains_key(shard) && #[trigger] offsets@[shard].1 == slot;
        assert(seen.to_set().contains(offsets@[shard]));
        let j = choose|j: int| 0 <= j < seen.len() && seen[j] == offsets@[shard];
        assert(low <= seen[j].1);
    }
    low
}

/// Whether the caller asked for a revision that `revision` is later than.
pub fn is_behind(max_revision: Option<i64>, revision: i64) -> (r: bool)
    ensures
        r == is_stale(max_revision, revision),
{
    match max_revision {
        Some(max_revision) => max_revision < revision,
        None => false,
    }
}

/// Whether `event` is one of `events`.
fn subscribes(events: &Vec<BlockchainEventType>, event: BlockchainEventType) -> (r: bool)
    ensures
        r == events@.contains(event),
{
    for i in 0..events.len()
        invariant
            forall|j: int| 0 <= j < i ==> events@[j] != event,
    {
        if events[i] == event {
            return true;
        }
    }
    false
}

/// What `lowest_common_slot` gives for the entries `rows` of the members.
pub open spec fn is_lowest_common_slot(
    rows: Seq<MemberOffsets>,
    subscribed: Seq<BlockchainEventType>,
    max_revision: Option<i64>,
    r: Result<(Slot, i64), StoreError>,
) -> bool {
    if is_stale(max_revision, latest_revision(rows)) {
        r == Err::<(Slot, i64), StoreError>(StoreError::StaleRevision(max_revision->0))
    } else if forall|slot: Slot| group_is_at(rows, subscribed, slot) ==> slot == i64::MAX {
        r == Err::<(Slot, i64), StoreError>(StoreError::NoShardOffset)
    } else {
        r is Ok && is_lowest_slot(rows, subscribed, r->Ok_0.0) && r->Ok_0.1 == latest_revision(rows)
    }
}

/// The question for the members' entries, and what it takes to judge the reply.
#[derive(Debug, PartialEq, Eq)]
pub struct LowestSlotQuery {
    pub query: Query<(ConsumerGroupId, Vec<ConsumerId>, ProducerId)>,
    pub subscribed_event_types: Vec<BlockchainEventType>,
    pub max_revision: Option<i64>,
}

impl LowestSlotQuery {
    /// The lowest slot that the members have reached in what the group subscribes to, with the
    /// latest revision of their entries. The greatest `Slot` counts as none.
    pub fn lowest_common_slot(&self, rows: &Vec<MemberOffsets>) -> (r: Result<
        (Slot, i64),
        StoreError,
    >)
        ensures
            is_lowest_common_slot(
                rows@,
                self.subscribed_event_types@,
                self.max_revision,
                r,
            ),
    {
        let account_updates = subscribes(
            &self.subscribed_event_types,
            BlockchainEventType::AccountUpdate,
        );
        let transactions = subscribes(
            &self.subscribed_event_types,
            BlockchainEventType::NewTransaction,
        );
        let ghost subscribed = self.subscribed_event_types@;
        let mut latest: i64 = 0;
        let mut min_slot: Slot = i64::MAX;
        for n in 0..rows.len()
            invariant
                account_updates == subscribed.contains(BlockchainEventType::AccountUpdate),
                transactions == subscribed.contains(BlockchainEventType::NewTransaction),
                latest == latest_revision(rows@.take(n as int)),
                min_slot == i64::MAX || exists|i: int|
                    0 <= i < n && member_is_at(#[trigger] rows@[i], subscribed, min_slot),
                forall|i: int, slot: Slot|
                    0 <= i < n && #[trigger] member_is_at(rows@[i], subscribed, slot) ==> min_slot
                        <= slot,
        {
            let ghost before = min_slot;
            assert(rows@.take(n + 1).drop_last() =~= rows@.take(n as int));
            let revision: i64 = rows[n].1;
            if n == 0 || revision >= latest {
                latest = revision;
            }
            if account_updates {
                min_slot = lowest_in(&rows[n].2, min_slot);
            }
            if transactions {
                min_slot = lowest_in(&rows[n].3, min_slot);
            }
            assert(before != min_slot ==> member_is_at(rows@[n as int], subscribed, min_slot));
        }
        assert(rows@.take(rows@.len() as int) =~= rows@);
        if is_behind(self.max_revision, latest) {
            return Err(StoreError::StaleRevision(self.max_revision.unwrap()));
        }
        assert forall|slot: Slot| group_is_at(rows@, subscribed, slot) implies min_slot <= slot by {
            let i = choose|i: int|
                0 <= i < rows@.len() && member_is_at(#[trigger] rows@[i], subscribed, slot);
            assert(member_is_at(rows@[i], subscribed, slot));
        }
        if min_slot < i64::MAX {
            assert(group_is_at(rows@, subscribed, min_slot));
            Ok((min_slot, latest))
        } else {
            Err(StoreError::NoShardOffset)
        }
    }
}

} // verus!
