//! What holds of two operations one after the other, over what is stored.

use vstd::prelude::*;

use crate::assignment::ascending_ids;
use crate::consumer_id::{id_lt, ConsumerId};
use crate::creation::{
    describes_group, inserts_group, producer_is_chosen_by_the_slots_asked_for, GroupCreation,
    GroupValues, MembersCreation,
};
use crate::error::StoreError;
use crate::offset_laws::place;
use crate::offset_writes::{
    after_reply, after_turn, covers, offsets_of, InsertValues, UpdateValues, WritePhase,
    WritesModel,
};
use crate::slot_laws::hold_offsets;
use crate::statement::{
    Query, CREATE_STATIC_CONSUMER_GROUP, GET_ACC_UPDATE_SHARD_OFFSET, GET_NEW_TX_SHARD_OFFSET,
    GET_STATIC_CONSUMER_GROUP, UPDATE_STATIC_CONSUMER_GROUP,
};
use crate::store::{offsets_refusal, writes_offsets, ScyllaConsumerGroupStore};
use crate::tables::{
    carried_out, group_inserted, insert_if_absent, insert_offsets, member_key, member_row,
    planned_writes, read_offsets, reads_group, reads_member, set_offsets, steps_left,
    update_group, update_if_earlier, update_offsets, update_producers, GroupsTable, OffsetsKey,
    OffsetsTable, Tables,
};
use crate::types::{
    BlockchainEventType, CommitmentLevel, ConsumerGroupId, ConsumerGroupInfo, ConsumerGroupType,
    IpAddress, LwtResult, MemberOffsets, ProducerId, SeekLocation, ShardId, ShardOffset, Slot,
    SlotRange, TranslationStrategy,
};

verus! {

/// The insert that is sent for a member stores the offsets of its shards under the key of the
/// member, unless there is a row.
pub proof fn sent_insert_stores_the_member(
    writes: WritesModel,
    i: int,
    query: Query<InsertValues>,
    table: OffsetsTable,
)
    requires
        writes.is_insert(i, query),
    ensures
        insert_offsets(table, query.values) == insert_if_absent(
            table,
            member_key(writes, i),
            member_row(writes, i),
        ),
{
}

/// The update that is sent for a member stores the offsets of its shards under the key of the
/// member, if there is a row of an earlier revision than that of the writing.
pub proof fn sent_update_stores_the_member(
    writes: WritesModel,
    i: int,
    query: Query<UpdateValues>,
    table: OffsetsTable,
)
    requires
        writes.is_update(i, query),
    ensures
        update_offsets(table, query.values) == update_if_earlier(
            table,
            member_key(writes, i),
            member_row(writes, i),
            writes.revision,
        ),
{
}

/// Where the update of a member is applied, the revision of its row grows to that of the writing.
pub proof fn applied_update_raises_the_revision(
    writes: WritesModel,
    i: int,
    query: Query<UpdateValues>,
    table: OffsetsTable,
)
    requires
        writes.is_update(i, query),
        update_offsets(table, query.values).1,
    ensures
        table.contains_key(member_key(writes, i)),
        table[member_key(writes, i)].revision < writes.revision,
        update_offsets(table, query.values).0[member_key(writes, i)].revision == writes.revision,
{
}

/// No row was lost, and none is of an earlier revision than before.
pub open spec fn no_revision_fell(before: OffsetsTable, after: OffsetsTable) -> bool {
    forall|key: OffsetsKey| #[trigger]
        before.contains_key(key) ==> after.contains_key(key) && before[key].revision
            <= after[key].revision
}

/// The row of a member is the one that the writing leaves behind.
pub open spec fn is_stored(writes: WritesModel, table: OffsetsTable, i: int) -> bool {
    table.contains_key(member_key(writes, i)) && table[member_key(writes, i)] == member_row(
        writes,
        i,
    )
}

/// The key is that of a member.
pub open spec fn is_member_key(writes: WritesModel, key: OffsetsKey) -> bool {
    exists|i: int| 0 <= i < writes.members.len() && #[trigger] member_key(writes, i) == key
}

/// Both tables have the same row under the key, or none.
pub open spec fn same_row(before: OffsetsTable, after: OffsetsTable, key: OffsetsKey) -> bool {
    &&& before.contains_key(key) == after.contains_key(key)
    &&& before.contains_key(key) ==> before[key] == after[key]
}

/// Every row but those of the members is as it was.
pub open spec fn only_members_changed(
    writes: WritesModel,
    before: OffsetsTable,
    after: OffsetsTable,
) -> bool {
    forall|key: OffsetsKey| !#[trigger] is_member_key(writes, key) ==> same_row(before, after, key)
}

/// The rows of the members before the place that the writing has come to are stored.
spec fn stored_so_far(writes: WritesModel, table: OffsetsTable) -> bool {
    forall|i: int| 0 <= i < place(writes.phase) ==> #[trigger] is_stored(writes, table, i)
}

proof fn lemma_step_stores(writes: WritesModel, table: OffsetsTable, after: OffsetsTable, i: usize)
    requires
        ascending_ids(writes.members),
        i < writes.members.len() <= usize::MAX,
        place(writes.phase) == i,
        stored_so_far(writes, table),
        after == table.insert(member_key(writes, i as int), member_row(writes, i as int)),
    ensures
        stored_so_far(WritesModel { phase: WritePhase::Ready((i + 1) as usize), ..writes }, after),
{
    let next = WritesModel { phase: WritePhase::Ready((i + 1) as usize), ..writes };
    assert forall|j: int| 0 <= j < place(next.phase) implies #[trigger] is_stored(
        next,
        after,
        j,
    ) by {
        if j < i {
            assert(is_stored(writes, table, j));
            assert(id_lt(writes.members[j].0, writes.members[i as int].0));
        }
    }
}

proof fn lemma_carried_out_stores(writes: WritesModel, table: OffsetsTable)
    requires
        ascending_ids(writes.members),
        writes.members.len() <= usize::MAX,
        place(writes.phase) <= writes.members.len(),
        !(writes.phase is Ready) ==> place(writes.phase) < writes.members.len(),
        stored_so_far(writes, table),
    ensures
        ({
            let (phase, after) = carried_out(writes, table);
            &&& phase is Ready || phase is Failed
            &&& phase is Ready ==> place(phase) == writes.members.len()
            &&& stored_so_far(WritesModel { phase, ..writes }, after)
        }),
    decreases steps_left(writes),
{
    let n = writes.members.len();
    match writes.phase {
        WritePhase::Ready(i) => {
            if i < n {
                let next = WritesModel { phase: after_turn(writes.phase, n), ..writes };
                assert forall|j: int| 0 <= j < place(next.phase) implies #[trigger] is_stored(
                    next,
                    table,
                    j,
                ) by {
                    assert(is_stored(writes, table, j));
                }
                lemma_carried_out_stores(next, table);
            }
        },
        WritePhase::Inserting(i) => {
            let (then, applied) = insert_if_absent(
                table,
                member_key(writes, i as int),
                member_row(writes, i as int),
            );
            lemma_reply(writes, table, then, applied);
            lemma_carried_out_stores(
                WritesModel { phase: after_reply(writes.phase, applied), ..writes },
                then,
            );
        },
        WritePhase::Updating(i) => {
            let (then, applied) = update_if_earlier(
                table,
                member_key(writes, i as int),
                member_row(writes, i as int),
                writes.revision,
            );
            lemma_reply(writes, table, then, applied);
            lemma_carried_out_stores(
                WritesModel { phase: after_reply(writes.phase, applied), ..writes },
                then,
            );
        },
        WritePhase::Failed(_) => {},
    }
}

proof fn lemma_carried_out_keeps(writes: WritesModel, table: OffsetsTable)
    requires
        writes.members.len() <= usize::MAX,
    ensures
        no_revision_fell(table, carried_out(writes, table).1),
        only_members_changed(writes, table, carried_out(writes, table).1),
    decreases steps_left(writes),
{
    let n = writes.members.len();
    match writes.phase {
        WritePhase::Ready(i) => {
            if i < n {
                let next = WritesModel { phase: after_turn(writes.phase, n), ..writes };
                lemma_carried_out_keeps(next, table);
                lemma_kept_further(writes, next, table, table, carried_out(next, table).1);
            }
        },
        WritePhase::Inserting(i) => {
            if i < n {
                let key = member_key(writes, i as int);
                let (then, applied) = insert_if_absent(table, key, member_row(writes, i as int));
                let next = WritesModel { phase: after_reply(writes.phase, applied), ..writes };
                lemma_carried_out_keeps(next, then);
                assert(is_member_key(writes, key));
                lemma_kept_further(writes, next, table, then, carried_out(next, then).1);
            }
        },
        WritePhase::Updating(i) => {
            if i < n {
                let key = member_key(writes, i as int);
                let (then, applied) = update_if_earlier(
                    table,
                    key,
                    member_row(writes, i as int),
                    writes.revision,
                );
                let next = WritesModel { phase: after_reply(writes.phase, applied), ..writes };
                lemma_carried_out_keeps(next, then);
                assert(is_member_key(writes, key));
                lemma_kept_further(writes, next, table, then, carried_out(next, then).1);
            }
        },
        WritePhase::Failed(_) => {},
    }
}

/// What is kept by one step and by the steps after it is kept by all of them; the phase does not
/// matter for whose rows are written.
proof fn lemma_kept_further(
    writes: WritesModel,
    next: WritesModel,
    table: OffsetsTable,
    then: OffsetsTable,
    after: OffsetsTable,
)
    requires
        next == (WritesModel { phase: next.phase, ..writes }),
        no_revision_fell(table, then),
        no_revision_fell(then, after),
        only_members_changed(writes, table, then),
        only_members_changed(next, then, after),
    ensures
        no_revision_fell(table, after),
        only_members_changed(writes, table, after),
{
    assert forall|key: OffsetsKey| #[trigger] table.contains_key(key) implies after.contains_key(
        key,
    ) && table[key].revision <= after[key].revision by {
        assert(then.contains_key(key));
    }
    assert forall|key: OffsetsKey| !#[trigger] is_member_key(writes, key) implies same_row(
        table,
        after,
        key,
    ) by {
        if is_member_key(next, key) {
            let i = choose|i: int|
                0 <= i < next.members.len() && #[trigger] member_key(next, i) == key;
            assert(member_key(writes, i) == key);
        }
        assert(same_row(table, then, key) && same_row(then, after, key));
    }
}

proof fn lemma_reply(writes: WritesModel, table: OffsetsTable, then: OffsetsTable, applied: bool)
    requires
        ascending_ids(writes.members),
        writes.phase is Inserting || writes.phase is Updating,
        place(writes.phase) < writes.members.len() <= usize::MAX,
        stored_so_far(writes, table),
        then == if applied {
            table.insert(
                member_key(writes, place(writes.phase)),
                member_row(writes, place(writes.phase)),
            )
        } else {
            table
        },
    ensures
        stored_so_far(
            WritesModel { phase: after_reply(writes.phase, applied), ..writes },
            then,
        ),
{
    let next = WritesModel { phase: after_reply(writes.phase, applied), ..writes };
    if applied {
        lemma_step_stores(writes, table, then, place(writes.phase) as usize);
    } else {
        assert forall|j: int| 0 <= j < place(next.phase) implies #[trigger] is_stored(
            next,
            then,
            j,
        ) by {
            assert(is_stored(writes, table, j));
        }
    }
}

proof fn lemma_statements_do_not_matter(a: WritesModel, b: WritesModel, table: OffsetsTable)
    requires
        a.members.len() <= usize::MAX,
        a == (WritesModel { insert: a.insert, update: a.update, ..b }),
    ensures
        carried_out(a, table) == carried_out(b, table),
    decreases steps_left(a),
{
    let n = a.members.len();
    match a.phase {
        WritePhase::Ready(i) => {
            if i < n {
                let phase = after_turn(a.phase, n);
                lemma_statements_do_not_matter(
                    WritesModel { phase, ..a },
                    WritesModel { phase, ..b },
                    table,
                );
            }
        },
        WritePhase::Inserting(i) => {
            if i < n {
                let key = member_key(a, i as int);
                let row = member_row(a, i as int);
                assert(key == member_key(b, i as int) && row == member_row(b, i as int));
                let (then, applied) = insert_if_absent(table, key, row);
                let phase = after_reply(a.phase, applied);
                lemma_statements_do_not_matter(
                    WritesModel { phase, ..a },
                    WritesModel { phase, ..b },
                    then,
                );
            }
        },
        WritePhase::Updating(i) => {
            if i < n {
                let key = member_key(a, i as int);
                let row = member_row(a, i as int);
                assert(key == member_key(b, i as int) && row == member_row(b, i as int));
                let (then, applied) = update_if_earlier(table, key, row, a.revision);
                let phase = after_reply(a.phase, applied);
                lemma_statements_do_not_matter(
                    WritesModel { phase, ..a },
                    WritesModel { phase, ..b },
                    then,
                );
            }
        },
        WritePhase::Failed(_) => {},
    }
}

/// Given what is read of the group, the store refuses to set offsets exactly where nothing is to be
/// written, and the writing it sets out on is the one that `set_offsets` carries out.
pub proof fn setting_follows_the_store(
    tables: Tables,
    consumer_group_id: ConsumerGroupId,
    producer_id: ProducerId,
    offsets: Map<ShardId, (ShardOffset, Slot)>,
    revision: i64,
    info: Option<ConsumerGroupInfo>,
    writes: WritesModel,
)
    requires
        reads_group(tables.groups, consumer_group_id, info),
        tables.groups[consumer_group_id].members.len() <= usize::MAX,
        offsets_refusal(producer_id, revision, info) is None ==> writes_offsets(
            writes,
            consumer_group_id,
            producer_id,
            offsets,
            revision,
            info->0.consumer_id_shard_assignments@,
        ),
    ensures
        set_offsets(tables, consumer_group_id, producer_id, offsets, revision)
            == if offsets_refusal(producer_id, revision, info) is Some {
            (tables, false)
        } else {
            let (phase, after) = carried_out(writes, tables.offsets);
            (Tables { offsets: after, ..tables }, phase is Ready)
        },
{
    if offsets_refusal(producer_id, revision, info) is None {
        lemma_statements_do_not_matter(
            writes,
            planned_writes(tables, consumer_group_id, producer_id, offsets, revision),
            tables.offsets,
        );
    }
}

/// Where the offsets are set, each member has the row of the offsets of its shards, at the revision
/// given, under the producer given.
pub proof fn setting_stores_every_member(
    tables: Tables,
    consumer_group_id: ConsumerGroupId,
    producer_id: ProducerId,
    offsets: Map<ShardId, (ShardOffset, Slot)>,
    revision: i64,
    i: int,
)
    requires
        ascending_ids(tables.groups[consumer_group_id].members),
        tables.groups[consumer_group_id].members.len() <= usize::MAX,
        set_offsets(tables, consumer_group_id, producer_id, offsets, revision).1,
        0 <= i < tables.groups[consumer_group_id].members.len(),
    ensures
        ({
            let after = set_offsets(tables, consumer_group_id, producer_id, offsets, revision).0;
            let (id, shards) = tables.groups[consumer_group_id].members[i];
            let key = (consumer_group_id, id, producer_id);
            &&& after.offsets.contains_key(key)
            &&& after.offsets[key].revision == revision
            &&& after.offsets[key].account_updates == offsets_of(offsets, shards)
            &&& after.offsets[key].transactions == offsets_of(offsets, shards)
        }),
{
    let writes = planned_writes(tables, consumer_group_id, producer_id, offsets, revision);
    lemma_carried_out_stores(writes, tables.offsets);
    let (phase, after) = carried_out(writes, tables.offsets);
    assert(is_stored(WritesModel { phase, ..writes }, after, i));
}

/// The row of a member is of the revision of the writing or of a later one.
pub open spec fn is_as_late(writes: WritesModel, table: OffsetsTable, i: int) -> bool {
    table.contains_key(member_key(writes, i)) && table[member_key(writes, i)].revision
        >= writes.revision
}

/// No member from the place that the writing has come to on has a row that is as late.
spec fn rest_is_earlier(writes: WritesModel, table: OffsetsTable) -> bool {
    forall|i: int|
        place(writes.phase) <= i < writes.members.len() ==> !#[trigger] is_as_late(writes, table, i)
}

proof fn lemma_rest_after_write(
    writes: WritesModel,
    next: WritesModel,
    table: OffsetsTable,
    i: usize,
)
    requires
        ascending_ids(writes.members),
        i < writes.members.len() <= usize::MAX,
        place(writes.phase) == i,
        next == (WritesModel { phase: WritePhase::Ready((i + 1) as usize), ..writes }),
        !is_as_late(writes, table, i as int),
    ensures
        rest_is_earlier(writes, table) == rest_is_earlier(
            next,
            table.insert(member_key(writes, i as int), member_row(writes, i as int)),
        ),
{
    let then = table.insert(member_key(writes, i as int), member_row(writes, i as int));
    assert forall|j: int| i < j < writes.members.len() implies #[trigger] is_as_late(
        writes,
        table,
        j,
    ) == is_as_late(next, then, j) by {
        assert(id_lt(writes.members[i as int].0, writes.members[j].0));
    }
    if rest_is_earlier(writes, table) {
        assert forall|j: int| place(next.phase) <= j < next.members.len() implies !#[trigger] is_as_late(
            next,
            then,
            j,
        ) by {
            assert(!is_as_late(writes, table, j));
        }
    }
    if rest_is_earlier(next, then) {
        assert forall|j: int| i <= j < writes.members.len() implies !#[trigger] is_as_late(
            writes,
            table,
            j,
        ) by {
            if i < j {
                assert(!is_as_late(next, then, j));
            }
        }
    }
}

proof fn lemma_same_rest(writes: WritesModel, next: WritesModel, table: OffsetsTable)
    requires
        next == (WritesModel { phase: next.phase, ..writes }),
        place(next.phase) == place(writes.phase),
    ensures
        rest_is_earlier(writes, table) == rest_is_earlier(next, table),
{
    assert forall|i: int| #[trigger] is_as_late(writes, table, i) == is_as_late(next, table, i) by {}
    if rest_is_earlier(writes, table) {
        assert forall|i: int| place(next.phase) <= i < next.members.len() implies !#[trigger] is_as_late(
            next,
            table,
            i,
        ) by {
            assert(!is_as_late(writes, table, i));
        }
    }
    if rest_is_earlier(next, table) {
        assert forall|i: int|
            place(writes.phase) <= i < writes.members.len() implies !#[trigger] is_as_late(
            writes,
            table,
            i,
        ) by {
            assert(!is_as_late(next, table, i));
        }
    }
}

proof fn lemma_carried_out_succeeds(writes: WritesModel, table: OffsetsTable)
    requires
        ascending_ids(writes.members),
        writes.members.len() <= usize::MAX,
        place(writes.phase) <= writes.members.len(),
        !(writes.phase is Ready) ==> place(writes.phase) < writes.members.len(),
        !(writes.phase is Failed),
        writes.phase is Updating ==> table.contains_key(member_key(writes, place(writes.phase))),
    ensures
        carried_out(writes, table).0 is Ready == rest_is_earlier(writes, table),
    decreases steps_left(writes),
{
    let n = writes.members.len();
    match writes.phase {
        WritePhase::Ready(i) => {
            if i < n {
                let next = WritesModel { phase: after_turn(writes.phase, n), ..writes };
                lemma_carried_out_succeeds(next, table);
                lemma_same_rest(writes, next, table);
            }
        },
        WritePhase::Inserting(i) => {
            let (then, applied) = insert_if_absent(
                table,
                member_key(writes, i as int),
                member_row(writes, i as int),
            );
            let next = WritesModel { phase: after_reply(writes.phase, applied), ..writes };
            lemma_carried_out_succeeds(next, then);
            if applied {
                lemma_rest_after_write(writes, next, table, i);
            } else {
                lemma_same_rest(writes, next, table);
            }
        },
        WritePhase::Updating(i) => {
            let (then, applied) = update_if_earlier(
                table,
                member_key(writes, i as int),
                member_row(writes, i as int),
                writes.revision,
            );
            let next = WritesModel { phase: after_reply(writes.phase, applied), ..writes };
            if applied {
                lemma_carried_out_succeeds(next, then);
                lemma_rest_after_write(writes, next, table, i);
            } else {
                assert(is_as_late(writes, table, i as int));
                assert(carried_out(next, then) == (next.phase, then));
            }
        },
        WritePhase::Failed(_) => {},
    }
}

/// Setting the offsets of a group that exists, is not of a later revision and reads from the
/// producer given succeeds exactly where no member has a row of the revision given or of a later
/// one.
pub proof fn setting_succeeds_unless_a_row_is_as_late(
    tables: Tables,
    consumer_group_id: ConsumerGroupId,
    producer_id: ProducerId,
    offsets: Map<ShardId, (ShardOffset, Slot)>,
    revision: i64,
)
    requires
        tables.groups.contains_key(consumer_group_id),
        tables.groups[consumer_group_id].revision <= revision,
        tables.groups[consumer_group_id].producer_id == Some(producer_id),
        ascending_ids(tables.groups[consumer_group_id].members),
        tables.groups[consumer_group_id].members.len() <= usize::MAX,
    ensures
        set_offsets(tables, consumer_group_id, producer_id, offsets, revision).1 <==> forall|i: int|
            0 <= i < tables.groups[consumer_group_id].members.len() ==> !#[trigger] is_as_late(
                planned_writes(tables, consumer_group_id, producer_id, offsets, revision),
                tables.offsets,
                i,
            ),
{
    lemma_carried_out_succeeds(
        planned_writes(tables, consumer_group_id, producer_id, offsets, revision),
        tables.offsets,
    );
}

/// Setting offsets, whether it succeeds or not, takes no row away, takes none back to an earlier
/// revision, and changes only rows of the members under the producer given. No group changes.
pub proof fn setting_keeps_revisions_and_other_rows(
    tables: Tables,
    consumer_group_id: ConsumerGroupId,
    producer_id: ProducerId,
    offsets: Map<ShardId, (ShardOffset, Slot)>,
    revision: i64,
)
    requires
        tables.groups[consumer_group_id].members.len() <= usize::MAX,
    ensures
        ({
            let after = set_offsets(tables, consumer_group_id, producer_id, offsets, revision).0;
            &&& after.groups == tables.groups
            &&& no_revision_fell(tables.offsets, after.offsets)
            &&& only_members_changed(
                planned_writes(tables, consumer_group_id, producer_id, offsets, revision),
                tables.offsets,
                after.offsets,
            )
        }),
{
    lemma_carried_out_keeps(
        planned_writes(tables, consumer_group_id, producer_id, offsets, revision),
        tables.offsets,
    );
}

/// Once the offsets of a group with members have been set at some revision, an equal or earlier
/// revision is refused and changes nothing, as long as the group has the same members, whatever
/// was set in between.
pub proof fn earlier_setting_is_refused(
    before: Tables,
    later: Tables,
    consumer_group_id: ConsumerGroupId,
    producer_id: ProducerId,
    offsets: Map<ShardId, (ShardOffset, Slot)>,
    revision: i64,
    other_offsets: Map<ShardId, (ShardOffset, Slot)>,
    other_revision: i64,
)
    requires
        ascending_ids(before.groups[consumer_group_id].members),
        0 < before.groups[consumer_group_id].members.len() <= usize::MAX,
        set_offsets(before, consumer_group_id, producer_id, offsets, revision).1,
        later.groups[consumer_group_id].members == before.groups[consumer_group_id].members,
        no_revision_fell(
            set_offsets(before, consumer_group_id, producer_id, offsets, revision).0.offsets,
            later.offsets,
        ),
        other_revision <= revision,
    ensures
        set_offsets(later, consumer_group_id, producer_id, other_offsets, other_revision) == (
            later,
            false,
        ),
{
    setting_stores_every_member(before, consumer_group_id, producer_id, offsets, revision, 0);
    let after = set_offsets(before, consumer_group_id, producer_id, offsets, revision).0.offsets;
    let writes = planned_writes(
        later,
        consumer_group_id,
        producer_id,
        other_offsets,
        other_revision,
    );
    assert(after.contains_key(member_key(writes, 0)));
    reveal_with_fuel(carried_out, 4);
    assert(carried_out(writes, later.offsets) == (WritePhase::Failed(0), later.offsets));
}

/// Once the offsets of a group with members have been set at some revision, setting them again at
/// an equal or earlier revision is refused, and every row stays as the first setting wrote it.
pub proof fn repeated_setting_is_refused(
    tables: Tables,
    consumer_group_id: ConsumerGroupId,
    producer_id: ProducerId,
    offsets: Map<ShardId, (ShardOffset, Slot)>,
    revision: i64,
    other_offsets: Map<ShardId, (ShardOffset, Slot)>,
    other_revision: i64,
)
    requires
        ascending_ids(tables.groups[consumer_group_id].members),
        0 < tables.groups[consumer_group_id].members.len() <= usize::MAX,
        set_offsets(tables, consumer_group_id, producer_id, offsets, revision).1,
        other_revision <= revision,
    ensures
        ({
            let after = set_offsets(tables, consumer_group_id, producer_id, offsets, revision).0;
            set_offsets(after, consumer_group_id, producer_id, other_offsets, other_revision) == (
                after,
                false,
            )
        }),
{
    let after = set_offsets(tables, consumer_group_id, producer_id, offsets, revision).0;
    earlier_setting_is_refused(
        tables,
        after,
        consumer_group_id,
        producer_id,
        offsets,
        revision,
        other_offsets,
        other_revision,
    );
}

/// What was set is read back: once the offsets of a group have been set, reading those of a member
/// with shards gives the offsets of its shards at the revision set, for account updates and for
/// transactions alike.
pub proof fn set_offsets_are_read_back(
    tables: Tables,
    consumer_group_id: ConsumerGroupId,
    producer_id: ProducerId,
    offsets: Map<ShardId, (ShardOffset, Slot)>,
    revision: i64,
    i: int,
    event_type: BlockchainEventType,
)
    requires
        ascending_ids(tables.groups[consumer_group_id].members),
        tables.groups[consumer_group_id].members.len() <= usize::MAX,
        set_offsets(tables, consumer_group_id, producer_id, offsets, revision).1,
        0 <= i < tables.groups[consumer_group_id].members.len(),
        tables.groups[consumer_group_id].members[i].1.len() > 0,
        covers(offsets, tables.groups[consumer_group_id].members[i].1),
    ensures
        ({
            let after = set_offsets(tables, consumer_group_id, producer_id, offsets, revision).0;
            let (id, shards) = tables.groups[consumer_group_id].members[i];
            read_offsets(after.offsets, (consumer_group_id, id, producer_id), event_type) == Some(
                (revision, offsets_of(offsets, shards)),
            )
        }),
{
    setting_stores_every_member(tables, consumer_group_id, producer_id, offsets, revision, i);
    let shards = tables.groups[consumer_group_id].members[i].1;
    assert(shards.to_set().contains(shards[0]));
    assert(offsets_of(offsets, shards).contains_key(shards[0]));
}

/// What was set is listed: once the offsets of a group have been set, the entries of its members
/// are those that the setting leaves behind.
pub proof fn set_offsets_are_listed(
    tables: Tables,
    consumer_group_id: ConsumerGroupId,
    producer_id: ProducerId,
    offsets: Map<ShardId, (ShardOffset, Slot)>,
    revision: i64,
    rows: Seq<MemberOffsets>,
)
    requires
        ascending_ids(tables.groups[consumer_group_id].members),
        tables.groups[consumer_group_id].members.len() <= usize::MAX,
        set_offsets(tables, consumer_group_id, producer_id, offsets, revision).1,
        rows.len() == tables.groups[consumer_group_id].members.len(),
        forall|i: int|
            0 <= i < rows.len() ==> reads_member(
                set_offsets(tables, consumer_group_id, producer_id, offsets, revision).0.offsets,
                (
                    consumer_group_id,
                    tables.groups[consumer_group_id].members[i].0,
                    producer_id,
                ),
                #[trigger] rows[i],
            ),
    ensures
        hold_offsets(rows, tables.groups[consumer_group_id].members, offsets, revision),
{
    let members = tables.groups[consumer_group_id].members;
    assert forall|i: int| 0 <= i < rows.len() implies {
        &&& (#[trigger] rows[i]).1 == revision
        &&& rows[i].2@ == offsets_of(offsets, members[i].1)
        &&& rows[i].3@ == offsets_of(offsets, members[i].1)
    } by {
        setting_stores_every_member(tables, consumer_group_id, producer_id, offsets, revision, i);
    }
}

/// Once the producer of a group has been updated at some revision, an update at an equal or earlier
/// revision is refused and changes no group.
pub proof fn repeated_producer_update_is_refused(
    groups: GroupsTable,
    consumer_group_id: ConsumerGroupId,
    producer_id: ProducerId,
    revision: i64,
    other_producer_id: ProducerId,
    other_revision: i64,
)
    requires
        update_group(groups, (producer_id, revision, consumer_group_id, revision)).1,
        other_revision <= revision,
    ensures
        ({
            let after = update_group(
                groups,
                (producer_id, revision, consumer_group_id, revision),
            ).0;
            update_group(
                after,
                (other_producer_id, other_revision, consumer_group_id, other_revision),
            ) == (after, false)
        }),
{
}

/// Of several producer updates of one group, those that are applied are of ever later revisions,
/// each later than the one the group began with.
pub proof fn applied_producer_updates_raise_the_revision(
    groups: GroupsTable,
    consumer_group_id: ConsumerGroupId,
    updates: Seq<(ProducerId, i64)>,
)
    ensures
        ({
            let (after, applied) = update_producers(groups, consumer_group_id, updates);
            &&& applied.len() == updates.len()
            &&& after.contains_key(consumer_group_id) == groups.contains_key(consumer_group_id)
            &&& groups[consumer_group_id].revision <= after[consumer_group_id].revision
            &&& forall|i: int|
                0 <= i < updates.len() && #[trigger] applied[i]
                    ==> groups[consumer_group_id].revision < updates[i].1
                    <= after[consumer_group_id].revision
            &&& forall|i: int, j: int|
                0 <= i < j < updates.len() && #[trigger] applied[i] && #[trigger] applied[j]
                    ==> updates[i].1 < updates[j].1
        }),
    decreases updates.len(),
{
    if updates.len() > 0 {
        let front = updates.drop_last();
        applied_producer_updates_raise_the_revision(groups, consumer_group_id, front);
        let (before, applied_before) = update_producers(groups, consumer_group_id, front);
        let (after, applied) = update_producers(groups, consumer_group_id, updates);
        assert forall|i: int| 0 <= i < front.len() implies #[trigger] applied[i]
            == applied_before[i] && updates[i] == front[i] by {}
    }
}

/// A new group is read back as it was returned: once it is stored and the offsets of its members
/// were set, a read that succeeds finds it, with the fields of what was returned. Of the event
/// types, it is the same ones that are read back.
pub proof fn created_group_is_read_back(
    before: Tables,
    inserted: GroupsTable,
    values: GroupValues,
    creation: GroupCreation,
    producer_id: ProducerId,
    info: ConsumerGroupInfo,
    offsets: Map<ShardId, (ShardOffset, Slot)>,
    read: Option<ConsumerGroupInfo>,
)
    requires
        inserts_group(values, creation, producer_id),
        describes_group(info, creation, producer_id),
        group_inserted(before.groups, inserted, values),
        reads_group(
            set_offsets(
                Tables { groups: inserted, ..before },
                info.consumer_group_id,
                producer_id,
                offsets,
                info.revision,
            ).0.groups,
            info.consumer_group_id,
            read,
        ),
    ensures
        read is Some,
        read->0.consumer_group_id == info.consumer_group_id,
        read->0.group_type == info.group_type,
        read->0.producer_id == info.producer_id,
        read->0.revision == info.revision == 0,
        read->0.commitment_level == info.commitment_level,
        read->0.subscribed_event_types@.to_set() == info.subscribed_event_types@.to_set(),
        read->0.consumer_id_shard_assignments@ == info.consumer_id_shard_assignments@,
        read->0.last_access_ip_address == info.last_access_ip_address,
        read->0.translation_strategy == info.translation_strategy,
{
    assert(before.groups.insert(values.0, inserted[values.0]).contains_key(values.0));
}

/// A producer update that is applied is read back: the group has the producer and the revision of
/// the update, which is later than the one read before, and is otherwise as it was.
pub proof fn updated_producer_is_read_back(
    groups: GroupsTable,
    consumer_group_id: ConsumerGroupId,
    producer_id: ProducerId,
    revision: i64,
    earlier: ConsumerGroupInfo,
    read: Option<ConsumerGroupInfo>,
)
    requires
        reads_group(groups, consumer_group_id, Some(earlier)),
        update_group(groups, (producer_id, revision, consumer_group_id, revision)).1,
        reads_group(
            update_group(groups, (producer_id, revision, consumer_group_id, revision)).0,
            consumer_group_id,
            read,
        ),
    ensures
        read is Some,
        read->0.producer_id == Some(producer_id),
        read->0.revision == revision,
        earlier.revision < revision,
        read->0.consumer_group_id == earlier.consumer_group_id,
        read->0.group_type == earlier.group_type,
        read->0.commitment_level == earlier.commitment_level,
        read->0.subscribed_event_types@ == earlier.subscribed_event_types@,
        read->0.consumer_id_shard_assignments@ == earlier.consumer_id_shard_assignments@,
        read->0.last_access_ip_address == earlier.last_access_ip_address,
        read->0.translation_strategy == earlier.translation_strategy,
{
}

/// Where the offsets are set, a read of a member with shards gives, at each of its shards, the pair
/// given for that shard, offset and slot alike, and holds no other shard.
pub proof fn pairs_given_are_read_back(
    tables: Tables,
    consumer_group_id: ConsumerGroupId,
    producer_id: ProducerId,
    offsets: Map<ShardId, (ShardOffset, Slot)>,
    revision: i64,
    i: int,
    event_type: BlockchainEventType,
    shard: ShardId,
)
    requires
        ascending_ids(tables.groups[consumer_group_id].members),
        tables.groups[consumer_group_id].members.len() <= usize::MAX,
        set_offsets(tables, consumer_group_id, producer_id, offsets, revision).1,
        0 <= i < tables.groups[consumer_group_id].members.len(),
        tables.groups[consumer_group_id].members[i].1.len() > 0,
        forall|j: int|
            0 <= j < tables.groups[consumer_group_id].members[i].1.len() ==> offsets.contains_key(
                #[trigger] tables.groups[consumer_group_id].members[i].1[j],
            ),
    ensures
        ({
            let after = set_offsets(tables, consumer_group_id, producer_id, offsets, revision).0;
            let (id, shards) = tables.groups[consumer_group_id].members[i];
            let read = read_offsets(
                after.offsets,
                (consumer_group_id, id, producer_id),
                event_type,
            );
            let (found_revision, found) = read->0;
            &&& read is Some
            &&& found_revision == revision
            &&& found.contains_key(shard) == shards.contains(shard)
            &&& shards.contains(shard) ==> found[shard] == offsets[shard]
        }),
{
    set_offsets_are_read_back(
        tables,
        consumer_group_id,
        producer_id,
        offsets,
        revision,
        i,
        event_type,
    );
}

/// A read of the offsets of a member names the group, the member and the producer given, and runs
/// the statement of the type of event given, at consistency `SERIAL`.
pub proof fn offsets_are_read_where_asked(
    store: &ScyllaConsumerGroupStore,
    consumer_group_id: &ConsumerGroupId,
    consumer_id: &ConsumerId,
    producer_id: &ProducerId,
    event_type: BlockchainEventType,
    query: Query<(ConsumerGroupId, ConsumerId, ProducerId)>,
)
    requires
        call_ensures(
            ScyllaConsumerGroupStore::get_shard_offset_map,
            (store, consumer_group_id, consumer_id, producer_id, event_type),
            query,
        ),
    ensures
        event_type == BlockchainEventType::AccountUpdate ==> query.statement.cql@
            == GET_ACC_UPDATE_SHARD_OFFSET@,
        event_type == BlockchainEventType::NewTransaction ==> query.statement.cql@
            == GET_NEW_TX_SHARD_OFFSET@,
        query.statement.serial,
        query.values.0 == *consumer_group_id,
        query.values.1@ == consumer_id@,
        query.values.2 == *producer_id,
{
}

/// A read of a group names the group given, at consistency `SERIAL`.
pub proof fn group_is_read_where_asked(
    store: &ScyllaConsumerGroupStore,
    consumer_group_id: &ConsumerGroupId,
    query: Query<(ConsumerGroupId,)>,
)
    requires
        call_ensures(
            ScyllaConsumerGroupStore::get_consumer_group_info,
            (store, consumer_group_id),
            query,
        ),
    ensures
        query.statement.cql@ == GET_STATIC_CONSUMER_GROUP@,
        query.statement.serial,
        query.values.0 == *consumer_group_id,
{
}

/// A producer update acts on the group given alone, and exactly where that group is of an earlier
/// revision than the one given: it then reads from the producer given, at the revision given. The
/// caller is told that it succeeded exactly where it did.
pub proof fn producer_update_does_what_was_asked(
    store: &ScyllaConsumerGroupStore,
    consumer_group_id: &ConsumerGroupId,
    producer_id: &ProducerId,
    revision: i64,
    query: Query<(ProducerId, i64, ConsumerGroupId, i64)>,
    groups: GroupsTable,
    r: Result<(), StoreError>,
    other: ConsumerGroupId,
)
    requires
        call_ensures(
            ScyllaConsumerGroupStore::update_consumer_group_producer,
            (store, consumer_group_id, producer_id, revision),
            query,
        ),
        call_ensures(
            ScyllaConsumerGroupStore::confirm_producer_update,
            (LwtResult(update_group(groups, query.values).1),),
            r,
        ),
    ensures
        query.statement.cql@ == UPDATE_STATIC_CONSUMER_GROUP@,
        !query.statement.serial,
        ({
            let after = update_group(groups, query.values).0;
            let applies = groups.contains_key(*consumer_group_id)
                && groups[*consumer_group_id].revision < revision;
            &&& applies ==> r is Ok && after.contains_key(*consumer_group_id)
                && after[*consumer_group_id].producer_id == Some(*producer_id)
                && after[*consumer_group_id].revision == revision
            &&& !applies ==> r is Err && r->Err_0 == StoreError::ProducerNotUpdated && after
                == groups
            &&& other != *consumer_group_id ==> after.contains_key(other) == groups.contains_key(
                other,
            ) && (groups.contains_key(other) ==> after[other] == groups[other])
        }),
{
}

/// The first offsets of the members of a group are asked for under its id and producer, where it
/// is to start, and are stored at its revision.
pub proof fn first_offsets_are_those_of_the_group(
    store: &ScyllaConsumerGroupStore,
    info: &ConsumerGroupInfo,
    seek_loc: SeekLocation,
    r: MembersCreation,
)
    requires
        info.producer_id is Some,
        call_ensures(
            ScyllaConsumerGroupStore::create_static_group_members,
            (store, info, seek_loc),
            r,
        ),
    ensures
        r.consumer_group_id == info.consumer_group_id,
        r.producer_id == info.producer_id->0,
        r.seek_loc == seek_loc,
        r.revision == info.revision,
{
}

/// Creating a group is begun with what was asked for: the producer is chosen by the slots and the
/// commitment level given, and the id is that of a random UUID, with a 4 in the upper half of its
/// seventh byte and the bits 10 at the start of its ninth.
pub proof fn creation_is_begun_as_asked(
    store: &ScyllaConsumerGroupStore,
    consumer_ids: &[ConsumerId],
    commitment_level: CommitmentLevel,
    events: &[BlockchainEventType],
    initial_offset: SeekLocation,
    remote_ip_addr: Option<IpAddress>,
    translation_strategy: Option<TranslationStrategy>,
    creation: GroupCreation,
    criteria: (Option<SlotRange>, CommitmentLevel),
)
    requires
        call_ensures(
            ScyllaConsumerGroupStore::create_static_consumer_group,
            (
                store,
                consumer_ids,
                commitment_level,
                events,
                initial_offset,
                remote_ip_addr,
                translation_strategy,
            ),
            creation,
        ),
        call_ensures(GroupCreation::producer_criteria, (&creation,), criteria),
    ensures
        creation.consumer_group_id@[6] / 16 == 4,
        creation.consumer_group_id@[8] / 64 == 2,
        initial_offset == SeekLocation::Earliest ==> criteria.0 is None,
        initial_offset == SeekLocation::Latest ==> criteria.0 is None,
        initial_offset is SlotApprox ==> criteria.0 == Some(initial_offset->SlotApprox_0),
        criteria.1 == commitment_level,
        creation.initial_offset == initial_offset,
{
    producer_is_chosen_by_the_slots_asked_for(&creation, criteria);
}

/// From the arguments to what is stored and returned: a group that is created is inserted, and
/// returned, with the consumers, commitment level, event types, address and strategy asked for, as
/// a static group at revision 0 with the producer chosen.
pub proof fn created_group_is_the_one_asked_for(
    store: &ScyllaConsumerGroupStore,
    consumer_ids: &[ConsumerId],
    commitment_level: CommitmentLevel,
    events: &[BlockchainEventType],
    initial_offset: SeekLocation,
    remote_ip_addr: Option<IpAddress>,
    translation_strategy: Option<TranslationStrategy>,
    creation: GroupCreation,
    producer_id: ProducerId,
    query: Query<GroupValues>,
    info: ConsumerGroupInfo,
)
    requires
        call_ensures(
            ScyllaConsumerGroupStore::create_static_consumer_group,
            (
                store,
                consumer_ids,
                commitment_level,
                events,
                initial_offset,
                remote_ip_addr,
                translation_strategy,
            ),
            creation,
        ),
        call_ensures(
            ScyllaConsumerGroupStore::insert_group,
            (store, &creation, producer_id),
            query,
        ),
        call_ensures(GroupCreation::into_info, (creation, producer_id), info),
    ensures
        query.statement.cql@ == CREATE_STATIC_CONSUMER_GROUP@,
        !query.statement.serial,
        query.values.0 == creation.consumer_group_id,
        query.values.1 == ConsumerGroupType::Static,
        query.values.2 == producer_id,
        query.values.3 == commitment_level,
        query.values.4@ == events@,
        query.values.5@ == creation.shard_assignments@,
        query.values.6 == remote_ip_addr,
        query.values.7 == 0,
        query.values.8 == translation_strategy,
        info.consumer_group_id == creation.consumer_group_id,
        info.group_type == ConsumerGroupType::Static,
        info.producer_id == Some(producer_id),
        info.revision == 0,
        info.commitment_level == commitment_level,
        info.subscribed_event_types@ == events@,
        info.consumer_id_shard_assignments@ == creation.shard_assignments@,
        info.last_access_ip_address == remote_ip_addr,
        info.translation_strategy == translation_strategy,
{
}

/// From the arguments to the row: a group that was created is read back with the commitment level,
/// event types, address and strategy asked for, as a static group at revision 0 with the producer
/// chosen, also after the offsets of its members were set.
pub proof fn group_asked_for_is_read_back(
    store: &ScyllaConsumerGroupStore,
    consumer_ids: &[ConsumerId],
    commitment_level: CommitmentLevel,
    events: &[BlockchainEventType],
    initial_offset: SeekLocation,
    remote_ip_addr: Option<IpAddress>,
    translation_strategy: Option<TranslationStrategy>,
    creation: GroupCreation,
    producer_id: ProducerId,
    query: Query<GroupValues>,
    before: Tables,
    inserted: GroupsTable,
    offsets: Map<ShardId, (ShardOffset, Slot)>,
    read: Option<ConsumerGroupInfo>,
)
    requires
        call_ensures(
            ScyllaConsumerGroupStore::create_static_consumer_group,
            (
                store,
                consumer_ids,
                commitment_level,
                events,
                initial_offset,
                remote_ip_addr,
                translation_strategy,
            ),
            creation,
        ),
        call_ensures(
            ScyllaConsumerGroupStore::insert_group,
            (store, &creation, producer_id),
            query,
        ),
        group_inserted(before.groups, inserted, query.values),
        reads_group(
            set_offsets(
                Tables { groups: inserted, ..before },
                creation.consumer_group_id,
                producer_id,
                offsets,
                0,
            ).0.groups,
            creation.consumer_group_id,
            read,
        ),
    ensures
        read is Some,
        read->0.consumer_group_id == creation.consumer_group_id,
        read->0.group_type == ConsumerGroupType::Static,
        read->0.producer_id == Some(producer_id),
        read->0.revision == 0,
        read->0.commitment_level == commitment_level,
        forall|event: BlockchainEventType|
            read->0.subscribed_event_types@.contains(event) == #[trigger] events@.contains(event),
        read->0.consumer_id_shard_assignments@ == creation.shard_assignments@,
        read->0.last_access_ip_address == remote_ip_addr,
        read->0.translation_strategy == translation_strategy,
{
    let id = creation.consumer_group_id;
    assert(before.groups.insert(id, inserted[id]).contains_key(id));
    assert forall|event: BlockchainEventType|
        read->0.subscribed_event_types@.contains(event) == #[trigger] events@.contains(event) by {
        assert(read->0.subscribed_event_types@.to_set().contains(event)
            == events@.to_set().contains(event));
    }
}

} // verus!
