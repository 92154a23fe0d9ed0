//! What holds of every way of dealing shards out to consumers.

use vstd::prelude::*;
use vstd::relations::injective_on;
use vstd::relations::sorted_by;
use vstd::seq_lib::{to_multiset_contains, to_multiset_remove};
use vstd::set_lib::{lemma_int_range, lemma_map_size, lemma_subset_equality, set_int_range};

use crate::assignment::{
    ascending_ids, assign_shards, count_up_to, dealt_shards, entries_map, lemma_chunk_fits,
    lemma_count_up_to_bounds, lemma_entry_in_map, lists_id, shard_chunk,
    ShardAssignments,
};
use crate::consumer_id::{
    id_le, id_lt, id_views, lemma_id_le_antisymmetric, lemma_id_le_total, lemma_id_le_transitive,
    ConsumerId,
};
use crate::creation::GroupCreation;
use crate::store::ScyllaConsumerGroupStore;
use crate::types::{
    BlockchainEventType, CommitmentLevel, IpAddress, SeekLocation, ShardId, TranslationStrategy,
};

verus! {

/// Every consumer, and nobody else, is dealt shards; each is dealt the same number, and at least
/// one.
pub proof fn shares_are_equal(ids: Seq<Seq<char>>, num_shards: int)
    requires
        0 < ids.len() <= num_shards,
    ensures
        dealt_shards(ids, num_shards).dom() == ids.to_set(),
        num_shards / ids.len() as int >= 1,
        forall|id: Seq<char>| #[trigger]
            ids.contains(id) ==> dealt_shards(ids, num_shards)[id].len() == num_shards
                / ids.len() as int,
{
    assert(dealt_shards(ids, num_shards).dom() =~= ids.to_set());
    lemma_chunk_fits(0, ids.len() as int, num_shards);
}

proof fn lemma_count_up_to_monotone(ids: Seq<Seq<char>>, a: Seq<char>, b: Seq<char>)
    requires
        id_le(a, b),
    ensures
        count_up_to(ids, a) <= count_up_to(ids, b),
        ids.contains(b) && a != b ==> count_up_to(ids, a) < count_up_to(ids, b),
    decreases ids.len(),
{
    if ids.len() > 0 {
        let rest = ids.drop_last();
        lemma_count_up_to_monotone(rest, a, b);
        if id_le(ids.last(), a) {
            lemma_id_le_transitive(ids.last(), a, b);
        }
        if ids.contains(b) && a != b {
            let i = choose|i: int| 0 <= i < ids.len() && ids[i] == b;
            if i < rest.len() {
                assert(rest[i] == b);
            } else {
                lemma_id_le_total(b, b);
                if id_le(b, a) {
                    lemma_id_le_antisymmetric(a, b);
                }
            }
        }
    }
}

proof fn lemma_shard_numbers_distinct(x: int, y: int)
    requires
        0 <= x < 0x10000,
        0 <= y < 0x10000,
        x as ShardId == y as ShardId,
    ensures
        x == y,
{
    let a = x as u32;
    let b = y as u32;
    assert(a < 0x10000 && b < 0x10000 && a as i16 == b as i16 ==> a == b) by (bit_vector);
}

/// A consumer that comes later in the order is dealt later shards: no shard number of `a` reaches
/// those of `b`.
pub proof fn shards_follow_id_order(
    ids: Seq<Seq<char>>,
    num_shards: int,
    a: Seq<char>,
    b: Seq<char>,
)
    requires
        0 < ids.len() <= num_shards,
        ids.contains(a),
        ids.contains(b),
        id_lt(a, b),
    ensures
        ({
            let size = num_shards / ids.len() as int;
            let first_of_a = (count_up_to(ids, a) - 1) * size;
            let first_of_b = (count_up_to(ids, b) - 1) * size;
            &&& 0 <= first_of_a
            &&& first_of_a + size <= first_of_b
            &&& first_of_b + size <= ids.len() * size <= num_shards
            &&& dealt_shards(ids, num_shards)[a] == Seq::new(
                size as nat,
                |j: int| (first_of_a + j) as ShardId,
            )
            &&& dealt_shards(ids, num_shards)[b] == Seq::new(
                size as nat,
                |j: int| (first_of_b + j) as ShardId,
            )
        }),
{
    let size = num_shards / ids.len() as int;
    let ca = count_up_to(ids, a) - 1;
    let cb = count_up_to(ids, b) - 1;
    lemma_count_up_to_monotone(ids, a, b);
    lemma_count_up_to_bounds(ids, a);
    lemma_count_up_to_bounds(ids, b);
    lemma_chunk_fits(ca, ids.len() as int, num_shards);
    lemma_chunk_fits(cb, ids.len() as int, num_shards);
    assert(ca * size + size <= cb * size) by (nonlinear_arith)
        requires
            ca + 1 <= cb,
            size >= 1,
    ;
}

/// No shard is dealt to two consumers, as long as the shards dealt have different numbers as
/// `ShardId`, of which there are `0x10000`.
pub proof fn no_shard_is_dealt_twice(
    ids: Seq<Seq<char>>,
    num_shards: int,
    a: Seq<char>,
    b: Seq<char>,
    shard: ShardId,
)
    requires
        0 < ids.len() <= num_shards,
        ids.len() * (num_shards / ids.len() as int) <= 0x10000,
        ids.contains(a),
        ids.contains(b),
        dealt_shards(ids, num_shards)[a].contains(shard),
        dealt_shards(ids, num_shards)[b].contains(shard),
    ensures
        a == b,
{
    if a != b {
        lemma_id_le_total(a, b);
        let size = num_shards / ids.len() as int;
        let ca = count_up_to(ids, a) - 1;
        let cb = count_up_to(ids, b) - 1;
        if id_le(a, b) {
            shards_follow_id_order(ids, num_shards, a, b);
        } else {
            shards_follow_id_order(ids, num_shards, b, a);
        }
        let sa = dealt_shards(ids, num_shards)[a];
        let sb = dealt_shards(ids, num_shards)[b];
        let i = choose|i: int| 0 <= i < sa.len() && sa[i] == shard;
        let j = choose|j: int| 0 <= j < sb.len() && sb[j] == shard;
        lemma_shard_numbers_distinct(ca * size + i, cb * size + j);
    }
}

/// With different ids, each place in their order is taken.
proof fn lemma_place_taken(ids: Seq<Seq<char>>, place: int) -> (id: Seq<char>)
    requires
        ids.no_duplicates(),
        0 <= place < ids.len(),
    ensures
        ids.contains(id),
        count_up_to(ids, id) == place + 1,
{
    let f = |id: Seq<char>| count_up_to(ids, id) as int;
    let all = ids.to_set();
    let places = all.map(f);
    let range = set_int_range(1, ids.len() as int + 1);
    ids.unique_seq_to_set();
    assert forall|a: Seq<char>, b: Seq<char>|
        all.contains(a) && all.contains(b) && #[trigger] f(a) == #[trigger] f(b) implies a == b by {
        lemma_id_le_total(a, b);
        if id_le(a, b) {
            lemma_count_up_to_monotone(ids, a, b);
        } else {
            lemma_count_up_to_monotone(ids, b, a);
        }
    }
    assert(injective_on(f, all));
    vstd::seq_lib::seq_to_set_is_finite(ids);
    lemma_map_size(all, places, f);
    lemma_int_range(1, ids.len() as int + 1);
    assert forall|p: int| places.contains(p) implies range.contains(p) by {
        let id = choose|id: Seq<char>| all.contains(id) && f(id) == p;
        lemma_count_up_to_bounds(ids, id);
    }
    lemma_subset_equality(places, range);
    assert(places.contains(place + 1));
    choose|id: Seq<char>| all.contains(id) && f(id) == place + 1
}

/// With different ids, each of the first `ids.len() * (num_shards / ids.len())` shards is dealt to
/// some consumer.
pub proof fn every_dealt_shard_has_a_consumer(
    ids: Seq<Seq<char>>,
    num_shards: int,
    shard: int,
) -> (id: Seq<char>)
    requires
        0 < ids.len() <= num_shards,
        ids.no_duplicates(),
        0 <= shard < ids.len() * (num_shards / ids.len() as int),
    ensures
        ids.contains(id),
        dealt_shards(ids, num_shards)[id].contains(shard as ShardId),
{
    let count = ids.len() as int;
    let size = num_shards / count;
    lemma_chunk_fits(0, count, num_shards);
    let place = shard / size;
    assert(0 <= place < count && place * size <= shard < place * size + size) by (nonlinear_arith)
        requires
            0 <= shard < count * size,
            size >= 1,
            place == shard / size,
    ;
    let id = lemma_place_taken(ids, place);
    let chunk = shard_chunk(place, size);
    assert(chunk[shard - place * size] == shard as ShardId);
    assert(dealt_shards(ids, num_shards)[id] == chunk);
    id
}

/// Where the number of consumers divides the number of shards, no shard is left over.
pub proof fn no_shard_is_left_over(ids: Seq<Seq<char>>, num_shards: int, shard: int) -> (id: Seq<
    char,
>)
    requires
        0 < ids.len() <= num_shards,
        ids.no_duplicates(),
        num_shards % ids.len() as int == 0,
        0 <= shard < num_shards,
    ensures
        ids.contains(id),
        dealt_shards(ids, num_shards)[id].contains(shard as ShardId),
{
    let count = ids.len() as int;
    assert(count * (num_shards / count) == num_shards) by (nonlinear_arith)
        requires
            count > 0,
            num_shards % count == 0,
    ;
    every_dealt_shard_has_a_consumer(ids, num_shards, shard)
}

proof fn lemma_count_up_to_remove(ids: Seq<Seq<char>>, i: int, id: Seq<char>)
    requires
        0 <= i < ids.len(),
    ensures
        count_up_to(ids, id) == count_up_to(ids.remove(i), id) + if id_le(ids[i], id) {
            1nat
        } else {
            0nat
        },
    decreases ids.len(),
{
    if i == ids.len() - 1 {
        assert(ids.remove(i) =~= ids.drop_last());
    } else {
        lemma_count_up_to_remove(ids.drop_last(), i, id);
        assert(ids.remove(i).drop_last() =~= ids.drop_last().remove(i));
        assert(ids.remove(i).last() == ids.last());
    }
}

proof fn lemma_count_up_to_permuted(a: Seq<Seq<char>>, b: Seq<Seq<char>>, id: Seq<char>)
    requires
        a.to_multiset() == b.to_multiset(),
    ensures
        count_up_to(a, id) == count_up_to(b, id),
        a.len() == b.len(),
    decreases a.len(),
{
    broadcast use vstd::seq_lib::group_to_multiset_ensures;

    assert(a.len() == a.to_multiset().len());
    assert(b.len() == b.to_multiset().len());
    if a.len() > 0 {
        let last = a.last();
        assert(a.contains(last));
        to_multiset_contains(a, last);
        to_multiset_contains(b, last);
        let i = choose|i: int| 0 <= i < b.len() && b[i] == last;
        to_multiset_remove(a, a.len() - 1);
        to_multiset_remove(b, i);
        assert(a.remove(a.len() - 1) =~= a.drop_last());
        lemma_count_up_to_permuted(a.drop_last(), b.remove(i), id);
        lemma_count_up_to_remove(b, i, id);
    }
}

/// The order in which the ids are given does not matter.
pub proof fn listing_order_is_ignored(a: Seq<Seq<char>>, b: Seq<Seq<char>>, num_shards: int)
    requires
        a.to_multiset() == b.to_multiset(),
    ensures
        dealt_shards(a, num_shards) == dealt_shards(b, num_shards),
{
    assert forall|id: Seq<char>| a.contains(id) == b.contains(id) by {
        to_multiset_contains(a, id);
        to_multiset_contains(b, id);
    }
    assert forall|id: Seq<char>| a.contains(id) implies dealt_shards(a, num_shards)[id]
        == dealt_shards(b, num_shards)[id] by {
        lemma_count_up_to_permuted(a, b, id);
    }
    assert(dealt_shards(a, num_shards) =~= dealt_shards(b, num_shards));
}

proof fn lemma_count_in_sorted(sorted: Seq<Seq<char>>, n: int, i: int)
    requires
        sorted_by(sorted, |a: Seq<char>, b: Seq<char>| id_le(a, b)),
        0 <= i < n <= sorted.len(),
        i + 1 < sorted.len() ==> sorted[i + 1] != sorted[i],
    ensures
        count_up_to(sorted.take(n), sorted[i]) == i + 1,
    decreases n,
{
    let le = |a: Seq<char>, b: Seq<char>| id_le(a, b);
    let part = sorted.take(n);
    assert(part.drop_last() =~= sorted.take(n - 1));
    let last = sorted[n - 1];
    if n - 1 > i {
        lemma_count_in_sorted(sorted, n - 1, i);
        assert(le(sorted[i], sorted[i + 1]));
        if i + 1 < n - 1 {
            assert(le(sorted[i + 1], last));
        }
        if id_le(last, sorted[i]) {
            if i + 1 < n - 1 {
                lemma_id_le_transitive(sorted[i + 1], last, sorted[i]);
            }
            lemma_id_le_antisymmetric(sorted[i], sorted[i + 1]);
        }
    } else {
        lemma_count_in_sorted_prefix(sorted, n, i);
    }
}

proof fn lemma_count_in_sorted_prefix(sorted: Seq<Seq<char>>, n: int, i: int)
    requires
        sorted_by(sorted, |a: Seq<char>, b: Seq<char>| id_le(a, b)),
        0 <= n <= i + 1 <= sorted.len(),
    ensures
        count_up_to(sorted.take(n), sorted[i]) == n,
    decreases n,
{
    let le = |a: Seq<char>, b: Seq<char>| id_le(a, b);
    if n > 0 {
        assert(sorted.take(n).drop_last() =~= sorted.take(n - 1));
        lemma_count_in_sorted_prefix(sorted, n - 1, i);
        if n - 1 < i {
            assert(le(sorted[n - 1], sorted[i]));
        } else {
            lemma_id_le_total(sorted[i], sorted[i]);
        }
    }
}

/// Sorting the ids and handing the chunks out one after the other gives the same: an id is dealt
/// the chunk at its last place in the sorted list.
pub proof fn chunks_are_dealt_in_sorted_order(
    ids: Seq<Seq<char>>,
    sorted: Seq<Seq<char>>,
    num_shards: int,
    i: int,
)
    requires
        sorted.to_multiset() == ids.to_multiset(),
        sorted_by(sorted, |a: Seq<char>, b: Seq<char>| id_le(a, b)),
        0 <= i < sorted.len(),
        i + 1 < sorted.len() ==> sorted[i + 1] != sorted[i],
    ensures
        dealt_shards(ids, num_shards)[sorted[i]] == shard_chunk(i, num_shards / ids.len() as int),
{
    assert(sorted.take(sorted.len() as int) =~= sorted);
    lemma_count_in_sorted(sorted, sorted.len() as int, i);
    lemma_count_up_to_permuted(ids, sorted, sorted[i]);
    assert(sorted.contains(sorted[i]));
    to_multiset_contains(ids, sorted[i]);
    to_multiset_contains(sorted, sorted[i]);
    assert(ids.contains(sorted[i]));
}

proof fn lemma_same_place(
    a: Seq<(Seq<char>, Seq<ShardId>)>,
    b: Seq<(Seq<char>, Seq<ShardId>)>,
    n: int,
)
    requires
        ascending_ids(a),
        ascending_ids(b),
        entries_map(a) == entries_map(b),
        0 <= n <= a.len(),
    ensures
        n <= b.len(),
        forall|i: int| 0 <= i < n ==> #[trigger] a[i].0 == b[i].0,
    decreases n,
{
    if n > 0 {
        let i = n - 1;
        lemma_same_place(a, b, i);
        lemma_entry_in_map(a, i);
        assert(lists_id(b, a[i].0));
        let j = choose|j: int| 0 <= j < b.len() && #[trigger] b[j].0 == a[i].0;
        if j < i {
            assert(a[j].0 == b[j].0);
            assert(id_lt(a[j].0, a[i].0));
        } else if j > i {
            assert(id_lt(b[i].0, b[j].0));
            lemma_entry_in_map(b, i);
            assert(lists_id(a, b[i].0));
            let k = choose|k: int| 0 <= k < a.len() && #[trigger] a[k].0 == b[i].0;
            if k < i {
                assert(a[k].0 == b[k].0);
                assert(id_lt(b[k].0, b[i].0));
            } else {
                if i < k {
                    assert(id_lt(a[i].0, a[k].0));
                }
                lemma_id_le_antisymmetric(a[i].0, b[i].0);
            }
        }
    }
}

/// An ascending list is determined by its map: what each consumer is dealt fixes the list of the
/// shards of all of them.
pub proof fn ascending_list_is_determined_by_its_map(
    a: Seq<(Seq<char>, Seq<ShardId>)>,
    b: Seq<(Seq<char>, Seq<ShardId>)>,
)
    requires
        ascending_ids(a),
        ascending_ids(b),
        entries_map(a) == entries_map(b),
    ensures
        a == b,
{
    lemma_same_place(a, b, a.len() as int);
    lemma_same_place(b, a, b.len() as int);
    assert forall|i: int| 0 <= i < a.len() implies a[i] == b[i] by {
        lemma_entry_in_map(a, i);
        lemma_entry_in_map(b, i);
        assert(a[i].0 == b[i].0);
    }
    assert(a =~= b);
}

/// A list is read off its map: in an ascending list, the map holds exactly the ids listed, each
/// with the shards of its entry.
pub proof fn map_holds_the_entries(entries: Seq<(Seq<char>, Seq<ShardId>)>, id: Seq<char>)
    requires
        ascending_ids(entries),
    ensures
        entries_map(entries).contains_key(id) == exists|i: int|
            0 <= i < entries.len() && #[trigger] entries[i].0 == id,
        forall|i: int|
            0 <= i < entries.len() && #[trigger] entries[i].0 == id ==> entries_map(entries)[id]
                == entries[i].1,
{
    assert forall|i: int| 0 <= i < entries.len() && #[trigger] entries[i].0 == id implies entries_map(
        entries,
    )[id] == entries[i].1 by {
        lemma_entry_in_map(entries, i);
    }
}

/// Giving a consumer shards lists it with them, in place of those it had, and leaves every other
/// entry as it was. The list stays in ascending order, with no consumer twice.
pub proof fn given_shards_are_listed(
    assignments: &mut ShardAssignments,
    id: ConsumerId,
    shards: Vec<ShardId>,
    other: Seq<char>,
    value: Seq<ShardId>,
)
    requires
        old(assignments).wf(),
        call_ensures(ShardAssignments::insert, (assignments, id, shards), ()),
    ensures
        final(assignments)@.contains((id@, shards@)),
        other != id@ ==> final(assignments)@.contains((other, value)) == old(assignments)@.contains(
            (other, value),
        ),
        forall|i: int, j: int|
            0 <= i < j < final(assignments)@.len() ==> {
                &&& id_le((#[trigger] final(assignments)@[i]).0, (#[trigger] final(assignments)@[j]).0)
                &&& final(assignments)@[i].0 != final(assignments)@[j].0
            },
{
    let before = old(assignments)@;
    let after = final(assignments)@;
    lemma_contained_entry(after, id@, shards@);
    lemma_contained_entry(after, other, value);
    lemma_contained_entry(before, other, value);
    assert forall|i: int, j: int| 0 <= i < j < after.len() implies {
        &&& id_le((#[trigger] after[i]).0, (#[trigger] after[j]).0)
        &&& after[i].0 != after[j].0
    } by {
        assert(id_lt(after[i].0, after[j].0));
    }
}

proof fn lemma_contained_entry(
    entries: Seq<(Seq<char>, Seq<ShardId>)>,
    id: Seq<char>,
    shards: Seq<ShardId>,
)
    requires
        ascending_ids(entries),
    ensures
        entries.contains((id, shards)) == (entries_map(entries).contains_key(id) && entries_map(
            entries,
        )[id] == shards),
{
    map_holds_the_entries(entries, id);
    if entries.contains((id, shards)) {
        let i = choose|i: int| 0 <= i < entries.len() && entries[i] == (id, shards);
        assert(entries[i].0 == id);
    }
    if entries_map(entries).contains_key(id) && entries_map(entries)[id] == shards {
        let i = choose|i: int| 0 <= i < entries.len() && #[trigger] entries[i].0 == id;
        assert(entries[i] == (id, shards));
    }
}

proof fn lemma_share_at_sorted_place(
    members: Seq<(Seq<char>, Seq<ShardId>)>,
    views: Seq<Seq<char>>,
    num_shards: int,
    sorted: Seq<Seq<char>>,
    i: int,
) -> (at: int)
    requires
        0 < views.len() <= num_shards,
        ascending_ids(members),
        entries_map(members) == dealt_shards(views, num_shards),
        sorted.to_multiset() == views.to_multiset(),
        sorted_by(sorted, |a: Seq<char>, b: Seq<char>| id_le(a, b)),
        0 <= i < sorted.len(),
        i + 1 < sorted.len() ==> sorted[i + 1] != sorted[i],
    ensures
        0 <= at < members.len(),
        members[at].0 == sorted[i],
        members[at].1.len() == num_shards / views.len() as int,
        forall|j: int|
            0 <= j < members[at].1.len() ==> #[trigger] members[at].1[j] == (i * (num_shards
                / views.len() as int) + j) as ShardId,
        forall|k: int|
            0 <= k < members.len() ==> sorted.contains((#[trigger] members[k]).0) && (k != at
                ==> members[k].0 != sorted[i]),
{
    chunks_are_dealt_in_sorted_order(views, sorted, num_shards, i);
    lemma_chunk_fits(0, views.len() as int, num_shards);
    to_multiset_contains(views, sorted[i]);
    to_multiset_contains(sorted, sorted[i]);
    assert(sorted.contains(sorted[i]));
    assert(entries_map(members).contains_key(sorted[i]));
    map_holds_the_entries(members, sorted[i]);
    let at = choose|k: int| 0 <= k < members.len() && #[trigger] members[k].0 == sorted[i];
    assert forall|k: int| 0 <= k < members.len() implies sorted.contains((#[trigger] members[k]).0)
        && (k != at ==> members[k].0 != sorted[i]) by {
        lemma_entry_in_map(members, k);
        to_multiset_contains(views, members[k].0);
        to_multiset_contains(sorted, members[k].0);
        if k < at {
            assert(id_lt(members[k].0, members[at].0));
        } else if at < k {
            assert(id_lt(members[at].0, members[k].0));
        }
    }
    at
}

proof fn lemma_share_at_place(
    members: Seq<(Seq<char>, Seq<ShardId>)>,
    views: Seq<Seq<char>>,
    num_shards: int,
    i: int,
)
    requires
        0 < views.len() <= num_shards,
        views.no_duplicates(),
        ascending_ids(members),
        entries_map(members) == dealt_shards(views, num_shards),
        0 <= i < views.len(),
    ensures
        members.len() == views.len(),
        members[i].1.len() == num_shards / views.len() as int,
        forall|j: int|
            0 <= j < members[i].1.len() ==> #[trigger] members[i].1[j] == (i * (num_shards
                / views.len() as int) + j) as ShardId,
        views.contains(members[i].0),
{
    let sorted = members.map_values(|e: (Seq<char>, Seq<ShardId>)| e.0);
    assert forall|id: Seq<char>| sorted.contains(id) == views.contains(id) by {
        map_holds_the_entries(members, id);
        assert(entries_map(members).contains_key(id) == views.contains(id));
        if sorted.contains(id) {
            let k = choose|k: int| 0 <= k < sorted.len() && sorted[k] == id;
            assert(members[k].0 == id);
        }
        if views.contains(id) {
            let k = choose|k: int| 0 <= k < members.len() && #[trigger] members[k].0 == id;
            assert(sorted[k] == id);
        }
    }
    assert forall|a: int, b: int| 0 <= a < sorted.len() && 0 <= b < sorted.len() && a
        != b implies sorted[a] != sorted[b] by {
        if a < b {
            assert(id_lt(members[a].0, members[b].0));
        } else {
            assert(id_lt(members[b].0, members[a].0));
        }
    }
    sorted.lemma_multiset_has_no_duplicates();
    views.lemma_multiset_has_no_duplicates();
    assert forall|id: Seq<char>| sorted.to_multiset().count(id) == views.to_multiset().count(id) by {
        to_multiset_contains(sorted, id);
        to_multiset_contains(views, id);
        assert(sorted.contains(id) == views.contains(id));
        assert(sorted.to_multiset().contains(id) == views.to_multiset().contains(id));
    }
    assert(sorted.to_multiset() =~= views.to_multiset());
    sorted.to_multiset_ensures();
    views.to_multiset_ensures();
    assert(sorted.len() == views.len());
    let le = |a: Seq<char>, b: Seq<char>| id_le(a, b);
    assert forall|a: int, b: int| 0 <= a < b < sorted.len() implies #[trigger] le(
        sorted[a],
        sorted[b],
    ) by {
        assert(id_lt(members[a].0, members[b].0));
    }
    assert(sorted_by(sorted, le));
    let at = lemma_share_at_sorted_place(members, views, num_shards, sorted, i);
    assert(members[i].0 == sorted[i]);
    assert(at == i);
    assert(sorted.contains(sorted[i]));
}

/// The shares of the consumers, number by number: the consumer at the place `i` of the sorted ids,
/// the last of its places if it is listed more than once, has the shards from `i` times the size of
/// a share on, as many as a share has, in ascending order. It is listed once, and nobody else is.
pub proof fn consumers_are_dealt_consecutive_shards(
    ids: &[ConsumerId],
    num_shards: usize,
    r: ShardAssignments,
    sorted: Seq<Seq<char>>,
    i: int,
) -> (at: int)
    requires
        0 < ids@.len() <= num_shards,
        call_ensures(assign_shards, (ids, num_shards), r),
        sorted.to_multiset() == ids@.map_values(|id: ConsumerId| id@).to_multiset(),
        sorted_by(sorted, |a: Seq<char>, b: Seq<char>| id_le(a, b)),
        0 <= i < sorted.len(),
        i + 1 < sorted.len() ==> sorted[i + 1] != sorted[i],
    ensures
        0 <= at < r@.len(),
        r@[at].0 == sorted[i],
        r@[at].1.len() == num_shards as int / ids@.len() as int,
        forall|j: int|
            0 <= j < r@[at].1.len() ==> #[trigger] r@[at].1[j] == (i * (num_shards as int
                / ids@.len() as int) + j) as ShardId,
        forall|k: int|
            0 <= k < r@.len() ==> sorted.contains((#[trigger] r@[k]).0) && (k != at ==> r@[k].0
                != sorted[i]),
{
    let views = id_views(ids@);
    assert(views =~= ids@.map_values(|id: ConsumerId| id@));
    lemma_share_at_sorted_place(r@, views, num_shards as int, sorted, i)
}

/// With different ids, the list is in the order of the ids, and the consumer at each place of it has
/// the shards from that place times the size of a share on.
pub proof fn place_in_the_list_decides_the_shards(
    ids: &[ConsumerId],
    num_shards: usize,
    r: ShardAssignments,
    i: int,
)
    requires
        0 < ids@.len() <= num_shards,
        ids@.map_values(|id: ConsumerId| id@).no_duplicates(),
        call_ensures(assign_shards, (ids, num_shards), r),
        0 <= i < ids@.len(),
    ensures
        r@.len() == ids@.len(),
        r@[i].1.len() == num_shards as int / ids@.len() as int,
        forall|j: int|
            0 <= j < r@[i].1.len() ==> #[trigger] r@[i].1[j] == (i * (num_shards as int
                / ids@.len() as int) + j) as ShardId,
        exists|k: int| 0 <= k < ids@.len() && #[trigger] ids@[k]@ == r@[i].0,
{
    let views = id_views(ids@);
    assert(views =~= ids@.map_values(|id: ConsumerId| id@));
    lemma_share_at_place(r@, views, num_shards as int, i);
    let k = choose|k: int| 0 <= k < views.len() && views[k] == r@[i].0;
    assert(ids@[k]@ == r@[i].0);
}

/// The log has 64 shards. The consumers of a new group share them: the one at the place `i` of the
/// sorted ids, the last of its places if it is listed more than once, has as many as 64 divided by
/// the number of ids, from `i` times that on. It is listed once, and nobody else is.
pub proof fn new_group_shares_the_log(
    store: &ScyllaConsumerGroupStore,
    ids: &[ConsumerId],
    commitment_level: CommitmentLevel,
    events: &[BlockchainEventType],
    initial_offset: SeekLocation,
    remote_ip_addr: Option<IpAddress>,
    translation_strategy: Option<TranslationStrategy>,
    creation: GroupCreation,
    sorted: Seq<Seq<char>>,
    i: int,
) -> (at: int)
    requires
        0 < ids@.len() <= 64,
        call_ensures(
            ScyllaConsumerGroupStore::create_static_consumer_group,
            (
                store,
                ids,
                commitment_level,
                events,
                initial_offset,
                remote_ip_addr,
                translation_strategy,
            ),
            creation,
        ),
        sorted.to_multiset() == ids@.map_values(|id: ConsumerId| id@).to_multiset(),
        sorted_by(sorted, |a: Seq<char>, b: Seq<char>| id_le(a, b)),
        0 <= i < sorted.len(),
        i + 1 < sorted.len() ==> sorted[i + 1] != sorted[i],
    ensures
        ({
            let members = creation.shard_assignments@;
            let share = 64int / ids@.len() as int;
            &&& 0 <= at < members.len()
            &&& members[at].0 == sorted[i]
            &&& members[at].1.len() == share
            &&& forall|j: int|
                0 <= j < share ==> #[trigger] members[at].1[j] == (i * share + j) as ShardId
            &&& forall|k: int|
                0 <= k < members.len() ==> sorted.contains((#[trigger] members[k]).0) && (k != at
                    ==> members[k].0 != sorted[i])
        }),
{
    let views = id_views(ids@);
    assert(views =~= ids@.map_values(|id: ConsumerId| id@));
    lemma_share_at_sorted_place(creation.shard_assignments@, views, 64, sorted, i)
}

/// The ids of a list are those of its entries, in their order.
pub proof fn ids_are_those_listed(assignments: &ShardAssignments, ids: Vec<ConsumerId>)
    requires
        call_ensures(ShardAssignments::ids, (assignments,), ids),
    ensures
        ids@.len() == assignments@.len(),
        forall|i: int| 0 <= i < ids@.len() ==> (#[trigger] ids@[i])@ == assignments@[i].0,
{
    let firsts = assignments@.map_values(|e: (Seq<char>, Seq<ShardId>)| e.0);
    assert(id_views(ids@) == firsts);
    assert(id_views(ids@).len() == ids@.len());
    assert forall|i: int| 0 <= i < ids@.len() implies (#[trigger] ids@[i])@
        == assignments@[i].0 by {
        assert(id_views(ids@)[i] == firsts[i]);
    }
}

} // verus!
