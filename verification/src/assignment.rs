//! Which consumer of a group reads which shards.

use vstd::prelude::*;

use crate::consumer_id::{
    id_le, id_lt, id_views, is_ordered, lemma_id_le_antisymmetric, lemma_id_le_total,
    lemma_id_le_transitive, ConsumerId,
};
use crate::types::ShardId;

verus! {

/// The shards of each consumer of a group, listed by ascending consumer id.
#[derive(Debug, PartialEq, Eq)]
pub struct ShardAssignments {
    entries: Vec<(ConsumerId, Vec<ShardId>)>,
}

/// No consumer occurs twice, and they are listed in ascending order.
pub open spec fn ascending_ids(entries: Seq<(Seq<char>, Seq<ShardId>)>) -> bool {
    forall|i: int, j: int|
        0 <= i < j < entries.len() ==> id_lt(#[trigger] entries[i].0, #[trigger] entries[j].0)
}

/// `id` is one of the consumers of the list.
pub open spec fn lists_id(entries: Seq<(Seq<char>, Seq<ShardId>)>, id: Seq<char>) -> bool {
    exists|i: int| 0 <= i < entries.len() && #[trigger] entries[i].0 == id
}

/// The list as a map from consumer to shards.
pub open spec fn entries_map(entries: Seq<(Seq<char>, Seq<ShardId>)>) -> Map<
    Seq<char>,
    Seq<ShardId>,
> {
    Map::new(
        |id: Seq<char>| lists_id(entries, id),
        |id: Seq<char>|
            entries[choose|i: int| 0 <= i < entries.len() && #[trigger] entries[i].0 == id].1,
    )
}

/// In an ascending list an id is listed once, so its entry is what the map holds for it.
pub(crate) proof fn lemma_entry_in_map(entries: Seq<(Seq<char>, Seq<ShardId>)>, i: int)
    requires
        ascending_ids(entries),
        0 <= i < entries.len(),
    ensures
        entries_map(entries).contains_key(entries[i].0),
        entries_map(entries)[entries[i].0] == entries[i].1,
{
    let id = entries[i].0;
    let j = choose|j: int| 0 <= j < entries.len() && #[trigger] entries[j].0 == id;
    assert(entries[i].0 == id);
    if i < j {
        assert(id_lt(entries[i].0, entries[j].0));
    } else if j < i {
        assert(id_lt(entries[j].0, entries[i].0));
    }
}

/// Putting an entry for `id` where the smaller ids end keeps the list ascending and sets `id` in
/// its map.
proof fn lemma_put(
    entries: Seq<(Seq<char>, Seq<ShardId>)>,
    at: int,
    id: Seq<char>,
    shards: Seq<ShardId>,
    after: Seq<(Seq<char>, Seq<ShardId>)>,
)
    requires
        ascending_ids(entries),
        0 <= at <= entries.len(),
        forall|j: int| 0 <= j < at ==> !id_le(id, #[trigger] entries[j].0),
        at < entries.len() ==> id_le(id, entries[at].0),
        after == if at < entries.len() && entries[at].0 == id {
            entries.update(at, (id, shards))
        } else {
            entries.insert(at, (id, shards))
        },
    ensures
        ascending_ids(after),
        entries_map(after) == entries_map(entries).insert(id, shards),
{
    let replaces = at < entries.len() && entries[at].0 == id;
    assert forall|i: int, j: int| 0 <= i < j < after.len() implies id_lt(
        #[trigger] after[i].0,
        #[trigger] after[j].0,
    ) by {
        let i0 = if replaces || i < at { i } else { i - 1 };
        let j0 = if replaces || j < at { j } else { j - 1 };
        if j == at {
            lemma_id_le_total(id, entries[i].0);
        } else if i == at {
            if j0 > at {
                assert(id_lt(entries[at].0, entries[j0].0));
                lemma_id_le_transitive(id, entries[at].0, entries[j0].0);
                if id == entries[j0].0 {
                    lemma_id_le_antisymmetric(id, entries[at].0);
                }
            }
        } else {
            assert(id_lt(entries[i0].0, entries[j0].0));
        }
    }
    assert forall|k: Seq<char>| lists_id(after, k) == (lists_id(entries, k) || k == id) by {
        if lists_id(entries, k) {
            let i = choose|i: int| 0 <= i < entries.len() && #[trigger] entries[i].0 == k;
            let i1 = if replaces || i < at { i } else { i + 1 };
            assert(after[i1].0 == k);
        }
        if k == id {
            assert(after[at].0 == k);
        }
        if lists_id(after, k) {
            let i = choose|i: int| 0 <= i < after.len() && #[trigger] after[i].0 == k;
            if i != at {
                let i0 = if replaces || i < at { i } else { i - 1 };
                assert(entries[i0].0 == k);
            }
        }
    }
    assert forall|k: Seq<char>| lists_id(after, k) implies entries_map(after)[k] == entries_map(
        entries,
    ).insert(id, shards)[k] by {
        let i = choose|i: int| 0 <= i < after.len() && #[trigger] after[i].0 == k;
        lemma_entry_in_map(after, i);
        if k == id {
            lemma_entry_in_map(after, at);
            assert(after[at].0 == id);
        } else {
            let i0 = if replaces || i < at { i } else { i - 1 };
            lemma_entry_in_map(entries, i0);
        }
    }
    assert(entries_map(after) =~= entries_map(entries).insert(id, shards));
}

impl View for ShardAssignments {
    type V = Seq<(Seq<char>, Seq<ShardId>)>;

    closed spec fn view(&self) -> Seq<(Seq<char>, Seq<ShardId>)> {
        self.entries@.map_values(|e: (ConsumerId, Vec<ShardId>)| (e.0@, e.1@))
    }
}

impl ShardAssignments {
    /// What holds of every value of this type.
    #[verifier::type_invariant]
    pub open spec fn wf(&self) -> bool {
        ascending_ids(self@)
    }

    /// The shards of each consumer, whatever the order they are listed in.
    pub open spec fn as_map(&self) -> Map<Seq<char>, Seq<ShardId>> {
        entries_map(self@)
    }

    /// No consumer yet.
    pub fn new() -> (r: Self)
        ensures
            r@ == Seq::<(Seq<char>, Seq<ShardId>)>::empty(),
            r.wf(),
    {
        let r = ShardAssignments { entries: Vec::new() };
        assert(r@ =~= Seq::<(Seq<char>, Seq<ShardId>)>::empty());
        r
    }

    /// How many consumers are listed.
    pub fn len(&self) -> (n: usize)
        ensures
            n == self@.len(),
    {
        self.entries.len()
    }

    /// The consumer at a place of the list.
    pub fn id_at(&self, i: usize) -> (id: &ConsumerId)
        requires
            i < self@.len(),
        ensures
            id@ == self@[i as int].0,
    {
        &self.entries[i].0
    }

    /// The shards of the consumer at a place of the list.
    pub fn shards_at(&self, i: usize) -> (shards: &Vec<ShardId>)
        requires
            i < self@.len(),
        ensures
            shards@ == self@[i as int].1,
    {
        &self.entries[i].1
    }

    /// The consumers, in ascending order.
    pub fn ids(&self) -> (ids: Vec<ConsumerId>)
        ensures
            id_views(ids@) == self@.map_values(|e: (Seq<char>, Seq<ShardId>)| e.0),
    {
        let mut ids: Vec<ConsumerId> = Vec::new();
        for i in 0..self.entries.len()
            invariant
                ids@.len() == i,
                forall|j: int| 0 <= j < i ==> (#[trigger] ids@[j])@ == self@[j].0,
        {
            ids.push(self.entries[i].0.clone());
        }
        assert(id_views(ids@) =~= self@.map_values(|e: (Seq<char>, Seq<ShardId>)| e.0));
        ids
    }

    /// Gives `id` the shards `shards`, in place of those it had.
    pub fn insert(&mut self, id: ConsumerId, shards: Vec<ShardId>)
        ensures
            final(self).wf(),
            final(self).as_map() == old(self).as_map().insert(id@, shards@),
    {
        proof {
            use_type_invariant(&*self);
        }
        let ghost before = self@;
        let mut entries: Vec<(ConsumerId, Vec<ShardId>)> = Vec::new();
        std::mem::swap(&mut entries, &mut self.entries);
        let mut at: usize = 0;
        while at < entries.len() && !is_ordered(&id, &entries[at].0)
            invariant
                at <= entries.len(),
                entries@.map_values(|e: (ConsumerId, Vec<ShardId>)| (e.0@, e.1@)) == before,
                forall|j: int| 0 <= j < at ==> !id_le(id@, #[trigger] before[j].0),
            decreases entries.len() - at,
        {
            at = at + 1;
        }
        let replaces = at < entries.len() && entries[at].0 == id;
        let ghost key = id@;
        let ghost value = shards@;
        if replaces {
            entries[at] = (id, shards);
        } else {
            entries.insert(at, (id, shards));
        }
        proof {
            let after = entries@.map_values(|e: (ConsumerId, Vec<ShardId>)| (e.0@, e.1@));
            assert(after =~= if replaces {
                before.update(at as int, (key, value))
            } else {
                before.insert(at as int, (key, value))
            });
            lemma_put(before, at as int, key, value, after);
        }
        self.entries = entries;
    }
}

impl Clone for ShardAssignments {
    fn clone(&self) -> (r: Self)
        ensures
            r@ == self@,
    {
        proof {
            use_type_invariant(self);
        }
        let mut entries: Vec<(ConsumerId, Vec<ShardId>)> = Vec::new();
        for i in 0..self.entries.len()
            invariant
                entries@.len() == i,
                forall|j: int|
                    0 <= j < i ==> (#[trigger] entries@[j]).0@ == self@[j].0 && entries@[j].1@
                        == self@[j].1,
        {
            let shards = self.entries[i].1.clone();
            assert(shards@ =~= self.entries@[i as int].1@);
            entries.push((self.entries[i].0.clone(), shards));
        }
        let ghost copied = entries@.map_values(|e: (ConsumerId, Vec<ShardId>)| (e.0@, e.1@));
        assert(copied =~= self@);
        ShardAssignments { entries }
    }
}

/// How many ids of the list are at or before `id`.
pub open spec fn count_up_to(ids: Seq<Seq<char>>, id: Seq<char>) -> nat
    decreases ids.len(),
{
    if ids.len() == 0 {
        0
    } else {
        count_up_to(ids.drop_last(), id) + if id_le(ids.last(), id) {
            1nat
        } else {
            0nat
        }
    }
}

/// The chunk of number `chunk` when shard numbers are cut in chunks of `size`.
pub open spec fn shard_chunk(chunk: int, size: int) -> Seq<ShardId> {
    Seq::new(size as nat, |j: int| (chunk * size + j) as ShardId)
}

/// The shards of each consumer: as many chunks of equal size as there are ids, dealt out in
/// ascending order of the ids. An id that is listed more than once keeps the last chunk dealt to
/// it.
pub open spec fn dealt_shards(ids: Seq<Seq<char>>, num_shards: int) -> Map<
    Seq<char>,
    Seq<ShardId>,
> {
    Map::new(
        |id: Seq<char>| ids.contains(id),
        |id: Seq<char>|
            shard_chunk(count_up_to(ids, id) - 1, num_shards / ids.len() as int),
    )
}

pub(crate) proof fn lemma_count_up_to_bounds(ids: Seq<Seq<char>>, id: Seq<char>)
    ensures
        count_up_to(ids, id) <= ids.len(),
        ids.contains(id) ==> count_up_to(ids, id) >= 1,
    decreases ids.len(),
{
    if ids.len() > 0 {
        lemma_count_up_to_bounds(ids.drop_last(), id);
        if ids.contains(id) {
            let i = choose|i: int| 0 <= i < ids.len() && ids[i] == id;
            if i == ids.len() - 1 {
                lemma_id_le_total(id, id);
            } else {
                assert(ids.drop_last()[i] == id);
            }
        }
    }
}

/// Equal chunks, one for each of `count` ids, fit in the shards that there are.
pub(crate) proof fn lemma_chunk_fits(chunk: int, count: int, num_shards: int)
    requires
        0 <= chunk < count <= num_shards,
    ensures
        num_shards / count >= 1,
        0 <= chunk * (num_shards / count),
        chunk * (num_shards / count) + num_shards / count <= count * (num_shards / count),
        count * (num_shards / count) <= num_shards,
{
    let size = num_shards / count;
    assert(size >= 1 && count * size <= num_shards) by (nonlinear_arith)
        requires
            size == num_shards / count,
            0 < count <= num_shards,
    ;
    assert(0 <= chunk * size && chunk * size + size <= count * size) by (nonlinear_arith)
        requires
            0 <= chunk < count,
            size >= 1,
    ;
}

/// How many of `ids` are at or before `id`.
fn rank(ids: &[ConsumerId], id: &ConsumerId) -> (n: usize)
    ensures
        n == count_up_to(id_views(ids@), id@),
{
    let mut n: usize = 0;
    for i in 0..ids.len()
        invariant
            n <= i,
            n == count_up_to(id_views(ids@).take(i as int), id@),
    {
        assert(id_views(ids@).take(i + 1).drop_last() =~= id_views(ids@).take(i as int));
        if is_ordered(&ids[i], id) {
            n = n + 1;
        }
    }
    assert(id_views(ids@).take(ids@.len() as int) =~= id_views(ids@));
    n
}

/// The `size` shards from `first` on.
fn shards_from(first: usize, size: usize) -> (shards: Vec<ShardId>)
    requires
        first + size <= usize::MAX,
    ensures
        shards@ == Seq::new(size as nat, |j: int| (first + j) as ShardId),
{
    let mut shards: Vec<ShardId> = Vec::new();
    for j in 0..size
        invariant
            first + size <= usize::MAX,
            shards@ == Seq::new(j as nat, |j: int| (first + j) as ShardId),
    {
        let shard: ShardId = #[verifier::truncate]
        ((first + j) as ShardId);
        shards.push(shard);
        assert(shards@ =~= Seq::new((j + 1) as nat, |j: int| (first + j) as ShardId));
    }
    shards
}

/// Deals the shards `0..num_shards` out to the consumers `ids`, in ascending order of the ids:
/// each takes the next `num_shards / ids.len()` shards, and what is left over goes to none.
pub fn assign_shards(ids: &[ConsumerId], num_shards: usize) -> (r: ShardAssignments)
    requires
        0 < ids@.len() <= num_shards,
    ensures
        r.wf(),
        r.as_map() == dealt_shards(id_views(ids@), num_shards as int),
{
    let size: usize = num_shards / ids.len();
    let ghost views = id_views(ids@);
    let ghost dealt = dealt_shards(views, num_shards as int);
    let mut r = ShardAssignments::new();
    assert(r.as_map() =~= Map::<Seq<char>, Seq<ShardId>>::empty());
    for n in 0..ids.len()
        invariant
            0 < ids@.len() <= num_shards,
            size == num_shards / ids@.len() as usize,
            views == id_views(ids@),
            dealt == dealt_shards(views, num_shards as int),
            r.wf(),
            forall|id: Seq<char>| #[trigger]
                r.as_map().contains_key(id) <==> views.take(n as int).contains(id),
            forall|id: Seq<char>| #[trigger]
                r.as_map().contains_key(id) ==> r.as_map()[id] == dealt[id],
    {
        let ghost id = ids@[n as int]@;
        let ghost before = r.as_map();
        proof {
            assert(views[n as int] == id);
            lemma_count_up_to_bounds(views, id);
            lemma_chunk_fits(count_up_to(views, id) - 1, ids@.len() as int, num_shards as int);
        }
        let place: usize = rank(ids, &ids[n]) - 1;
        let shards = shards_from(place * size, size);
        assert(shards@ =~= dealt[id]);
        r.insert(ids[n].clone(), shards);
        assert(views.take(n + 1) =~= views.take(n as int).push(id));
        assert forall|k: Seq<char>| #[trigger]
            r.as_map().contains_key(k) <==> views.take(n + 1).contains(k) by {
            assert(r.as_map().contains_key(k) <==> before.contains_key(k) || k == id);
            if views.take(n as int).contains(k) {
                let i = choose|i: int| 0 <= i < n && views.take(n as int)[i] == k;
                assert(views.take(n + 1)[i] == k);
            }
            if k == id {
                assert(views.take(n + 1)[n as int] == k);
            }
        }
    }
    assert(views.take(ids@.len() as int) =~= views);
    assert(r.as_map() =~= dealt);
    r
}

} // verus!
