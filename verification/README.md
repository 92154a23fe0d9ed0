# consumer_group_store

The part of a ScyllaDB-backed consumer-group store that decides: which statement each operation
runs, with which values, what the replies mean, how shards are dealt out to the consumers of a
group, and which slot all members of a group have in common. It is written in Verus, and every
function states and proves what it does.

- `src/consumer_id.rs`: consumer ids and their order.
- `src/assignment.rs`, `src/assignment_laws.rs`: dealing shards out to consumers.
- `src/lowest_slot.rs`, `src/slot_laws.rs`: the lowest common slot of a group.
- `src/offset_writes.rs`, `src/offset_laws.rs`: storing the members' offsets, member by member.
- `src/tables.rs`, `src/table_laws.rs`: a model of the two tables, and what holds of operations one
  after the other.
- `src/creation.rs`: a new group, under a fresh random UUID.
- `src/statement.rs`, `src/store.rs`: the CQL statements, and the store that runs them.
- `src/error.rs`, `src/types.rs`: refusals, and the plain values of a group.
- `app/`: the session, the encoding of rows, and the awaits around the decisions.
- `tests/`: the library on concrete values.

One function rests on code outside the library: the id of a new group comes from `uuid`.
