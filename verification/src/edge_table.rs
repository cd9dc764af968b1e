//! The adjacency table of one slice: an insertion-ordered map from a source
//! point to its destination, kept in an `indexmap::IndexMap`.
//!
//! The table is modelled by the sequence of its entries in the map's order.
//! The functions at the end of this file are the only ones that touch the
//! map itself; their contracts restate the documentation of the methods they
//! call and are taken on trust.

use crate::mesh::{Edge, Point};
use indexmap::IndexMap;
use vstd::prelude::*;

verus! {

/// `indexmap::IndexMap`, a hash map that keeps its entries in a sequence.
/// Nothing inside a map is visible here; what it holds is spoken of through
/// [`entries`].
#[verifier::external_type_specification]
#[verifier::external_body]
#[verifier::reject_recursive_types(K)]
#[verifier::reject_recursive_types(V)]
#[verifier::reject_recursive_types(S)]
pub struct ExIndexMap<K, V, S>(IndexMap<K, V, S>);

/// The entries of the map in the map's own order, each key `[x, y]` read as
/// the source point and each value `[x, y]` as the destination point. The
/// order is that of insertion, changed only by removals, and does not depend
/// on how the keys hash.
pub uninterp spec fn entries(m: IndexMap<[u32; 2], [u32; 2]>) -> Seq<Edge>;

/// The index of the first entry that leaves `key`, or the length of the
/// table if there is none.
pub open spec fn position(table: Seq<Edge>, key: Point) -> nat
    decreases table.len(),
{
    if table.len() == 0 {
        0
    } else if table.first().from == key {
        0
    } else {
        1 + position(table.drop_first(), key)
    }
}

/// Some entry leaves `key`.
pub open spec fn contains_key(table: Seq<Edge>, key: Point) -> bool {
    position(table, key) < table.len()
}

/// The destination stored for `key`.
pub open spec fn lookup(table: Seq<Edge>, key: Point) -> Option<Point> {
    if contains_key(table, key) {
        Some(table[position(table, key) as int].to)
    } else {
        None
    }
}

/// The source of the first entry.
pub open spec fn first_key(table: Seq<Edge>) -> Option<Point> {
    if table.len() == 0 {
        None
    } else {
        Some(table.first().from)
    }
}

/// The table after an insertion: an entry with the same source is
/// overwritten where it stands, a new source is appended.
pub open spec fn inserted(table: Seq<Edge>, edge: Edge) -> Seq<Edge> {
    if contains_key(table, edge.from) {
        table.update(position(table, edge.from) as int, edge)
    } else {
        table.push(edge)
    }
}

/// The table after the entry for `key` is removed: the last entry takes its
/// place. A table without the key is left as it is.
pub open spec fn swap_removed(table: Seq<Edge>, key: Point) -> Seq<Edge> {
    if contains_key(table, key) {
        table.update(position(table, key) as int, table.last()).drop_last()
    } else {
        table
    }
}

/// No two entries leave the same point.
pub open spec fn keys_distinct(table: Seq<Edge>) -> bool {
    forall|i: int, j: int|
        0 <= i < j < table.len() ==> (#[trigger] table[i]).from != (#[trigger] table[j]).from
}

/// `position` finds the first entry for the key, and only that one.
pub proof fn lemma_position(table: Seq<Edge>, key: Point)
    ensures
        position(table, key) <= table.len(),
        contains_key(table, key) ==> table[position(table, key) as int].from == key,
        forall|j: int| 0 <= j < position(table, key) ==> (#[trigger] table[j]).from != key,
    decreases table.len(),
{
    if table.len() > 0 && table.first().from != key {
        let rest = table.drop_first();
        lemma_position(rest, key);
        assert forall|j: int| 0 <= j < position(table, key) implies (#[trigger] table[j]).from
            != key by {
            if j > 0 {
                assert(table[j] == rest[j - 1]);
            }
        }
    }
}

/// An entry for the key puts the key's position at or before it.
pub proof fn lemma_position_bounded_by(table: Seq<Edge>, key: Point, i: int)
    requires
        0 <= i < table.len(),
        table[i].from == key,
    ensures
        position(table, key) <= i,
{
    lemma_position(table, key);
    if position(table, key) > i {
        assert(table[i].from != key);
    }
}

/// In a table with distinct keys, the entry for a key stands at the key's
/// position.
pub proof fn lemma_position_unique(table: Seq<Edge>, key: Point, i: int)
    requires
        keys_distinct(table),
        0 <= i < table.len(),
        table[i].from == key,
    ensures
        position(table, key) == i,
{
    lemma_position(table, key);
    lemma_position_bounded_by(table, key, i);
}

/// Insertion keeps the keys distinct.
pub proof fn lemma_inserted_distinct(table: Seq<Edge>, edge: Edge)
    requires
        keys_distinct(table),
    ensures
        keys_distinct(inserted(table, edge)),
        lookup(inserted(table, edge), edge.from) == Some(edge.to),
        forall|key: Point|
            key != edge.from ==> lookup(inserted(table, edge), key) == #[trigger] lookup(
                table,
                key,
            ),
{
    let after = inserted(table, edge);
    let p = position(table, edge.from) as int;
    lemma_position(table, edge.from);
    assert(keys_distinct(after)) by {
        assert forall|i: int, j: int| 0 <= i < j < after.len() implies (#[trigger] after[i]).from
            != (#[trigger] after[j]).from by {
            if contains_key(table, edge.from) {
                assert(after[i].from == table[i].from);
                assert(after[j].from == table[j].from);
            } else if j == table.len() {
                assert(after[i] == table[i]);
            } else {
                assert(after[i] == table[i]);
                assert(after[j] == table[j]);
            }
        }
    }
    assert(after[p] == edge);
    lemma_position_unique(after, edge.from, p);
    assert forall|key: Point| key != edge.from implies lookup(after, key) == #[trigger] lookup(
        table,
        key,
    ) by {
        lemma_position(table, key);
        lemma_position(after, key);
        let q = position(table, key) as int;
        let r = position(after, key) as int;
        if q < table.len() {
            assert(after[q] == table[q]);
            lemma_position_unique(after, key, q);
        } else if r < after.len() {
            if r < table.len() {
                assert(after[r].from == table[r].from);
                assert(table[r].from != key);
            }
        }
    }
}

/// Removal keeps the keys distinct, takes exactly one entry away, and leaves
/// every other key with its destination.
pub proof fn lemma_swap_removed_distinct(table: Seq<Edge>, key: Point)
    requires
        keys_distinct(table),
    ensures
        keys_distinct(swap_removed(table, key)),
        !contains_key(swap_removed(table, key), key),
        contains_key(table, key) ==> swap_removed(table, key).len() + 1 == table.len(),
        forall|other: Point|
            other != key ==> lookup(swap_removed(table, key), other) == #[trigger] lookup(
                table,
                other,
            ),
{
    let after = swap_removed(table, key);
    let p = position(table, key) as int;
    let n = table.len() as int;
    lemma_position(table, key);
    lemma_position(after, key);
    if contains_key(table, key) {
        assert forall|i: int| 0 <= i < after.len() implies (#[trigger] after[i]) == (if i == p {
            table[n - 1]
        } else {
            table[i]
        }) by {}
        assert(keys_distinct(after)) by {
            assert forall|i: int, j: int| 0 <= i < j < after.len() implies (
            #[trigger] after[i]).from != (#[trigger] after[j]).from by {
                let a = if i == p { n - 1 } else { i };
                let b = if j == p { n - 1 } else { j };
                assert(after[i] == table[a]);
                assert(after[j] == table[b]);
                if a < b {
                    assert(table[a].from != table[b].from);
                } else {
                    assert(table[b].from != table[a].from);
                }
            }
        }
        if contains_key(after, key) {
            let r = position(after, key) as int;
            let a = if r == p { n - 1 } else { r };
            assert(after[r] == table[a]);
            if a < p {
                assert(table[a].from != table[p].from);
            } else {
                assert(table[p].from != table[a].from);
            }
        }
        assert forall|other: Point| other != key implies lookup(after, other) == #[trigger] lookup(
            table,
            other,
        ) by {
            lemma_position(table, other);
            lemma_position(after, other);
            let q = position(table, other) as int;
            let r = position(after, other) as int;
            if q < n {
                let q2 = if q == n - 1 { p } else { q };
                assert(after[q2] == table[q]);
                lemma_position_unique(after, other, q2);
            } else if r < after.len() {
                let a = if r == p { n - 1 } else { r };
                assert(after[r] == table[a]);
                assert(table[a].from != other);
            }
        }
    }
}

/// Wraps `IndexMap::new`. Taken on trust: the new map has no entries.
#[verifier::external_body]
pub(crate) fn table_new() -> (m: IndexMap<[u32; 2], [u32; 2]>)
    ensures
        entries(m) == Seq::<Edge>::empty(),
{
    IndexMap::new()
}

/// Wraps `IndexMap::insert`. Taken on trust: a key that is present keeps its
/// place in the order and has its value replaced; a key that is absent is
/// added last. The map gives up only where memory does, as a vector would.
#[verifier::external_body]
pub(crate) fn table_insert(m: &mut IndexMap<[u32; 2], [u32; 2]>, edge: Edge)
    ensures
        entries(*final(m)) == inserted(entries(*old(m)), edge),
{
    m.insert([edge.from.x, edge.from.y], [edge.to.x, edge.to.y]);
}

/// Wraps `IndexMap::first` and keeps the key. Taken on trust: it is the key
/// of the first entry in the map's order, and `None` for a map without
/// entries.
#[verifier::external_body]
pub(crate) fn table_first_key(m: &IndexMap<[u32; 2], [u32; 2]>) -> (key: Option<Point>)
    ensures
        key == first_key(entries(*m)),
{
    match m.first() {
        Some((k, _)) => Some(Point { x: k[0], y: k[1] }),
        None => None,
    }
}

/// Wraps `IndexMap::swap_remove`. Taken on trust: the value stored for the
/// key is returned and its entry removed, the last entry of the order moving
/// into its place; a map without the key is left unchanged and gives `None`.
#[verifier::external_body]
pub(crate) fn table_swap_remove(m: &mut IndexMap<[u32; 2], [u32; 2]>, key: Point) -> (value:
    Option<Point>)
    ensures
        value == lookup(entries(*old(m)), key),
        entries(*final(m)) == swap_removed(entries(*old(m)), key),
{
    match m.swap_remove(&[key.x, key.y]) {
        Some(v) => Some(Point { x: v[0], y: v[1] }),
        None => None,
    }
}

} // verus!
