//! What holds of the contours of every table.

use crate::contour::{
    contours, drawn_with, follow, lemma_follow_from_first, lemma_table_of, mesh_contours, table_of,
};
use crate::edge_table::{
    contains_key, keys_distinct, lemma_inserted_distinct, lemma_position,
    lemma_swap_removed_distinct, lookup, position, swap_removed,
};
use crate::mesh::{left_by, lemma_edges_of, Edge, Point, SliceMesh};
use crate::path::{path_views, Bead, ExtrusionPath};
use vstd::multiset::Multiset;
use vstd::prelude::*;
use vstd::seq_lib::{lemma_multiset_commutative, to_multiset_build, to_multiset_update};

verus! {

/// The segments of a polyline, from each point to the next.
pub open spec fn segments(path: Seq<Point>) -> Seq<Edge> {
    Seq::new(
        if path.len() == 0 {
            0
        } else {
            (path.len() - 1) as nat
        },
        |i: int| Edge { from: path[i], to: path[i + 1] },
    )
}

/// The segments of a list of polylines, one polyline after the other.
pub open spec fn all_segments(paths: Seq<Seq<Point>>) -> Seq<Edge>
    decreases paths.len(),
{
    if paths.len() == 0 {
        Seq::empty()
    } else {
        segments(paths.first()) + all_segments(paths.drop_first())
    }
}

/// Removing a key takes exactly its entry out of the table.
pub proof fn lemma_swap_removed_multiset(table: Seq<Edge>, key: Point)
    requires
        contains_key(table, key),
    ensures
        table.to_multiset() == swap_removed(table, key).to_multiset().insert(
            table[position(table, key) as int],
        ),
{
    broadcast use vstd::multiset::group_multiset_axioms;

    let p = position(table, key) as int;
    let swapped = table.update(p, table.last());
    let after = swap_removed(table, key);
    to_multiset_update(table, p, table.last());
    assert(swapped == after.push(table.last()));
    to_multiset_build(after, table.last());
    table.to_multiset_ensures();
    assert(table.contains(table[p]));
    let whole = table.to_multiset();
    let left = after.to_multiset();
    assert(swapped.to_multiset() == left.insert(table.last()));
    assert(swapped.to_multiset() == whole.insert(table.last()).remove(table[p]));
    assert forall|e: Edge| whole.count(e) == #[trigger] left.insert(table[p]).count(e) by {
        assert(left.insert(table.last()).count(e) == whole.insert(table.last()).remove(
            table[p],
        ).count(e));
    }
    assert(whole =~= left.insert(table[p]));
}

/// Following a table moves entries from the table into the path, one for
/// one: the segments of the finished path and the entries left over are the
/// segments of the path so far and the entries of the table.
pub proof fn lemma_follow_conserves(table: Seq<Edge>, path: Seq<Point>)
    requires
        path.len() > 0,
    ensures
        segments(follow(table, path).0).to_multiset().add(follow(table, path).1.to_multiset())
            == segments(path).to_multiset().add(table.to_multiset()),
    decreases table.len(),
{
    broadcast use vstd::multiset::group_multiset_axioms;

    let last = path.last();
    if contains_key(table, last) {
        let p = position(table, last) as int;
        let longer = path.push(table[p].to);
        let rest = swap_removed(table, last);
        lemma_position(table, last);
        lemma_follow_conserves(rest, longer);
        lemma_swap_removed_multiset(table, last);
        assert(segments(longer) == segments(path).push(table[p]));
        to_multiset_build(segments(path), table[p]);
        assert(segments(longer).to_multiset().add(rest.to_multiset()) =~= segments(
            path,
        ).to_multiset().add(table.to_multiset()));
    }
}

/// Following a table with distinct keys walks along it as far as it goes:
/// the finished path begins with the path so far, each step it adds is an
/// entry of the table, and no entry is left for its last point.
pub proof fn lemma_follow_walks(table: Seq<Edge>, path: Seq<Point>)
    requires
        keys_distinct(table),
        path.len() > 0,
    ensures
        path.is_prefix_of(follow(table, path).0),
        keys_distinct(follow(table, path).1),
        !contains_key(follow(table, path).1, follow(table, path).0.last()),
        forall|i: int|
            path.len() - 1 <= i < follow(table, path).0.len() - 1 ==> lookup(
                table,
                #[trigger] follow(table, path).0[i],
            ) == Some(follow(table, path).0[i + 1]),
    decreases table.len(),
{
    let last = path.last();
    let (done, left) = follow(table, path);
    if contains_key(table, last) {
        let p = position(table, last) as int;
        let longer = path.push(table[p].to);
        let rest = swap_removed(table, last);
        lemma_position(table, last);
        lemma_swap_removed_distinct(table, last);
        lemma_follow_walks(rest, longer);
        assert(path =~= longer.subrange(0, path.len() as int));
        assert(path =~= done.subrange(0, path.len() as int));
        assert forall|i: int| path.len() - 1 <= i < done.len() - 1 implies lookup(
            table,
            #[trigger] done[i],
        ) == Some(done[i + 1]) by {
            if i == path.len() - 1 {
                assert(done[i] == longer[i]);
                assert(done[i + 1] == longer[i + 1]);
            } else {
                assert(lookup(rest, done[i]) == Some(done[i + 1]));
                assert(done[i] != last);
            }
        }
    } else {
        assert(path =~= done.subrange(0, path.len() as int));
    }
}

/// Every entry of the table becomes exactly one segment of one contour, and
/// the contours have no other segments.
pub proof fn lemma_contours_conserve_edges(table: Seq<Edge>)
    ensures
        all_segments(contours(table)).to_multiset() == table.to_multiset(),
    decreases table.len(),
{
    broadcast use vstd::multiset::group_multiset_axioms;

    if table.len() == 0 {
        assert(table == Seq::<Edge>::empty());
    } else {
        let start = seq![table.first().from];
        let (path, rest) = follow(table, start);
        lemma_follow_from_first(table);
        lemma_follow_conserves(table, start);
        lemma_contours_conserve_edges(rest);
        let all = contours(table);
        assert(all.first() == path);
        assert(all.drop_first() == contours(rest));
        assert(all_segments(all) == segments(path) + all_segments(contours(rest)));
        lemma_multiset_commutative(segments(path), all_segments(contours(rest)));
        assert(segments(start) == Seq::<Edge>::empty());
        segments(start).to_multiset_ensures();
        assert(segments(start).to_multiset() =~= Multiset::<Edge>::empty());
        assert(segments(path).to_multiset().add(rest.to_multiset()) == Multiset::<Edge>::empty().add(
            table.to_multiset(),
        ));
        assert(all_segments(all).to_multiset() =~= table.to_multiset());
    }
}

/// Every contour has at least two points.
pub proof fn lemma_contours_have_segments(table: Seq<Edge>, i: int)
    requires
        0 <= i < contours(table).len(),
    ensures
        contours(table)[i].len() >= 2,
    decreases table.len(),
{
    if table.len() > 0 {
        let (path, rest) = follow(table, seq![table.first().from]);
        lemma_follow_from_first(table);
        if i > 0 {
            lemma_contours_have_segments(rest, i - 1);
        }
    }
}

/// A table has no contours exactly when it has no entries.
pub proof fn lemma_no_entries_no_contours(table: Seq<Edge>)
    ensures
        contours(table).len() == 0 <==> table.len() == 0,
{
}

/// Edges that leave pairwise different points fill the table as they come.
pub proof fn lemma_table_of_distinct_edges(edges: Seq<Edge>)
    requires
        keys_distinct(edges),
    ensures
        table_of(edges) == edges,
    decreases edges.len(),
{
    if edges.len() > 0 {
        let before = edges.drop_last();
        let edge = edges.last();
        assert(keys_distinct(before)) by {
            assert forall|i: int, j: int| 0 <= i < j < before.len() implies (
            #[trigger] before[i]).from != (#[trigger] before[j]).from by {
                assert(before[i] == edges[i]);
                assert(before[j] == edges[j]);
            }
        }
        lemma_table_of_distinct_edges(before);
        lemma_position(before, edge.from);
        if contains_key(before, edge.from) {
            let p = position(before, edge.from) as int;
            assert(before[p] == edges[p]);
            assert(edges[p].from != edges[edges.len() - 1].from);
        }
        assert(before.push(edge) == edges);
    } else {
        assert(edges == Seq::<Edge>::empty());
    }
}

/// The destination of the last edge of the list that leaves `key`.
pub open spec fn last_destination(edges: Seq<Edge>, key: Point) -> Option<Point>
    decreases edges.len(),
{
    if edges.len() == 0 {
        None
    } else if edges.last().from == key {
        Some(edges.last().to)
    } else {
        last_destination(edges.drop_last(), key)
    }
}

/// Of several edges that leave the same point, the table keeps the last.
pub proof fn lemma_last_edge_wins(edges: Seq<Edge>, key: Point)
    ensures
        lookup(table_of(edges), key) == last_destination(edges, key),
    decreases edges.len(),
{
    if edges.len() > 0 {
        lemma_table_of(edges.drop_last());
        lemma_last_edge_wins(edges.drop_last(), key);
        lemma_inserted_distinct(table_of(edges.drop_last()), edges.last());
    }
}

/// The index that follows `i` on a cycle of `n` points.
pub open spec fn successor(i: int, n: nat) -> int {
    if i + 1 == n {
        0
    } else {
        i + 1
    }
}

/// The table holds exactly one closed loop: `cycle` lists its points once
/// each, starting at the source of the first entry, and the table leads from
/// every point of the cycle to the next and from the last back to the first.
pub open spec fn is_cycle_of(table: Seq<Edge>, cycle: Seq<Point>) -> bool {
    &&& cycle.len() > 0
    &&& cycle.len() == table.len()
    &&& cycle.no_duplicates()
    &&& cycle[0] == table.first().from
    &&& forall|i: int|
        0 <= i < cycle.len() ==> lookup(table, #[trigger] cycle[i]) == Some(
            cycle[successor(i, cycle.len())],
        )
}

proof fn lemma_follow_cycle(table: Seq<Edge>, cycle: Seq<Point>, k: int)
    requires
        keys_distinct(table),
        cycle.no_duplicates(),
        1 <= k <= cycle.len(),
        table.len() + k == cycle.len() + 1,
        forall|i: int|
            k - 1 <= i < cycle.len() ==> lookup(table, #[trigger] cycle[i]) == Some(
                cycle[successor(i, cycle.len())],
            ),
    ensures
        follow(table, cycle.take(k)) == (cycle.push(cycle[0]), Seq::<Edge>::empty()),
    decreases cycle.len() - k,
{
    let path = cycle.take(k);
    let last = cycle[k - 1];
    assert(path.last() == last);
    assert(lookup(table, last) == Some(cycle[successor(k - 1, cycle.len())]));
    let rest = swap_removed(table, last);
    let longer = path.push(table[position(table, last) as int].to);
    lemma_swap_removed_distinct(table, last);
    if k < cycle.len() {
        assert(longer == cycle.take(k + 1));
        assert forall|i: int| k <= i < cycle.len() implies lookup(rest, #[trigger] cycle[i])
            == Some(cycle[successor(i, cycle.len())]) by {
            assert(cycle[i] != cycle[k - 1]);
            assert(lookup(rest, cycle[i]) == lookup(table, cycle[i]));
        }
        lemma_follow_cycle(rest, cycle, k + 1);
    } else {
        assert(path == cycle);
        assert(rest == Seq::<Edge>::empty());
        assert(follow(rest, longer) == (longer, rest));
    }
}

/// A table that holds exactly one closed loop has exactly one contour: the
/// points of the loop in order, from the source of the first entry round to
/// that point again.
pub proof fn lemma_single_loop(table: Seq<Edge>, cycle: Seq<Point>)
    requires
        keys_distinct(table),
        is_cycle_of(table, cycle),
    ensures
        contours(table) == seq![cycle.push(cycle[0])],
{
    let start = seq![table.first().from];
    assert(start == cycle.take(1));
    lemma_follow_cycle(table, cycle, 1);
    let (path, rest) = follow(table, start);
    assert(contours(rest) == Seq::<Seq<Point>>::empty());
    assert(contours(table) == seq![path] + contours(rest));
}

/// Edges that leave pairwise different points and form exactly one closed
/// loop chain into exactly one contour, whatever the order they come in: it
/// starts where the first edge starts, visits every point of the loop once
/// and returns to its start.
pub proof fn lemma_single_loop_of_edges(edges: Seq<Edge>, cycle: Seq<Point>)
    requires
        keys_distinct(edges),
        is_cycle_of(edges, cycle),
    ensures
        contours(table_of(edges)) == seq![cycle.push(cycle[0])],
{
    lemma_table_of_distinct_edges(edges);
    lemma_single_loop(edges, cycle);
}

/// Edges that leave pairwise different points are all drawn: each becomes
/// exactly one segment of one contour.
pub proof fn lemma_distinct_edges_all_drawn(edges: Seq<Edge>)
    requires
        keys_distinct(edges),
    ensures
        all_segments(contours(table_of(edges))).to_multiset() == edges.to_multiset(),
{
    lemma_table_of_distinct_edges(edges);
    lemma_contours_conserve_edges(edges);
}

/// Every entry of the table that a list of edges fills is an edge of the
/// list.
pub proof fn lemma_table_entries_are_edges(edges: Seq<Edge>, edge: Edge)
    requires
        table_of(edges).contains(edge),
    ensures
        edges.contains(edge),
    decreases edges.len(),
{
    if edges.len() > 0 {
        let before = table_of(edges.drop_last());
        let table = table_of(edges);
        let k = choose|k: int| 0 <= k < table.len() && table[k] == edge;
        lemma_position(before, edges.last().from);
        if edge == edges.last() {
            assert(edges[edges.len() - 1] == edge);
        } else {
            assert(before[k] == edge);
            lemma_table_entries_are_edges(edges.drop_last(), edge);
            let n = choose|n: int| 0 <= n < edges.drop_last().len() && edges.drop_last()[n] == edge;
            assert(edges[n] == edge);
        }
    }
}

/// A segment of one of the polylines is among the segments of them all.
pub proof fn lemma_segment_is_among_all(paths: Seq<Seq<Point>>, i: int, j: int)
    requires
        0 <= i < paths.len(),
        0 <= j < paths[i].len() - 1,
    ensures
        all_segments(paths).contains(Edge { from: paths[i][j], to: paths[i][j + 1] }),
    decreases paths.len(),
{
    let edge = Edge { from: paths[i][j], to: paths[i][j + 1] };
    let head = segments(paths.first());
    let tail = all_segments(paths.drop_first());
    if i == 0 {
        assert(head[j] == edge);
        assert((head + tail)[j] == edge);
    } else {
        assert(paths.drop_first()[i - 1] == paths[i]);
        lemma_segment_is_among_all(paths.drop_first(), i - 1, j);
        let n = choose|n: int| 0 <= n < tail.len() && tail[n] == edge;
        assert((head + tail)[head.len() + n] == edge);
    }
}

/// Every segment of every contour of a mesh runs along a side of one of its
/// triangles: a triangle with exactly two corners on the cutting plane, and
/// the side between those two.
pub proof fn lemma_contours_run_along_plane_edges(mesh: SliceMesh, i: int, j: int)
    requires
        0 <= i < mesh_contours(mesh).len(),
        0 <= j < mesh_contours(mesh)[i].len() - 1,
    ensures
        exists|k: int|
            0 <= k < mesh.triangles@.len() && left_by(
                mesh.vertices@,
                #[trigger] mesh.triangles@[k],
                Edge { from: mesh_contours(mesh)[i][j], to: mesh_contours(mesh)[i][j + 1] },
            ),
{
    let edges = mesh.plane_edges();
    let table = table_of(edges);
    let lines = contours(table);
    let edge = Edge { from: lines[i][j], to: lines[i][j + 1] };
    lemma_segment_is_among_all(lines, i, j);
    lemma_contours_conserve_edges(table);
    all_segments(lines).to_multiset_ensures();
    table.to_multiset_ensures();
    assert(all_segments(lines).to_multiset().count(edge) > 0);
    assert(table.to_multiset().count(edge) > 0);
    lemma_table_entries_are_edges(edges, edge);
    lemma_edges_of(mesh.vertices@, mesh.triangles@, edge);
}

/// A mesh without plane edges has no contours.
pub proof fn lemma_no_plane_edges_no_contours(mesh: SliceMesh)
    requires
        mesh.plane_edges().len() == 0,
    ensures
        mesh_contours(mesh).len() == 0,
{
    lemma_table_of(mesh.plane_edges());
}

/// Extraction is repeatable: two results for meshes with the same vertices
/// and triangles, drawn with the same bead, hold the same paths in the same
/// order.
pub proof fn lemma_extraction_repeatable(
    mesh: SliceMesh,
    again: SliceMesh,
    bead: Bead,
    first: Seq<ExtrusionPath>,
    second: Seq<ExtrusionPath>,
)
    requires
        mesh.vertices@ == again.vertices@,
        mesh.triangles@ == again.triangles@,
        path_views(first) == drawn_with(bead, mesh_contours(mesh)),
        path_views(second) == drawn_with(bead, mesh_contours(again)),
    ensures
        first.len() == second.len(),
        forall|i: int| 0 <= i < first.len() ==> (#[trigger] first[i])@ == second[i]@,
{
    assert(mesh.plane_edges() == again.plane_edges());
    assert(path_views(first).len() == first.len());
    assert(path_views(second).len() == second.len());
    assert forall|i: int| 0 <= i < first.len() implies (#[trigger] first[i])@ == second[i]@ by {
        assert(path_views(first)[i] == path_views(second)[i]);
    }
}

} // verus!
