//! Contours: the polylines that the plane edges of a mesh chain into.

use crate::edge_table::{
    contains_key, entries, inserted, keys_distinct, lemma_inserted_distinct, lemma_position,
    position, swap_removed, table_first_key, table_insert, table_new, table_swap_remove,
};
use crate::mesh::{Edge, Point, SliceMesh};
use crate::path::{path_views, Bead, ExtrusionPath, PathView};
use vstd::prelude::*;

verus! {

/// The adjacency table that a list of edges fills, edge after edge: a later
/// edge from the same point overwrites the earlier one.
pub open spec fn table_of(edges: Seq<Edge>) -> Seq<Edge>
    decreases edges.len(),
{
    if edges.len() == 0 {
        Seq::empty()
    } else {
        inserted(table_of(edges.drop_last()), edges.last())
    }
}

/// Extends `path` along the table for as long as an entry leaves its last
/// point, taking each entry out as it is used. Gives the finished path and
/// what is left of the table.
pub open spec fn follow(table: Seq<Edge>, path: Seq<Point>) -> (Seq<Point>, Seq<Edge>)
    decreases table.len(),
{
    if path.len() > 0 && contains_key(table, path.last()) {
        follow(
            swap_removed(table, path.last()),
            path.push(table[position(table, path.last()) as int].to),
        )
    } else {
        (path, table)
    }
}

/// The contours of a table: the path that starts at the source of the first
/// entry and follows the table, then the contours of what that path left.
pub open spec fn contours(table: Seq<Edge>) -> Seq<Seq<Point>>
    decreases table.len(),
    via contours_decreases
{
    if table.len() == 0 {
        Seq::empty()
    } else {
        let (path, rest) = follow(table, seq![table.first().from]);
        seq![path] + contours(rest)
    }
}

#[via_fn]
proof fn contours_decreases(table: Seq<Edge>) {
    if table.len() > 0 {
        lemma_follow_from_first(table);
    }
}

/// Following never grows the table.
pub proof fn lemma_follow_shrinks(table: Seq<Edge>, path: Seq<Point>)
    ensures
        follow(table, path).1.len() <= table.len(),
        follow(table, path).0.len() + follow(table, path).1.len() == path.len() + table.len(),
    decreases table.len(),
{
    if path.len() > 0 && contains_key(table, path.last()) {
        lemma_follow_shrinks(
            swap_removed(table, path.last()),
            path.push(table[position(table, path.last()) as int].to),
        );
    }
}

/// A path started at the first entry uses at least that entry.
pub proof fn lemma_follow_from_first(table: Seq<Edge>)
    requires
        table.len() > 0,
    ensures
        follow(table, seq![table.first().from]).1.len() < table.len(),
        follow(table, seq![table.first().from]).0.len() >= 2,
{
    let start = table.first().from;
    let path = seq![start];
    assert(path.last() == start);
    assert(position(table, start) == 0);
    lemma_follow_shrinks(swap_removed(table, start), path.push(table[0].to));
}

/// A list of edges fills a table that has entries exactly when the list has
/// edges, with no two entries leaving the same point.
pub proof fn lemma_table_of(edges: Seq<Edge>)
    ensures
        keys_distinct(table_of(edges)),
        table_of(edges).len() <= edges.len(),
        table_of(edges).len() == 0 <==> edges.len() == 0,
    decreases edges.len(),
{
    if edges.len() > 0 {
        lemma_table_of(edges.drop_last());
        lemma_inserted_distinct(table_of(edges.drop_last()), edges.last());
    }
}

/// The paths that draw a list of polylines with one bead.
pub open spec fn drawn_with(bead: Bead, lines: Seq<Seq<Point>>) -> Seq<PathView> {
    lines.map_values(|points: Seq<Point>| PathView { bead, points })
}

/// Fills an adjacency table from `edges` and chains its entries into paths,
/// each drawn with `bead`.
pub fn trace_contours(edges: &Vec<Edge>, bead: Bead) -> (paths: Vec<ExtrusionPath>)
    ensures
        path_views(paths@) == drawn_with(bead, contours(table_of(edges@))),
        forall|i: int| 0 <= i < paths@.len() ==> (#[trigger] paths@[i]).points@.len() >= 2,
        edges@.len() == 0 ==> paths@.len() == 0,
{
    let mut table = table_new();
    let mut i: usize = 0;
    while i < edges.len()
        invariant
            i <= edges@.len(),
            entries(table) == table_of(edges@.take(i as int)),
        decreases edges@.len() - i,
    {
        table_insert(&mut table, edges[i]);
        proof {
            let done = edges@.take(i as int + 1);
            assert(done.drop_last() == edges@.take(i as int));
            assert(done.last() == edges@[i as int]);
        }
        i += 1;
    }
    proof {
        assert(edges@.take(i as int) == edges@);
    }
    let mut paths: Vec<ExtrusionPath> = Vec::new();
    loop
        invariant
            path_views(paths@) + drawn_with(bead, contours(entries(table))) == drawn_with(
                bead,
                contours(table_of(edges@)),
            ),
            forall|k: int| 0 <= k < paths@.len() ==> (#[trigger] paths@[k]).points@.len() >= 2,
        ensures
            entries(table).len() == 0,
        decreases entries(table).len(),
    {
        let ghost whole = entries(table);
        let start = match table_first_key(&table) {
            Some(key) => key,
            None => { break; },
        };
        let mut path = ExtrusionPath::new(bead, start);
        loop
            invariant
                path.bead == bead,
                path.points@.len() > 0,
                follow(entries(table), path.points@) == follow(whole, seq![start]),
            ensures
                path.bead == bead,
                (path.points@, entries(table)) == follow(whole, seq![start]),
            decreases entries(table).len(),
        {
            let last = match path.last_point_in_path() {
                Some(point) => point,
                None => { break; },
            };
            proof {
                lemma_position(entries(table), last);
            }
            match table_swap_remove(&mut table, last) {
                Some(next) => {
                    path.add_to_path(next);
                },
                None => {
                    break;
                },
            }
        }
        proof {
            lemma_follow_from_first(whole);
            let rest = drawn_with(bead, contours(entries(table)));
            assert(path_views(paths@.push(path)) == path_views(paths@) + seq![path@]);
            assert(drawn_with(bead, contours(whole)) == seq![path@] + rest);
            assert(path_views(paths@.push(path)) + rest == path_views(paths@) + (seq![path@]
                + rest));
        }
        paths.push(path);
    }
    proof {
        assert(drawn_with(bead, contours(entries(table))) == Seq::<PathView>::empty());
        assert(path_views(paths@) + Seq::<PathView>::empty() == path_views(paths@));
        lemma_table_of(edges@);
    }
    paths
}

/// The contours that a mesh leaves on the cutting plane.
pub open spec fn mesh_contours(mesh: SliceMesh) -> Seq<Seq<Point>> {
    contours(table_of(mesh.plane_edges()))
}

/// Rebuilds the contours of one slice from its mesh. The paths come in the
/// order in which they are found and are all drawn with `bead`.
pub fn extract_contours(mesh: &SliceMesh, bead: Bead) -> (paths: Vec<ExtrusionPath>)
    requires
        mesh.well_formed(),
    ensures
        path_views(paths@) == drawn_with(bead, mesh_contours(*mesh)),
        forall|i: int| 0 <= i < paths@.len() ==> (#[trigger] paths@[i]).points@.len() >= 2,
        mesh.plane_edges().len() == 0 ==> paths@.len() == 0,
{
    let edges = mesh.collect_plane_edges();
    trace_contours(&edges, bead)
}

} // verus!
