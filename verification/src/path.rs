//! Extrusion paths and the printer moves that draw them.
//!
//! Lengths, areas and heights are double-precision values that the library
//! only carries: they are held as their bit patterns and handed back as they
//! came.

use crate::mesh::Point;
use vstd::prelude::*;

verus! {

/// What all paths of one slice share, each field the bit pattern of a
/// double-precision value.
#[derive(Clone, Copy, Debug, PartialEq, Eq, Structural, Hash)]
pub struct Bead {
    /// Width of the extruded bead.
    pub width: u64,
    /// Height of the extruded bead.
    pub height: u64,
    /// Height of the nozzle while the path is drawn: the top of the layer.
    pub z_height: u64,
    /// Cross-section of the filament that feeds the nozzle.
    pub filament_area: u64,
}

/// One polyline and the bead it is drawn with.
#[derive(Clone, Debug)]
pub struct ExtrusionPath {
    pub bead: Bead,
    pub points: Vec<Point>,
}

/// An extrusion path as a value: its bead and its points in order.
pub struct PathView {
    pub bead: Bead,
    pub points: Seq<Point>,
}

impl View for ExtrusionPath {
    type V = PathView;

    open spec fn view(&self) -> PathView {
        PathView { bead: self.bead, points: self.points@ }
    }
}

/// The values of a list of paths.
pub open spec fn path_views(paths: Seq<ExtrusionPath>) -> Seq<PathView> {
    paths.map_values(|path: ExtrusionPath| path@)
}

/// One printer move.
#[derive(Clone, Copy, Debug, PartialEq, Eq, Structural, Hash)]
pub enum Move {
    /// Move along the vertical axis only, to height `z`.
    Lift { z: u64 },
    /// Move to `to` at height `z` without extruding.
    Travel { to: Point, z: u64 },
    /// Move in the plane from `from` to `to`, extruding the segment between
    /// them with `bead`.
    Extrude { from: Point, to: Point, bead: Bead },
}

/// The moves that draw a path: nothing for a path without points; otherwise
/// a lift to the height of its bead, a travel to its first point, and one
/// extrusion for each further point, in order.
pub open spec fn moves_of(path: PathView) -> Seq<Move> {
    let z = path.bead.z_height;
    if path.points.len() == 0 {
        Seq::empty()
    } else {
        seq![Move::Lift { z }, Move::Travel { to: path.points[0], z }] + Seq::new(
            (path.points.len() - 1) as nat,
            |i: int|
                Move::Extrude { from: path.points[i], to: path.points[i + 1], bead: path.bead },
        )
    }
}

impl ExtrusionPath {
    /// The path holds at least one point.
    pub open spec fn well_formed(&self) -> bool {
        self.points@.len() >= 1
    }

    /// A path that starts, and so far ends, at `start`.
    pub fn new(bead: Bead, start: Point) -> (path: ExtrusionPath)
        ensures
            path.bead == bead,
            path.points@ == seq![start],
            path.well_formed(),
    {
        let mut points: Vec<Point> = Vec::new();
        points.push(start);
        ExtrusionPath { bead, points }
    }

    /// Appends a point to the end of the path.
    pub fn add_to_path(&mut self, point: Point)
        ensures
            final(self).bead == old(self).bead,
            final(self).points@ == old(self).points@.push(point),
            final(self).well_formed(),
    {
        self.points.push(point);
    }

    /// The first point, if the path has one.
    pub fn first_point_in_path(&self) -> (first: Option<Point>)
        ensures
            first == (if self.points@.len() == 0 {
                None
            } else {
                Some(self.points@.first())
            }),
    {
        if self.points.len() == 0 {
            None
        } else {
            Some(self.points[0])
        }
    }

    /// The last point, if the path has one.
    pub fn last_point_in_path(&self) -> (last: Option<Point>)
        ensures
            last == (if self.points@.len() == 0 {
                None
            } else {
                Some(self.points@.last())
            }),
    {
        let n = self.points.len();
        if n == 0 {
            None
        } else {
            Some(self.points[n - 1])
        }
    }

    /// The first point as the pair of its coordinate patterns.
    pub fn first_point_in_path_as_bits(&self) -> (first: Option<[u32; 2]>)
        ensures
            self.points@.len() == 0 <==> first is None,
            first matches Some(bits) ==> bits@ == seq![
                self.points@.first().x,
                self.points@.first().y,
            ],
    {
        match self.first_point_in_path() {
            Some(p) => Some([p.x, p.y]),
            None => None,
        }
    }

    /// The last point as the pair of its coordinate patterns.
    pub fn last_point_in_path_as_bits(&self) -> (last: Option<[u32; 2]>)
        ensures
            self.points@.len() == 0 <==> last is None,
            last matches Some(bits) ==> bits@ == seq![
                self.points@.last().x,
                self.points@.last().y,
            ],
    {
        match self.last_point_in_path() {
            Some(p) => Some([p.x, p.y]),
            None => None,
        }
    }

    /// The moves that draw this path.
    pub fn moves(&self) -> (moves: Vec<Move>)
        ensures
            moves@ == moves_of(self@),
    {
        let mut moves: Vec<Move> = Vec::new();
        let n = self.points.len();
        if n == 0 {
            return moves;
        }
        let bead = self.bead;
        let z = bead.z_height;
        moves.push(Move::Lift { z });
        moves.push(Move::Travel { to: self.points[0], z });
        let mut i: usize = 1;
        while i < n
            invariant
                1 <= i <= n,
                n == self.points@.len(),
                bead == self.bead,
                z == bead.z_height,
                moves@.len() == i + 1,
                moves@[0] == (Move::Lift { z }),
                moves@[1] == (Move::Travel { to: self.points@[0], z }),
                forall|k: int|
                    0 <= k < i - 1 ==> #[trigger] moves@[k + 2] == (Move::Extrude {
                        from: self.points@[k],
                        to: self.points@[k + 1],
                        bead,
                    }),
            decreases n - i,
        {
            moves.push(Move::Extrude { from: self.points[i - 1], to: self.points[i], bead });
            i += 1;
        }
        proof {
            let want = moves_of(self@);
            assert(moves@.len() == want.len());
            assert forall|k: int| 0 <= k < moves@.len() implies moves@[k] == want[k] by {
                if k >= 2 {
                    assert(moves@[(k - 2) + 2] == want[k]);
                }
            }
            assert(moves@ == want);
        }
        moves
    }
}

/// The moves of a list of paths, one path after the other.
pub open spec fn plan_of(paths: Seq<PathView>) -> Seq<Move>
    decreases paths.len(),
{
    if paths.len() == 0 {
        Seq::empty()
    } else {
        plan_of(paths.drop_last()) + moves_of(paths.last())
    }
}

/// The moves that draw every path of the list, in the order of the list.
pub fn plan_moves(paths: &Vec<ExtrusionPath>) -> (plan: Vec<Move>)
    ensures
        plan@ == plan_of(path_views(paths@)),
{
    let mut plan: Vec<Move> = Vec::new();
    let mut i: usize = 0;
    while i < paths.len()
        invariant
            i <= paths@.len(),
            plan@ == plan_of(path_views(paths@.take(i as int))),
        decreases paths@.len() - i,
    {
        let mut moves = paths[i].moves();
        let ghost before = plan@;
        plan.append(&mut moves);
        proof {
            let done = path_views(paths@.take(i as int + 1));
            assert(done.drop_last() == path_views(paths@.take(i as int)));
            assert(done.last() == paths@[i as int]@);
        }
        i += 1;
    }
    proof {
        assert(paths@.take(i as int) == paths@);
    }
    plan
}

} // verus!
