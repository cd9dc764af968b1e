//! The run of one print job as a state machine.
//!
//! Planning the layers and meshing a cross-section are done by the caller.
//! The slicer decides what is to be done next, takes each result in, and
//! collects the paths in the order in which they are to be printed: layer by
//! layer from the lowest, within a layer from the highest perimeter index
//! down to zero, within a perimeter in the order of discovery.

use crate::config::{ConfigurationError, PrintConfig};
use crate::contour::{drawn_with, extract_contours, mesh_contours};
use crate::mesh::SliceMesh;
use crate::path::{path_views, Bead, ExtrusionPath, PathView};
use vstd::prelude::*;

verus! {

/// The kinds of layer. Only standard layers are planned.
#[derive(Clone, Copy, Debug, PartialEq, Eq, Structural, Hash)]
pub enum LayerType {
    Standard,
}

/// One planned layer; `z_height` is the bit pattern of a double-precision
/// height.
#[derive(Clone, Copy, Debug, PartialEq, Eq, Structural, Hash)]
pub struct Layer {
    pub z_height: u64,
    pub layer_type: LayerType,
}

impl Layer {
    /// A layer of this kind at this height.
    pub fn new(z_height: u64, layer_type: LayerType) -> (layer: Layer)
        ensures
            layer.z_height == z_height,
            layer.layer_type == layer_type,
    {
        Layer { z_height, layer_type }
    }
}

/// Where a run stands.
#[derive(Clone, Copy, Debug, PartialEq, Eq, Structural, Hash)]
pub enum Phase {
    /// Nothing has been asked for yet.
    Idle,
    /// The layers are being planned.
    Planning,
    /// The cross-section of this layer and perimeter is being meshed.
    Slicing { layer: usize, perimeter: u64 },
    /// The collected paths are being written out.
    Emitting,
    /// The run has ended well.
    Done,
    /// The run was aborted.
    Failed,
}

/// What the caller reports back.
#[derive(Clone, Debug)]
pub enum Event {
    /// The run is to begin.
    Start,
    /// The layers are planned, lowest first.
    Planned { layers: Vec<Layer> },
    /// The requested cross-section has been meshed; its paths are to be
    /// drawn with `bead`.
    Meshed { mesh: SliceMesh, bead: Bead },
    /// The requested cross-section could not be meshed.
    MeshFailed,
    /// The paths have been written out.
    Emitted,
}

/// What the caller is to do next.
#[derive(Clone, Copy, Debug, PartialEq, Eq, Structural, Hash)]
pub enum Action {
    /// Plan the layers and report `Planned`.
    Plan,
    /// Mesh the cross-section of this layer and perimeter and report
    /// `Meshed` or `MeshFailed`.
    Mesh { layer: usize, perimeter: u64 },
    /// Write the collected paths out and report `Emitted`.
    Emit,
    /// Nothing is left to do.
    Finish,
    /// Give the run up.
    Abort,
}

/// An event that the current phase does not wait for.
#[derive(Clone, Copy, Debug, PartialEq, Eq, Structural, Hash)]
pub struct Unexpected {
    pub phase: Phase,
}

/// The state of a run.
#[derive(Debug)]
pub struct Slicer {
    pub config: PrintConfig,
    pub layers: Vec<Layer>,
    pub phase: Phase,
    pub paths: Vec<ExtrusionPath>,
}

/// The state of a run as a value.
pub struct SlicerState {
    pub config: PrintConfig,
    pub layers: Seq<Layer>,
    pub phase: Phase,
    pub paths: Seq<PathView>,
}

impl View for Slicer {
    type V = SlicerState;

    open spec fn view(&self) -> SlicerState {
        SlicerState {
            config: self.config,
            layers: self.layers@,
            phase: self.phase,
            paths: path_views(self.paths@),
        }
    }
}

/// The phase that follows planning: the highest perimeter of the lowest
/// layer, or emission if there is nothing to mesh.
pub open spec fn first_unit(layers: nat, perimeters: u64) -> Phase {
    if layers == 0 || perimeters == 0 {
        Phase::Emitting
    } else {
        Phase::Slicing { layer: 0, perimeter: (perimeters - 1) as u64 }
    }
}

/// The phase that follows the meshing of one cross-section: the next lower
/// perimeter of the same layer, else the highest perimeter of the next
/// layer, else emission.
pub open spec fn next_unit(layers: nat, perimeters: u64, layer: usize, perimeter: u64) -> Phase {
    if perimeter > 0 {
        Phase::Slicing { layer, perimeter: (perimeter - 1) as u64 }
    } else if layer + 1 < layers && perimeters > 0 {
        Phase::Slicing { layer: (layer + 1) as usize, perimeter: (perimeters - 1) as u64 }
    } else {
        Phase::Emitting
    }
}

/// What a phase asks of the caller. `Idle` asks for nothing; it is left by
/// `Start` alone.
pub open spec fn request(phase: Phase) -> Action {
    match phase {
        Phase::Idle | Phase::Planning => Action::Plan,
        Phase::Slicing { layer, perimeter } => Action::Mesh { layer, perimeter },
        Phase::Emitting => Action::Emit,
        Phase::Done => Action::Finish,
        Phase::Failed => Action::Abort,
    }
}

impl SlicerState {
    /// The number of perimeters of each layer.
    pub open spec fn perimeters(self) -> u64 {
        self.config.perimeter_count
    }

    /// The configuration is valid, the plan can be held in memory, and a
    /// cross-section that is being meshed belongs to the plan.
    pub open spec fn well_formed(self) -> bool {
        &&& self.config.valid()
        &&& self.layers.len() <= usize::MAX
        &&& self.phase matches Phase::Slicing { layer, perimeter } ==> layer < self.layers.len()
            && perimeter < self.perimeters()
    }

    /// The state after an event, or `None` if the phase does not wait for
    /// that event.
    ///
    /// A mesh whose triangles name vertices that it does not have counts as
    /// a failure of the mesher, and like any such failure it ends the run.
    pub open spec fn after(self, event: Event) -> Option<SlicerState> {
        match (self.phase, event) {
            (Phase::Idle, Event::Start) => Some(SlicerState { phase: Phase::Planning, ..self }),
            (Phase::Planning, Event::Planned { layers }) => Some(
                SlicerState {
                    layers: layers@,
                    phase: first_unit(layers@.len(), self.perimeters()),
                    ..self
                },
            ),
            (Phase::Slicing { layer, perimeter }, Event::Meshed { mesh, bead }) => Some(
                if mesh.well_formed() {
                    SlicerState {
                        phase: next_unit(self.layers.len(), self.perimeters(), layer, perimeter),
                        paths: self.paths + drawn_with(bead, mesh_contours(mesh)),
                        ..self
                    }
                } else {
                    SlicerState { phase: Phase::Failed, ..self }
                },
            ),
            (Phase::Slicing { .. }, Event::MeshFailed) => Some(
                SlicerState { phase: Phase::Failed, ..self },
            ),
            (Phase::Emitting, Event::Emitted) => Some(SlicerState { phase: Phase::Done, ..self }),
            _ => None,
        }
    }
}

/// How many cross-sections of a run are meshed before this one.
pub open spec fn rank(perimeters: u64, layer: usize, perimeter: u64) -> int {
    layer * perimeters + (perimeters - 1 - perimeter)
}

/// Planning leads to the cross-section of rank zero, or straight to emission
/// when the plan holds no cross-section at all.
pub proof fn lemma_first_unit(layers: nat, perimeters: u64)
    ensures
        match first_unit(layers, perimeters) {
            Phase::Slicing { layer, perimeter } => layer < layers && perimeter < perimeters
                && rank(perimeters, layer, perimeter) == 0,
            Phase::Emitting => layers * perimeters == 0,
            _ => false,
        },
{
    assert(layers == 0 || perimeters == 0 ==> layers * perimeters == 0) by (nonlinear_arith);
}

/// The cross-sections are meshed in the order of their ranks, each exactly
/// once: a mesh that is taken in leads to the cross-section of the next rank,
/// and to emission when every cross-section of the plan has been meshed.
pub proof fn lemma_units_in_order(state: SlicerState, mesh: SliceMesh, bead: Bead)
    requires
        state.well_formed(),
        state.phase is Slicing,
        mesh.well_formed(),
    ensures
        state.after(Event::Meshed { mesh, bead }) is Some,
        match state.after(Event::Meshed { mesh, bead }).unwrap().phase {
            Phase::Slicing { layer, perimeter } => layer < state.layers.len() && perimeter
                < state.perimeters() && rank(state.perimeters(), layer, perimeter) == rank(
                state.perimeters(),
                state.phase->layer,
                state.phase->perimeter,
            ) + 1,
            Phase::Emitting => rank(state.perimeters(), state.phase->layer, state.phase->perimeter)
                + 1 == state.layers.len() * state.perimeters(),
            _ => false,
        },
{
    let count = state.perimeters() as int;
    let layer = state.phase->layer as int;
    let layers = state.layers.len() as int;
    assert((layer + 1) * count == layer * count + count) by (nonlinear_arith);
    if layer + 1 == layers {
        assert(layers * count == layer * count + count);
    }
}

/// The state after a list of events, taken in order. An event that is
/// refused changes nothing.
pub open spec fn after_all(state: SlicerState, events: Seq<Event>) -> SlicerState
    decreases events.len(),
{
    if events.len() == 0 {
        state
    } else {
        let before = after_all(state, events.drop_last());
        match before.after(events.last()) {
            Some(next) => next,
            None => before,
        }
    }
}

/// The events that report a list of meshes, each with the bead of its paths.
pub open spec fn meshed(meshes: Seq<(SliceMesh, Bead)>) -> Seq<Event> {
    meshes.map_values(|m: (SliceMesh, Bead)| Event::Meshed { mesh: m.0, bead: m.1 })
}

/// The paths of a list of meshes: the contours of the first mesh in the
/// order of their discovery, then those of the second, and so on.
pub open spec fn paths_of(meshes: Seq<(SliceMesh, Bead)>) -> Seq<PathView>
    decreases meshes.len(),
{
    if meshes.len() == 0 {
        Seq::empty()
    } else {
        paths_of(meshes.drop_last()) + drawn_with(
            meshes.last().1,
            mesh_contours(meshes.last().0),
        )
    }
}

/// A run collects its paths in the order of the cross-sections: once the
/// layers are planned, the meshes of the first `n` cross-sections leave
/// exactly their paths, mesh after mesh, and the run waits for the
/// cross-section of rank `n`, or for emission when none is left.
pub proof fn lemma_run_in_order(planned: SlicerState, meshes: Seq<(SliceMesh, Bead)>)
    requires
        planned.well_formed(),
        planned.phase == first_unit(planned.layers.len(), planned.perimeters()),
        meshes.len() <= planned.layers.len() * planned.perimeters(),
        forall|i: int| 0 <= i < meshes.len() ==> (#[trigger] meshes[i]).0.well_formed(),
    ensures
        ({
            let end = after_all(planned, meshed(meshes));
            &&& end.well_formed()
            &&& end.config == planned.config
            &&& end.layers == planned.layers
            &&& end.paths == planned.paths + paths_of(meshes)
            &&& match end.phase {
                Phase::Slicing { layer, perimeter } => rank(planned.perimeters(), layer, perimeter)
                    == meshes.len(),
                Phase::Emitting => meshes.len() == planned.layers.len() * planned.perimeters(),
                _ => false,
            }
        }),
    decreases meshes.len(),
{
    let events = meshed(meshes);
    if meshes.len() == 0 {
        lemma_first_unit(planned.layers.len(), planned.perimeters());
        assert(planned.paths + paths_of(meshes) == planned.paths);
    } else {
        let earlier = meshes.drop_last();
        let (mesh, bead) = meshes.last();
        assert(events.drop_last() == meshed(earlier));
        assert(events.last() == Event::Meshed { mesh, bead });
        lemma_run_in_order(planned, earlier);
        let before = after_all(planned, meshed(earlier));
        lemma_units_in_order(before, mesh, bead);
        let end = after_all(planned, events);
        assert(end == before.after(events.last()).unwrap());
        assert(end.paths == planned.paths + paths_of(meshes));
    }
}

/// Paths that have been collected stay where they are: an event adds paths
/// at the end of the list or leaves the list alone.
pub proof fn lemma_paths_are_kept(state: SlicerState, event: Event)
    ensures
        state.after(event) matches Some(next) ==> state.paths.is_prefix_of(next.paths),
{
    if let Some(next) = state.after(event) {
        assert(state.paths =~= next.paths.subrange(0, state.paths.len() as int));
    }
}

/// A run that has ended or was aborted takes no further event.
pub proof fn lemma_end_is_final(state: SlicerState, event: Event)
    requires
        state.phase is Done || state.phase is Failed,
    ensures
        state.after(event) is None,
{
}

impl Slicer {
    /// A run that has not begun. The configuration is checked before
    /// anything else is done with it, and a run is made only of a valid one.
    pub fn new(config: PrintConfig) -> (made: Result<Slicer, ConfigurationError>)
        ensures
            match config.verdict() {
                Ok(_) => made is Ok && made->Ok_0@ == (SlicerState {
                    config,
                    layers: Seq::empty(),
                    phase: Phase::Idle,
                    paths: Seq::empty(),
                }) && made->Ok_0@.well_formed(),
                Err(rule) => made is Err && made->Err_0 == rule,
            },
    {
        match config.validate() {
            Ok(_) => {
                let slicer = Slicer {
                    config,
                    layers: Vec::new(),
                    phase: Phase::Idle,
                    paths: Vec::new(),
                };
                assert(slicer@.paths == Seq::<PathView>::empty());
                Ok(slicer)
            },
            Err(rule) => Err(rule),
        }
    }

    /// Takes one event in. An event that the phase waits for moves the run
    /// on and gives what is to be done next; any other event is refused and
    /// leaves the run as it was.
    pub fn step(&mut self, event: Event) -> (next: Result<Action, Unexpected>)
        ensures
            match old(self)@.after(event) {
                Some(state) => final(self)@ == state && next == Ok::<Action, Unexpected>(
                    request(state.phase),
                ),
                None => final(self)@ == old(self)@ && next == Err::<Action, Unexpected>(
                    Unexpected { phase: old(self).phase },
                ),
            },
            old(self)@.well_formed() ==> final(self)@.well_formed(),
    {
        let phase = self.phase;
        match (phase, event) {
            (Phase::Idle, Event::Start) => {
                self.phase = Phase::Planning;
                Ok(Action::Plan)
            },
            (Phase::Planning, Event::Planned { layers }) => {
                self.layers = layers;
                if self.layers.len() == 0 || self.config.perimeter_count == 0 {
                    self.phase = Phase::Emitting;
                    Ok(Action::Emit)
                } else {
                    let perimeter = self.config.perimeter_count - 1;
                    self.phase = Phase::Slicing { layer: 0, perimeter };
                    Ok(Action::Mesh { layer: 0, perimeter })
                }
            },
            (Phase::Slicing { layer, perimeter }, Event::Meshed { mesh, bead }) => {
                if !mesh.is_well_formed() {
                    self.phase = Phase::Failed;
                    return Ok(Action::Abort);
                }
                let mut found = extract_contours(&mesh, bead);
                proof {
                    assert(path_views(self.paths@ + found@) == path_views(self.paths@)
                        + path_views(found@));
                }
                self.paths.append(&mut found);
                let count = self.layers.len();
                if perimeter > 0 {
                    self.phase = Phase::Slicing { layer, perimeter: perimeter - 1 };
                    Ok(Action::Mesh { layer, perimeter: perimeter - 1 })
                } else if count > 0 && layer < count - 1 && self.config.perimeter_count > 0 {
                    let perimeter = self.config.perimeter_count - 1;
                    self.phase = Phase::Slicing { layer: layer + 1, perimeter };
                    Ok(Action::Mesh { layer: layer + 1, perimeter })
                } else {
                    self.phase = Phase::Emitting;
                    Ok(Action::Emit)
                }
            },
            (Phase::Slicing { .. }, Event::MeshFailed) => {
                self.phase = Phase::Failed;
                Ok(Action::Abort)
            },
            (Phase::Emitting, Event::Emitted) => {
                self.phase = Phase::Done;
                Ok(Action::Finish)
            },
            _ => Err(Unexpected { phase }),
        }
    }
}

} // verus!
