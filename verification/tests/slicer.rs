use perimeter_slicer::config::{Axis, ConfigurationError, PrintConfig};
use perimeter_slicer::mesh::{Point, SliceMesh, Triangle, Vertex};
use perimeter_slicer::path::Bead;
use perimeter_slicer::slicer::{Action, Event, Layer, LayerType, Phase, Slicer, Unexpected};

fn v(x: f32, y: f32, z: f32) -> Vertex {
    Vertex { x: x.to_bits(), y: y.to_bits(), z: z.to_bits() }
}

fn pt(x: f32, y: f32) -> Point {
    Point { x: x.to_bits(), y: y.to_bits() }
}

fn bead_at(z: f64) -> Bead {
    Bead { width: 1, height: 2, z_height: z.to_bits(), filament_area: 3 }
}

fn config(perimeters: u64) -> PrintConfig {
    PrintConfig {
        nozzle_diameter: 0.4f64.to_bits(),
        layer_height: 0.2f64.to_bits(),
        filament_diameter: 1.75f64.to_bits(),
        extrusion_width_scalar: 1.05f64.to_bits(),
        perimeter_count: perimeters,
        x_min: (-5f64).to_bits(),
        x_max: 5f64.to_bits(),
        y_min: (-5f64).to_bits(),
        y_max: 5f64.to_bits(),
        z_min: 0f64.to_bits(),
        z_max: 5f64.to_bits(),
    }
}

fn slicer(perimeters: u64) -> Slicer {
    Slicer::new(config(perimeters)).unwrap()
}

fn layers(count: usize) -> Vec<Layer> {
    (0..count).map(|i| Layer::new((i as f64 * 0.2).to_bits(), LayerType::Standard)).collect()
}

/// A mesh that leaves the one edge `(x, 0) -> (x + 1, 0)` on the plane.
fn mesh_with_edge_at(x: f32) -> SliceMesh {
    SliceMesh::new(
        vec![v(x, 0., 0.), v(x + 1., 0., 0.), v(x, 1., 1.)],
        vec![Triangle { a: 0, b: 1, c: 2 }],
    )
}

fn meshed(x: f32, z: f64) -> Event {
    Event::Meshed { mesh: mesh_with_edge_at(x), bead: bead_at(z) }
}

#[test]
fn a_layer_holds_what_it_was_made_with() {
    let layer = Layer::new(0.6f64.to_bits(), LayerType::Standard);
    assert_eq!(layer.z_height, 0.6f64.to_bits());
    assert_eq!(layer.layer_type, LayerType::Standard);
}

#[test]
fn a_new_run_is_idle() {
    let slicer = slicer(3);
    assert_eq!(slicer.phase, Phase::Idle);
    assert_eq!(slicer.config, config(3));
    assert!(slicer.layers.is_empty());
    assert!(slicer.paths.is_empty());
}

#[test]
fn a_run_meshes_layer_by_layer_from_the_highest_perimeter_down() {
    let mut slicer = slicer(2);
    assert_eq!(slicer.step(Event::Start), Ok(Action::Plan));
    assert_eq!(slicer.phase, Phase::Planning);
    assert_eq!(
        slicer.step(Event::Planned { layers: layers(2) }),
        Ok(Action::Mesh { layer: 0, perimeter: 1 })
    );
    assert_eq!(slicer.layers, layers(2));
    assert_eq!(slicer.step(meshed(0., 0.2)), Ok(Action::Mesh { layer: 0, perimeter: 0 }));
    assert_eq!(slicer.step(meshed(10., 0.2)), Ok(Action::Mesh { layer: 1, perimeter: 1 }));
    assert_eq!(slicer.step(meshed(20., 0.4)), Ok(Action::Mesh { layer: 1, perimeter: 0 }));
    assert_eq!(slicer.phase, Phase::Slicing { layer: 1, perimeter: 0 });
    assert_eq!(slicer.step(meshed(30., 0.4)), Ok(Action::Emit));
    assert_eq!(slicer.phase, Phase::Emitting);
    let found: Vec<(Vec<Point>, Bead)> =
        slicer.paths.iter().map(|path| (path.points.clone(), path.bead)).collect();
    assert_eq!(
        found,
        vec![
            (vec![pt(0., 0.), pt(1., 0.)], bead_at(0.2)),
            (vec![pt(10., 0.), pt(11., 0.)], bead_at(0.2)),
            (vec![pt(20., 0.), pt(21., 0.)], bead_at(0.4)),
            (vec![pt(30., 0.), pt(31., 0.)], bead_at(0.4)),
        ]
    );
    assert_eq!(slicer.step(Event::Emitted), Ok(Action::Finish));
    assert_eq!(slicer.phase, Phase::Done);
}

#[test]
fn a_mesh_without_plane_edges_adds_nothing() {
    let mut slicer = slicer(1);
    slicer.step(Event::Start).unwrap();
    slicer.step(Event::Planned { layers: layers(2) }).unwrap();
    let outside = SliceMesh::new(vec![v(0., 0., 1.), v(1., 0., 1.), v(0., 1., 1.)], vec![Triangle {
        a: 0,
        b: 1,
        c: 2,
    }]);
    assert_eq!(
        slicer.step(Event::Meshed { mesh: outside, bead: bead_at(0.2) }),
        Ok(Action::Mesh { layer: 1, perimeter: 0 })
    );
    assert!(slicer.paths.is_empty());
    assert_eq!(slicer.step(meshed(0., 0.4)), Ok(Action::Emit));
    assert_eq!(slicer.paths.len(), 1);
}

#[test]
fn a_plan_without_layers_goes_straight_to_emission() {
    let mut slicer = slicer(2);
    slicer.step(Event::Start).unwrap();
    assert_eq!(slicer.step(Event::Planned { layers: vec![] }), Ok(Action::Emit));
    assert_eq!(slicer.phase, Phase::Emitting);
    assert_eq!(slicer.step(Event::Emitted), Ok(Action::Finish));
}

#[test]
fn a_run_without_perimeters_goes_straight_to_emission() {
    let mut slicer = slicer(0);
    slicer.step(Event::Start).unwrap();
    assert_eq!(slicer.step(Event::Planned { layers: layers(3) }), Ok(Action::Emit));
    assert!(slicer.paths.is_empty());
}

#[test]
fn a_failure_of_the_mesher_aborts_the_run() {
    let mut slicer = slicer(2);
    slicer.step(Event::Start).unwrap();
    slicer.step(Event::Planned { layers: layers(2) }).unwrap();
    slicer.step(meshed(0., 0.2)).unwrap();
    assert_eq!(slicer.step(Event::MeshFailed), Ok(Action::Abort));
    assert_eq!(slicer.phase, Phase::Failed);
    assert_eq!(slicer.paths.len(), 1);
    assert_eq!(slicer.step(meshed(0., 0.2)), Err(Unexpected { phase: Phase::Failed }));
    assert_eq!(slicer.step(Event::Emitted), Err(Unexpected { phase: Phase::Failed }));
    assert_eq!(slicer.step(Event::Start), Err(Unexpected { phase: Phase::Failed }));
}

#[test]
fn a_mesh_that_names_a_missing_vertex_aborts_the_run() {
    let mut slicer = slicer(1);
    slicer.step(Event::Start).unwrap();
    slicer.step(Event::Planned { layers: layers(1) }).unwrap();
    let broken = SliceMesh::new(vec![v(0., 0., 0.)], vec![Triangle { a: 0, b: 1, c: 2 }]);
    assert_eq!(
        slicer.step(Event::Meshed { mesh: broken, bead: bead_at(0.2) }),
        Ok(Action::Abort)
    );
    assert_eq!(slicer.phase, Phase::Failed);
    assert!(slicer.paths.is_empty());
}

#[test]
fn an_event_out_of_turn_is_refused_and_changes_nothing() {
    let mut slicer = slicer(1);
    assert_eq!(slicer.step(Event::Emitted), Err(Unexpected { phase: Phase::Idle }));
    assert_eq!(slicer.step(meshed(0., 0.2)), Err(Unexpected { phase: Phase::Idle }));
    assert_eq!(slicer.phase, Phase::Idle);
    slicer.step(Event::Start).unwrap();
    assert_eq!(slicer.step(Event::Start), Err(Unexpected { phase: Phase::Planning }));
    assert_eq!(slicer.step(Event::MeshFailed), Err(Unexpected { phase: Phase::Planning }));
    slicer.step(Event::Planned { layers: layers(1) }).unwrap();
    let waiting = Phase::Slicing { layer: 0, perimeter: 0 };
    assert_eq!(
        slicer.step(Event::Planned { layers: layers(4) }),
        Err(Unexpected { phase: waiting })
    );
    assert_eq!(slicer.step(Event::Emitted), Err(Unexpected { phase: waiting }));
    assert_eq!(slicer.phase, waiting);
    assert_eq!(slicer.layers, layers(1));
    slicer.step(meshed(0., 0.2)).unwrap();
    assert_eq!(slicer.step(meshed(0., 0.2)), Err(Unexpected { phase: Phase::Emitting }));
    assert_eq!(slicer.paths.len(), 1);
    slicer.step(Event::Emitted).unwrap();
    assert_eq!(slicer.step(Event::Emitted), Err(Unexpected { phase: Phase::Done }));
    assert_eq!(slicer.step(Event::Start), Err(Unexpected { phase: Phase::Done }));
}

#[test]
fn a_run_is_not_made_of_a_configuration_that_breaks_a_rule() {
    let flat = PrintConfig { layer_height: 0f64.to_bits(), ..config(1) };
    assert_eq!(Slicer::new(flat).err(), Some(ConfigurationError::LayerHeightNotPositive));
    let inverted = PrintConfig { y_min: 5f64.to_bits(), y_max: (-5f64).to_bits(), ..config(1) };
    assert_eq!(
        Slicer::new(inverted).err(),
        Some(ConfigurationError::BoundsInverted { axis: Axis::Y })
    );
    assert!(Slicer::new(config(1)).is_ok());
}
