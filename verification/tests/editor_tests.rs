use crowd_sim_core::actors::{ActorGroup, Actors, Behavior, BehaviorNode};
use crowd_sim_core::crowd_sim::{CrowdSim, Sink, Source, SourceSink};
use crowd_sim_core::inspect_scale::{InspectScale, Scale};
use crowd_sim_core::outline::{Color, Hovered, OutlineVisualization, Selected};
use crowd_sim_core::simulation_state::SimulationState;

fn hovered(is_hovered: bool) -> Hovered {
    Hovered { is_hovered, support_hovering: false }
}

fn selected(is_selected: bool) -> Selected {
    Selected { is_selected, support_selected: false }
}

#[test]
fn ordinary_outline_colors() {
    let v = OutlineVisualization::Ordinary;
    assert_eq!(v.color(&hovered(false), &selected(false)), None);
    assert_eq!(
        v.color(&hovered(true), &selected(true)),
        Some(Color { r: 1000, g: 0, b: 300 })
    );
    assert_eq!(
        v.color(&hovered(false), &selected(true)),
        Some(Color { r: 1000, g: 300, b: 1000 })
    );
    assert_eq!(
        v.color(&hovered(true), &selected(false)),
        Some(Color { r: 1000, g: 1000, b: 1000 })
    );
}

#[test]
fn supporting_elements_raise_cues() {
    let v = OutlineVisualization::Ordinary;
    let h = Hovered { is_hovered: false, support_hovering: true };
    assert_eq!(
        v.color(&h, &selected(false)),
        Some(Color { r: 1000, g: 1000, b: 1000 })
    );
}

#[test]
fn anchor_outline_colors() {
    let v = OutlineVisualization::Anchor;
    assert_eq!(
        v.color(&hovered(true), &selected(false)),
        Some(Color { r: 1000, g: 1000, b: 1000 })
    );
    assert_eq!(
        v.color(&hovered(false), &selected(true)),
        Some(Color { r: 0, g: 0, b: 0 })
    );
}

#[test]
fn default_outline_is_ordinary() {
    assert!(matches!(OutlineVisualization::default(), OutlineVisualization::Ordinary));
}

#[test]
fn simulation_starts_paused() {
    let s = SimulationState::default();
    assert!(s.paused);
}

#[test]
fn inspect_scale_carries_the_scale() {
    let s = Scale { x: 1000, y: 2000, z: 500 };
    let w = InspectScale::new(&s);
    assert_eq!(w.scale, s);
}

#[test]
fn actor_definitions_hold_their_data() {
    let mut actors = Actors::default();
    assert!(actors.behaviors.is_empty() && actors.groups.is_empty());
    actors.behaviors.push((
        String::from("walk"),
        Behavior {
            nodes: vec![BehaviorNode {
                type_: String::from("goto"),
                name: String::from("to_exit"),
                params: vec![(String::from("speed"), String::from("1.0"))],
            }],
        },
    ));
    actors.groups.push((String::from("visitors"), ActorGroup { size: 5, behavior: String::from("walk") }));
    assert_eq!(actors.behaviors[0].1.nodes[0].name, "to_exit");
    assert_eq!(actors.groups[0].1.size, 5);
}

#[test]
fn crowd_document_defaults_empty() {
    let c = CrowdSim::default();
    assert!(c.desire_paths.is_empty());
    let path = SourceSink {
        source: Source { index: 0, rate: 200_000, lambda: 200_000 },
        sink: Sink { index: 3, r: 1000 },
        repeat: true,
    };
    assert_eq!(path.sink.index, 3);
}
