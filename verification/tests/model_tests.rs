use gcode_tsp::{get_units_text, CoordinatesMode, GCode, GCodeLayer, UnitsMode};
use std::collections::HashMap;

#[test]
fn parse_empty_input_yields_one_empty_layer() {
    let (g, warnings) = GCode::parse("empty.gcode", b"").unwrap();
    assert!(warnings.is_empty());
    assert_eq!(g.layers.len(), 1);
    assert!(g.layers[0].nodes.is_empty());
    assert_eq!(g.position_mode, CoordinatesMode::NotSet);
    assert_eq!(g.extruder_mode, CoordinatesMode::NotSet);
    assert_eq!(g.stats.units_mode, UnitsMode::NotSet);
}

#[test]
fn new_program_is_empty() {
    let g = GCode::new("out.gcode", CoordinatesMode::Absolute, CoordinatesMode::Relative);
    assert_eq!(g.file_path, "out.gcode");
    assert!(g.contents.is_empty());
    assert!(g.layers.is_empty());
    assert_eq!(g.position_mode, CoordinatesMode::Absolute);
    assert_eq!(g.extruder_mode, CoordinatesMode::Relative);
}

#[test]
fn units_names() {
    assert_eq!(get_units_text(&UnitsMode::Millimeters), "mm");
    assert_eq!(get_units_text(&UnitsMode::Inches), "in");
    assert_eq!(get_units_text(&UnitsMode::NotSet), "units");
}

#[test]
fn stats_increments_saturate() {
    let (mut g, _) = GCode::parse("s.gcode", b"").unwrap();
    g.stats.increment_travel(10);
    g.stats.increment_travel(5);
    assert_eq!(g.stats.travel_distance, 15);
    g.stats.increment_extrusion(u64::MAX);
    g.stats.increment_extrusion(1);
    assert_eq!(g.stats.extrusion_distance, u64::MAX);
}

#[test]
fn inches_mode_recognised() {
    let (g, _) = GCode::parse("in.gcode", b"G20\n").unwrap();
    assert_eq!(g.stats.units_mode, UnitsMode::Inches);
}

#[test]
fn empty_layer_is_well_formed() {
    let layer = GCodeLayer {
        nodes: Vec::new(),
        extrusions: HashMap::new(),
        feedrates: HashMap::new(),
        end_commands: Vec::new(),
    };
    assert!(layer.nodes.is_empty());
    assert!(layer.extrusions.is_empty());
}
