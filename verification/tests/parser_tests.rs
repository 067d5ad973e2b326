use gcode_tsp::{CoordinatesMode, GCode, Point, UnitsMode, WarningKind};

#[test]
fn parse_builds_layers_and_totals() {
    let program = b"G21\nG90\nM83\nG1 X10 Y0 Z0.2 E1 F1500\nG1 X20 Y0 Z0.2 E2\nG0 X30 Y0 Z0.2\nM106 S255\nG1 X40 Y0 Z0.2 E3\nM104 S200\n";
    let (g, warnings) = GCode::parse("test.gcode", program).unwrap();
    assert!(warnings.is_empty());
    assert_eq!(g.position_mode, CoordinatesMode::Absolute);
    assert_eq!(g.extruder_mode, CoordinatesMode::Relative);
    assert_eq!(g.stats.units_mode, UnitsMode::Millimeters);

    // an initial empty layer, then the layer the first extruding Z change opens
    assert_eq!(g.layers.len(), 2);
    assert!(g.layers[0].nodes.is_empty());
    let layer = &g.layers[1];
    assert_eq!(layer.nodes.len(), 5);
    assert_eq!(layer.nodes[0], Point { x: 0, y: 0, z: 0 });
    assert_eq!(layer.nodes[1], Point { x: 10000, y: 0, z: 200 });
    assert_eq!(layer.nodes[2], Point { x: 20000, y: 0, z: 200 });
    // the travel run is folded into one pending node, kept when extrusion resumes
    assert_eq!(layer.nodes[3], Point { x: 30000, y: 0, z: 200 });
    assert_eq!(layer.nodes[4], Point { x: 40000, y: 0, z: 200 });

    // extrusion amounts keyed by the segment's source node, hundred-thousandths
    assert_eq!(layer.extrusions.len(), 3);
    assert_eq!(layer.extrusions.get(&1), Some(&100000));
    assert_eq!(layer.extrusions.get(&2), Some(&200000));
    assert_eq!(layer.extrusions.get(&4), Some(&300000));

    // feed rates keyed the same way, with the default travel rate at key 0
    assert_eq!(layer.feedrates.get(&0), Some(&9_000_000));
    assert_eq!(layer.feedrates.get(&1), Some(&1_500_000));
    assert_eq!(layer.feedrates.get(&2), Some(&1_500_000));
    assert_eq!(layer.feedrates.get(&3), Some(&1_500_000));
    assert_eq!(layer.feedrates.get(&4), Some(&1_500_000));

    assert_eq!(layer.end_commands, b"M106 S255\n".to_vec());
    assert_eq!(g.end_commands, b"M104 S200\n".to_vec());
    assert_eq!(g.start_commands, b"".to_vec());

    assert_eq!(g.extrude_count, 3);
    assert_eq!(g.travel_count, 1);
    // sqrt(10000^2 + 200^2) floors to 10001; the two later extrusions add 10000 each
    assert_eq!(g.stats.extrusion_distance, 30001);
    assert_eq!(g.stats.travel_distance, 10000);
}

#[test]
fn parse_reports_offending_line() {
    let program = b"G90\nG1 Xnope\n";
    let err = match GCode::parse("bad.gcode", program) {
        Err(e) => e,
        Ok(_) => panic!("a malformed coordinate must be fatal"),
    };
    assert_eq!(err.line, 2);
}

#[test]
fn parse_warns_on_mode_conflict_and_unknown() {
    let program = b"G21\nG21\nFROB\n";
    let (_, warnings) = GCode::parse("warn.gcode", program).unwrap();
    assert_eq!(warnings.len(), 2);
    assert_eq!(warnings[0].line, 2);
    assert_eq!(warnings[0].kind, WarningKind::ModeConflict);
    assert_eq!(warnings[1].line, 3);
    assert_eq!(warnings[1].kind, WarningKind::UnknownCommand);
}

#[test]
fn parse_strips_comments_and_blank_lines() {
    let program = b"; a comment line\n\nG90 ; inline comment\n";
    let (g, warnings) = GCode::parse("c.gcode", program).unwrap();
    assert!(warnings.is_empty());
    assert_eq!(g.position_mode, CoordinatesMode::Absolute);
}

#[test]
fn parse_set_position_moves_nothing() {
    let program = b"G90\nG92 X5 Y5 Z5\n";
    let (g, _) = GCode::parse("g92.gcode", program).unwrap();
    assert_eq!(g.stats.travel_distance, 0);
    assert_eq!(g.stats.extrusion_distance, 0);
    assert!(g.layers[0].nodes.is_empty());
}

#[test]
fn parse_home_is_a_travel_node() {
    let program = b"G90\nG28\n";
    let (g, _) = GCode::parse("home.gcode", program).unwrap();
    assert_eq!(g.layers[0].nodes.len(), 1);
    assert_eq!(g.layers[0].nodes[0], Point { x: 0, y: 0, z: 0 });
}

#[test]
fn parse_retraction_is_travel_not_extrusion() {
    // a negative extrusion delta is a travel move for graph purposes
    let program = b"G90\nM83\nG1 X1 Y0 Z0 E-0.5\n";
    let (g, _) = GCode::parse("retract.gcode", program).unwrap();
    assert_eq!(g.extrude_count, 0);
    assert_eq!(g.travel_count, 1);
}
