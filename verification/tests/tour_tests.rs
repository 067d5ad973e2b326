use gcode_tsp::{
    csv_text, encode_layer, parse_tour, CoordinatesMode, GCodeLayer, Optimizer, Point, TourError,
    UnitsMode,
};
use std::collections::HashMap;

fn line_layer(n: usize, mandatory_sources: &[u32]) -> GCodeLayer {
    let mut nodes = Vec::new();
    for i in 0..n {
        nodes.push(Point { x: i as i64 * 1000, y: 0, z: 0 });
    }
    let mut extrusions = HashMap::new();
    for &k in mandatory_sources {
        extrusions.insert(k, 50000_i64);
    }
    GCodeLayer { nodes, extrusions, feedrates: HashMap::new(), end_commands: Vec::new() }
}

#[test]
fn parse_tour_reads_ids_until_terminator() {
    let text = b"NAME: x\nCOMMENT: y\nTOUR_SECTION\n1\n3\n2\n-1\nignored\n";
    assert_eq!(parse_tour(text, 3).unwrap(), vec![1, 3, 2]);
}

#[test]
fn parse_tour_missing_section() {
    assert_eq!(parse_tour(b"1\n2\n-1\n", 3).unwrap_err(), TourError::MissingSection);
}

#[test]
fn parse_tour_missing_terminator() {
    assert_eq!(parse_tour(b"TOUR_SECTION\n1\n2\n", 3).unwrap_err(),
        TourError::MissingTerminator);
}

#[test]
fn parse_tour_bad_integer() {
    assert_eq!(parse_tour(b"TOUR_SECTION\none\n-1\n", 3).unwrap_err(), TourError::BadInteger);
}

#[test]
fn parse_tour_node_out_of_range() {
    assert_eq!(parse_tour(b"TOUR_SECTION\n9\n-1\n", 3).unwrap_err(),
        TourError::NodeOutOfRange);
}

#[test]
fn add_line_emits_linear_move_with_extrusion() {
    let mut layer = line_layer(2, &[1]);
    layer.nodes[1] = Point { x: 1000, y: 2000, z: 3000 };
    layer.feedrates.insert(1, 1_500_000);
    let mut opt = Optimizer::new(CoordinatesMode::Absolute, CoordinatesMode::Relative);
    opt.add_line(&layer, 1, 2);
    assert_eq!(String::from_utf8(opt.contents).unwrap(),
        "G1 X1.000 Y2.000 Z3.000 E0.50000 F1500.000\n");
}

#[test]
fn add_line_emits_rapid_move_for_travel() {
    let layer = line_layer(3, &[]);
    let mut opt = Optimizer::new(CoordinatesMode::Absolute, CoordinatesMode::Relative);
    opt.add_line(&layer, 1, 3);
    assert_eq!(String::from_utf8(opt.contents).unwrap(), "G0 X2.000 Y0.000 Z0.000\n");
}

#[test]
fn add_line_reversed_mandatory_edge_still_extrudes() {
    // walking the segment backward must emit the same mandatory extrusion
    let layer = line_layer(2, &[1]);
    let mut opt = Optimizer::new(CoordinatesMode::Absolute, CoordinatesMode::Relative);
    opt.add_line(&layer, 2, 1);
    let text = String::from_utf8(opt.contents).unwrap();
    assert!(text.starts_with("G1 "));
    assert!(text.contains(" E0.50000"));
}

#[test]
fn reconstruction_expands_merged_runs() {
    // six nodes, one mandatory run over nodes 2..5: merge map 1:1 2:2 3:5 4:6
    let layer = line_layer(6, &[2, 3, 4]);
    let p = encode_layer(&layer, 0);
    let tour = vec![2u32, 3, 4];
    let mut opt = Optimizer::new(CoordinatesMode::Absolute, CoordinatesMode::Relative);
    opt.read_optimized_tour(&layer, &p.merges, &tour);
    let text = String::from_utf8(opt.contents).unwrap();
    let lines: Vec<&str> = text.lines().collect();
    // pair (1,2) is one command, pair (2,3) expands the run to three,
    // pair (3,4) is one more
    assert_eq!(lines.len(), 5);
    assert_eq!(lines[0], "G0 X1.000 Y0.000 Z0.000");
    assert_eq!(lines[1], "G1 X2.000 Y0.000 Z0.000 E0.50000");
    assert_eq!(lines[2], "G1 X3.000 Y0.000 Z0.000 E0.50000");
    assert_eq!(lines[3], "G1 X4.000 Y0.000 Z0.000 E0.50000");
    assert_eq!(lines[4], "G0 X5.000 Y0.000 Z0.000");
}

#[test]
fn reconstruction_reversed_run_preserves_extrusions() {
    // the same run walked backward: every mandatory segment still extrudes
    let layer = line_layer(6, &[2, 3, 4]);
    let p = encode_layer(&layer, 0);
    // visit run end first: 1 -> 4 -> 3 -> 2 walks the run in reverse
    let tour = vec![4u32, 3, 2];
    let mut opt = Optimizer::new(CoordinatesMode::Absolute, CoordinatesMode::Relative);
    opt.read_optimized_tour(&layer, &p.merges, &tour);
    let text = String::from_utf8(opt.contents).unwrap();
    let extruding = text.lines().filter(|l| l.starts_with("G1 ")).count();
    assert_eq!(extruding, 3);
    let total = text.lines().count();
    // jump to 6, jump back to 5, three reversed run segments
    assert_eq!(total, 5);
}

#[test]
fn direct_path_keeps_original_order() {
    let layer = line_layer(3, &[1]);
    let mut opt = Optimizer::new(CoordinatesMode::Absolute, CoordinatesMode::Relative);
    opt.add_direct_path(&layer);
    let text = String::from_utf8(opt.contents).unwrap();
    let lines: Vec<&str> = text.lines().collect();
    assert_eq!(lines.len(), 3);
    // destinations are nodes 1, 2, 3 in order
    assert!(lines[0].contains("X0.000"));
    assert!(lines[1].contains("X1.000"));
    assert!(lines[2].contains("X2.000"));
    assert!(lines[1].starts_with("G1 "));
    assert!(lines[2].starts_with("G0 "));
}

#[test]
fn preamble_and_postamble_text() {
    let mut opt = Optimizer::new(CoordinatesMode::Absolute, CoordinatesMode::Relative);
    opt.set_units(UnitsMode::Millimeters);
    opt.start_file(b"M104 S200\n");
    opt.finish_file(b"M84\n");
    assert_eq!(String::from_utf8(opt.contents).unwrap(),
        "G28\nG21\nG90\nM83\nM104 S200\nG92 E0\nM107\nM84\n");
}

#[test]
fn layer_end_commands_follow_its_body() {
    let mut layer = line_layer(2, &[]);
    layer.end_commands = b"M106 S255\n".to_vec();
    let mut opt = Optimizer::new(CoordinatesMode::Absolute, CoordinatesMode::Relative);
    opt.add_direct_path(&layer);
    opt.append_end_commands(&layer);
    let text = String::from_utf8(opt.contents).unwrap();
    assert!(text.ends_with("M106 S255\n"));
}

#[test]
fn csv_rows_text() {
    let rows = vec![(0u64, 10u64, 4u64), (1, 250, 12)];
    let text = csv_text(&rows);
    assert_eq!(String::from_utf8(text).unwrap(), "Layer,Nodes,Merged\n0,10,4\n1,250,12\n");
}
