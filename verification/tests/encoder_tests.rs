use gcode_tsp::{encode_layer, write_parameters_file, write_tsp_file, GCodeLayer, Point};
use std::collections::HashMap;

fn line_layer(n: usize, mandatory_sources: &[u32]) -> GCodeLayer {
    let mut nodes = Vec::new();
    for i in 0..n {
        nodes.push(Point { x: i as i64 * 1000, y: 0, z: 0 });
    }
    let mut extrusions = HashMap::new();
    for &k in mandatory_sources {
        extrusions.insert(k, 100000_i64);
    }
    GCodeLayer { nodes, extrusions, feedrates: HashMap::new(), end_commands: Vec::new() }
}

#[test]
fn end_to_end_merge_map() {
    // six nodes, nodes 2 through 5 one mandatory run, unbounded threshold:
    // entry, run start, run end, tail
    let layer = line_layer(6, &[2, 3, 4]);
    let p = encode_layer(&layer, 0);
    assert_eq!(p.merges.len(), 4);
    assert_eq!(p.merges.get(1), Some(1));
    assert_eq!(p.merges.get(2), Some(2));
    assert_eq!(p.merges.get(3), Some(5));
    assert_eq!(p.merges.get(4), Some(6));
    assert_eq!(p.merges.get(0), None);
    assert_eq!(p.merges.get(5), None);
    assert_eq!(p.anchors, vec![2]);
}

#[test]
fn travel_only_layer_encodes_every_node() {
    let layer = line_layer(4, &[]);
    let p = encode_layer(&layer, 0);
    assert_eq!(p.merges.len(), 4);
    for id in 1..=4u32 {
        assert_eq!(p.merges.get(id), Some(id));
    }
    assert!(p.anchors.is_empty());
}

#[test]
fn single_run_collapses_to_two_nodes() {
    // the whole layer is one extrusion run; with an unbounded threshold it
    // keeps only its start and its end, however long it is
    let layer = line_layer(5, &[1, 2, 3, 4]);
    let p = encode_layer(&layer, 0);
    assert_eq!(p.merges.len(), 2);
    assert_eq!(p.merges.get(1), Some(1));
    assert_eq!(p.merges.get(2), Some(5));
    assert_eq!(p.anchors, vec![1]);
}

#[test]
fn merge_splits_strictly_above_threshold() {
    // segments of length 1.000 each; at threshold 2.000 the run splits only
    // when the running length first exceeds it (strictly), at node 4
    let layer = line_layer(5, &[1, 2, 3, 4]);
    let p = encode_layer(&layer, 2000);
    assert_eq!(p.merges.len(), 4);
    assert_eq!(p.merges.get(1), Some(1));
    assert_eq!(p.merges.get(2), Some(4));
    assert_eq!(p.merges.get(3), Some(4));
    assert_eq!(p.merges.get(4), Some(5));
    assert_eq!(p.anchors, vec![1, 3]);
}

#[test]
fn tsp_file_text_exact() {
    let layer = line_layer(3, &[1]);
    let p = encode_layer(&layer, 0);
    // run 1->2, then node 3 as travel: encoded nodes 1 (run start),
    // 2 (run end), 3 (travel)
    assert_eq!(p.merges.len(), 3);
    let text = write_tsp_file(7, &p);
    let expected = "NAME: Layer 7\n\
        COMMENT: Print optimization for current_layer 7\n\
        TYPE: TSP\n\
        DIMENSION: 3\n\
        EDGE_WEIGHT_TYPE: EUC_3D\n\
        NODE_COORD_SECTION\n\
        1 0.000 0.000 0.000\n\
        2 1.000 0.000 0.000\n\
        3 2.000 0.000 0.000\n\
        FIXED_EDGES_SECTION\n\
        1 2\n\
        3 1\n\
        -1\n\
        EOF\n";
    assert_eq!(String::from_utf8(text).unwrap(), expected);
}

#[test]
fn parameters_file_text_exact() {
    let text = write_parameters_file(b"0.tsp", b"result_0.tour", 1000, 1);
    let expected = "PROBLEM_FILE = 0.tsp\n\
        TOUR_FILE = result_0.tour\n\
        PRECISION = 1000\n\
        RUNS = 1\n\
        CANDIDATE_SET_TYPE = POPMUSIC\n";
    assert_eq!(String::from_utf8(text).unwrap(), expected);
}
