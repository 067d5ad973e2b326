use gcode_tsp::{distance_3d, distance_to_origin, get_position, Point};

#[test]
fn distance_exact_triple() {
    let a = Point { x: 0, y: 0, z: 0 };
    let b = Point { x: 3000, y: 4000, z: 0 };
    assert_eq!(distance_3d(a, b), 5000);
    assert_eq!(distance_to_origin(b), 5000);
}

#[test]
fn distance_floors() {
    let a = Point { x: 0, y: 0, z: 0 };
    let b = Point { x: 1000, y: 1000, z: 0 };
    // sqrt(2_000_000) = 1414.21..., floored
    assert_eq!(distance_3d(a, b), 1414);
}

#[test]
fn get_position_overwrites_present_axes() {
    let cur = Point { x: 1000, y: 2000, z: 3000 };
    let p = get_position(b"G1 X1.5 Y-2 F1500", cur).unwrap();
    assert_eq!(p, Point { x: 1500, y: -2000, z: 3000 });
    let q = get_position(b"G1 Z0.125", cur).unwrap();
    assert_eq!(q, Point { x: 1000, y: 2000, z: 125 });
}

#[test]
fn get_position_rejects_bad_numbers() {
    let cur = Point { x: 0, y: 0, z: 0 };
    assert!(get_position(b"G1 Xabc", cur).is_none());
    assert!(get_position(b"G1 X", cur).is_none());
}
