use gcode_tsp::{elapsed_time, parse_fixed, parse_int, write_line};

#[test]
fn write_line_appends_newline() {
    let mut text: Vec<u8> = b"A\n".to_vec();
    write_line(&mut text, b"G1 X1");
    assert_eq!(text, b"A\nG1 X1\n".to_vec());
}

#[test]
fn parse_fixed_plain() {
    assert_eq!(parse_fixed(b"12.34", 3), Some(12340));
    assert_eq!(parse_fixed(b"12", 3), Some(12000));
    assert_eq!(parse_fixed(b"-0.001", 3), Some(-1));
    assert_eq!(parse_fixed(b"+1", 3), Some(1000));
    assert_eq!(parse_fixed(b".5", 3), Some(500));
    assert_eq!(parse_fixed(b"1.", 3), Some(1000));
    assert_eq!(parse_fixed(b"0", 5), Some(0));
    assert_eq!(parse_fixed(b"1.23456789", 5), Some(123456));
}

#[test]
fn parse_fixed_rejects_garbage() {
    assert_eq!(parse_fixed(b"", 3), None);
    assert_eq!(parse_fixed(b"-", 3), None);
    assert_eq!(parse_fixed(b".", 3), None);
    assert_eq!(parse_fixed(b"1e5", 3), None);
    assert_eq!(parse_fixed(b"1.2.3", 3), None);
    assert_eq!(parse_fixed(b"abc", 3), None);
    assert_eq!(parse_fixed(b"99999999999999999999", 3), None);
}

#[test]
fn parse_int_plain() {
    assert_eq!(parse_int(b"42"), Some(42));
    assert_eq!(parse_int(b"-1"), Some(-1));
    assert_eq!(parse_int(b"0"), Some(0));
    assert_eq!(parse_int(b"4.2"), None);
    assert_eq!(parse_int(b""), None);
    assert_eq!(parse_int(b"x"), None);
}

#[test]
fn elapsed_time_forms() {
    assert_eq!(elapsed_time(65, 0), b"1m 5s".to_vec());
    assert_eq!(elapsed_time(5, 250), b"5s 250ms".to_vec());
    assert_eq!(elapsed_time(0, 42), b"42ms".to_vec());
    assert_eq!(elapsed_time(60, 7), b"60s 7ms".to_vec());
}
