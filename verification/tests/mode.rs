use color_circler::types::Mode;

#[test]
fn parses_quad_names() {
    assert_eq!(Mode::from_str("Quad"), Some(Mode::Quad));
    assert_eq!(Mode::from_str("quad"), Some(Mode::Quad));
}

#[test]
fn parses_circle_names() {
    assert_eq!(Mode::from_str("Circle"), Some(Mode::Circle));
    assert_eq!(Mode::from_str("circle"), Some(Mode::Circle));
}

#[test]
fn rejects_other_names() {
    assert_eq!(Mode::from_str(""), None);
    assert_eq!(Mode::from_str("QUAD"), None);
    assert_eq!(Mode::from_str("CIRCLE"), None);
    assert_eq!(Mode::from_str("square"), None);
    assert_eq!(Mode::from_str("Quadx"), None);
    assert_eq!(Mode::from_str("circl"), None);
}
