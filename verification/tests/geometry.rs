use siertrichain::dec::Dec;
use siertrichain::genesis::GenesisTriangle;
use siertrichain::geometry::Point;
use siertrichain::subdivision::subdivide_triangle;
use siertrichain::triangle::Triangle;
use siertrichain::validation::{validate_triangle, validate_fractal_triangle};
use siertrichain::fractal::{FractalTriangle, TriangleState};
use siertrichain::address::TriangleAddress;
use siertrichain::errors::TriangleError;

fn d(m: i128, s: u32) -> Dec {
    Dec::new(m, s)
}

#[test]
fn test_triangle_new() {
    let p1 = Point::new(d(0, 0), d(0, 0));
    let p2 = Point::new(d(1, 0), d(0, 0));
    let p3 = Point::new(d(0, 0), d(1, 0));
    let t = Triangle::new(p1.clone(), p2.clone(), p3.clone());
    assert_eq!(t.a, p1);
    assert_eq!(t.b, p2);
    assert_eq!(t.c, p3);
}

#[test]
fn test_triangle_area() {
    let p1 = Point::new(d(0, 0), d(0, 0));
    let p2 = Point::new(d(1, 0), d(0, 0));
    let p3 = Point::new(d(5, 1), d(8660254, 7));
    let t = Triangle::new(p1, p2, p3);
    // |area - 0.4330127| < 1e-6
    let diff = t.area().sub(d(4330127, 7)).abs();
    assert!(diff.lt(d(1, 6)));
}

#[test]
fn test_triangle_perimeter() {
    let p1 = Point::new(d(0, 0), d(0, 0));
    let p2 = Point::new(d(1, 0), d(0, 0));
    let p3 = Point::new(d(0, 0), d(1, 0));
    let t = Triangle::new(p1, p2, p3);
    // |perimeter - 3.41421356| < 1e-6
    let diff = t.perimeter().sub(d(341421356, 8)).abs();
    assert!(diff.lt(d(1, 6)));
}

#[test]
fn test_triangle_centroid() {
    let p1 = Point::new(d(0, 0), d(0, 0));
    let p2 = Point::new(d(3, 0), d(0, 0));
    let p3 = Point::new(d(0, 0), d(3, 0));
    let t = Triangle::new(p1, p2, p3);
    let centroid = t.centroid();
    assert_eq!(centroid.x, d(1, 0));
    assert_eq!(centroid.y, d(1, 0));
}

#[test]
fn test_triangle_is_valid() {
    let p1 = Point::new(d(0, 0), d(0, 0));
    let p2 = Point::new(d(1, 0), d(0, 0));
    let p3 = Point::new(d(0, 0), d(1, 0));
    let t = Triangle::new(p1, p2, p3);
    assert!(t.is_valid());

    let p4 = Point::new(d(0, 0), d(0, 0));
    let p5 = Point::new(d(1, 0), d(1, 0));
    let p6 = Point::new(d(2, 0), d(2, 0));
    let t2 = Triangle::new(p4, p5, p6);
    assert!(!t2.is_valid());
}

#[test]
fn test_genesis_triangle_creation() {
    let genesis = GenesisTriangle::new();
    assert!(GenesisTriangle::validate(&genesis));
}

#[test]
fn test_validate_simple_triangle() {
    let p1 = Point::new(d(0, 0), d(0, 0));
    let p2 = Point::new(d(1, 0), d(0, 0));
    let p3 = Point::new(d(0, 0), d(1, 0));
    let t = Triangle::new(p1, p2, p3);
    assert!(validate_triangle(&t));
}

#[test]
fn test_validate_fractal_triangle() {
    let genesis_tri = GenesisTriangle::new();
    let fractal_tri = FractalTriangle::new(
        genesis_tri,
        TriangleState::Genesis,
        0,
        None,
        TriangleAddress::root(),
    );
    assert!(validate_fractal_triangle(&fractal_tri, None));
}

#[test]
fn test_subdivision() {
    let genesis = GenesisTriangle::new();
    let (c1, c2, c3) = subdivide_triangle(&genesis).unwrap();

    assert!(c1.is_valid());
    assert!(c2.is_valid());
    assert!(c3.is_valid());

    // the area of a child is a quarter of the parent's, within 1e-9
    let quadrupled = c1.area().mul(d(4, 0));
    assert!(genesis.area().sub(quadrupled).abs().lt(d(1, 9)));
}

#[test]
fn test_subdivision_area_is_exact_quarter() {
    let genesis = GenesisTriangle::new();
    let (c1, c2, c3) = subdivide_triangle(&genesis).unwrap();
    let parent = genesis.area();
    for c in [c1, c2, c3] {
        let four_child = c.area().mul(d(4, 0));
        // exact equality of values, not just within tolerance
        assert!(parent == four_child);
    }
}

#[test]
fn test_subdivision_rejects_degenerate() {
    let p4 = Point::new(d(0, 0), d(0, 0));
    let p5 = Point::new(d(1, 0), d(1, 0));
    let p6 = Point::new(d(2, 0), d(2, 0));
    let t = Triangle::new(p4, p5, p6);
    assert!(matches!(subdivide_triangle(&t), Err(TriangleError::InvalidTriangle(_))));
}

#[test]
fn test_fractal_subdivide_precondition() {
    let genesis_tri = GenesisTriangle::new();
    let mut active = FractalTriangle::new(
        genesis_tri.clone(),
        TriangleState::Active,
        0,
        None,
        TriangleAddress::root(),
    );
    let children = active.subdivide().unwrap();
    assert_eq!(children.len(), 3);
    assert!(matches!(active.state, TriangleState::Subdivided));
    // a second subdivision fails and changes nothing
    let before_ids = active.child_ids.clone();
    assert!(matches!(active.subdivide(), Err(TriangleError::InvalidTriangle(_))));
    assert_eq!(active.child_ids, before_ids);
    assert!(matches!(active.state, TriangleState::Subdivided));

    let mut void = FractalTriangle::new(
        genesis_tri,
        TriangleState::Void,
        0,
        None,
        TriangleAddress::root(),
    );
    assert!(matches!(void.subdivide(), Err(TriangleError::InvalidTriangle(_))));
    assert!(matches!(void.state, TriangleState::Void));
}

#[test]
fn test_subdivision_child_addresses() {
    let genesis_tri = GenesisTriangle::new();
    let mut active = FractalTriangle::new(
        genesis_tri,
        TriangleState::Active,
        0,
        None,
        TriangleAddress::root().append(1),
    );
    let children = active.subdivide().unwrap();
    assert_eq!(children[0].address.to_string(), "1.0");
    assert_eq!(children[1].address.to_string(), "1.1");
    assert_eq!(children[2].address.to_string(), "1.2");
    for c in &children {
        assert_eq!(c.depth, 1);
        assert!(matches!(c.state, TriangleState::Active));
    }
}

#[test]
fn test_dec_value_equality() {
    assert_eq!(d(1, 0), d(100, 2));
    assert_eq!(d(-50, 1), d(-5, 0));
    assert_ne!(d(1, 0), d(11, 1));
}
