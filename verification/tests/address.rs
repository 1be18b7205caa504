use std::str::FromStr;
use siertrichain::address::TriangleAddress;
use siertrichain::errors::TriangleError;

#[test]
fn test_address_creation_and_display() {
    let address = TriangleAddress::new(vec![0, 1, 2]);
    assert_eq!(address.to_string(), "0.1.2");
}

#[test]
fn test_address_from_str() {
    let address_str = "0.1.2";
    let address = TriangleAddress::from_str(address_str).unwrap();
    assert_eq!(address, TriangleAddress::new(vec![0, 1, 2]));
}

#[test]
fn test_append() {
    let address = TriangleAddress::root();
    let child_address = address.append(0).append(1);
    assert_eq!(child_address.to_string(), "0.1");
}

#[test]
fn test_parent() {
    let address = TriangleAddress::from_str("0.1.2").unwrap();
    let parent = address.parent().unwrap();
    assert_eq!(parent.to_string(), "0.1");
    let root = parent.parent().unwrap().parent().unwrap();
    assert_eq!(root, TriangleAddress::root());
    assert!(root.parent().is_none());
}

#[test]
fn test_round_trip_long_path() {
    let address = TriangleAddress::new(vec![0, 2, 1, 2, 0, 1]);
    let text = address.to_string();
    assert_eq!(text, "0.2.1.2.0.1");
    let back = TriangleAddress::parse(&text).unwrap();
    assert_eq!(back, address);
}

#[test]
fn test_parse_rejects_out_of_range_indices() {
    assert!(matches!(TriangleAddress::parse("3"),
        Err(TriangleError::InvalidAddressFormat)));
    assert!(matches!(TriangleAddress::parse("0.1.200"),
        Err(TriangleError::InvalidAddressFormat)));
    assert!(matches!(TriangleAddress::parse("10"),
        Err(TriangleError::InvalidAddressFormat)));
}

#[test]
fn test_empty_string_is_root() {
    let address = TriangleAddress::parse("").unwrap();
    assert_eq!(address, TriangleAddress::root());
    assert_eq!(address.to_string(), "");
}

#[test]
fn test_parse_rejects_malformed() {
    assert!(matches!(TriangleAddress::parse("1..2"),
        Err(TriangleError::InvalidAddressFormat)));
    assert!(matches!(TriangleAddress::parse("256"),
        Err(TriangleError::InvalidAddressFormat)));
    assert!(matches!(TriangleAddress::parse("a"),
        Err(TriangleError::InvalidAddressFormat)));
    assert!(matches!(TriangleAddress::parse("1.x"),
        Err(TriangleError::InvalidAddressFormat)));
    assert!(matches!(TriangleAddress::parse("."),
        Err(TriangleError::InvalidAddressFormat)));
    assert!(matches!(TriangleAddress::parse("0.1."),
        Err(TriangleError::InvalidAddressFormat)));
}

#[test]
fn test_parse_accepts_leading_zeros() {
    let address = TriangleAddress::parse("002.1").unwrap();
    assert_eq!(address, TriangleAddress::new(vec![2, 1]));
}
