use const_oid::{InvalidIdentifier, ObjectIdentifier};

#[test]
fn display_test() {
    let oid = ObjectIdentifier::new(&[1, 2, 840, 10045, 3, 1, 7]).to_string();
    assert_eq!(oid, "1.2.840.10045.3.1.7");
}

#[test]
fn first_level_arc_at_bound_renders() {
    let oid = ObjectIdentifier::new(&[0, 39, 1]);
    assert!(oid.is_valid());
    assert_eq!(oid.to_string(), "0.39.1");
}

#[test]
fn valid_arcs_read_back_unchanged() {
    let nodes: &'static [u32] = &[1, 2, 840, 10045, 3, 1, 7];
    let oid = ObjectIdentifier::new(nodes);
    assert!(oid.is_valid());
    assert_eq!(oid.as_ref(), nodes);
    assert_eq!(oid.try_as_ref(), Ok(nodes));
}

#[test]
fn root_arc_above_two_is_refused() {
    let oid = ObjectIdentifier::new(&[3, 0, 1]);
    assert!(!oid.is_valid());
    assert_eq!(oid.try_as_ref(), Err(InvalidIdentifier::Malformed));
}

#[test]
fn first_level_arc_above_thirty_nine_is_refused() {
    let oid = ObjectIdentifier::new(&[1, 40, 1]);
    assert!(!oid.is_valid());
    assert_eq!(oid.try_as_ref(), Err(InvalidIdentifier::Malformed));
}

#[test]
fn two_arcs_are_refused() {
    let oid = ObjectIdentifier::new(&[1, 2]);
    assert!(!oid.is_valid());
    assert_eq!(oid.try_as_ref(), Err(InvalidIdentifier::Malformed));
}

#[test]
fn construction_from_no_arcs_does_not_panic() {
    let oid = ObjectIdentifier::new(&[]);
    assert!(!oid.is_valid());
    assert_eq!(oid.try_as_ref(), Err(InvalidIdentifier::Malformed));
    let one = ObjectIdentifier::new(&[1]);
    assert!(!one.is_valid());
}

#[test]
fn later_arcs_are_unconstrained() {
    let oid = ObjectIdentifier::new(&[2, 0, 4294967295, 0]);
    assert!(oid.is_valid());
    assert_eq!(oid.to_string(), "2.0.4294967295.0");
}

#[test]
fn separators_are_one_fewer_than_arcs() {
    let oid = ObjectIdentifier::new(&[1, 3, 6, 1, 4, 1, 311]);
    let text = oid.to_string();
    assert_eq!(text.matches('.').count(), 6);
}

#[test]
fn rendering_reads_back_as_the_arcs() {
    let nodes: &'static [u32] = &[1, 2, 840, 113549, 1, 1, 11];
    let text = ObjectIdentifier::new(nodes).to_string();
    let parsed: Vec<u32> = text.split('.').map(|p| p.parse().unwrap()).collect();
    assert_eq!(parsed, nodes.to_vec());
}

#[test]
fn distinct_arcs_of_one_length_render_differently() {
    let a = ObjectIdentifier::new(&[1, 2, 34, 5]).to_string();
    let b = ObjectIdentifier::new(&[1, 2, 3, 45]).to_string();
    assert_eq!(a, "1.2.34.5");
    assert_eq!(b, "1.2.3.45");
    assert_ne!(a, b);
}
