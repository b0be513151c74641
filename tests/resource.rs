use resource_flow::resource::{Resource, MAX_AMOUNT};

#[test]
fn add_sums_below_the_maximum() {
    assert_eq!(Resource(1).add(Resource(2)), Resource(3));
    assert_eq!(Resource(100).add(Resource(155)), Resource(255));
}

#[test]
fn add_saturates_at_the_maximum() {
    assert_eq!(Resource(200).add(Resource(100)), Resource(MAX_AMOUNT));
    assert_eq!(Resource(255).add(Resource(255)), Resource(255));
}

#[test]
fn sub_saturates_at_zero() {
    assert_eq!(Resource(10).sub(Resource(20)), Resource(0));
    assert_eq!(Resource(30).sub(Resource(12)), Resource(18));
    assert_eq!(Resource(0).sub(Resource(255)), Resource(0));
}

#[test]
fn sub_of_itself_is_zero() {
    for a in [0u8, 1, 64, 200, 255] {
        assert_eq!(Resource(a).sub(Resource(a)), Resource(0));
    }
}

#[test]
fn assign_forms_match_the_operators() {
    let mut r = Resource(250);
    r.add_assign(Resource(3));
    assert_eq!(r, Resource(253));
    r.add_assign(Resource(9));
    assert_eq!(r, Resource(255));
    r.sub_assign(Resource(55));
    assert_eq!(r, Resource(200));
    r.sub_assign(Resource(201));
    assert_eq!(r, Resource(0));
}

#[test]
fn comparison_goes_by_magnitude() {
    assert!(Resource(5) >= Resource(5));
    assert!(Resource(6) >= Resource(5));
    assert!(!(Resource(4) >= Resource(5)));
    assert!(Resource(4) < Resource(5));
    assert!(Resource(4) != Resource(5));
}

#[test]
fn is_full_only_at_the_maximum() {
    assert!(Resource(255).is_full());
    assert!(!Resource(254).is_full());
    assert!(!Resource(0).is_full());
}
