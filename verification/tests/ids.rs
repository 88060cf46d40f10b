use dual_funding::ids::NodeId;

#[test]
fn node_keys_are_ordered_by_their_first_difference() {
    let mut a = NodeId { bytes: [2; 33] };
    let b = a;
    assert!(a == b);
    assert!(!a.is_before(&b));
    a.bytes[32] = 1;
    assert!(a != b);
    assert!(a.is_before(&b));
    assert!(!b.is_before(&a));
}
