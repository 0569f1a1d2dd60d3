#![allow(non_snake_case)]
#![allow(dead_code)]
use rtps::SerializedPayload_t;

#[test]
fn eq_operator_test() {
    let mut sp1 = SerializedPayload_t::default();
    let mut sp2 = SerializedPayload_t::default();
    assert_eq!(sp1, sp2);

    sp1.reserve(8);
    assert_eq!(sp1, sp2);

    sp1.length = 1;
    sp1.data[0] = 1;

    assert_ne!(sp1, sp2);

    assert!(!sp2.copy(&sp1, true));
    assert!(sp2.copy(&sp1, false));

    assert_eq!(sp1, sp2);
}
