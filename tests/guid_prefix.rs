#![allow(non_snake_case)]
#![allow(dead_code)]
use rtps::GuidPrefix_t;

#[test]
fn unknown_test() {
    assert_eq!(GuidPrefix_t::unknown().value, [0x00; GuidPrefix_t::SIZE]);
}

#[test]
fn default_test() {
    assert_eq!(GuidPrefix_t::default().value, [0x00; GuidPrefix_t::SIZE]);
}

#[test]
fn not_equals_test() {
    let v1 = GuidPrefix_t {
        value: [
            0x00, 0x11, 0x22, 0x33, 0x44, 0x55, 0x66, 0x77, 0x88, 0x99, 0xAA, 0xBB,
        ],
    };

    let v2 = GuidPrefix_t::default();

    assert!(v1 != v2);
}

#[test]
fn equals_test() {
    let v1 = GuidPrefix_t {
        value: [
            0x00, 0x11, 0x22, 0x33, 0x44, 0x55, 0x66, 0x77, 0x88, 0x99, 0xAA, 0xBB,
        ],
    };

    let v2 = GuidPrefix_t {
        value: [
            0x00, 0x11, 0x22, 0x33, 0x44, 0x55, 0x66, 0x77, 0x88, 0x99, 0xAA, 0xBB,
        ],
    };

    assert!(v1 == v2);
}

#[test]
fn greater_than() {
    let v1 = GuidPrefix_t {
        value: [
            0x00, 0x11, 0x22, 0x33, 0x44, 0x55, 0x66, 0x77, 0x88, 0x99, 0xAA, 0xBB,
        ],
    };

    let v2 = GuidPrefix_t::default();

    assert!(v1 >= v2);
    assert!(v2 <= v1);
}
