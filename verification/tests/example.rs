use trustzone_m::example::{
    call_secure, double, forward, read_private_thing, read_public_thing, read_thing, return_5,
    secure_veneers, write_private_thing, write_public_thing, write_thing, NonSecureState,
    DOUBLE_POINTER, RETURN_5_POINTER,
};
use trustzone_m::hash::hash_vector_name;
use trustzone_m::vector_table::{find, VectorTableEntry};

#[test]
fn write_thing_stores_the_doubled_sum() {
    let veneers = secure_veneers();
    let mut state = NonSecureState::new();
    assert_eq!(read_thing(&state), 99);
    assert!(write_thing(&mut state, &veneers, 5));
    assert_eq!(read_thing(&state), 20);
    assert!(write_thing(&mut state, &veneers, 10));
    assert_eq!(read_thing(&state), 30);
}

#[test]
fn write_thing_leaves_the_other_numbers() {
    let veneers = secure_veneers();
    let mut state = NonSecureState::new();
    assert!(write_thing(&mut state, &veneers, 0));
    assert_eq!(read_thing(&state), 10);
    assert_eq!(read_private_thing(&state), 102);
    assert_eq!(read_public_thing(&state), 101);
}

#[test]
fn write_thing_fails_without_the_veneers() {
    let mut state = NonSecureState::new();
    let empty = vec![VectorTableEntry::sentinel()];
    assert!(!write_thing(&mut state, &empty, 5));
    assert_eq!(read_thing(&state), 99);
    let only_return_5 = vec![
        VectorTableEntry::new(RETURN_5_POINTER, hash_vector_name("return_5")),
        VectorTableEntry::sentinel(),
    ];
    assert!(!write_thing(&mut state, &only_return_5, 5));
    assert_eq!(read_thing(&state), 99);
}

#[test]
fn write_thing_fails_where_the_result_does_not_fit() {
    let veneers = secure_veneers();
    let mut state = NonSecureState::new();
    assert!(!write_thing(&mut state, &veneers, u32::MAX));
    assert!(!write_thing(&mut state, &veneers, u32::MAX / 2));
    assert_eq!(read_thing(&state), 99);
    assert!(write_thing(&mut state, &veneers, u32::MAX / 2 - 5));
    assert_eq!(read_thing(&state), u32::MAX - 1);
}

#[test]
fn private_and_public_things() {
    let mut state = NonSecureState::new();
    write_private_thing(&mut state, 7);
    write_public_thing(&mut state, 8);
    assert_eq!(read_private_thing(&state), 7);
    assert_eq!(read_public_thing(&state), 8);
    assert_eq!(read_thing(&state), 99);
}

#[test]
fn secure_functions() {
    assert_eq!(return_5(), 5);
    assert_eq!(double(0), 0);
    assert_eq!(double(21), 42);
    assert_eq!(double(u32::MAX / 2), u32::MAX - 1);
}

#[test]
fn secure_veneers_hold_both_functions() {
    let veneers = secure_veneers();
    assert_eq!(veneers.len(), 3);
    assert_eq!(find(&veneers, hash_vector_name("return_5")), Some(RETURN_5_POINTER));
    assert_eq!(find(&veneers, hash_vector_name("double")), Some(DOUBLE_POINTER));
    assert_eq!(find(&veneers, hash_vector_name("triple")), None);
    assert!(veneers[2].is_end());
}

#[test]
fn calls_through_pointers_and_names() {
    assert_eq!(call_secure(RETURN_5_POINTER, 77), Some(5));
    assert_eq!(call_secure(DOUBLE_POINTER, 77), Some(154));
    assert_eq!(call_secure(DOUBLE_POINTER, u32::MAX), None);
    assert_eq!(call_secure(0x40, 1), None);
    let veneers = secure_veneers();
    assert_eq!(forward(&veneers, "double", 4), Some(8));
    assert_eq!(forward(&veneers, "return_5", 4), Some(5));
    assert_eq!(forward(&veneers, "missing", 4), None);
}
