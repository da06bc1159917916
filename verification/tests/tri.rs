use dungen::util::TriState;
use std::ops::{BitAnd, BitOr, BitXor, Not};

#[test]
fn bool_to_tri_state() {
    assert_eq!(TriState::from(false), TriState::False);
    assert_eq!(TriState::from(true), TriState::True);
}

#[test]
fn tri_state_to_bool() {
    assert!(!TriState::False.into_bool());
    assert!(TriState::True.into_bool());
}

#[test]
fn tri_state_into_bool_option() {
    assert_eq!(Option::<bool>::from(TriState::False), Some(false));
    assert_eq!(Option::<bool>::from(TriState::True), Some(true));
    assert_eq!(Option::<bool>::from(TriState::Invalid), None);
}

#[test]
fn tri_state_into_conversions() {
    let foo = TriState::True;
    let foo_bool: bool = foo.into_bool();
    assert!(foo_bool);

    let bar: TriState = (1 == 2).into();
    let bar_bool: Option<bool> = bar.into();
    assert_eq!(bar_bool, Some(false));

    let has_a_3 = TriState::from(vec![1, 2, 4, 5].contains(&3));
    assert_eq!(format!("Has a 3: {}", has_a_3.to_string()), "Has a 3: False");
    assert_eq!(Option::<bool>::from(TriState::False), Some(false));
}

#[test]
fn bit_and() {
    assert_eq!(TriState::True.bitand(TriState::True), TriState::True);
    assert_eq!(TriState::True.bitand(TriState::False), TriState::False);
    assert_eq!(TriState::True.bitand(TriState::Invalid), TriState::Invalid);

    assert_eq!(TriState::False.bitand(TriState::True), TriState::False);
    assert_eq!(TriState::False.bitand(TriState::False), TriState::False);
    assert_eq!(TriState::False.bitand(TriState::Invalid), TriState::Invalid);

    assert_eq!(TriState::Invalid.bitand(TriState::True), TriState::Invalid);
    assert_eq!(TriState::Invalid.bitand(TriState::False), TriState::Invalid);
    assert_eq!(TriState::Invalid.bitand(TriState::Invalid), TriState::Invalid);

    assert_eq!(TriState::True & TriState::True, TriState::True);
    assert_eq!(TriState::True & TriState::False, TriState::False);
    assert_eq!(TriState::True & TriState::Invalid, TriState::Invalid);

    assert_eq!(TriState::False & TriState::True, TriState::False);
    assert_eq!(TriState::False & TriState::False, TriState::False);
    assert_eq!(TriState::False & TriState::Invalid, TriState::Invalid);

    assert_eq!(TriState::Invalid & TriState::True, TriState::Invalid);
    assert_eq!(TriState::Invalid & TriState::False, TriState::Invalid);
    assert_eq!(TriState::Invalid & TriState::Invalid, TriState::Invalid);
}

#[test]
fn bit_or() {
    assert_eq!(TriState::True.bitor(TriState::True), TriState::True);
    assert_eq!(TriState::True.bitor(TriState::False), TriState::True);
    assert_eq!(TriState::True.bitor(TriState::Invalid), TriState::Invalid);

    assert_eq!(TriState::False.bitor(TriState::True), TriState::True);
    assert_eq!(TriState::False.bitor(TriState::False), TriState::False);
    assert_eq!(TriState::False.bitor(TriState::Invalid), TriState::Invalid);

    assert_eq!(TriState::Invalid.bitor(TriState::True), TriState::Invalid);
    assert_eq!(TriState::Invalid.bitor(TriState::False), TriState::Invalid);
    assert_eq!(TriState::Invalid.bitor(TriState::Invalid), TriState::Invalid);

    assert_eq!(TriState::True | TriState::True, TriState::True);
    assert_eq!(TriState::True | TriState::False, TriState::True);
    assert_eq!(TriState::True | TriState::Invalid, TriState::Invalid);

    assert_eq!(TriState::False | TriState::True, TriState::True);
    assert_eq!(TriState::False | TriState::False, TriState::False);
    assert_eq!(TriState::False | TriState::Invalid, TriState::Invalid);

    assert_eq!(TriState::Invalid | TriState::True, TriState::Invalid);
    assert_eq!(TriState::Invalid | TriState::False, TriState::Invalid);
    assert_eq!(TriState::Invalid | TriState::Invalid, TriState::Invalid);
}

#[test]
fn bit_xor() {
    assert_eq!(TriState::True.bitxor(TriState::True), TriState::False);
    assert_eq!(TriState::True.bitxor(TriState::False), TriState::True);
    assert_eq!(TriState::True.bitxor(TriState::Invalid), TriState::Invalid);

    assert_eq!(TriState::False.bitxor(TriState::True), TriState::True);
    assert_eq!(TriState::False.bitxor(TriState::False), TriState::False);
    assert_eq!(TriState::False.bitxor(TriState::Invalid), TriState::Invalid);

    assert_eq!(TriState::Invalid.bitxor(TriState::True), TriState::Invalid);
    assert_eq!(TriState::Invalid.bitxor(TriState::False), TriState::Invalid);
    assert_eq!(TriState::Invalid.bitxor(TriState::Invalid), TriState::Invalid);

    assert_eq!(TriState::True ^ TriState::True, TriState::False);
    assert_eq!(TriState::True ^ TriState::False, TriState::True);
    assert_eq!(TriState::True ^ TriState::Invalid, TriState::Invalid);

    assert_eq!(TriState::False ^ TriState::True, TriState::True);
    assert_eq!(TriState::False ^ TriState::False, TriState::False);
    assert_eq!(TriState::False ^ TriState::Invalid, TriState::Invalid);

    assert_eq!(TriState::Invalid ^ TriState::True, TriState::Invalid);
    assert_eq!(TriState::Invalid ^ TriState::False, TriState::Invalid);
    assert_eq!(TriState::Invalid ^ TriState::Invalid, TriState::Invalid);
}

#[test]
fn not_impl() {
    assert_eq!(TriState::True.not(), TriState::False);
    assert_eq!(TriState::False.not(), TriState::True);
    assert_eq!(TriState::Invalid.not(), TriState::Invalid);

    assert_eq!(!TriState::True, TriState::False);
    assert_eq!(!TriState::False, TriState::True);
    assert_eq!(!TriState::Invalid, TriState::Invalid);
}

#[test]
fn numeric_into_conversions() {
    let ts: TriState = 0usize.into();
    assert_eq!(ts, TriState::False);
    let ts: TriState = 1usize.into();
    assert_eq!(ts, TriState::True);
    let ts: TriState = 3usize.into();
    assert_eq!(ts, TriState::Invalid);

    let ts: TriState = 0isize.into();
    assert_eq!(ts, TriState::False);
    let ts: TriState = 1isize.into();
    assert_eq!(ts, TriState::True);
    let ts: TriState = 3isize.into();
    assert_eq!(ts, TriState::Invalid);

    let ts: TriState = 0i64.into();
    assert_eq!(ts, TriState::False);
    let ts: TriState = 1i64.into();
    assert_eq!(ts, TriState::True);
    let ts: TriState = 3i64.into();
    assert_eq!(ts, TriState::Invalid);

    let ts: TriState = 0u64.into();
    assert_eq!(ts, TriState::False);
    let ts: TriState = 1u64.into();
    assert_eq!(ts, TriState::True);
    let ts: TriState = 3u64.into();
    assert_eq!(ts, TriState::Invalid);

    let ts: TriState = 0i32.into();
    assert_eq!(ts, TriState::False);
    let ts: TriState = 1i32.into();
    assert_eq!(ts, TriState::True);
    let ts: TriState = 3i32.into();
    assert_eq!(ts, TriState::Invalid);

    let ts: TriState = 0u32.into();
    assert_eq!(ts, TriState::False);
    let ts: TriState = 1u32.into();
    assert_eq!(ts, TriState::True);
    let ts: TriState = 3u32.into();
    assert_eq!(ts, TriState::Invalid);

    let ts: TriState = 0i16.into();
    assert_eq!(ts, TriState::False);
    let ts: TriState = 1i16.into();
    assert_eq!(ts, TriState::True);
    let ts: TriState = 3i16.into();
    assert_eq!(ts, TriState::Invalid);

    let ts: TriState = 0u16.into();
    assert_eq!(ts, TriState::False);
    let ts: TriState = 1u16.into();
    assert_eq!(ts, TriState::True);
    let ts: TriState = 3u16.into();
    assert_eq!(ts, TriState::Invalid);

    let ts: TriState = 0i8.into();
    assert_eq!(ts, TriState::False);
    let ts: TriState = 1i8.into();
    assert_eq!(ts, TriState::True);
    let ts: TriState = 3i8.into();
    assert_eq!(ts, TriState::Invalid);

    let ts: TriState = 0u8.into();
    assert_eq!(ts, TriState::False);
    let ts: TriState = 1u8.into();
    assert_eq!(ts, TriState::True);
    let ts: TriState = 3u8.into();
    assert_eq!(ts, TriState::Invalid);
}

#[test]
fn display() {
    assert_eq!(TriState::True.to_string(), "True");
    assert_eq!(TriState::False.to_string(), "False");
    assert_eq!(TriState::Invalid.to_string(), "Invalid");
}

#[test]
fn toggle_twice_is_identity() {
    for t in [TriState::True, TriState::False, TriState::Invalid] {
        assert_eq!(t.toggle().toggle(), t);
        assert_eq!(!!t, t);
    }
}

#[test]
fn valid_states_act_as_booleans() {
    for a in [false, true] {
        for b in [false, true] {
            assert_eq!(TriState::from(a) & TriState::from(b), TriState::from(a && b));
            assert_eq!(TriState::from(a) | TriState::from(b), TriState::from(a || b));
            assert_eq!(TriState::from(a) ^ TriState::from(b), TriState::from(a != b));
        }
        assert_eq!(!TriState::from(a), TriState::from(!a));
    }
}
