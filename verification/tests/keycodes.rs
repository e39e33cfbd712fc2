use backend::{Keycode, Mods};
use std::collections::HashSet;

#[test]
fn none_is_the_plain_code_without_modifiers() {
    assert!(Keycode::Basic(Mods::empty(), "NONE".to_string()).is_none());
    assert!(!Keycode::Basic(Mods::empty(), "NONE2".to_string()).is_none());
    assert!(!Keycode::Basic(Mods::empty(), "none".to_string()).is_none());
    assert!(!Keycode::Basic(Mods::empty(), "".to_string()).is_none());
    assert!(!Keycode::Basic(Mods::empty(), "ROLL_OVER".to_string()).is_none());
    assert!(!Keycode::Basic(Mods::shift(), "NONE".to_string()).is_none());
    assert!(!Keycode::Basic(Mods::right(), "NONE".to_string()).is_none());
}

#[test]
fn roll_over_is_the_plain_code_without_modifiers() {
    assert!(Keycode::Basic(Mods::empty(), "ROLL_OVER".to_string()).is_roll_over());
    assert!(!Keycode::Basic(Mods::empty(), "ROLL_OVER2".to_string()).is_roll_over());
    assert!(!Keycode::Basic(Mods::empty(), "ROLLOVER".to_string()).is_roll_over());
    assert!(!Keycode::Basic(Mods::empty(), "NONE".to_string()).is_roll_over());
    assert!(!Keycode::Basic(Mods::ctrl(), "ROLL_OVER".to_string()).is_roll_over());
}

#[test]
fn tap_keycodes_are_no_sentinels() {
    for code in ["NONE", "ROLL_OVER", "A", ""] {
        let mt_empty = Keycode::MT(Mods::empty(), code.to_string());
        let mt = Keycode::MT(Mods::ctrl(), code.to_string());
        let lt = Keycode::LT(0, code.to_string());
        for keycode in [mt_empty, mt, lt] {
            assert!(!keycode.is_none());
            assert!(!keycode.is_roll_over());
        }
    }
}

#[test]
fn the_code_is_read_from_every_variant() {
    assert_eq!(Keycode::Basic(Mods::empty(), "A".to_string()).code(), "A");
    assert_eq!(Keycode::MT(Mods::alt(), "B".to_string()).code(), "B");
    assert_eq!(Keycode::LT(2, "C".to_string()).code(), "C");
}

#[test]
fn keycodes_are_equal_by_what_they_hold() {
    let a = Keycode::MT(Mods::ctrl() | Mods::shift(), "A".to_string());
    let b = Keycode::MT(Mods::shift() | Mods::ctrl(), String::from("A"));
    assert_eq!(a, b);
    assert_ne!(a, Keycode::MT(Mods::ctrl(), "A".to_string()));
    assert_ne!(a, Keycode::MT(Mods::ctrl() | Mods::shift(), "B".to_string()));
    assert_ne!(a, Keycode::Basic(Mods::ctrl() | Mods::shift(), "A".to_string()));
    assert_ne!(Keycode::LT(1, "A".to_string()), Keycode::LT(2, "A".to_string()));
    assert_ne!(Keycode::LT(1, "A".to_string()), Keycode::LT(1, "B".to_string()));
    assert_eq!(Keycode::LT(1, "A".to_string()), Keycode::LT(1, "A".to_string()));
    assert_ne!(
        Keycode::LT(1, "A".to_string()),
        Keycode::Basic(Mods::empty(), "A".to_string())
    );
}

#[test]
fn a_clone_is_equal_to_what_it_was_cloned_from() {
    for keycode in [
        Keycode::Basic(Mods::empty(), "A".to_string()),
        Keycode::MT(Mods::right() | Mods::alt(), "B".to_string()),
        Keycode::LT(9, "C".to_string()),
    ] {
        assert_eq!(keycode.clone(), keycode);
    }
}

#[test]
fn keycodes_can_be_kept_in_a_set() {
    let mut selected = HashSet::new();
    selected.insert(Keycode::Basic(Mods::empty(), "A".to_string()));
    selected.insert(Keycode::LT(1, "FN".to_string()));
    selected.insert(Keycode::LT(1, "FN".to_string()));
    assert_eq!(selected.len(), 2);
    assert!(selected.contains(&Keycode::Basic(Mods::empty(), "A".to_string())));
    assert!(selected.contains(&Keycode::LT(1, "FN".to_string())));
    assert!(!selected.contains(&Keycode::MT(Mods::ctrl(), "A".to_string())));
}
