use backend::mods::ALL;
use backend::{parse, Keycode, Mods};

fn text(keycode: &Keycode) -> Option<String> {
    keycode.format()
}

#[test]
fn a_basic_keycode_is_written_as_its_code() {
    assert_eq!(text(&Keycode::Basic(Mods::empty(), "A".to_string())), Some("A".to_string()));
    assert_eq!(
        text(&Keycode::Basic(Mods::empty(), "ROLL_OVER".to_string())),
        Some("ROLL_OVER".to_string())
    );
}

#[test]
fn a_modifier_tap_names_left_modifiers_in_order() {
    let all_left = Mods::super_key() | Mods::alt() | Mods::shift() | Mods::ctrl();
    assert_eq!(
        text(&Keycode::MT(all_left, "A".to_string())),
        Some("MT(LEFT_CTRL,LEFT_SHIFT,LEFT_ALT,LEFT_SUPER,A)".to_string())
    );
    assert_eq!(
        text(&Keycode::MT(Mods::ctrl(), "A".to_string())),
        Some("MT(LEFT_CTRL,A)".to_string())
    );
    assert_eq!(
        text(&Keycode::MT(Mods::alt() | Mods::shift(), "B".to_string())),
        Some("MT(LEFT_SHIFT,LEFT_ALT,B)".to_string())
    );
    assert_eq!(
        text(&Keycode::MT(Mods::super_key(), "NONE".to_string())),
        Some("MT(LEFT_SUPER,NONE)".to_string())
    );
}

#[test]
fn a_modifier_tap_names_a_right_modifier() {
    assert_eq!(
        text(&Keycode::MT(Mods::right() | Mods::ctrl(), "A".to_string())),
        Some("MT(RIGHT_CTRL,A)".to_string())
    );
    assert_eq!(
        text(&Keycode::MT(Mods::right() | Mods::shift(), "A".to_string())),
        Some("MT(RIGHT_SHIFT,A)".to_string())
    );
    assert_eq!(
        text(&Keycode::MT(Mods::right() | Mods::alt(), "A".to_string())),
        Some("MT(RIGHT_ALT,A)".to_string())
    );
    assert_eq!(
        text(&Keycode::MT(Mods::right() | Mods::super_key(), "A".to_string())),
        Some("MT(RIGHT_SUPER,A)".to_string())
    );
}

#[test]
fn the_side_flag_with_several_modifiers_names_each_as_right() {
    assert_eq!(
        text(&Keycode::MT(Mods::right() | Mods::ctrl() | Mods::shift(), "A".to_string())),
        Some("MT(RIGHT_CTRL,RIGHT_SHIFT,A)".to_string())
    );
    assert_eq!(
        text(&Keycode::MT(Mods::from_bits(ALL).unwrap(), "A".to_string())),
        Some("MT(RIGHT_CTRL,RIGHT_SHIFT,RIGHT_ALT,RIGHT_SUPER,A)".to_string())
    );
}

#[test]
fn a_layer_tap_is_written_with_its_layer_in_decimal() {
    assert_eq!(text(&Keycode::LT(1, "FN".to_string())), Some("LT(1,FN)".to_string()));
    assert_eq!(text(&Keycode::LT(0, "A".to_string())), Some("LT(0,A)".to_string()));
    assert_eq!(text(&Keycode::LT(10, "A".to_string())), Some("LT(10,A)".to_string()));
    assert_eq!(
        text(&Keycode::LT(1234567890, "A".to_string())),
        Some("LT(1234567890,A)".to_string())
    );
    assert_eq!(
        text(&Keycode::LT(usize::MAX, "A".to_string())),
        Some(format!("LT({},A)", usize::MAX))
    );
}

#[test]
fn a_basic_keycode_with_modifiers_has_no_text() {
    assert_eq!(text(&Keycode::Basic(Mods::ctrl(), "A".to_string())), None);
    assert_eq!(text(&Keycode::Basic(Mods::right(), "A".to_string())), None);
}

#[test]
fn a_basic_keycode_named_like_a_keyword_has_no_text() {
    assert_eq!(text(&Keycode::Basic(Mods::empty(), "MT".to_string())), None);
    assert_eq!(text(&Keycode::Basic(Mods::empty(), "LT".to_string())), None);
    assert_eq!(text(&Keycode::Basic(Mods::empty(), "MTA".to_string())), Some("MTA".to_string()));
    assert_eq!(
        text(&Keycode::MT(Mods::ctrl(), "MT".to_string())),
        Some("MT(LEFT_CTRL,MT)".to_string())
    );
    assert_eq!(text(&Keycode::LT(1, "LT".to_string())), Some("LT(1,LT)".to_string()));
}

#[test]
fn a_modifier_tap_without_modifier_has_no_text() {
    assert_eq!(text(&Keycode::MT(Mods::empty(), "A".to_string())), None);
    assert_eq!(text(&Keycode::MT(Mods::right(), "A".to_string())), None);
}

#[test]
fn a_code_that_is_no_single_identifier_has_no_text() {
    for code in ["", " ", "A B", " A", "A ", "A,B", "A|B", "A(", "A)", "(", "_A", "-", "+1", "€"] {
        assert_eq!(text(&Keycode::Basic(Mods::empty(), code.to_string())), None);
        assert_eq!(text(&Keycode::MT(Mods::ctrl(), code.to_string())), None);
        assert_eq!(text(&Keycode::LT(1, code.to_string())), None);
    }
}

#[test]
fn the_text_is_written_for_a_tested_code() {
    let keycode = Keycode::LT(7, "FN".to_string());
    assert_eq!(keycode.format_given(true), Some("LT(7,FN)".to_string()));
    assert_eq!(keycode.format_given(false), None);
    let spaced = Keycode::LT(7, "F N".to_string());
    assert_eq!(spaced.format_given(true), None);
    let odd = Keycode::MT(Mods::shift(), "-".to_string());
    assert_eq!(odd.format_given(true), Some("MT(LEFT_SHIFT,-)".to_string()));
    assert_eq!(odd.format(), None);
}

#[test]
fn every_text_is_read_back_as_its_keycode() {
    let codes = ["A", "NONE", "ROLL_OVER", "LEFT_CTRL", "RIGHT_SUPER", "MT", "LT", "7", "é", "a-b"];
    for code in codes {
        let plain = Keycode::Basic(Mods::empty(), code.to_string());
        match plain.format() {
            Some(written) => assert_eq!(parse(&written), Some(plain)),
            None => assert!(code == "MT" || code == "LT"),
        }
        for bits in 0..=ALL {
            let held = Keycode::MT(Mods::from_bits(bits).unwrap(), code.to_string());
            match held.format() {
                Some(written) => assert_eq!(parse(&written), Some(held)),
                None => assert_eq!(bits & 0xf, 0),
            }
        }
        for layer in [0, 1, 2, 9, 10, 11, 99, 100, 255, 256, 65535, 4294967295, usize::MAX] {
            let tapped = Keycode::LT(layer, code.to_string());
            let written = tapped.format().unwrap();
            assert_eq!(parse(&written), Some(tapped));
        }
    }
}

#[test]
fn what_is_read_is_written_in_canonical_form() {
    let read = parse(" MT ( RIGHT_SHIFT , LEFT_CTRL , LEFT_CTRL , A ) ").unwrap();
    assert_eq!(read.format(), Some("MT(RIGHT_CTRL,RIGHT_SHIFT,A)".to_string()));
    let read = parse("LT( +007 , FN )").unwrap();
    assert_eq!(read.format(), Some("LT(7,FN)".to_string()));
    let read = parse("  A ").unwrap();
    assert_eq!(read.format(), Some("A".to_string()));
}
