use keebifa::keycode::{
    KEY_A, KEY_B, KEY_C, KEY_D, KEY_E, KEY_F, KEY_G, KEY_H, KEY_LEFT_ALT, KEY_LEFT_CTRL,
    KEY_LEFT_GUI, KEY_LEFT_SHIFT, KEY_RIGHT_ALT, KEY_RIGHT_CTRL, KEY_RIGHT_GUI, KEY_RIGHT_SHIFT,
    NO_KEY,
};
use keebifa::report::{code_is_modifier, Report};
use keyberon::key_code::KeyCode;

#[test]
fn the_empty_report_is_all_zero() {
    let report = Report::empty();
    assert_eq!(report.modifiers, 0);
    assert_eq!(report.keys, [0; 6]);
    assert_eq!(report.as_bytes(), [0; 8]);
    assert_eq!(Report::from_codes(&Vec::new()), report);
}

#[test]
fn every_modifier_has_its_bit() {
    let modifiers = [
        KEY_LEFT_CTRL,
        KEY_LEFT_SHIFT,
        KEY_LEFT_ALT,
        KEY_LEFT_GUI,
        KEY_RIGHT_CTRL,
        KEY_RIGHT_SHIFT,
        KEY_RIGHT_ALT,
        KEY_RIGHT_GUI,
    ];
    for (bit, code) in modifiers.iter().enumerate() {
        let report = Report::from_codes(&vec![*code]);
        assert_eq!(report.modifiers, 1 << bit);
        assert_eq!(report.keys, [0; 6]);
    }
    assert_eq!(Report::from_codes(&modifiers.to_vec()).modifiers, 0xFF);
    assert_eq!(Report::from_codes(&vec![KEY_LEFT_SHIFT, KEY_LEFT_SHIFT]).modifiers, 0b10);
}

#[test]
fn only_the_eight_modifier_codes_are_modifiers() {
    for code in 0..=255u8 {
        assert_eq!(code_is_modifier(code), (0xE0..=0xE7).contains(&code));
    }
}

#[test]
fn keys_fill_the_slots_from_the_front() {
    let report = Report::from_codes(&vec![KEY_C, KEY_LEFT_SHIFT, NO_KEY, KEY_A, KEY_RIGHT_ALT]);
    assert_eq!(report.modifiers, 0b0100_0010);
    assert_eq!(report.keys, [KEY_C, KEY_A, 0, 0, 0, 0]);
    assert_eq!(report.as_bytes(), [0b0100_0010, 0, KEY_C, KEY_A, 0, 0, 0, 0]);
}

#[test]
fn six_keys_fit() {
    let report = Report::from_codes(&vec![KEY_A, KEY_B, KEY_C, KEY_D, KEY_E, KEY_F]);
    assert_eq!(report.keys, [KEY_A, KEY_B, KEY_C, KEY_D, KEY_E, KEY_F]);
}

#[test]
fn of_more_than_six_keys_the_oldest_are_dropped() {
    let report = Report::from_codes(&vec![KEY_A, KEY_B, KEY_C, KEY_D, KEY_E, KEY_F, KEY_G]);
    assert_eq!(report.modifiers, 0);
    assert_eq!(report.keys, [KEY_B, KEY_C, KEY_D, KEY_E, KEY_F, KEY_G]);
    let report = Report::from_codes(&vec![
        KEY_A,
        KEY_LEFT_CTRL,
        KEY_B,
        KEY_C,
        NO_KEY,
        KEY_D,
        KEY_E,
        KEY_F,
        KEY_G,
        KEY_H,
    ]);
    assert_eq!(report.modifiers, 1);
    assert_eq!(report.keys, [KEY_C, KEY_D, KEY_E, KEY_F, KEY_G, KEY_H]);
}

#[test]
fn same_compares_all_of_a_report() {
    let a = Report::from_codes(&vec![KEY_A, KEY_LEFT_CTRL]);
    assert!(a.same(&Report::from_codes(&vec![KEY_LEFT_CTRL, KEY_A])));
    assert!(!a.same(&Report::from_codes(&vec![KEY_A])));
    assert!(!a.same(&Report::from_codes(&vec![KEY_B, KEY_LEFT_CTRL])));
    assert!(!a.same(&Report::from_codes(&vec![KEY_A, KEY_LEFT_CTRL, KEY_B])));
    let six = Report::from_codes(&vec![KEY_A, KEY_B, KEY_C, KEY_D, KEY_E, KEY_F]);
    assert!(!six.same(&Report::from_codes(&vec![KEY_A, KEY_B, KEY_C, KEY_D, KEY_E, KEY_G])));
    assert!(six.same(&six));
}

#[test]
fn the_key_codes_are_those_of_the_usage_table() {
    assert_eq!(NO_KEY, KeyCode::No as u8);
    assert_eq!(KEY_A, KeyCode::A as u8);
    assert_eq!(keebifa::keycode::KEY_Z, KeyCode::Z as u8);
    assert_eq!(keebifa::keycode::KEY_1, KeyCode::Kb1 as u8);
    assert_eq!(keebifa::keycode::KEY_0, KeyCode::Kb0 as u8);
    assert_eq!(keebifa::keycode::KEY_ENTER, KeyCode::Enter as u8);
    assert_eq!(keebifa::keycode::KEY_ESCAPE, KeyCode::Escape as u8);
    assert_eq!(keebifa::keycode::KEY_BACKSPACE, KeyCode::BSpace as u8);
    assert_eq!(keebifa::keycode::KEY_TAB, KeyCode::Tab as u8);
    assert_eq!(keebifa::keycode::KEY_SPACE, KeyCode::Space as u8);
    assert_eq!(keebifa::keycode::KEY_MINUS, KeyCode::Minus as u8);
    assert_eq!(keebifa::keycode::KEY_EQUAL, KeyCode::Equal as u8);
    assert_eq!(keebifa::keycode::KEY_LEFT_BRACKET, KeyCode::LBracket as u8);
    assert_eq!(keebifa::keycode::KEY_RIGHT_BRACKET, KeyCode::RBracket as u8);
    assert_eq!(keebifa::keycode::KEY_BACKSLASH, KeyCode::Bslash as u8);
    assert_eq!(keebifa::keycode::KEY_SEMICOLON, KeyCode::SColon as u8);
    assert_eq!(keebifa::keycode::KEY_QUOTE, KeyCode::Quote as u8);
    assert_eq!(keebifa::keycode::KEY_GRAVE, KeyCode::Grave as u8);
    assert_eq!(keebifa::keycode::KEY_COMMA, KeyCode::Comma as u8);
    assert_eq!(keebifa::keycode::KEY_DOT, KeyCode::Dot as u8);
    assert_eq!(keebifa::keycode::KEY_SLASH, KeyCode::Slash as u8);
    assert_eq!(keebifa::keycode::KEY_CAPS_LOCK, KeyCode::CapsLock as u8);
    assert_eq!(keebifa::keycode::KEY_F1, KeyCode::F1 as u8);
    assert_eq!(keebifa::keycode::KEY_F12, KeyCode::F12 as u8);
    assert_eq!(keebifa::keycode::KEY_INSERT, KeyCode::Insert as u8);
    assert_eq!(keebifa::keycode::KEY_HOME, KeyCode::Home as u8);
    assert_eq!(keebifa::keycode::KEY_PAGE_UP, KeyCode::PgUp as u8);
    assert_eq!(keebifa::keycode::KEY_DELETE, KeyCode::Delete as u8);
    assert_eq!(keebifa::keycode::KEY_END, KeyCode::End as u8);
    assert_eq!(keebifa::keycode::KEY_PAGE_DOWN, KeyCode::PgDown as u8);
    assert_eq!(keebifa::keycode::KEY_RIGHT, KeyCode::Right as u8);
    assert_eq!(keebifa::keycode::KEY_LEFT, KeyCode::Left as u8);
    assert_eq!(keebifa::keycode::KEY_DOWN, KeyCode::Down as u8);
    assert_eq!(keebifa::keycode::KEY_UP, KeyCode::Up as u8);
    assert_eq!(KEY_LEFT_CTRL, KeyCode::LCtrl as u8);
    assert_eq!(KEY_LEFT_SHIFT, KeyCode::LShift as u8);
    assert_eq!(KEY_LEFT_ALT, KeyCode::LAlt as u8);
    assert_eq!(KEY_LEFT_GUI, KeyCode::LGui as u8);
    assert_eq!(KEY_RIGHT_CTRL, KeyCode::RCtrl as u8);
    assert_eq!(KEY_RIGHT_SHIFT, KeyCode::RShift as u8);
    assert_eq!(KEY_RIGHT_ALT, KeyCode::RAlt as u8);
    assert_eq!(KEY_RIGHT_GUI, KeyCode::RGui as u8);
    for code in 0..=255u8 {
        let modifier = (KeyCode::LCtrl as u8..=KeyCode::RGui as u8).contains(&code);
        assert_eq!(code_is_modifier(code), modifier);
    }
    assert_eq!(KeyCode::LShift.as_modifier_bit(), Report::from_codes(&vec![KEY_LEFT_SHIFT]).modifiers);
}
