use keydeck::adapter::{plan, send, vk_code, AdapterError, KeyEvent, KeySender, SendStep};
use keydeck::keymap::Action;
use keydeck::vk::{is_known_vk, vk_dictionary};
use std::collections::BTreeSet;

#[test]
fn t2_1_vk_code_covers_the_entire_dictionary() {
    for vk in vk_dictionary() {
        assert!(
            vk_code(vk).is_some(),
            "vk_code() is missing a mapping for dictionary entry '{vk}'"
        );
    }
}

#[test]
fn t2_1_unknown_vk_name_maps_to_none() {
    assert_eq!(vk_code("NOT_A_REAL_KEY"), None);
}

#[test]
fn t2_1_vk_codes_are_unique() {
    let mut seen = BTreeSet::new();
    for vk in vk_dictionary() {
        let code = vk_code(vk).unwrap();
        assert!(
            seen.insert(code),
            "vk '{vk}' maps to code {code:#x} which is already used by another vk"
        );
    }
}

#[test]
fn t2_2_mo_action_is_unsupported() {
    let error = send(&Action::Mo { layer: 1 }).unwrap_err();
    assert!(matches!(error, AdapterError::Unsupported { .. }));
}

#[test]
fn t2_2_trans_action_is_unsupported() {
    let error = send(&Action::Trans).unwrap_err();
    assert!(matches!(error, AdapterError::Unsupported { .. }));
}

#[test]
fn t2_2_empty_chord_is_unsupported() {
    let error = send(&Action::Chord { keys: vec![] }).unwrap_err();
    assert!(matches!(error, AdapterError::Unsupported { .. }));
}

#[test]
fn t2_2_unknown_vk_in_key_action_is_unsupported_not_panic() {
    let error = send(&Action::Key {
        vk: "NOT_A_REAL_KEY".into(),
    })
    .unwrap_err();
    assert!(matches!(error, AdapterError::Unsupported { .. }));
}

#[test]
fn t8_1_empty_text_action_is_unsupported_not_panic() {
    let error = send(&Action::Text { string: String::new() }).unwrap_err();
    assert!(matches!(error, AdapterError::Unsupported { .. }));
}

#[test]
fn t2_2_dummy_backend_reports_success_for_key_and_chord() {
    assert!(send(&Action::Key { vk: "A".into() }).is_ok());
    assert!(send(&Action::Chord {
        keys: vec!["CTRL".into(), "S".into()]
    })
    .is_ok());
}

#[test]
fn t8_1_dummy_backend_reports_success_for_text_including_surrogate_pairs() {
    assert!(send(&Action::Text { string: "(".into() }).is_ok());
    assert!(send(&Action::Text { string: "。、「」".into() }).is_ok());
    assert!(send(&Action::Text { string: "🎉".into() }).is_ok());
}

#[test]
fn vk_dictionary_has_no_duplicates() {
    let mut seen = BTreeSet::new();
    for vk in vk_dictionary() {
        assert!(seen.insert(vk), "duplicate vk in dictionary: {vk}");
    }
}

#[test]
fn every_dictionary_entry_is_a_known_key_name() {
    let dictionary = vk_dictionary();
    assert_eq!(dictionary.len(), 91);
    for vk in dictionary {
        assert!(is_known_vk(vk), "{vk}");
    }
    assert!(!is_known_vk("F25"));
    assert!(!is_known_vk("F0"));
    assert!(!is_known_vk("a"));
    assert!(!is_known_vk(""));
}

#[test]
fn vk_codes_of_letters_digits_and_function_keys() {
    assert_eq!(vk_code("A"), Some(0x41));
    assert_eq!(vk_code("Z"), Some(0x5A));
    assert_eq!(vk_code("0"), Some(0x30));
    assert_eq!(vk_code("9"), Some(0x39));
    assert_eq!(vk_code("F1"), Some(0x70));
    assert_eq!(vk_code("F24"), Some(0x87));
    assert_eq!(vk_code("ENTER"), Some(0x0D));
    assert_eq!(vk_code("CTRL"), Some(0x11));
    assert_eq!(vk_code("MEDIA_PREV"), Some(0xB1));
}

#[test]
fn a_chord_presses_modifiers_in_order_and_releases_them_in_reverse() {
    let action = Action::Chord {
        keys: vec!["CTRL".into(), "SHIFT".into(), "S".into()],
    };
    let p = plan(&action);
    assert_eq!(
        p.events,
        vec![
            KeyEvent::Press(0x11),
            KeyEvent::Press(0x10),
            KeyEvent::Press(0x53),
            KeyEvent::Release(0x53),
        ]
    );
    assert!(p.end.is_ok());
    let mut sender = KeySender::new(&action);
    let mut emitted = Vec::new();
    loop {
        match sender.step(Ok(())) {
            SendStep::Emit(e) => emitted.push(e),
            SendStep::Finished(r) => {
                assert!(r.is_ok());
                break;
            }
        }
    }
    assert_eq!(
        emitted,
        vec![
            KeyEvent::Press(0x11),
            KeyEvent::Press(0x10),
            KeyEvent::Press(0x53),
            KeyEvent::Release(0x53),
            KeyEvent::Release(0x10),
            KeyEvent::Release(0x11),
        ]
    );
}

#[test]
fn text_is_sent_as_utf16_units_each_pressed_and_released() {
    let p = plan(&Action::Text { string: "é🎉".into() });
    assert_eq!(
        p.events,
        vec![
            KeyEvent::UnicodePress(0x00E9),
            KeyEvent::UnicodeRelease(0x00E9),
            KeyEvent::UnicodePress(0xD83C),
            KeyEvent::UnicodeRelease(0xD83C),
            KeyEvent::UnicodePress(0xDF89),
            KeyEvent::UnicodeRelease(0xDF89),
        ]
    );
}

#[test]
fn a_refused_event_releases_what_is_held_and_reports_the_failure() {
    let action = Action::Chord {
        keys: vec!["CTRL".into(), "S".into()],
    };
    let mut sender = KeySender::new(&action);
    let first = sender.step(Ok(()));
    assert_eq!(first, SendStep::Emit(KeyEvent::Press(0x11)));
    let second = sender.step(Ok(()));
    assert_eq!(second, SendStep::Emit(KeyEvent::Press(0x53)));
    let third = sender.step(Err("access denied".to_string()));
    assert_eq!(third, SendStep::Emit(KeyEvent::Release(0x11)));
    let last = sender.step(Ok(()));
    match last {
        SendStep::Finished(Err(AdapterError::SendFailed { cause })) => {
            assert_eq!(cause, "S: access denied");
        }
        other => panic!("unexpected step {other:?}"),
    }
}

#[test]
fn adapter_error_text_names_its_kind() {
    let e = AdapterError::Unsupported { cause: "x".into() };
    assert_eq!(e.to_text(), "Unsupported: x");
    let e = AdapterError::SendFailed { cause: "y".into() };
    assert_eq!(e.to_text(), "SendFailed: y");
}

#[test]
fn actions_that_are_not_keyboard_input_are_named_in_the_cause() {
    let cause = |action: Action| match send(&action) {
        Err(AdapterError::Unsupported { cause }) => cause,
        other => panic!("unexpected {other:?}"),
    };
    assert_eq!(
        cause(Action::KeymapSwitch { id: "we\"ird".into() }),
        "action cannot be sent to the OS: KeymapSwitch { id: \"we\\\"ird\" }"
    );
    assert_eq!(cause(Action::Mo { layer: 3 }), "action cannot be sent to the OS: Mo { layer: 3 }");
    assert_eq!(cause(Action::NoOp), "action cannot be sent to the OS: None");
    assert_eq!(cause(Action::KeymapReset), "action cannot be sent to the OS: KeymapReset");
    assert_eq!(cause(Action::Key { vk: "NOPE".into() }), "'NOPE' is not in the vk dictionary");
    assert_eq!(cause(Action::Chord { keys: vec![] }), "chord must contain at least one key");
    assert_eq!(
        cause(Action::Text { string: String::new() }),
        "text action string must not be empty"
    );
}
