use keydeck::deck::{deck_json, validate_deck, DeckError, DeckSetlist, Grid, Page, Slot};
use keydeck::keymap::{Action, LOAD_JSON_SYNTAX, LOAD_SCHEMA_INVALID, LOAD_VK_UNKNOWN};

fn slot(id: &str, label: &str, action: Action) -> Slot {
    Slot {
        slot_id: id.to_string(),
        label: label.to_string(),
        icon: None,
        action,
    }
}

fn deck(pages: Vec<Vec<Slot>>) -> DeckSetlist {
    DeckSetlist {
        deck_id: "t".to_string(),
        description: String::new(),
        grid: Grid { cols: 2, rows: 1 },
        pages: pages
            .into_iter()
            .enumerate()
            .map(|(i, slots)| Page {
                id: i as u32 + 1,
                slots,
            })
            .collect(),
    }
}

fn sample_deck() -> DeckSetlist {
    deck(vec![vec![
        slot("S01", "Mute", Action::Key { vk: "MUTE".into() }),
        slot(
            "S02",
            "Save",
            Action::Chord {
                keys: vec!["CTRL".into(), "S".into()],
            },
        ),
    ]])
}

#[test]
fn loads_valid_deck() {
    let deck = validate_deck("test", sample_deck()).unwrap();
    assert_eq!(deck.deck_id, "t");
    assert!(deck.find_slot("S01").is_some());
}

#[test]
fn rejects_duplicate_slot_id() {
    let d = deck(vec![
        vec![slot("S01", "a", Action::NoOp)],
        vec![slot("S01", "b", Action::NoOp)],
    ]);
    let error = validate_deck("test", d).unwrap_err();
    assert_eq!(error.code, LOAD_SCHEMA_INVALID);
}

#[test]
fn rejects_unknown_vk() {
    let d = deck(vec![vec![slot("S01", "a", Action::Key { vk: "NOPE".into() })]]);
    let error = validate_deck("test", d).unwrap_err();
    assert_eq!(error.code, LOAD_VK_UNKNOWN);
}

#[test]
fn rejects_mo_action_on_deck() {
    let d = deck(vec![vec![slot("S01", "a", Action::Mo { layer: 1 })]]);
    let error = validate_deck("test", d).unwrap_err();
    assert_eq!(error.code, LOAD_SCHEMA_INVALID);
}

#[test]
fn deck_errors_name_the_source_and_the_slot() {
    let d = deck(vec![
        vec![slot("S01", "a", Action::NoOp)],
        vec![slot("S02", "b", Action::Tg { layer: 2 }), slot("S01", "c", Action::NoOp)],
    ]);
    let error = validate_deck("decks/d.json", d).unwrap_err();
    assert_eq!(error.cause, "decks/d.json: duplicate slotId 'S01'");
    assert_eq!(error.to_text(), "[LOAD_SCHEMA_INVALID] decks/d.json: duplicate slotId 'S01'");

    let d = deck(vec![vec![slot("S05", "a", Action::Trans)]]);
    let error = validate_deck("x", d).unwrap_err();
    assert_eq!(
        error.cause,
        "x: slot 'S05': mo/tg/trans are keyboard-layer actions and are not valid on the Deck"
    );

    let d = deck(vec![vec![slot(
        "S07",
        "a",
        Action::Chord {
            keys: vec!["CTRL".into(), "NOPE".into()],
        },
    )]]);
    let error = validate_deck("x", d).unwrap_err();
    assert_eq!(error.cause, "x: slot 'S07': unknown vk 'NOPE' in chord");
}

#[test]
fn text_and_keymap_actions_are_valid_on_the_deck() {
    let d = deck(vec![vec![
        slot("S01", "t", Action::Text { string: "hi".into() }),
        slot("S02", "k", Action::KeymapSwitch { id: "default".into() }),
        slot("S03", "r", Action::KeymapReset),
    ]]);
    assert!(validate_deck("x", d).is_ok());
}

#[test]
fn find_slot_searches_every_page_and_actions_lists_them_in_order() {
    let d = deck(vec![
        vec![slot("S01", "a", Action::NoOp)],
        vec![slot("S02", "b", Action::Key { vk: "A".into() })],
    ]);
    assert_eq!(d.find_slot("S02").unwrap().label, "b");
    assert!(d.find_slot("S03").is_none());
    let actions = d.actions();
    assert_eq!(actions, vec![&Action::NoOp, &Action::Key { vk: "A".into() }]);
}

#[test]
fn deck_text_that_is_not_json_is_a_syntax_error() {
    assert!(deck_json("d", r#"{ "deckId": "t" }"#).is_ok());
    let error = deck_json("decks/d.json", "{ nope").unwrap_err();
    assert_eq!(error.code, LOAD_JSON_SYNTAX);
    assert!(error.cause.starts_with("decks/d.json: "));
    let e = DeckError::new(LOAD_SCHEMA_INVALID, "d: missing field `grid`".to_string());
    assert_eq!(e.to_text(), "[LOAD_SCHEMA_INVALID] d: missing field `grid`");
}
