use keydeck::deck::{DeckError, DeckSetlist, Grid, Page, Slot};
use keydeck::hub::IPAD_KEYMAP_ID;
use keydeck::keymap::{
    combine_keymap, keymap_json, Action, Board, BoardKey, KeyDef, Keymap, KeymapError, KeymapKind, KeymapManifest,
    LayerFile, LOAD_JSON_SYNTAX,
};
use keydeck::qr::{svg_for_url, QrFailure};
use keydeck::startup::{all_actions, keymap_file_names, load_startup_data};

fn layer_file(layer: u8, actions: Vec<Action>) -> LayerFile {
    LayerFile {
        layer,
        keys: actions
            .into_iter()
            .enumerate()
            .map(|(i, action)| {
                (
                    format!("K{}", 101 + i),
                    KeyDef {
                        label: String::new(),
                        action,
                    },
                )
            })
            .collect(),
    }
}

fn manifest(id: &str) -> KeymapManifest {
    KeymapManifest {
        keymap_id: id.to_string(),
        description: String::new(),
        kind: KeymapKind::Single,
        halves: None,
        board: Some(Board {
            cols: 13,
            keys: vec![BoardKey {
                id: "K101".into(),
                row: 1,
                col: 1,
                col_span: None,
                row_span: None,
            }],
        }),
        layer_files: vec![format!("layers/{id}_layer0.json")],
    }
}

/// A single-board keymap file with one layer file holding `actions`.
fn single_keymap(id: &str, actions: Vec<Action>) -> Keymap {
    combine_keymap(
        &format!("keymaps/keymap_{id}.json"),
        manifest(id),
        vec![Ok(layer_file(0, actions))],
    )
    .unwrap()
}

fn minimal(id: &str) -> Keymap {
    single_keymap(id, vec![Action::Key { vk: "1".into() }])
}

fn empty_deck() -> DeckSetlist {
    DeckSetlist {
        deck_id: "deck_default".to_string(),
        description: String::new(),
        grid: Grid { cols: 1, rows: 1 },
        pages: vec![],
    }
}

fn loaded(path: &str, keymap: Keymap) -> (String, Result<Keymap, KeymapError>) {
    (path.to_string(), Ok(keymap))
}

#[test]
fn discover_and_load_picks_up_arbitrary_new_keymap_files_without_hardcoding() {
    let data = load_startup_data(
        "keymaps",
        vec![
            loaded(
                "keymaps/keymap_brand_new_format_added_by_dropping_a_file.json",
                minimal("brand_new_format_added_by_dropping_a_file"),
            ),
            loaded("keymaps/keymap_ipad01_vol12.json", minimal("ipad01_vol12")),
        ],
        "decks/deck_default.json",
        Ok(empty_deck()),
    )
    .ok()
    .expect("both keymaps + empty deck must load");
    assert_eq!(data.keymaps.len(), 2);
    assert!(data.keymaps.contains_key("ipad01_vol12"));
    assert!(data.keymaps.contains_key("brand_new_format_added_by_dropping_a_file"));
    assert!(data.command_registry.is_allowed("key:1"));
}

#[test]
fn missing_ipad_keymap_id_is_rejected() {
    let errors = load_startup_data(
        "keymaps",
        vec![loaded("keymaps/keymap_some_other_format.json", minimal("some_other_format"))],
        "decks/deck_default.json",
        Ok(empty_deck()),
    )
    .err()
    .unwrap();
    assert!(errors.iter().any(|e| e.contains(IPAD_KEYMAP_ID)));
    assert_eq!(
        errors,
        vec!["[LOAD_SCHEMA_INVALID] ipad surface requires keymapId 'ipad01_vol12' to be loaded"]
    );
}

#[test]
fn invalid_json_in_one_keymap_rejects_the_whole_reload() {
    let broken = keymap_json("keymaps/keymap_broken.json", "{ this is not json").unwrap_err();
    let errors = load_startup_data(
        "keymaps",
        vec![
            ("keymaps/keymap_broken.json".to_string(), Err(broken)),
            loaded("keymaps/keymap_ipad01_vol12.json", minimal("ipad01_vol12")),
        ],
        "decks/deck_default.json",
        Ok(empty_deck()),
    )
    .err()
    .unwrap();
    assert!(!errors.is_empty());
    assert_eq!(errors.len(), 1);
    assert!(errors[0].starts_with(
        "keymaps/keymap_broken.json: [LOAD_JSON_SYNTAX] keymaps/keymap_broken.json: "
    ));
}

#[test]
fn a_failed_keymap_load_is_reported_with_its_path() {
    let errors = load_startup_data(
        "keymaps",
        vec![
            (
                "keymaps/keymap_broken.json".to_string(),
                Err(KeymapError::for_source(
                    LOAD_JSON_SYNTAX,
                    "keymaps/keymap_broken.json",
                    "key must be a string at line 1 column 3",
                )),
            ),
            loaded("keymaps/keymap_ipad01_vol12.json", minimal("ipad01_vol12")),
        ],
        "decks/deck_default.json",
        Ok(empty_deck()),
    )
    .err()
    .unwrap();
    assert_eq!(
        errors,
        vec!["keymaps/keymap_broken.json: [LOAD_JSON_SYNTAX] keymaps/keymap_broken.json: key must be a string at line 1 column 3"]
    );
}

#[test]
fn empty_keymaps_dir_is_rejected() {
    let errors = load_startup_data("keymaps", vec![], "decks/deck_default.json", Ok(empty_deck()))
        .err()
        .unwrap();
    assert!(!errors.is_empty());
    assert_eq!(
        errors,
        vec!["[LOAD_SCHEMA_INVALID] no keymap_*.json files found under keymaps"]
    );
}

#[test]
fn every_error_is_reported_in_order() {
    let errors = load_startup_data(
        "km",
        vec![],
        "decks/d.json",
        Err(DeckError::new("LOAD_JSON_SYNTAX", "decks/d.json: failed to read file: gone".into())),
    )
    .err()
    .unwrap();
    assert_eq!(
        errors,
        vec![
            "[LOAD_SCHEMA_INVALID] no keymap_*.json files found under km".to_string(),
            "decks/d.json: [LOAD_JSON_SYNTAX] decks/d.json: failed to read file: gone".to_string(),
        ]
    );
}

#[test]
fn switches_to_keymaps_that_are_not_loaded_are_rejected() {
    let deck = DeckSetlist {
        deck_id: "d".into(),
        description: String::new(),
        grid: Grid { cols: 1, rows: 1 },
        pages: vec![Page {
            id: 1,
            slots: vec![Slot {
                slot_id: "S01".into(),
                label: String::new(),
                icon: None,
                action: Action::KeymapSwitch { id: "ghost".into() },
            }],
        }],
    };
    let errors = load_startup_data(
        "km",
        vec![loaded(
            "km/keymap_ipad01_vol12.json",
            single_keymap(
                "ipad01_vol12",
                vec![
                    Action::KeymapSwitch { id: "phantom".into() },
                    Action::KeymapSwitch { id: "ipad01_vol12".into() },
                ],
            ),
        )],
        "d.json",
        Ok(deck),
    )
    .err()
    .unwrap();
    assert_eq!(
        errors,
        vec![
            "[LOAD_SCHEMA_INVALID] keymap.switch references unknown keymapId 'phantom'".to_string(),
            "[LOAD_SCHEMA_INVALID] keymap.switch references unknown keymapId 'ghost'".to_string(),
        ]
    );
}

#[test]
fn the_allow_list_holds_the_ids_of_every_action_that_reaches_the_system() {
    let deck = DeckSetlist {
        deck_id: "d".into(),
        description: String::new(),
        grid: Grid { cols: 1, rows: 1 },
        pages: vec![Page {
            id: 1,
            slots: vec![Slot {
                slot_id: "S01".into(),
                label: String::new(),
                icon: None,
                action: Action::Text { string: "hi".into() },
            }],
        }],
    };
    let data = load_startup_data(
        "km",
        vec![
            loaded(
                "km/keymap_b.json",
                single_keymap(
                    "b",
                    vec![
                        Action::Chord { keys: vec!["CTRL".into(), "S".into()] },
                        Action::Mo { layer: 0 },
                    ],
                ),
            ),
            loaded("km/keymap_ipad01_vol12.json", minimal("ipad01_vol12")),
        ],
        "d.json",
        Ok(deck),
    )
    .ok()
    .unwrap();
    assert_eq!(
        data.command_registry.allowed_command_ids(),
        vec!["chord:CTRL+S", "key:1", "text:hi"]
    );
    let actions = all_actions(&data.keymaps, &data.deck);
    assert_eq!(actions.len(), 4);
    assert_eq!(actions[3], &Action::Text { string: "hi".into() });
}

#[test]
fn a_later_file_with_the_same_keymap_id_replaces_the_earlier_one() {
    let data = load_startup_data(
        "km",
        vec![
            loaded("km/keymap_a.json", single_keymap("ipad01_vol12", vec![Action::Key { vk: "A".into() }])),
            loaded("km/keymap_b.json", single_keymap("ipad01_vol12", vec![Action::Key { vk: "B".into() }])),
        ],
        "d.json",
        Ok(empty_deck()),
    )
    .ok()
    .unwrap();
    assert_eq!(data.keymaps.len(), 1);
    assert!(data.command_registry.is_allowed("key:B"));
    assert!(!data.command_registry.is_allowed("key:A"));
}

#[test]
fn generates_svg_for_a_url() {
    let svg = svg_for_url("http://192.168.1.5:8770/kb?half=left&token=abc").unwrap();
    assert!(svg.contains("<svg"));
    assert!(svg.contains("#101526"));
    assert!(svg.contains("#ffffff"));
}

#[test]
fn a_url_too_long_for_any_qr_code_is_refused() {
    let url = "x".repeat(8000);
    assert_eq!(svg_for_url(&url).err(), Some(QrFailure::DataTooLong));
    assert_eq!(QrFailure::DataTooLong.to_text(), "data too long");
}

#[test]
fn keymap_files_are_picked_by_name_and_sorted() {
    let names = vec![
        "keymap_writing01.json",
        "layers",
        "keymap_default.json",
        "notes.txt",
        "keymap_.json",
        "xkeymap_c.json",
        "keymap_c.JSON",
        "keymap_ipad01_vol12.json",
    ]
    .into_iter()
    .map(String::from)
    .collect();
    assert_eq!(
        keymap_file_names(names),
        vec![
            "keymap_.json",
            "keymap_default.json",
            "keymap_ipad01_vol12.json",
            "keymap_writing01.json"
        ]
    );
    assert!(keymap_file_names(vec![]).is_empty());
}
