use keydeck::keymap::{
    combine_keymap, Board, BoardKey, KeymapKind, KeymapManifest, LayerFile,
    keymap_json, resolve, validate_keymap, Action, Edge, Half, Halves, KeyDef, Keymap, KeymapError,
    Layer, LayerState, Resolved, LOAD_JSON_SYNTAX, LOAD_LAYER_REF_INVALID, LOAD_SCHEMA_INVALID,
    LOAD_VK_UNKNOWN,
};

fn layer_with(id: u8, defs: &[(&str, &str, Action)]) -> Layer {
    let mut keys = Vec::new();
    for (key_id, label, action) in defs {
        keys.push((
            key_id.to_string(),
            KeyDef {
                label: label.to_string(),
                action: action.clone(),
            },
        ));
    }
    Layer { id, keys }
}

fn half(ids: &[&str]) -> Half {
    Half {
        rows: vec![ids.iter().map(|s| s.to_string()).collect()],
    }
}

fn fixture_keymap() -> Keymap {
    Keymap {
        keymap_id: "fixture".into(),
        description: String::new(),
        kind: KeymapKind::Split,
        board: None,
        halves: Some(Halves {
            left: half(&["K1", "K2", "K4"]),
            right: half(&["K3"]),
        }),
        layers: vec![
            layer_with(
                0,
                &[
                    ("K1", "A", Action::Key { vk: "A".into() }),
                    ("K2", "MO(1)", Action::Mo { layer: 1 }),
                ],
            ),
            layer_with(
                1,
                &[
                    ("K1", "B", Action::Key { vk: "B".into() }),
                    ("K3", "C", Action::Key { vk: "C".into() }),
                    ("K4", "TG(2)", Action::Tg { layer: 2 }),
                ],
            ),
            layer_with(2, &[("K1", "trans", Action::Trans)]),
        ],
    }
}

fn one_layer_keymap(id: u8, action: Action) -> Keymap {
    Keymap {
        keymap_id: "test_map".into(),
        description: String::new(),
        kind: KeymapKind::Split,
        board: None,
        halves: Some(Halves {
            left: half(&["K1"]),
            right: half(&[]),
        }),
        layers: vec![layer_with(id, &[("K1", "x", action)])],
    }
}

#[test]
fn t1_4_layer0_single_key_resolves_to_fire() {
    let keymap = fixture_keymap();
    let mut state = LayerState::new();
    let resolved = resolve(&keymap, &mut state, "K1", Edge::Down);
    assert_eq!(resolved, Resolved::Fire(Action::Key { vk: "A".into() }));
}

#[test]
fn t1_4_chord_resolves_to_fire() {
    let mut keymap = fixture_keymap();
    keymap.layers[0].keys.push((
        "K5".into(),
        KeyDef {
            label: "save".into(),
            action: Action::Chord {
                keys: vec!["CTRL".into(), "S".into()],
            },
        },
    ));
    let mut state = LayerState::new();
    let resolved = resolve(&keymap, &mut state, "K5", Edge::Down);
    assert_eq!(
        resolved,
        Resolved::Fire(Action::Chord {
            keys: vec!["CTRL".into(), "S".into()]
        })
    );
}

#[test]
fn t1_4_mo_down_makes_layer1_win_over_layer0() {
    let keymap = fixture_keymap();
    let mut state = LayerState::new();

    let mo = resolve(&keymap, &mut state, "K2", Edge::Down);
    assert_eq!(mo, Resolved::LayerChanged);
    assert!(state.momentary().contains(&1));

    let resolved = resolve(&keymap, &mut state, "K1", Edge::Down);
    assert_eq!(resolved, Resolved::Fire(Action::Key { vk: "B".into() }));
}

#[test]
fn t1_4_mo_up_returns_to_layer0() {
    let keymap = fixture_keymap();
    let mut state = LayerState::new();

    resolve(&keymap, &mut state, "K2", Edge::Down);
    let up = resolve(&keymap, &mut state, "K2", Edge::Up);
    assert_eq!(up, Resolved::LayerChanged);
    assert!(!state.momentary().contains(&1));

    let resolved = resolve(&keymap, &mut state, "K1", Edge::Down);
    assert_eq!(resolved, Resolved::Fire(Action::Key { vk: "A".into() }));
}

#[test]
fn t1_4_tg_toggles_on_then_off() {
    let keymap = fixture_keymap();
    let mut state = LayerState::new();
    let mut keymap = keymap;
    keymap.layers[0].keys.push((
        "K6".into(),
        KeyDef {
            label: "TG(2)".into(),
            action: Action::Tg { layer: 2 },
        },
    ));
    let _ = &keymap;

    let on = resolve(&keymap, &mut state, "K6", Edge::Down);
    assert_eq!(on, Resolved::LayerChanged);
    assert!(state.toggled().contains(&2));

    let up = resolve(&keymap, &mut state, "K6", Edge::Up);
    assert_eq!(up, Resolved::Ignored, "TG up is a no-op");
    assert!(state.toggled().contains(&2), "TG stays on until the next down");

    let off = resolve(&keymap, &mut state, "K6", Edge::Down);
    assert_eq!(off, Resolved::LayerChanged);
    assert!(!state.toggled().contains(&2));
}

#[test]
fn t1_4_trans_falls_through_to_lower_layer() {
    let keymap = fixture_keymap();
    let mut state = LayerState::new();
    state.momentary.insert(1);
    state.toggled.insert(2);

    let resolved = resolve(&keymap, &mut state, "K1", Edge::Down);
    assert_eq!(resolved, Resolved::Fire(Action::Key { vk: "B".into() }));
}

#[test]
fn t1_4_trans_skips_inactive_layers_down_to_next_active_one() {
    let keymap = fixture_keymap();
    let mut state = LayerState::new();
    state.toggled.insert(2);

    let resolved = resolve(&keymap, &mut state, "K1", Edge::Down);
    assert_eq!(resolved, Resolved::Fire(Action::Key { vk: "A".into() }));
}

#[test]
fn t1_4_highest_active_layer_wins_when_multiple_active() {
    let keymap = fixture_keymap();
    let mut state = LayerState::new();
    state.momentary.insert(1);
    state.toggled.insert(2);
    let mut keymap = keymap;
    keymap
        .layers
        .iter_mut()
        .find(|l| l.id == 2)
        .unwrap()
        .keys
        .push((
            "K3".into(),
            KeyDef {
                label: "layer2-C".into(),
                action: Action::Key { vk: "Z".into() },
            },
        ));

    let resolved = resolve(&keymap, &mut state, "K3", Edge::Down);
    assert_eq!(
        resolved,
        Resolved::Fire(Action::Key { vk: "Z".into() }),
        "layer2 (highest active) must win over layer1's definition of K3"
    );
}

#[test]
fn t1_4_unknown_key_id_is_reported() {
    let keymap = fixture_keymap();
    let mut state = LayerState::new();
    let resolved = resolve(&keymap, &mut state, "NOPE", Edge::Down);
    assert_eq!(resolved, Resolved::UnknownKey);
}

#[test]
fn t1_4_no_resolution_when_key_not_defined_in_any_active_layer() {
    let keymap = fixture_keymap();
    let mut state = LayerState::new();
    let resolved = resolve(&keymap, &mut state, "K3", Edge::Down);
    assert_eq!(resolved, Resolved::NoResolution);
}

#[test]
fn t1_4_unknown_vk_is_rejected_at_load() {
    let keymap = one_layer_keymap(0, Action::Key { vk: "NOT_A_KEY".into() });
    let error = validate_keymap("test", keymap).unwrap_err();
    assert_eq!(error.code, LOAD_VK_UNKNOWN);
    assert!(error.cause.contains("K1"));
    assert!(error.cause.contains("NOT_A_KEY"));
}

#[test]
fn t1_4_mo_referencing_missing_layer_is_rejected_at_load() {
    let keymap = one_layer_keymap(0, Action::Mo { layer: 9 });
    let error = validate_keymap("test", keymap).unwrap_err();
    assert_eq!(error.code, LOAD_LAYER_REF_INVALID);
    assert!(error.cause.contains("K1"));
    assert!(error.cause.contains('9'));
}

#[test]
fn t1_4_json_syntax_error_is_rejected_at_load() {
    let error = keymap_json("test", "{ this is not json").unwrap_err();
    assert_eq!(error.code, LOAD_JSON_SYNTAX);
}

#[test]
fn t1_4_missing_layer0_is_rejected_as_schema_invalid() {
    let mut keymap = one_layer_keymap(1, Action::Key { vk: "A".into() });
    keymap.layers[0].keys.clear();
    let error = validate_keymap("test", keymap).unwrap_err();
    assert_eq!(error.code, LOAD_SCHEMA_INVALID);
}

#[test]
fn t1_4_trans_on_layer0_is_rejected_as_schema_invalid() {
    let keymap = one_layer_keymap(0, Action::Trans);
    let error = validate_keymap("test", keymap).unwrap_err();
    assert_eq!(error.code, LOAD_SCHEMA_INVALID);
}

#[test]
fn t1_4_same_input_sequence_is_deterministic() {
    let keymap = fixture_keymap();

    let run = |keymap: &Keymap| -> Vec<Resolved> {
        let mut state = LayerState::new();
        let sequence = [
            ("K2", Edge::Down),
            ("K1", Edge::Down),
            ("K1", Edge::Up),
            ("K2", Edge::Up),
            ("K1", Edge::Down),
        ];
        sequence
            .iter()
            .map(|(key_id, edge)| resolve(keymap, &mut state, key_id, *edge))
            .collect()
    };

    let first = run(&keymap);
    let second = run(&keymap);
    assert_eq!(first, second);
    assert_eq!(
        first,
        vec![
            Resolved::LayerChanged,
            Resolved::Fire(Action::Key { vk: "B".into() }),
            Resolved::Ignored,
            Resolved::LayerChanged,
            Resolved::Fire(Action::Key { vk: "A".into() }),
        ]
    );
}

#[test]
fn validation_messages_name_the_source_layer_and_key() {
    let keymap = one_layer_keymap(0, Action::Key { vk: "NOT_A_KEY".into() });
    let error = validate_keymap("maps/k.json", keymap).unwrap_err();
    assert_eq!(error.cause, "maps/k.json: layer 0 key 'K1': unknown vk 'NOT_A_KEY'");
    assert_eq!(
        error.to_text(),
        "[LOAD_VK_UNKNOWN] maps/k.json: layer 0 key 'K1': unknown vk 'NOT_A_KEY'"
    );

    let chord = one_layer_keymap(0, Action::Chord { keys: vec!["CTRL".into(), "HYPER".into()] });
    let error = validate_keymap("m", chord).unwrap_err();
    assert_eq!(error.cause, "m: layer 0 key 'K1': unknown vk 'HYPER' in chord");

    let mo = one_layer_keymap(0, Action::Tg { layer: 7 });
    let error = validate_keymap("m", mo).unwrap_err();
    assert_eq!(error.cause, "m: layer 0 key 'K1': references undefined layer 7");

    let mut no0 = one_layer_keymap(3, Action::Key { vk: "A".into() });
    no0.layers[0].keys.clear();
    let error = validate_keymap("m", no0).unwrap_err();
    assert_eq!(error.cause, "m: layer 0 is required but was not found");

    let trans = one_layer_keymap(0, Action::Trans);
    let error = validate_keymap("m", trans).unwrap_err();
    assert_eq!(
        error.cause,
        "m: layer 0 key 'K1' must not be trans (no lower layer to fall through to)"
    );
}

#[test]
fn a_valid_keymap_is_accepted_unchanged() {
    let keymap = fixture_keymap();
    let accepted = validate_keymap("m", keymap.clone()).unwrap();
    assert_eq!(accepted, keymap);
}

#[test]
fn keymap_text_that_is_json_is_read_and_the_syntax_error_is_reported_with_the_source() {
    assert!(keymap_json("m", r#"{ "keymapId": "x" }"#).is_ok());
    let error = keymap_json("maps/broken.json", "{ this is not json").unwrap_err();
    assert_eq!(error.code, LOAD_JSON_SYNTAX);
    assert!(error.cause.starts_with("maps/broken.json: "), "{}", error.cause);
    assert!(error.cause.len() > "maps/broken.json: ".len());
    let error: KeymapError = KeymapError::for_source(LOAD_SCHEMA_INVALID, "m", "missing field");
    assert_eq!(error.to_text(), "[LOAD_SCHEMA_INVALID] m: missing field");
}

#[test]
fn momentary_press_then_release_restores_the_layer_state() {
    let keymap = fixture_keymap();
    let mut state = LayerState::new();
    state.toggled.insert(2);
    let before = state.clone();
    resolve(&keymap, &mut state, "K2", Edge::Down);
    resolve(&keymap, &mut state, "K2", Edge::Up);
    assert_eq!(state, before);
}

#[test]
fn a_release_of_a_firing_key_fires_nothing() {
    let keymap = fixture_keymap();
    let mut state = LayerState::new();
    assert_eq!(resolve(&keymap, &mut state, "K1", Edge::Up), Resolved::Ignored);
    assert_eq!(state, LayerState::new());
}

#[test]
fn reset_clears_both_layer_sets() {
    let mut state = LayerState::new();
    state.momentary.insert(1);
    state.toggled.insert(4);
    assert!(state.is_active(4));
    state.reset();
    assert!(state.momentary().is_empty());
    assert!(state.toggled().is_empty());
    assert!(state.is_active(0));
    assert!(!state.is_active(4));
}

#[test]
fn keymap_layer_lookup_finds_the_first_layer_with_the_number() {
    let keymap = fixture_keymap();
    assert_eq!(keymap.layer(1).unwrap().keys.len(), 3);
    assert!(keymap.layer(5).is_none());
}

fn layer_file(layer: u8, defs: &[(&str, &str, Action)]) -> LayerFile {
    let l = layer_with(layer, defs);
    LayerFile { layer: l.id, keys: l.keys }
}

fn split_manifest(files: &[&str]) -> KeymapManifest {
    KeymapManifest {
        keymap_id: "writing01".into(),
        description: "work".into(),
        kind: KeymapKind::Split,
        halves: Some(Halves {
            left: half(&["L1", "L2"]),
            right: half(&["R1"]),
        }),
        board: None,
        layer_files: files.iter().map(|f| f.to_string()).collect(),
    }
}

fn grid_manifest() -> KeymapManifest {
    KeymapManifest {
        keymap_id: "ipad01_vol12".into(),
        description: String::new(),
        kind: KeymapKind::Single,
        halves: None,
        board: Some(Board {
            cols: 13,
            keys: vec![
                BoardKey { id: "K101".into(), row: 1, col: 1, col_span: None, row_span: None },
                BoardKey { id: "K102".into(), row: 1, col: 2, col_span: Some(2), row_span: Some(1) },
            ],
        }),
        layer_files: vec!["layers/ipad01_vol12_layer0.json".into()],
    }
}

#[test]
fn a_keymap_file_and_its_layer_files_combine_into_one_keymap() {
    let keymap = combine_keymap(
        "keymaps/keymap_writing01.json",
        split_manifest(&["layers/writing01_layer0.json", "layers/writing01_layer1.json"]),
        vec![
            Ok(layer_file(0, &[("L1", "A", Action::Key { vk: "A".into() }), ("L2", "MO(1)", Action::Mo { layer: 1 })])),
            Ok(layer_file(1, &[("L1", "B", Action::Key { vk: "B".into() })])),
        ],
    )
    .unwrap();
    assert_eq!(keymap.keymap_id, "writing01");
    assert_eq!(keymap.description, "work");
    assert_eq!(keymap.kind, KeymapKind::Split);
    assert_eq!(keymap.halves.as_ref().unwrap().right.rows, vec![vec!["R1".to_string()]]);
    assert_eq!(keymap.layers.len(), 2);
    assert_eq!(keymap.layers[1].id, 1);
    let mut state = LayerState::new();
    resolve(&keymap, &mut state, "L2", Edge::Down);
    assert_eq!(
        resolve(&keymap, &mut state, "L1", Edge::Down),
        Resolved::Fire(Action::Key { vk: "B".into() })
    );
}

#[test]
fn a_missing_layer_file_rejects_the_keymap_with_its_read_error() {
    let missing = KeymapError::for_source(
        LOAD_JSON_SYNTAX,
        "keymaps/layers/writing01_layer1.json",
        "failed to read file: No such file or directory (os error 2)",
    );
    let error = combine_keymap(
        "keymaps/keymap_writing01.json",
        split_manifest(&["layers/writing01_layer0.json", "layers/writing01_layer1.json"]),
        vec![Ok(layer_file(0, &[("L1", "A", Action::Key { vk: "A".into() })])), Err(missing.clone())],
    )
    .unwrap_err();
    assert_eq!(error, missing);
    assert_eq!(error.code, LOAD_JSON_SYNTAX);
}

#[test]
fn a_mo_to_a_layer_in_another_file_is_checked_after_combining() {
    let layer0 = || layer_file(0, &[("L2", "MO(1)", Action::Mo { layer: 1 })]);
    assert!(combine_keymap(
        "m",
        split_manifest(&["a", "b"]),
        vec![Ok(layer0()), Ok(layer_file(1, &[("L1", "B", Action::Key { vk: "B".into() })]))],
    )
    .is_ok());
    let error = combine_keymap("m", split_manifest(&["a"]), vec![Ok(layer0())]).unwrap_err();
    assert_eq!(error.code, LOAD_LAYER_REF_INVALID);
    assert_eq!(error.cause, "m: layer 0 key 'L2': references undefined layer 1");
}

#[test]
fn a_grid_board_is_kept() {
    let keymap = combine_keymap(
        "keymaps/keymap_ipad01_vol12.json",
        grid_manifest(),
        vec![Ok(layer_file(0, &[("K101", "1", Action::Key { vk: "1".into() })]))],
    )
    .unwrap();
    assert_eq!(keymap.kind, KeymapKind::Single);
    assert!(keymap.halves.is_none());
    let board = keymap.board.unwrap();
    assert_eq!(board.cols, 13);
    assert_eq!(board.keys[1].col_span, Some(2));
}

#[test]
fn a_layout_that_does_not_fit_the_kind_is_schema_invalid() {
    let mut split = split_manifest(&["a"]);
    split.halves = None;
    let error = combine_keymap(
        "m",
        split,
        vec![Err(KeymapError::for_source(LOAD_JSON_SYNTAX, "a", "failed to read file: gone"))],
    )
    .unwrap_err();
    assert_eq!(error.code, LOAD_SCHEMA_INVALID);
    assert_eq!(error.cause, "m: kind 'split' requires halves");

    let mut single = grid_manifest();
    single.board = None;
    let error = combine_keymap(
        "m",
        single,
        vec![Ok(layer_file(0, &[("K101", "1", Action::Key { vk: "1".into() })]))],
    )
    .unwrap_err();
    assert_eq!(error.code, LOAD_SCHEMA_INVALID);
    assert_eq!(error.cause, "m: kind 'single' requires board");
}

#[test]
fn the_first_failed_layer_file_is_the_one_reported() {
    let first = KeymapError::for_source(LOAD_SCHEMA_INVALID, "b", "missing field `layer`");
    let second = KeymapError::for_source(LOAD_JSON_SYNTAX, "c", "EOF while parsing an object");
    let error = combine_keymap(
        "m",
        split_manifest(&["a", "b", "c"]),
        vec![Ok(layer_file(0, &[])), Err(first.clone()), Err(second)],
    )
    .unwrap_err();
    assert_eq!(error, first);
}
