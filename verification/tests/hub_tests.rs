use keydeck::adapter::AdapterError;
use keydeck::deck::{DeckSetlist, Grid, Page, Slot};
use keydeck::hub::{
    adapter_reply_effect, canonical_command_id, connection_url, AccessToken, AdapterReply,
    HubEffect, HubState, SurfaceKind, IPAD_KEYMAP_ID, PORT,
};
use keydeck::hub_core::CommandRegistry;
use keydeck::keymap::{KeymapKind, Action, Edge, Half, Halves, KeyDef, Keymap, Layer, LayerState};
use keydeck::protocol::{
    parse_error_frame, ClientMessage, EdgeWire, ErrorContext, LayerStateWire,
    ADAPTER_SENDINPUT_FAIL, DECK_UNKNOWN_SLOT, INTERNAL, KEYMAP_SWITCH_UNKNOWN, KEY_RESOLVE_NONE,
    KEY_UNKNOWN_ID, WS_PARSE,
};
use keydeck::strmap::StrMap;

fn layer(id: u8, defs: Vec<(&str, Action)>) -> Layer {
    Layer {
        id,
        keys: defs
            .into_iter()
            .map(|(k, a)| {
                (
                    k.to_string(),
                    KeyDef {
                        label: k.to_string(),
                        action: a,
                    },
                )
            })
            .collect(),
    }
}

fn keymap(id: &str, layers: Vec<Layer>) -> Keymap {
    Keymap {
        keymap_id: id.to_string(),
        description: String::new(),
        kind: KeymapKind::Split,
        board: None,
        halves: Some(Halves {
            left: Half { rows: vec![] },
            right: Half { rows: vec![] },
        }),
        layers,
    }
}

fn token() -> AccessToken {
    AccessToken::from_bytes([0xab; 16])
}

fn hub() -> HubState {
    let mut keymaps = StrMap::new();
    keymaps.insert(
        "writing01".to_string(),
        keymap(
            "writing01",
            vec![
                layer(
                    0,
                    vec![
                        ("L1", Action::Key { vk: "A".into() }),
                        ("L2", Action::Mo { layer: 1 }),
                        ("L3", Action::KeymapSwitch { id: "default".into() }),
                        ("L4", Action::KeymapSwitch { id: "nowhere".into() }),
                        ("L5", Action::Key { vk: "Q".into() }),
                    ],
                ),
                layer(1, vec![("L1", Action::Chord { keys: vec!["CTRL".into(), "S".into()] })]),
            ],
        ),
    );
    keymaps.insert(
        "default".to_string(),
        keymap("default", vec![layer(0, vec![("D1", Action::KeymapReset)])]),
    );
    keymaps.insert(
        IPAD_KEYMAP_ID.to_string(),
        keymap(
            IPAD_KEYMAP_ID,
            vec![
                layer(
                    0,
                    vec![
                        ("K101", Action::Mo { layer: 1 }),
                        ("K102", Action::Text { string: "。".into() }),
                    ],
                ),
                layer(1, vec![("K102", Action::Text { string: "、".into() })]),
            ],
        ),
    );
    let deck = DeckSetlist {
        deck_id: "default".to_string(),
        description: String::new(),
        grid: Grid { cols: 2, rows: 1 },
        pages: vec![Page {
            id: 1,
            slots: vec![
                Slot {
                    slot_id: "S01".into(),
                    label: "save".into(),
                    icon: None,
                    action: Action::Chord { keys: vec!["CTRL".into(), "S".into()] },
                },
                Slot {
                    slot_id: "S02".into(),
                    label: "blank".into(),
                    icon: None,
                    action: Action::NoOp,
                },
                Slot {
                    slot_id: "S03".into(),
                    label: "ipad".into(),
                    icon: None,
                    action: Action::KeymapSwitch { id: IPAD_KEYMAP_ID.into() },
                },
            ],
        }],
    };
    let registry = CommandRegistry::new(vec![
        "key:A".to_string(),
        "chord:CTRL+S".to_string(),
        "text:。".to_string(),
    ]);
    HubState::new(
        keymaps,
        "writing01".to_string(),
        deck,
        registry,
        token(),
        "192.168.1.5".to_string(),
    )
}

fn error_of(effect: HubEffect) -> (String, String, ErrorContext) {
    match effect {
        HubEffect::Error(frame) => (frame.code.to_string(), frame.cause, frame.context),
        other => panic!("expected an error, got {other:?}"),
    }
}

#[test]
fn the_token_is_32_lower_case_hex_digits_of_its_bytes() {
    let t = AccessToken::from_bytes([0, 1, 2, 3, 4, 5, 6, 7, 8, 9, 10, 11, 12, 13, 14, 255]);
    assert_eq!(t.value(), "000102030405060708090a0b0c0d0eff");
    let g = AccessToken::generate();
    assert_eq!(g.value().len(), 32);
    assert!(g.value().chars().all(|c| c.is_ascii_hexdigit() && !c.is_ascii_uppercase()));
}

#[test]
fn only_the_exact_token_is_valid() {
    let t = token();
    let text = t.value().to_string();
    assert!(t.is_valid(&text));
    assert!(!t.is_valid(&text[..31]));
    assert!(!t.is_valid(""));
    let mut other = text.clone();
    other.replace_range(31.., "c");
    assert!(!t.is_valid(&other));
    let h = hub();
    assert!(h.token_ok(Some(&text)));
    assert!(!h.token_ok(Some("nope")));
    assert!(!h.token_ok(None));
}

#[test]
fn command_ids_of_actions_that_reach_the_system() {
    assert_eq!(canonical_command_id(&Action::Key { vk: "A".into() }).as_deref(), Some("key:A"));
    assert_eq!(
        canonical_command_id(&Action::Chord {
            keys: vec!["CTRL".into(), "SHIFT".into(), "S".into()]
        })
        .as_deref(),
        Some("chord:CTRL+SHIFT+S")
    );
    assert_eq!(
        canonical_command_id(&Action::Text { string: "。".into() }).as_deref(),
        Some("text:。")
    );
    assert_eq!(canonical_command_id(&Action::Chord { keys: vec![] }).as_deref(), Some("chord:"));
    assert_eq!(canonical_command_id(&Action::Mo { layer: 1 }), None);
    assert_eq!(canonical_command_id(&Action::KeymapReset), None);
    assert_eq!(canonical_command_id(&Action::KeymapSwitch { id: "x".into() }), None);
}

#[test]
fn connection_urls_carry_the_path_and_the_token() {
    let t = token();
    let v = t.value().to_string();
    assert_eq!(
        connection_url("192.168.1.5", &t, "kb-left").unwrap(),
        format!("http://192.168.1.5:8770/kb?half=left&token={v}")
    );
    assert_eq!(
        connection_url("192.168.1.5", &t, "kb-right").unwrap(),
        format!("http://192.168.1.5:8770/kb?half=right&token={v}")
    );
    assert_eq!(
        connection_url("10.0.0.2", &t, "deck").unwrap(),
        format!("http://10.0.0.2:8770/deck?token={v}")
    );
    assert_eq!(
        hub().connection_url("ipad").unwrap(),
        format!("http://192.168.1.5:8770/ipad?token={v}")
    );
    assert_eq!(connection_url("10.0.0.2", &t, "kb"), None);
    assert_eq!(PORT, 8770);
}

#[test]
fn the_surface_comes_from_the_query() {
    assert_eq!(SurfaceKind::from_query(Some("ipad")), SurfaceKind::Ipad);
    assert_eq!(SurfaceKind::from_query(Some("split")), SurfaceKind::Split);
    assert_eq!(SurfaceKind::from_query(None), SurfaceKind::Split);
}

#[test]
fn a_key_press_fires_an_allowed_action_to_the_adapter() {
    let mut h = hub();
    let effect = h.handle_key_press(SurfaceKind::Split, "L1", Edge::Down);
    assert_eq!(
        effect,
        HubEffect::Deliver {
            action: Action::Key { vk: "A".into() },
            command_id: "key:A".into()
        }
    );
    assert_eq!(h.handle_key_press(SurfaceKind::Split, "L1", Edge::Up), HubEffect::Nothing);
}

#[test]
fn an_action_missing_from_the_allow_list_is_refused() {
    let mut h = hub();
    let (code, cause, context) = error_of(h.handle_key_press(SurfaceKind::Split, "L5", Edge::Down));
    assert_eq!(code, INTERNAL);
    assert_eq!(cause, "action resolved but is absent from the startup allow-list: key:Q");
    assert_eq!(context, ErrorContext::CommandId("key:Q".into()));
}

#[test]
fn unknown_and_unresolved_keys_are_answered_with_errors() {
    let mut h = hub();
    let (code, cause, context) = error_of(h.handle_key_press(SurfaceKind::Split, "NOPE", Edge::Down));
    assert_eq!(code, KEY_UNKNOWN_ID);
    assert_eq!(cause, "unknown keyId 'NOPE'");
    assert_eq!(context, ErrorContext::KeyId("NOPE".into()));
    let (code, cause, _) = error_of(h.handle_key_press(SurfaceKind::Ipad, "L1", Edge::Down));
    assert_eq!(code, KEY_UNKNOWN_ID);
    assert_eq!(cause, "unknown keyId 'L1'");
    let mut h = hub();
    h.handle_key_press(SurfaceKind::Split, "L3", Edge::Down);
    let (code, cause, _) = error_of(h.handle_key_press(SurfaceKind::Split, "L1", Edge::Down));
    assert_eq!(code, KEY_UNKNOWN_ID);
    assert_eq!(cause, "unknown keyId 'L1'");
    let mut h = hub();
    let km = keymap(
        "writing01",
        vec![
            layer(0, vec![("X", Action::Key { vk: "A".into() })]),
            layer(1, vec![("Y", Action::Key { vk: "A".into() })]),
        ],
    );
    h.keymaps.insert("writing01".into(), km);
    let (code, cause, _) = error_of(h.handle_key_press(SurfaceKind::Split, "Y", Edge::Down));
    assert_eq!(code, KEY_RESOLVE_NONE);
    assert_eq!(cause, "no action resolves for keyId 'Y' in the current layer stack");
}

#[test]
fn layer_changes_stay_on_their_surface() {
    let mut h = hub();
    let effect = h.handle_key_press(SurfaceKind::Ipad, "K101", Edge::Down);
    assert_eq!(effect, HubEffect::BroadcastLayerState(SurfaceKind::Ipad));
    assert!(h.ipad_layer_state.momentary().contains(&1));
    assert!(h.layer_state.momentary().is_empty());
    let wire = h.layer_state_wire(SurfaceKind::Ipad);
    assert_eq!(wire.momentary, vec![1]);
    assert!(wire.toggled.is_empty());
    assert_eq!(h.layer_state_wire(SurfaceKind::Split).momentary, Vec::<u8>::new());
    assert_eq!(
        h.handle_key_press(SurfaceKind::Ipad, "K102", Edge::Down),
        HubEffect::Error(keydeck::protocol::ErrorFrame {
            code: INTERNAL,
            cause: "action resolved but is absent from the startup allow-list: text:、".into(),
            context: ErrorContext::CommandId("text:、".into()),
        })
    );
    let effect = h.handle_key_press(SurfaceKind::Split, "L2", Edge::Down);
    assert_eq!(effect, HubEffect::BroadcastLayerState(SurfaceKind::Split));
    assert_eq!(
        h.handle_key_press(SurfaceKind::Split, "L1", Edge::Down),
        HubEffect::Deliver {
            action: Action::Chord { keys: vec!["CTRL".into(), "S".into()] },
            command_id: "chord:CTRL+S".into()
        }
    );
    assert_eq!(h.layer_state_wire(SurfaceKind::Ipad).momentary, vec![1]);
}

#[test]
fn a_keymap_switch_resets_the_split_layers_and_reconfigures_the_split_surfaces() {
    let mut h = hub();
    h.handle_key_press(SurfaceKind::Split, "L2", Edge::Down);
    h.handle_key_press(SurfaceKind::Ipad, "K101", Edge::Down);
    let effect = h.handle_key_press(SurfaceKind::Split, "L3", Edge::Down);
    assert_eq!(effect, HubEffect::BroadcastSurfaceConfig(SurfaceKind::Split));
    assert_eq!(h.active_keymap_id, "default");
    assert!(h.layer_state.momentary().is_empty());
    assert!(h.ipad_layer_state.momentary().contains(&1));
    let config = h.surface_config(SurfaceKind::Split);
    assert_eq!(config.active_keymap_id, "default");
    assert_eq!(config.keymap.keymap_id, "default");
    let config = h.surface_config(SurfaceKind::Ipad);
    assert_eq!(config.active_keymap_id, IPAD_KEYMAP_ID);
    assert_eq!(config.layer.momentary, vec![1]);
    assert_eq!(config.deck.deck_id, "default");
}

#[test]
fn a_reset_switches_to_the_default_keymap() {
    let mut h = hub();
    assert_eq!(
        h.fire_action(Action::KeymapReset),
        HubEffect::BroadcastSurfaceConfig(SurfaceKind::Split)
    );
    assert_eq!(h.active_keymap_id, "default");
    assert_eq!(
        h.handle_key_press(SurfaceKind::Split, "D1", Edge::Down),
        HubEffect::BroadcastSurfaceConfig(SurfaceKind::Split)
    );
}

#[test]
fn a_switch_to_an_unknown_keymap_changes_nothing() {
    let mut h = hub();
    h.handle_key_press(SurfaceKind::Split, "L2", Edge::Down);
    let (code, cause, context) = error_of(h.handle_key_press(SurfaceKind::Split, "L4", Edge::Down));
    assert_eq!(code, KEYMAP_SWITCH_UNKNOWN);
    assert_eq!(cause, "unknown keymapId 'nowhere'");
    assert_eq!(context, ErrorContext::KeymapId("nowhere".into()));
    assert_eq!(h.active_keymap_id, "writing01");
    assert!(h.layer_state.momentary().contains(&1));
}

#[test]
fn deck_presses_fire_their_slot_or_report_an_unknown_slot() {
    let mut h = hub();
    assert_eq!(
        h.handle_deck_press("S01"),
        HubEffect::Deliver {
            action: Action::Chord { keys: vec!["CTRL".into(), "S".into()] },
            command_id: "chord:CTRL+S".into()
        }
    );
    assert_eq!(h.handle_deck_press("S02"), HubEffect::Nothing);
    let (code, cause, context) = error_of(h.handle_deck_press("S99"));
    assert_eq!(code, DECK_UNKNOWN_SLOT);
    assert_eq!(cause, "unknown slotId 'S99'");
    assert_eq!(context, ErrorContext::SlotId("S99".into()));
    assert_eq!(
        h.handle_deck_press("S03"),
        HubEffect::BroadcastSurfaceConfig(SurfaceKind::Split)
    );
    assert_eq!(h.active_keymap_id, IPAD_KEYMAP_ID);
}

#[test]
fn client_messages_are_dispatched_by_kind() {
    let mut h = hub();
    assert_eq!(
        h.handle_message(
            SurfaceKind::Split,
            ClientMessage::KeyPress { key_id: "L1".into(), edge: EdgeWire::Down }
        ),
        HubEffect::Deliver { action: Action::Key { vk: "A".into() }, command_id: "key:A".into() }
    );
    assert_eq!(
        h.handle_message(SurfaceKind::Split, ClientMessage::DeckPress { slot_id: "S02".into() }),
        HubEffect::Nothing
    );
    let frame = parse_error_frame("expected value at line 1 column 1", "garbage");
    assert_eq!(frame.code, WS_PARSE);
    assert_eq!(frame.cause, "failed to parse client message: expected value at line 1 column 1");
    assert_eq!(frame.context, ErrorContext::Raw("garbage".into()));
    assert_eq!(Edge::from(EdgeWire::Up), Edge::Up);
}

#[test]
fn adapter_replies_become_error_frames_for_the_sender() {
    assert_eq!(adapter_reply_effect("key:A", &AdapterReply::Finished(Ok(()))), HubEffect::Nothing);
    let (code, cause, context) = error_of(adapter_reply_effect(
        "key:A",
        &AdapterReply::Finished(Err(AdapterError::SendFailed { cause: "A: denied".into() })),
    ));
    assert_eq!(code, ADAPTER_SENDINPUT_FAIL);
    assert_eq!(cause, "SendFailed: A: denied");
    assert_eq!(context, ErrorContext::CommandId("key:A".into()));
    let (code, cause, _) = error_of(adapter_reply_effect("key:A", &AdapterReply::ChannelClosed));
    assert_eq!(code, INTERNAL);
    assert_eq!(cause, "adapter worker channel is closed");
    let (code, cause, _) = error_of(adapter_reply_effect("key:A", &AdapterReply::NoReply));
    assert_eq!(code, INTERNAL);
    assert_eq!(cause, "adapter worker did not reply");
}

#[test]
fn client_ids_are_handed_out_in_turn() {
    let mut h = hub();
    assert_eq!(h.take_client_id(), 0);
    assert_eq!(h.take_client_id(), 1);
    assert_eq!(h.next_client_id, 2);
}

#[test]
fn the_wire_layer_state_lists_layers_in_ascending_order() {
    let mut state = LayerState::new();
    state.momentary.insert(9);
    state.momentary.insert(2);
    state.toggled.insert(255);
    state.toggled.insert(0);
    let wire = LayerStateWire::from_layer_state(&state);
    assert_eq!(wire.momentary, vec![2, 9]);
    assert_eq!(wire.toggled, vec![0, 255]);
}
