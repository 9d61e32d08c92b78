//! The hub: the access token, the allow-list ids of actions, connection URLs, the
//! shared state of the surfaces and what each client message leads to.
use vstd::prelude::*;
use rand::RngExt;
use subtle::ConstantTimeEq;
use crate::text::{append_decimal, append_hex2_lower, chars_of, decimal, hex2_lower, spells};
use crate::keymap::{
    resolve, resolve_spec, Action, ActionView, Edge, Keymap, LayerSets, LayerState, Resolved,
    ResolvedView, strings_view,
};
use crate::adapter::{AdapterError, AdapterErrorView};
use crate::deck::{deck_fireable, deck_slots, is_first_slot, DeckSetlist};
use crate::hub_core::CommandRegistry;
use crate::protocol::{
    edge_of, ClientMessage, ErrorContext, ErrorContextView, ErrorFrame, ErrorFrameView,
    LayerStateWire, SurfaceConfig, ADAPTER_SENDINPUT_FAIL, DECK_UNKNOWN_SLOT, INTERNAL,
    KEYMAP_SWITCH_UNKNOWN, KEY_RESOLVE_NONE, KEY_UNKNOWN_ID,
};
use crate::strmap::StrMap;

verus! {

broadcast use vstd::utf8::encode_utf8_decode_utf8;

/// The port the hub listens on.
pub const PORT: u16 = 8770;

/// The keymap that the iPad surface always uses.
pub const IPAD_KEYMAP_ID: &'static str = "ipad01_vol12";

// ---------------------------------------------------------------------------
// Access token
// ---------------------------------------------------------------------------

/// The token that every client must present, made once per hub process.
#[derive(Debug, Clone)]
pub struct AccessToken {
    value: String,
}

/// The lower-case hexadecimal notation of `bytes`, two digits per byte.
pub open spec fn hex_lower(bytes: Seq<u8>) -> Seq<char>
    decreases bytes.len(),
{
    if bytes.len() == 0 {
        seq![]
    } else {
        hex_lower(bytes.drop_last()) + hex2_lower(bytes.last())
    }
}

/// Sixteen bytes from the thread's random generator.
#[verifier::external_body]
fn random_bytes() -> (r: [u8; 16]) {
    let mut rng = rand::rng();
    rng.random()
}

/// Compares `a` and `b` with `subtle`'s constant-time equality of byte slices, which
/// answers whether they are equal.
#[verifier::external_body]
fn bytes_equal_constant_time(a: &[u8], b: &[u8]) -> (r: bool)
    ensures
        r == (a@ == b@),
{
    a.ct_eq(b).into()
}

impl AccessToken {
    /// The token's text.
    pub closed spec fn text(&self) -> Seq<char> {
        self.value@
    }

    /// The token written as the hexadecimal notation of `bytes`.
    pub fn from_bytes(bytes: [u8; 16]) -> (r: Self)
        ensures
            r.text() == hex_lower(bytes@),
    {
        let mut value = String::new();
        for i in 0..16
            invariant
                value@ == hex_lower(bytes@.take(i as int)),
        {
            proof {
                assert(bytes@.take(i + 1).drop_last() =~= bytes@.take(i as int));
            }
            append_hex2_lower(&mut value, bytes[i]);
        }
        assert(bytes@.take(16) =~= bytes@);
        AccessToken { value }
    }

    /// A fresh token: the hexadecimal notation of sixteen random bytes.
    pub fn generate() -> (r: Self)
        ensures
            exists|bytes: Seq<u8>| bytes.len() == 16 && r.text() == hex_lower(bytes),
    {
        let bytes = random_bytes();
        Self::from_bytes(bytes)
    }

    /// The token's text.
    pub fn value(&self) -> (r: &str)
        ensures
            r@ == self.text(),
    {
        self.value.as_str()
    }

    /// Whether `candidate` is this token, compared in constant time once the lengths agree.
    pub fn is_valid(&self, candidate: &str) -> (r: bool)
        ensures
            r == (candidate@ == self.text()),
    {
        if candidate.len() != self.value.as_str().len() {
            return false;
        }
        let r = bytes_equal_constant_time(self.value.as_str().as_bytes(), candidate.as_bytes());
        proof {
            if r {
                assert(vstd::utf8::decode_utf8(vstd::utf8::encode_utf8(candidate@)) == candidate@);
                assert(vstd::utf8::decode_utf8(vstd::utf8::encode_utf8(self.value@)) == self.value@);
            }
        }
        r
    }
}

// ---------------------------------------------------------------------------
// Allow-list ids
// ---------------------------------------------------------------------------

/// The strings of `list` with `sep` between each two.
pub open spec fn joined(list: Seq<Seq<char>>, sep: Seq<char>) -> Seq<char>
    decreases list.len(),
{
    if list.len() == 0 {
        seq![]
    } else if list.len() == 1 {
        list[0]
    } else {
        joined(list.drop_last(), sep) + sep + list.last()
    }
}

/// The allow-list id of an action that reaches the operating system: `key:` and the
/// key name, `chord:` and the key names joined by `+`, `text:` and the text. Other
/// actions only change the hub's own state and have none.
pub open spec fn command_id_of(a: ActionView) -> Option<Seq<char>> {
    match a {
        ActionView::Key { vk } => Some("key:"@ + vk),
        ActionView::Chord { keys } => Some("chord:"@ + joined(keys, "+"@)),
        ActionView::Text { string } => Some("text:"@ + string),
        _ => None,
    }
}

/// The allow-list id of `action` (see `command_id_of`).
pub fn canonical_command_id(action: &Action) -> (r: Option<String>)
    ensures
        match command_id_of(action@) {
            Some(id) => r matches Some(s) && s@ == id,
            None => r is None,
        },
{
    match action {
        Action::Key { vk } => {
            let mut s = "key:".to_owned();
            s.append(vk.as_str());
            Some(s)
        },
        Action::Chord { keys } => {
            let mut s = "chord:".to_owned();
            let ghost list = strings_view(keys@);
            let n = keys.len();
            for i in 0..n
                invariant
                    n == keys@.len(),
                    list == strings_view(keys@),
                    s@ == "chord:"@ + joined(list.take(i as int), "+"@),
            {
                proof {
                    assert(list.take(i + 1).drop_last() =~= list.take(i as int));
                    if i == 0 {
                        assert(list.take(1) =~= seq![list[0]]);
                    }
                }
                if i > 0 {
                    s.append("+");
                }
                s.append(keys[i].as_str());
                proof {
                    assert(list.take(i + 1).last() == keys@[i as int]@);
                    if i == 0 {
                        assert(joined(list.take(0), "+"@) =~= Seq::<char>::empty());
                    }
                }
            }
            assert(list.take(n as int) =~= list);
            Some(s)
        },
        Action::Text { string } => {
            let mut s = "text:".to_owned();
            s.append(string.as_str());
            Some(s)
        },
        _ => None,
    }
}

// ---------------------------------------------------------------------------
// Surfaces and connection URLs
// ---------------------------------------------------------------------------

/// Which surface a client is: the split keyboards and the deck share one keymap and
/// layer state; the iPad keyboard has its own.
#[derive(Debug, Clone, Copy, PartialEq, Eq)]
pub enum SurfaceKind {
    Split,
    Ipad,
}

impl SurfaceKind {
    /// The surface named in a connection query: `ipad` for the iPad keyboard, anything
    /// else or nothing for the split surfaces.
    pub fn from_query(surface: Option<&str>) -> (r: SurfaceKind)
        ensures
            r == (if surface matches Some(s) && s@ == seq!['i', 'p', 'a', 'd'] {
                SurfaceKind::Ipad
            } else {
                SurfaceKind::Split
            }),
    {
        match surface {
            Some(s) => {
                let w = chars_of(s);
                let ipad: [char; 4] = ['i', 'p', 'a', 'd'];
                if spells(&w, &ipad) {
                    SurfaceKind::Ipad
                } else {
                    SurfaceKind::Split
                }
            },
            None => SurfaceKind::Split,
        }
    }
}

/// The path of the page for a connection target: the left or right split keyboard,
/// the deck or the iPad keyboard.
pub open spec fn target_path(target: Seq<char>) -> Option<Seq<char>> {
    if target == "kb-left"@ {
        Some("/kb?half=left"@)
    } else if target == "kb-right"@ {
        Some("/kb?half=right"@)
    } else if target == "deck"@ {
        Some("/deck"@)
    } else if target == "ipad"@ {
        Some("/ipad"@)
    } else {
        None
    }
}

/// The URL that opens the page for `target` with the token: the hub's LAN address,
/// the port, the path and the token as a query parameter.
pub open spec fn connection_url_of(lan_ip: Seq<char>, token: Seq<char>, target: Seq<char>) -> Option<Seq<char>> {
    match target_path(target) {
        Some(path) => Some(
            "http://"@ + lan_ip + ":"@ + decimal(PORT as nat) + path + (if path.contains('?') {
                "&"@
            } else {
                "?"@
            }) + "token="@ + token,
        ),
        None => None,
    }
}

fn target_path_exec(target: &str) -> (r: Option<&'static str>)
    ensures
        match target_path(target@) {
            Some(p) => r matches Some(s) && s@ == p,
            None => r is None,
        },
{
    let w = chars_of(target);
    let kb_left: [char; 7] = ['k', 'b', '-', 'l', 'e', 'f', 't'];
    let kb_right: [char; 8] = ['k', 'b', '-', 'r', 'i', 'g', 'h', 't'];
    let deck: [char; 4] = ['d', 'e', 'c', 'k'];
    let ipad: [char; 4] = ['i', 'p', 'a', 'd'];
    proof {
        reveal_strlit("kb-left");
        reveal_strlit("kb-right");
        reveal_strlit("deck");
        reveal_strlit("ipad");
        assert(kb_left@ =~= "kb-left"@);
        assert(kb_right@ =~= "kb-right"@);
        assert(deck@ =~= "deck"@);
        assert(ipad@ =~= "ipad"@);
    }
    if spells(&w, &kb_left) {
        Some("/kb?half=left")
    } else if spells(&w, &kb_right) {
        Some("/kb?half=right")
    } else if spells(&w, &deck) {
        Some("/deck")
    } else if spells(&w, &ipad) {
        Some("/ipad")
    } else {
        None
    }
}

/// The URL that opens the page for `target` (see `connection_url_of`).
pub fn connection_url(lan_ip: &str, token: &AccessToken, target: &str) -> (r: Option<String>)
    ensures
        match connection_url_of(lan_ip@, token.text(), target@) {
            Some(u) => r matches Some(s) && s@ == u,
            None => r is None,
        },
{
    let path = match target_path_exec(target) {
        Some(p) => p,
        None => return None,
    };
    let has_query = {
        proof {
            reveal_strlit("/kb?half=left");
            reveal_strlit("/kb?half=right");
            reveal_strlit("/deck");
            reveal_strlit("/ipad");
        }
        let w = chars_of(path);
        let mut found = false;
        for i in 0..w.len()
            invariant
                found == exists|j: int| 0 <= j < i && w@[j] == '?',
        {
            if w[i] == '?' {
                found = true;
            }
        }
        assert(found == path@.contains('?'));
        found
    };
    let mut url = "http://".to_owned();
    url.append(lan_ip);
    url.append(":");
    append_decimal(&mut url, PORT as u64);
    url.append(path);
    if has_query {
        url.append("&");
    } else {
        url.append("?");
    }
    url.append("token=");
    url.append(token.value());
    Some(url)
}

// ---------------------------------------------------------------------------
// The hub's state
// ---------------------------------------------------------------------------

/// The actions that fire: those that reach the operating system (key, chord, text)
/// and those that switch keymaps.
pub open spec fn fireable(a: ActionView) -> bool {
    match a {
        ActionView::Key { .. } | ActionView::Chord { .. } | ActionView::Text { .. } => true,
        ActionView::KeymapSwitch { .. } | ActionView::KeymapReset => true,
        _ => false,
    }
}

/// Everything the hub keeps: the loaded keymaps, the keymap of the split surfaces and
/// their layer state, the iPad surface's layer state, the deck, the allow-list of the
/// actions that may reach the operating system, the next client id, the token and
/// the LAN address that the connection URLs name.
pub struct HubState {
    pub keymaps: StrMap<Keymap>,
    pub active_keymap_id: String,
    pub layer_state: LayerState,
    pub ipad_layer_state: LayerState,
    pub deck: DeckSetlist,
    pub command_registry: CommandRegistry,
    pub next_client_id: u64,
    pub token: AccessToken,
    pub lan_ip: String,
}

/// The hub's state taken as mathematical values.
#[verifier::ext_equal]
pub ghost struct HubModel {
    pub keymaps: Map<Seq<char>, Keymap>,
    pub active: Seq<char>,
    pub split: LayerSets,
    pub ipad: LayerSets,
    pub deck: DeckSetlist,
    pub allowed: Set<Seq<char>>,
    pub next_client_id: u64,
    pub token: Seq<char>,
    pub lan_ip: Seq<char>,
}

impl View for HubState {
    type V = HubModel;

    open spec fn view(&self) -> HubModel {
        HubModel {
            keymaps: self.keymaps@,
            active: self.active_keymap_id@,
            split: self.layer_state@,
            ipad: self.ipad_layer_state@,
            deck: self.deck,
            allowed: self.command_registry@,
            next_client_id: self.next_client_id,
            token: self.token.text(),
            lan_ip: self.lan_ip@,
        }
    }
}

/// The keymap of the split surfaces and the iPad keymap are loaded, and the deck
/// holds no keyboard-layer action.
pub open spec fn model_wf(m: HubModel) -> bool {
    &&& m.keymaps.contains_key(m.active)
    &&& m.keymaps.contains_key(IPAD_KEYMAP_ID@)
    &&& deck_fireable(m.deck)
}

/// No layer held and none toggled.
pub open spec fn no_layers() -> LayerSets {
    LayerSets { momentary: Set::empty(), toggled: Set::empty() }
}

/// The id of the keymap that `surface` uses.
pub open spec fn keymap_id_for(m: HubModel, surface: SurfaceKind) -> Seq<char> {
    match surface {
        SurfaceKind::Ipad => IPAD_KEYMAP_ID@,
        SurfaceKind::Split => m.active,
    }
}

/// The layer state of `surface`.
pub open spec fn layers_for(m: HubModel, surface: SurfaceKind) -> LayerSets {
    match surface {
        SurfaceKind::Ipad => m.ipad,
        SurfaceKind::Split => m.split,
    }
}

/// `m` with the layer state of `surface` replaced by `st`.
pub open spec fn with_layers(m: HubModel, surface: SurfaceKind, st: LayerSets) -> HubModel {
    match surface {
        SurfaceKind::Ipad => HubModel { ipad: st, ..m },
        SurfaceKind::Split => HubModel { split: st, ..m },
    }
}

// ---------------------------------------------------------------------------
// What each event does
// ---------------------------------------------------------------------------

/// What the hub does after handling an event: nothing; send an error frame to the
/// client that sent it; send the layer state, or the surface configuration, to every
/// client of a surface; or hand an action to the keyboard adapter.
#[derive(Debug, Clone, PartialEq, Eq)]
pub enum HubEffect {
    Nothing,
    Error(ErrorFrame),
    BroadcastLayerState(SurfaceKind),
    BroadcastSurfaceConfig(SurfaceKind),
    Deliver { action: Action, command_id: String },
}

/// An effect with its texts and action taken by their views.
pub ghost enum EffectView {
    Nothing,
    Error(ErrorFrameView),
    BroadcastLayerState(SurfaceKind),
    BroadcastSurfaceConfig(SurfaceKind),
    Deliver { action: ActionView, command_id: Seq<char> },
}

impl View for HubEffect {
    type V = EffectView;

    open spec fn view(&self) -> EffectView {
        match self {
            HubEffect::Nothing => EffectView::Nothing,
            HubEffect::Error(f) => EffectView::Error(f@),
            HubEffect::BroadcastLayerState(s) => EffectView::BroadcastLayerState(*s),
            HubEffect::BroadcastSurfaceConfig(s) => EffectView::BroadcastSurfaceConfig(*s),
            HubEffect::Deliver { action, command_id } => EffectView::Deliver {
                action: action@,
                command_id: command_id@,
            },
        }
    }
}

/// The effect of sending an error frame.
pub open spec fn error_effect(code: Seq<char>, cause: Seq<char>, context: ErrorContextView) -> EffectView {
    EffectView::Error(ErrorFrameView { code, cause, context })
}

/// Switching the split surfaces to keymap `id`: a known keymap becomes theirs, their
/// layer state is cleared and they are sent their new configuration; an unknown one
/// changes nothing and is answered with `KEYMAP_SWITCH_UNKNOWN`.
pub open spec fn switch_step(m: HubModel, id: Seq<char>) -> (EffectView, HubModel) {
    if m.keymaps.contains_key(id) {
        (
            EffectView::BroadcastSurfaceConfig(SurfaceKind::Split),
            HubModel { active: id, split: no_layers(), ..m },
        )
    } else {
        (
            error_effect(
                KEYMAP_SWITCH_UNKNOWN@,
                "unknown keymapId '"@ + id + "'"@,
                ErrorContextView::KeymapId(id),
            ),
            m,
        )
    }
}

/// Firing action `a`: keymap actions switch the split surfaces' keymap (a reset
/// switches to `default`); the others go to the keyboard adapter when their
/// allow-list id was allowed at startup, and are refused with `INTERNAL` otherwise.
pub open spec fn fire_step(m: HubModel, a: ActionView) -> (EffectView, HubModel) {
    match a {
        ActionView::KeymapSwitch { id } => switch_step(m, id),
        ActionView::KeymapReset => switch_step(m, "default"@),
        _ => match command_id_of(a) {
            Some(cid) => if m.allowed.contains(cid) {
                (EffectView::Deliver { action: a, command_id: cid }, m)
            } else {
                (
                    error_effect(
                        INTERNAL@,
                        "action resolved but is absent from the startup allow-list: "@ + cid,
                        ErrorContextView::CommandId(cid),
                    ),
                    m,
                )
            },
            None => (EffectView::Nothing, m),
        },
    }
}

/// A key event (`k`, `edge`) from a client of `surface`: it is resolved against the
/// surface's keymap and layer state; an unknown or unresolved key is answered with an
/// error, a layer change is sent to the surface's clients and a fired action is
/// fired.
pub open spec fn key_press_step(m: HubModel, surface: SurfaceKind, k: Seq<char>, edge: Edge) -> (
    EffectView,
    HubModel,
) {
    let (rv, st) = resolve_spec(m.keymaps[keymap_id_for(m, surface)], layers_for(m, surface), k, edge);
    let m2 = with_layers(m, surface, st);
    match rv {
        ResolvedView::UnknownKey => (
            error_effect(KEY_UNKNOWN_ID@, "unknown keyId '"@ + k + "'"@, ErrorContextView::KeyId(k)),
            m2,
        ),
        ResolvedView::NoResolution => (
            error_effect(
                KEY_RESOLVE_NONE@,
                "no action resolves for keyId '"@ + k + "' in the current layer stack"@,
                ErrorContextView::KeyId(k),
            ),
            m2,
        ),
        ResolvedView::Ignored => (EffectView::Nothing, m2),
        ResolvedView::LayerChanged => (EffectView::BroadcastLayerState(surface), m2),
        ResolvedView::Fire(a) => fire_step(m2, a),
    }
}

/// A press of deck slot `slot`: the first slot with that id fires its action, unless
/// the action is `none`; an unknown slot id is answered with `DECK_UNKNOWN_SLOT`.
pub open spec fn deck_press_step(m: HubModel, slot: Seq<char>) -> (EffectView, HubModel) {
    let slots = deck_slots(m.deck.pages@);
    if exists|p: int| is_first_slot(slots, slot, p) {
        let a = slots[choose|p: int| is_first_slot(slots, slot, p)].action@;
        if a is NoOp {
            (EffectView::Nothing, m)
        } else {
            fire_step(m, a)
        }
    } else {
        (
            error_effect(DECK_UNKNOWN_SLOT@, "unknown slotId '"@ + slot + "'"@, ErrorContextView::SlotId(slot)),
            m,
        )
    }
}

/// What client message `msg` from a client of `surface` does.
pub open spec fn message_step(m: HubModel, surface: SurfaceKind, msg: ClientMessage) -> (EffectView, HubModel) {
    match msg {
        ClientMessage::KeyPress { key_id, edge } => key_press_step(m, surface, key_id@, edge_of(edge)),
        ClientMessage::DeckPress { slot_id } => deck_press_step(m, slot_id@),
    }
}

fn quoted(prefix: &str, subject: &str, suffix: &str) -> (r: String)
    ensures
        r@ == prefix@ + subject@ + suffix@,
{
    let mut s = prefix.to_owned();
    s.append(subject);
    s.append(suffix);
    s
}

impl HubState {
    /// The keymaps are ordered, the allow-list is well formed, and `model_wf` holds.
    pub open spec fn wf(&self) -> bool {
        &&& self.keymaps.wf()
        &&& self.command_registry.wf()
        &&& model_wf(self@)
    }

    /// A hub with no layer held or toggled on either surface and no client yet.
    pub fn new(
        keymaps: StrMap<Keymap>,
        active_keymap_id: String,
        deck: DeckSetlist,
        command_registry: CommandRegistry,
        token: AccessToken,
        lan_ip: String,
    ) -> (r: Self)
        requires
            keymaps.wf(),
            command_registry.wf(),
            keymaps@.contains_key(active_keymap_id@),
            keymaps@.contains_key(IPAD_KEYMAP_ID@),
            deck_fireable(deck),
        ensures
            r.wf(),
            r@ == (HubModel {
                keymaps: keymaps@,
                active: active_keymap_id@,
                split: no_layers(),
                ipad: no_layers(),
                deck,
                allowed: command_registry@,
                next_client_id: 0,
                token: token.text(),
                lan_ip: lan_ip@,
            }),
    {
        let r = HubState {
            keymaps,
            active_keymap_id,
            layer_state: LayerState::new(),
            ipad_layer_state: LayerState::new(),
            deck,
            command_registry,
            next_client_id: 0,
            token,
            lan_ip,
        };
        assert(r.layer_state@ =~= no_layers());
        assert(r.ipad_layer_state@ =~= no_layers());
        r
    }

    /// The URL that opens the page for `target` on this hub (see `connection_url_of`).
    pub fn connection_url(&self, target: &str) -> (r: Option<String>)
        ensures
            match connection_url_of(self.lan_ip@, self.token.text(), target@) {
                Some(u) => r matches Some(s) && s@ == u,
                None => r is None,
            },
    {
        connection_url(self.lan_ip.as_str(), &self.token, target)
    }

    /// Whether a request carries this hub's token.
    pub fn token_ok(&self, token: Option<&str>) -> (r: bool)
        ensures
            r == (token matches Some(t) && t@ == self.token.text()),
    {
        match token {
            Some(t) => self.token.is_valid(t),
            None => false,
        }
    }

    /// A new client's id: the next one in turn.
    pub fn take_client_id(&mut self) -> (r: u64)
        requires
            old(self).next_client_id < u64::MAX,
        ensures
            r == old(self).next_client_id,
            final(self)@ == (HubModel { next_client_id: (r + 1) as u64, ..old(self)@ }),
    {
        let id = self.next_client_id;
        self.next_client_id = id + 1;
        id
    }

    /// The layer state of `surface` in its wire form.
    pub fn layer_state_wire(&self, surface: SurfaceKind) -> (r: LayerStateWire)
        ensures
            r.describes(layers_for(self@, surface)),
    {
        match surface {
            SurfaceKind::Ipad => LayerStateWire::from_layer_state(&self.ipad_layer_state),
            SurfaceKind::Split => LayerStateWire::from_layer_state(&self.layer_state),
        }
    }

    /// What a client of `surface` is sent: its keymap and the keymap's id, its layer
    /// state and the deck.
    pub fn surface_config(&self, surface: SurfaceKind) -> (r: SurfaceConfig<'_>)
        requires
            self.wf(),
        ensures
            r.active_keymap_id@ == keymap_id_for(self@, surface),
            *r.keymap == self@.keymaps[keymap_id_for(self@, surface)],
            r.layer.describes(layers_for(self@, surface)),
            *r.deck == self.deck,
    {
        let id: &str = match surface {
            SurfaceKind::Ipad => IPAD_KEYMAP_ID,
            SurfaceKind::Split => self.active_keymap_id.as_str(),
        };
        let keymap = self.keymaps.get(id).unwrap();
        SurfaceConfig {
            active_keymap_id: id,
            keymap,
            layer: self.layer_state_wire(surface),
            deck: &self.deck,
        }
    }
}

impl HubState {
    /// Switches the split surfaces to keymap `target_id` (see `switch_step`).
    pub fn switch_keymap(&mut self, target_id: &str) -> (r: HubEffect)
        requires
            old(self).wf(),
        ensures
            final(self).wf(),
            (r@, final(self)@) == switch_step(old(self)@, target_id@),
    {
        if self.keymaps.contains_key(target_id) {
            self.active_keymap_id = target_id.to_owned();
            self.layer_state.reset();
            assert(self.layer_state@ =~= no_layers());
            HubEffect::BroadcastSurfaceConfig(SurfaceKind::Split)
        } else {
            HubEffect::Error(
                ErrorFrame {
                    code: KEYMAP_SWITCH_UNKNOWN,
                    cause: quoted("unknown keymapId '", target_id, "'"),
                    context: ErrorContext::KeymapId(target_id.to_owned()),
                },
            )
        }
    }

    /// Fires `action` (see `fire_step`).
    pub fn fire_action(&mut self, action: Action) -> (r: HubEffect)
        requires
            old(self).wf(),
            fireable(action@),
        ensures
            final(self).wf(),
            (r@, final(self)@) == fire_step(old(self)@, action@),
    {
        match action {
            Action::KeymapSwitch { id } => self.switch_keymap(id.as_str()),
            Action::KeymapReset => self.switch_keymap("default"),
            other => match canonical_command_id(&other) {
                Some(command_id) => {
                    if self.command_registry.is_allowed(command_id.as_str()) {
                        HubEffect::Deliver { action: other, command_id }
                    } else {
                        let cause = quoted(
                            "action resolved but is absent from the startup allow-list: ",
                            command_id.as_str(),
                            "",
                        );
                        proof {
                            reveal_strlit("");
                            assert(cause@ =~= "action resolved but is absent from the startup allow-list: "@ + command_id@);
                        }
                        HubEffect::Error(
                            ErrorFrame { code: INTERNAL, cause, context: ErrorContext::CommandId(command_id) },
                        )
                    }
                },
                None => HubEffect::Error(
                    ErrorFrame {
                        code: INTERNAL,
                        cause: "action has no canonical command id".to_owned(),
                        context: ErrorContext::Empty,
                    },
                ),
            },
        }
    }

    /// Handles a key event from a client of `surface` (see `key_press_step`).
    pub fn handle_key_press(&mut self, surface: SurfaceKind, key_id: &str, edge: Edge) -> (r: HubEffect)
        requires
            old(self).wf(),
        ensures
            final(self).wf(),
            (r@, final(self)@) == key_press_step(old(self)@, surface, key_id@, edge),
    {
        let resolved = match surface {
            SurfaceKind::Ipad => {
                let keymap = self.keymaps.get(IPAD_KEYMAP_ID).unwrap();
                resolve(keymap, &mut self.ipad_layer_state, key_id, edge)
            },
            SurfaceKind::Split => {
                let keymap = self.keymaps.get(self.active_keymap_id.as_str()).unwrap();
                resolve(keymap, &mut self.layer_state, key_id, edge)
            },
        };
        match resolved {
            Resolved::UnknownKey => HubEffect::Error(
                ErrorFrame {
                    code: KEY_UNKNOWN_ID,
                    cause: quoted("unknown keyId '", key_id, "'"),
                    context: ErrorContext::KeyId(key_id.to_owned()),
                },
            ),
            Resolved::NoResolution => HubEffect::Error(
                ErrorFrame {
                    code: KEY_RESOLVE_NONE,
                    cause: quoted("no action resolves for keyId '", key_id, "' in the current layer stack"),
                    context: ErrorContext::KeyId(key_id.to_owned()),
                },
            ),
            Resolved::Ignored => HubEffect::Nothing,
            Resolved::LayerChanged => HubEffect::BroadcastLayerState(surface),
            Resolved::Fire(action) => self.fire_action(action),
        }
    }

    /// Handles a press of deck slot `slot_id` (see `deck_press_step`).
    pub fn handle_deck_press(&mut self, slot_id: &str) -> (r: HubEffect)
        requires
            old(self).wf(),
        ensures
            final(self).wf(),
            (r@, final(self)@) == deck_press_step(old(self)@, slot_id@),
    {
        let ghost slots = deck_slots(self.deck.pages@);
        let action = match self.deck.find_slot(slot_id) {
            Some(slot) => slot.action.copy(),
            None => {
                return HubEffect::Error(
                    ErrorFrame {
                        code: DECK_UNKNOWN_SLOT,
                        cause: quoted("unknown slotId '", slot_id, "'"),
                        context: ErrorContext::SlotId(slot_id.to_owned()),
                    },
                );
            },
        };
        proof {
            let p = choose|p: int| is_first_slot(slots, slot_id@, p) && action@ == slots[p].action@;
            assert forall|q: int| is_first_slot(slots, slot_id@, q) implies q == p by {
                if q < p {
                    assert(slots[q].slot_id@ != slot_id@);
                } else if p < q {
                    assert(slots[p].slot_id@ != slot_id@);
                }
            }
        }
        match action {
            Action::NoOp => HubEffect::Nothing,
            a => self.fire_action(a),
        }
    }

    /// Handles a message from a client of `surface` (see `message_step`).
    pub fn handle_message(&mut self, surface: SurfaceKind, message: ClientMessage) -> (r: HubEffect)
        requires
            old(self).wf(),
        ensures
            final(self).wf(),
            (r@, final(self)@) == message_step(old(self)@, surface, message),
    {
        match message {
            ClientMessage::KeyPress { key_id, edge } => self.handle_key_press(surface, key_id.as_str(), Edge::from(edge)),
            ClientMessage::DeckPress { slot_id } => self.handle_deck_press(slot_id.as_str()),
        }
    }
}

/// How the keyboard adapter answered an action handed to it: with the outcome of
/// sending it, or not at all because its queue was closed or it stopped first.
#[derive(Debug)]
pub enum AdapterReply {
    Finished(Result<(), AdapterError>),
    ChannelClosed,
    NoReply,
}

/// An adapter error as one line of text (see `AdapterError::to_text`).
pub open spec fn adapter_error_text(e: AdapterErrorView) -> Seq<char> {
    match e {
        AdapterErrorView::SendFailed(c) => "SendFailed: "@ + c,
        AdapterErrorView::Unsupported(c) => "Unsupported: "@ + c,
    }
}

/// What the adapter's answer about the action with allow-list id `command_id` leads
/// to: nothing when it was sent; otherwise an error frame for the client that fired it.
pub open spec fn reply_effect(command_id: Seq<char>, reply: AdapterReply) -> EffectView {
    match reply {
        AdapterReply::Finished(Ok(())) => EffectView::Nothing,
        AdapterReply::Finished(Err(e)) => error_effect(
            ADAPTER_SENDINPUT_FAIL@,
            adapter_error_text(e@),
            ErrorContextView::CommandId(command_id),
        ),
        AdapterReply::ChannelClosed => error_effect(
            INTERNAL@,
            "adapter worker channel is closed"@,
            ErrorContextView::CommandId(command_id),
        ),
        AdapterReply::NoReply => error_effect(
            INTERNAL@,
            "adapter worker did not reply"@,
            ErrorContextView::CommandId(command_id),
        ),
    }
}

/// What the adapter's answer leads to (see `reply_effect`).
pub fn adapter_reply_effect(command_id: &str, reply: &AdapterReply) -> (r: HubEffect)
    ensures
        r@ == reply_effect(command_id@, *reply),
{
    let context = ErrorContext::CommandId(command_id.to_owned());
    match reply {
        AdapterReply::Finished(Ok(())) => HubEffect::Nothing,
        AdapterReply::Finished(Err(e)) => HubEffect::Error(
            ErrorFrame { code: ADAPTER_SENDINPUT_FAIL, cause: e.to_text(), context },
        ),
        AdapterReply::ChannelClosed => HubEffect::Error(
            ErrorFrame { code: INTERNAL, cause: "adapter worker channel is closed".to_owned(), context },
        ),
        AdapterReply::NoReply => HubEffect::Error(
            ErrorFrame { code: INTERNAL, cause: "adapter worker did not reply".to_owned(), context },
        ),
    }
}

// ---------------------------------------------------------------------------
// Laws of the hub
// ---------------------------------------------------------------------------

/// Only allowed actions reach the keyboard adapter: whatever a client sends, an action
/// handed to the adapter has an allow-list id, and that id was allowed at startup.
pub proof fn lemma_only_allowed_actions_are_delivered(m: HubModel, surface: SurfaceKind, msg: ClientMessage)
    ensures
        message_step(m, surface, msg).0 matches EffectView::Deliver { action, command_id } ==> {
            &&& command_id_of(action) == Some(command_id)
            &&& m.allowed.contains(command_id)
        },
{
}

/// A refused message changes nothing: when the answer is an error frame, the hub's
/// state is what it was.
pub proof fn lemma_errors_change_nothing(m: HubModel, surface: SurfaceKind, msg: ClientMessage)
    ensures
        message_step(m, surface, msg).0 is Error ==> message_step(m, surface, msg).1 == m,
{
    match msg {
        ClientMessage::KeyPress { key_id, edge } => {
            let e = edge_of(edge);
            let km = m.keymaps[keymap_id_for(m, surface)];
            let st = layers_for(m, surface);
            crate::keymap::lemma_state_changes_only_with_layer_change(km, st, key_id@, e);
            let (rv, st2) = resolve_spec(km, st, key_id@, e);
            if !(rv is LayerChanged) {
                assert(with_layers(m, surface, st2) =~= m);
            }
        },
        ClientMessage::DeckPress { .. } => {},
    }
}

/// The surfaces keep separate layer states: a key event from a split surface never
/// changes the iPad surface's layer state.
pub proof fn lemma_split_events_leave_ipad_layers(m: HubModel, k: Seq<char>, edge: Edge)
    ensures
        key_press_step(m, SurfaceKind::Split, k, edge).1.ipad == m.ipad,
{
}

/// A key event from the iPad surface leaves the split surfaces' keymap and layer state
/// as they were, unless it fires a keymap switch or reset (which always concerns the
/// split surfaces, and then announces their new configuration).
pub proof fn lemma_ipad_events_leave_split_surfaces(m: HubModel, k: Seq<char>, edge: Edge)
    ensures
        !(key_press_step(m, SurfaceKind::Ipad, k, edge).0 is BroadcastSurfaceConfig) ==> {
            &&& key_press_step(m, SurfaceKind::Ipad, k, edge).1.split == m.split
            &&& key_press_step(m, SurfaceKind::Ipad, k, edge).1.active == m.active
        },
{
}

/// A keymap switch to a loaded keymap makes it the split surfaces' keymap with no
/// layer held or toggled, and announces the new configuration to them; nothing else
/// changes.
pub proof fn lemma_switch_resets_split_layers(m: HubModel, id: Seq<char>)
    requires
        m.keymaps.contains_key(id),
    ensures
        switch_step(m, id).0 == EffectView::BroadcastSurfaceConfig(SurfaceKind::Split),
        switch_step(m, id).1 == (HubModel { active: id, split: no_layers(), ..m }),
{
}

/// Handling messages keeps the hub well formed: the split surfaces' keymap and the
/// iPad keymap stay loaded, and the deck still holds no keyboard-layer action.
pub proof fn lemma_messages_keep_hub_wf(m: HubModel, surface: SurfaceKind, msg: ClientMessage)
    requires
        model_wf(m),
    ensures
        model_wf(message_step(m, surface, msg).1),
{
}

} // verus!
