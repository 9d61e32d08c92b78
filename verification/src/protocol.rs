//! The hub's wire vocabulary: what clients send, the layer state as it is sent, the
//! error frames and their codes, and the queries of the hub's HTTP endpoints.
use vstd::prelude::*;
use std::collections::BTreeSet;
use crate::deck::DeckSetlist;
use crate::keymap::{Edge, Keymap, LayerSets, LayerState};

pub use crate::keymap::{
    KEY_RESOLVE_NONE, KEY_UNKNOWN_ID, LOAD_JSON_SYNTAX, LOAD_SCHEMA_INVALID, LOAD_VK_UNKNOWN,
};

verus! {

broadcast use vstd::std_specs::btree::group_btree_axioms, vstd::laws_cmp::group_laws_cmp;

/// A websocket upgrade without the hub's token, or with another one.
pub const WS_TOKEN_INVALID: &'static str = "WS_TOKEN_INVALID";
/// A client message that is not one of the known messages.
pub const WS_PARSE: &'static str = "WS_PARSE";
/// The operating system refused the keyboard input of an action.
pub const ADAPTER_SENDINPUT_FAIL: &'static str = "ADAPTER_SENDINPUT_FAIL";
/// A keymap switch names a keymap that is not loaded.
pub const KEYMAP_SWITCH_UNKNOWN: &'static str = "KEYMAP_SWITCH_UNKNOWN";
/// A deck press names a slot id that the deck does not have.
pub const DECK_UNKNOWN_SLOT: &'static str = "DECK_UNKNOWN_SLOT";
/// The hub failed in a way that no client message can cause.
pub const INTERNAL: &'static str = "INTERNAL";
/// Reloading the keymaps and the deck from disk failed; nothing was changed.
pub const RELOAD_INVALID: &'static str = "RELOAD_INVALID";

/// The edge of a key event as a client sends it.
#[derive(Debug, Clone, Copy, PartialEq, Eq)]
pub enum EdgeWire {
    Down,
    Up,
}

/// The key edge that a wire edge stands for.
pub open spec fn edge_of(w: EdgeWire) -> Edge {
    match w {
        EdgeWire::Down => Edge::Down,
        EdgeWire::Up => Edge::Up,
    }
}

impl From<EdgeWire> for Edge {
    fn from(value: EdgeWire) -> (r: Edge) {
        match value {
            EdgeWire::Down => Edge::Down,
            EdgeWire::Up => Edge::Up,
        }
    }
}

impl vstd::std_specs::convert::FromSpecImpl<EdgeWire> for Edge {
    open spec fn obeys_from_spec() -> bool {
        true
    }

    open spec fn from_spec(v: EdgeWire) -> Edge {
        edge_of(v)
    }
}

/// A message from a client: a key of a keyboard surface pressed or released, or a
/// deck slot pressed.
#[derive(Debug, Clone, PartialEq, Eq)]
pub enum ClientMessage {
    KeyPress { key_id: String, edge: EdgeWire },
    DeckPress { slot_id: String },
}

/// The layer state as it is sent to clients: the held and the toggled layers, each
/// in ascending order.
#[derive(Debug, Clone, PartialEq, Eq)]
pub struct LayerStateWire {
    pub momentary: Vec<u8>,
    pub toggled: Vec<u8>,
}

/// `v` lists the members of `set` in strictly ascending order.
pub open spec fn lists_ascending(v: Seq<u8>, set: Set<u8>) -> bool {
    &&& forall|i: int, j: int| 0 <= i < j < v.len() ==> v[i] < v[j]
    &&& forall|b: u8| v.contains(b) <==> set.contains(b)
}

fn members_ascending(set: &BTreeSet<u8>) -> (r: Vec<u8>)
    ensures
        lists_ascending(r@, set@),
{
    let mut r: Vec<u8> = Vec::new();
    let mut b: u16 = 0;
    while b < 256
        invariant
            b <= 256,
            forall|i: int, j: int| 0 <= i < j < r@.len() ==> r@[i] < r@[j],
            forall|i: int| 0 <= i < r@.len() ==> r@[i] < b,
            forall|x: u8| (x < b && set@.contains(x)) <==> r@.contains(x),
        decreases 256 - b,
    {
        let x = b as u8;
        let ghost before = r@;
        if set.contains(&x) {
            r.push(x);
            proof {
                assert forall|y: u8| (y < b + 1 && set@.contains(y)) <==> r@.contains(y) by {
                    if r@.contains(y) && y != x {
                        let i = choose|i: int| 0 <= i < r@.len() && r@[i] == y;
                        assert(i < before.len());
                        assert(before.contains(y));
                    }
                    if y < b && set@.contains(y) {
                        assert(before.contains(y));
                        let i = choose|i: int| 0 <= i < before.len() && before[i] == y;
                        assert(r@[i] == y);
                    }
                    if y == x {
                        assert(r@[r@.len() - 1] == y);
                    }
                }
            }
        }
        b = b + 1;
    }
    r
}

impl LayerStateWire {
    /// The wire form of `state`.
    pub fn from_layer_state(state: &LayerState) -> (r: LayerStateWire)
        ensures
            r.describes(state@),
    {
        LayerStateWire {
            momentary: members_ascending(state.momentary()),
            toggled: members_ascending(state.toggled()),
        }
    }

    /// This wire form lists exactly the layers of `sets`.
    pub open spec fn describes(&self, sets: LayerSets) -> bool {
        lists_ascending(self.momentary@, sets.momentary) && lists_ascending(self.toggled@, sets.toggled)
    }
}

/// What a client is sent on connecting and after a keymap switch: the keymap of its
/// surface and its id, the layer state and the deck.
#[derive(Debug, Clone)]
pub struct SurfaceConfig<'a> {
    pub active_keymap_id: &'a str,
    pub keymap: &'a Keymap,
    pub layer: LayerStateWire,
    pub deck: &'a DeckSetlist,
}

/// The subject of an error frame, sent with it.
#[derive(Debug, Clone, PartialEq, Eq)]
pub enum ErrorContext {
    Empty,
    Raw(String),
    KeyId(String),
    SlotId(String),
    CommandId(String),
    KeymapId(String),
}

/// An error context with its text taken as characters.
pub ghost enum ErrorContextView {
    Empty,
    Raw(Seq<char>),
    KeyId(Seq<char>),
    SlotId(Seq<char>),
    CommandId(Seq<char>),
    KeymapId(Seq<char>),
}

impl View for ErrorContext {
    type V = ErrorContextView;

    open spec fn view(&self) -> ErrorContextView {
        match self {
            ErrorContext::Empty => ErrorContextView::Empty,
            ErrorContext::Raw(s) => ErrorContextView::Raw(s@),
            ErrorContext::KeyId(s) => ErrorContextView::KeyId(s@),
            ErrorContext::SlotId(s) => ErrorContextView::SlotId(s@),
            ErrorContext::CommandId(s) => ErrorContextView::CommandId(s@),
            ErrorContext::KeymapId(s) => ErrorContextView::KeymapId(s@),
        }
    }
}

/// An error as it is sent to a client: its code, a readable cause and its subject.
#[derive(Debug, Clone, PartialEq, Eq)]
pub struct ErrorFrame {
    pub code: &'static str,
    pub cause: String,
    pub context: ErrorContext,
}

/// An error frame with its texts taken as characters.
pub ghost struct ErrorFrameView {
    pub code: Seq<char>,
    pub cause: Seq<char>,
    pub context: ErrorContextView,
}

impl View for ErrorFrame {
    type V = ErrorFrameView;

    open spec fn view(&self) -> ErrorFrameView {
        ErrorFrameView { code: self.code@, cause: self.cause@, context: self.context@ }
    }
}

/// The frame for a client message that could not be read.
pub open spec fn parse_failure(error: Seq<char>, raw: Seq<char>) -> ErrorFrameView {
    ErrorFrameView {
        code: WS_PARSE@,
        cause: "failed to parse client message: "@ + error,
        context: ErrorContextView::Raw(raw),
    }
}

/// The frame for a client message `raw` that could not be read, `error` saying why.
pub fn parse_error_frame(error: &str, raw: &str) -> (r: ErrorFrame)
    ensures
        r@ == parse_failure(error@, raw@),
{
    let mut cause = "failed to parse client message: ".to_owned();
    cause.append(error);
    ErrorFrame { code: WS_PARSE, cause, context: ErrorContext::Raw(raw.to_owned()) }
}

/// The query of the deck export endpoint.
#[derive(Debug, Clone, PartialEq, Eq)]
pub struct TokenQuery {
    pub token: Option<String>,
}

/// The query of the websocket endpoint: the token, and the surface the client is.
#[derive(Debug, Clone, PartialEq, Eq)]
pub struct WsQuery {
    pub token: Option<String>,
    pub surface: Option<String>,
}

} // verus!
