//! Keymaps: actions, layers, load-time validation and the layer resolution engine.
//! A keymap is stored as a keymap file (its kind, its board or halves, and the list of
//! its layer files) and one file per layer; `combine_keymap` puts them together.
//!
//! The active layers are layer 0 together with every momentarily held (`mo`) and
//! every toggled-on (`tg`) layer. A key resolves in the highest active layer that
//! defines it with an action other than `trans`; `trans` falls through to the next
//! lower active layer.
use vstd::prelude::*;
use std::collections::BTreeSet;
use crate::text::{append_decimal, decimal};
use crate::vk::{is_known_vk, is_vk_name};
use crate::json::{json_syntax_error, parse_json_value};

verus! {

broadcast use vstd::std_specs::btree::group_btree_axioms, vstd::laws_cmp::group_laws_cmp;

/// An action bound to a key or a deck slot.
#[derive(Debug, Clone, PartialEq, Eq)]
pub enum Action {
    /// Press and release one key of the key-name dictionary.
    Key { vk: String },
    /// Press the leading keys as modifiers, then the last key.
    Chord { keys: Vec<String> },
    /// Layer `layer` is active while the key is held.
    Mo { layer: u8 },
    /// Each press switches layer `layer` on or off.
    Tg { layer: u8 },
    /// Falls through to the next lower active layer.
    Trans,
    /// Does nothing.
    NoOp,
    /// Switches the split surfaces to keymap `id`.
    KeymapSwitch { id: String },
    /// Switches the split surfaces back to the default keymap.
    KeymapReset,
    /// Types `string` literally, whatever the input method's state.
    Text { string: String },
}

/// An action with its strings taken as sequences of characters.
pub ghost enum ActionView {
    Key { vk: Seq<char> },
    Chord { keys: Seq<Seq<char>> },
    Mo { layer: u8 },
    Tg { layer: u8 },
    Trans,
    NoOp,
    KeymapSwitch { id: Seq<char> },
    KeymapReset,
    Text { string: Seq<char> },
}

/// The characters of each string of `v`.
pub open spec fn strings_view(v: Seq<String>) -> Seq<Seq<char>> {
    v.map_values(|s: String| s@)
}

impl View for Action {
    type V = ActionView;

    open spec fn view(&self) -> ActionView {
        match self {
            Action::Key { vk } => ActionView::Key { vk: vk@ },
            Action::Chord { keys } => ActionView::Chord { keys: strings_view(keys@) },
            Action::Mo { layer } => ActionView::Mo { layer: *layer },
            Action::Tg { layer } => ActionView::Tg { layer: *layer },
            Action::Trans => ActionView::Trans,
            Action::NoOp => ActionView::NoOp,
            Action::KeymapSwitch { id } => ActionView::KeymapSwitch { id: id@ },
            Action::KeymapReset => ActionView::KeymapReset,
            Action::Text { string } => ActionView::Text { string: string@ },
        }
    }
}

fn copy_strings(v: &Vec<String>) -> (r: Vec<String>)
    ensures
        r@ == v@,
{
    let mut r: Vec<String> = Vec::new();
    for i in 0..v.len()
        invariant
            r@ == v@.take(i as int),
    {
        r.push(v[i].clone());
        assert(r@ == v@.take(i as int + 1));
    }
    assert(v@.take(v@.len() as int) == v@);
    r
}

impl Action {
    /// A copy of this action.
    pub fn copy(&self) -> (r: Action)
        ensures
            r@ == self@,
    {
        match self {
            Action::Key { vk } => Action::Key { vk: vk.clone() },
            Action::Chord { keys } => {
                let c = copy_strings(keys);
                assert(strings_view(c@) =~= strings_view(keys@));
                Action::Chord { keys: c }
            },
            Action::Mo { layer } => Action::Mo { layer: *layer },
            Action::Tg { layer } => Action::Tg { layer: *layer },
            Action::Trans => Action::Trans,
            Action::NoOp => Action::NoOp,
            Action::KeymapSwitch { id } => Action::KeymapSwitch { id: id.clone() },
            Action::KeymapReset => Action::KeymapReset,
            Action::Text { string } => Action::Text { string: string.clone() },
        }
    }
}

/// The label shown on a key and the action it triggers.
#[derive(Debug, Clone, PartialEq, Eq)]
pub struct KeyDef {
    pub label: String,
    pub action: Action,
}

/// One layer: its number and the definitions of the keys it binds, by key id.
#[derive(Debug, Clone, PartialEq, Eq)]
pub struct Layer {
    pub id: u8,
    pub keys: Vec<(String, KeyDef)>,
}

/// The rows of key ids on one half of a split keyboard.
#[derive(Debug, Clone, PartialEq, Eq)]
pub struct Half {
    pub rows: Vec<Vec<String>>,
}

/// The two halves of a split keyboard.
#[derive(Debug, Clone, PartialEq, Eq)]
pub struct Halves {
    pub left: Half,
    pub right: Half,
}

/// One key on a single-board grid: its id, its row and column, and how many columns
/// and rows it spans (one when absent).
#[derive(Debug, Clone, PartialEq, Eq)]
pub struct BoardKey {
    pub id: String,
    pub row: u32,
    pub col: u32,
    pub col_span: Option<u32>,
    pub row_span: Option<u32>,
}

/// The grid of a single-board keyboard: its number of columns and its keys.
#[derive(Debug, Clone, PartialEq, Eq)]
pub struct Board {
    pub cols: u32,
    pub keys: Vec<BoardKey>,
}

/// The shape of a keyboard: two halves (laid out by `halves`) or one board (laid out
/// by `board`).
#[derive(Debug, Clone, Copy, PartialEq, Eq)]
pub enum KeymapKind {
    Split,
    Single,
}

/// A keymap: its id, its kind and layout, and its layers.
#[derive(Debug, Clone, PartialEq, Eq)]
pub struct Keymap {
    pub keymap_id: String,
    pub description: String,
    pub kind: KeymapKind,
    pub halves: Option<Halves>,
    pub board: Option<Board>,
    pub layers: Vec<Layer>,
}

/// A keymap file: the keymap's id, kind and layout, and the files that hold its
/// layers, one layer per file, in order.
#[derive(Debug, Clone, PartialEq, Eq)]
pub struct KeymapManifest {
    pub keymap_id: String,
    pub description: String,
    pub kind: KeymapKind,
    pub halves: Option<Halves>,
    pub board: Option<Board>,
    pub layer_files: Vec<String>,
}

/// A layer file: the layer's number and its key bindings, by key id.
#[derive(Debug, Clone, PartialEq, Eq)]
pub struct LayerFile {
    pub layer: u8,
    pub keys: Vec<(String, KeyDef)>,
}

/// `i` is the first position of a layer numbered `id`.
pub open spec fn is_first_layer(layers: Seq<Layer>, id: u8, i: int) -> bool {
    &&& 0 <= i < layers.len()
    &&& layers[i].id == id
    &&& forall|j: int| 0 <= j < i ==> (#[trigger] layers[j]).id != id
}

/// The position of the layer numbered `id`, the first one where several share the number.
pub open spec fn layer_index(layers: Seq<Layer>, id: u8) -> Option<int> {
    if exists|i: int| is_first_layer(layers, id, i) {
        Some(choose|i: int| is_first_layer(layers, id, i))
    } else {
        None
    }
}

/// Some layer is numbered `id`.
pub open spec fn has_layer(layers: Seq<Layer>, id: u8) -> bool {
    exists|i: int| 0 <= i < layers.len() && (#[trigger] layers[i]).id == id
}

/// `j` is the first position of key id `k` among `keys`.
pub open spec fn is_first_key(keys: Seq<(String, KeyDef)>, k: Seq<char>, j: int) -> bool {
    &&& 0 <= j < keys.len()
    &&& keys[j].0@ == k
    &&& forall|i: int| 0 <= i < j ==> (#[trigger] keys[i]).0@ != k
}

/// The position of key id `k` among `keys`, the first one where it occurs several times.
pub open spec fn key_index(keys: Seq<(String, KeyDef)>, k: Seq<char>) -> Option<int> {
    if exists|j: int| is_first_key(keys, k, j) {
        Some(choose|j: int| is_first_key(keys, k, j))
    } else {
        None
    }
}

/// The action that layer `id` of `km` binds to key id `k`, if it binds one.
pub open spec fn action_at(km: Keymap, id: u8, k: Seq<char>) -> Option<Action> {
    match layer_index(km.layers@, id) {
        Some(i) => match key_index(km.layers@[i].keys@, k) {
            Some(j) => Some(km.layers@[i].keys@[j].1.action),
            None => None,
        },
        None => None,
    }
}

/// Some layer of `km` binds key id `k`.
pub open spec fn defines_key(km: Keymap, k: Seq<char>) -> bool {
    exists|i: int, j: int|
        0 <= i < km.layers@.len() && 0 <= j < km.layers@[i].keys@.len()
            && (#[trigger] km.layers@[i].keys@[j]).0@ == k
}

fn find_layer(layers: &Vec<Layer>, id: u8) -> (r: Option<usize>)
    ensures
        match r {
            Some(i) => is_first_layer(layers@, id, i as int) && layer_index(layers@, id) == Some(
                i as int,
            ),
            None => !has_layer(layers@, id) && layer_index(layers@, id) is None,
        },
{
    let n = layers.len();
    for i in 0..n
        invariant
            n == layers@.len(),
            forall|j: int| 0 <= j < i ==> (#[trigger] layers@[j]).id != id,
    {
        if layers[i].id == id {
            assert(is_first_layer(layers@, id, i as int));
            return Some(i);
        }
    }
    None
}

fn find_key(keys: &Vec<(String, KeyDef)>, k: &String) -> (r: Option<usize>)
    ensures
        match r {
            Some(j) => is_first_key(keys@, k@, j as int) && key_index(keys@, k@) == Some(j as int),
            None => (forall|j: int| 0 <= j < keys@.len() ==> (#[trigger] keys@[j]).0@ != k@)
                && key_index(keys@, k@) is None,
        },
{
    let n = keys.len();
    for j in 0..n
        invariant
            n == keys@.len(),
            forall|i: int| 0 <= i < j ==> (#[trigger] keys@[i]).0@ != k@,
    {
        if keys[j].0 == *k {
            assert(is_first_key(keys@, k@, j as int));
            return Some(j);
        }
    }
    None
}

impl Keymap {
    /// The layer numbered `id`, the first one where several share the number.
    pub fn layer(&self, id: u8) -> (r: Option<&Layer>)
        ensures
            match layer_index(self.layers@, id) {
                Some(i) => r == Some(&self.layers@[i]),
                None => r is None,
            },
    {
        match find_layer(&self.layers, id) {
            Some(i) => Some(&self.layers[i]),
            None => None,
        }
    }
}

/// A key press or a key release.
#[derive(Debug, Clone, Copy, PartialEq, Eq)]
pub enum Edge {
    Down,
    Up,
}

/// The layers held by `mo` keys and the layers switched on by `tg` keys.
#[derive(Debug, Clone, PartialEq, Eq)]
pub struct LayerState {
    pub momentary: BTreeSet<u8>,
    pub toggled: BTreeSet<u8>,
}

/// The sets of momentarily held and of toggled-on layers.
#[verifier::ext_equal]
pub ghost struct LayerSets {
    pub momentary: Set<u8>,
    pub toggled: Set<u8>,
}

impl View for LayerState {
    type V = LayerSets;

    open spec fn view(&self) -> LayerSets {
        LayerSets { momentary: self.momentary@, toggled: self.toggled@ }
    }
}

impl Default for LayerState {
    fn default() -> (r: Self)
        ensures
            r@.momentary.is_empty(),
            r@.toggled.is_empty(),
    {
        LayerState { momentary: BTreeSet::new(), toggled: BTreeSet::new() }
    }
}

impl LayerState {
    /// No layer held or toggled: only layer 0 is active.
    pub fn new() -> (r: Self)
        ensures
            r@.momentary.is_empty(),
            r@.toggled.is_empty(),
    {
        LayerState { momentary: BTreeSet::new(), toggled: BTreeSet::new() }
    }

    /// The layers currently held by `mo` keys.
    pub fn momentary(&self) -> (r: &BTreeSet<u8>)
        ensures
            r@ == self@.momentary,
    {
        &self.momentary
    }

    /// The layers currently switched on by `tg` keys.
    pub fn toggled(&self) -> (r: &BTreeSet<u8>)
        ensures
            r@ == self@.toggled,
    {
        &self.toggled
    }

    /// Releases every held layer and switches every toggled layer off.
    pub fn reset(&mut self)
        ensures
            final(self)@.momentary.is_empty(),
            final(self)@.toggled.is_empty(),
    {
        self.momentary.clear();
        self.toggled.clear();
    }

    /// Whether layer `id` is active.
    pub fn is_active(&self, id: u8) -> (r: bool)
        ensures
            r == is_active(self@, id),
    {
        id == 0 || self.momentary.contains(&id) || self.toggled.contains(&id)
    }
}

/// Layer `id` is active: it is layer 0, or held, or toggled on.
pub open spec fn is_active(st: LayerSets, id: u8) -> bool {
    id == 0 || st.momentary.contains(id) || st.toggled.contains(id)
}

/// Layer `id` is active and binds key id `k` to an action other than `trans`.
pub open spec fn resolves_at(km: Keymap, st: LayerSets, k: Seq<char>, id: u8) -> bool {
    is_active(st, id) && match action_at(km, id, k) {
        Some(a) => !(a is Trans),
        None => false,
    }
}

/// Layer `id` is the highest layer in which key id `k` resolves.
pub open spec fn is_top_layer(km: Keymap, st: LayerSets, k: Seq<char>, id: u8) -> bool {
    resolves_at(km, st, k, id) && forall|h: u8| id < h ==> !#[trigger] resolves_at(km, st, k, h)
}

/// The action key id `k` resolves to: its binding in the highest active layer that
/// binds it to something other than `trans`.
pub open spec fn resolved_action(km: Keymap, st: LayerSets, k: Seq<char>) -> Option<Action> {
    if exists|id: u8| is_top_layer(km, st, k, id) {
        action_at(km, choose|id: u8| is_top_layer(km, st, k, id), k)
    } else {
        None
    }
}

/// What one key event amounts to.
#[derive(Debug, Clone, PartialEq, Eq)]
pub enum Resolved {
    /// A key, chord, text or keymap action fires, on key down.
    Fire(Action),
    /// A `mo` or `tg` key changed the layer state.
    LayerChanged,
    /// Nothing to do: a release of a firing key, a `tg` release, a `none` action.
    Ignored,
    /// No layer of the keymap binds the key id.
    UnknownKey,
    /// The key id is bound, but no active layer resolves it.
    NoResolution,
}

/// A resolution outcome, its action taken by its view.
pub ghost enum ResolvedView {
    Fire(ActionView),
    LayerChanged,
    Ignored,
    UnknownKey,
    NoResolution,
}

impl View for Resolved {
    type V = ResolvedView;

    open spec fn view(&self) -> ResolvedView {
        match self {
            Resolved::Fire(a) => ResolvedView::Fire(a@),
            Resolved::LayerChanged => ResolvedView::LayerChanged,
            Resolved::Ignored => ResolvedView::Ignored,
            Resolved::UnknownKey => ResolvedView::UnknownKey,
            Resolved::NoResolution => ResolvedView::NoResolution,
        }
    }
}

/// What the resolved action `a` does on `edge`, and the layer state after it.
pub open spec fn apply_action(a: ActionView, st: LayerSets, edge: Edge) -> (ResolvedView, LayerSets) {
    match a {
        ActionView::Mo { layer } => match edge {
            Edge::Down => (
                ResolvedView::LayerChanged,
                LayerSets { momentary: st.momentary.insert(layer), ..st },
            ),
            Edge::Up => if st.momentary.contains(layer) {
                (ResolvedView::LayerChanged, LayerSets { momentary: st.momentary.remove(layer), ..st })
            } else {
                (ResolvedView::Ignored, st)
            },
        },
        ActionView::Tg { layer } => match edge {
            Edge::Down => (
                ResolvedView::LayerChanged,
                LayerSets {
                    toggled: if st.toggled.contains(layer) {
                        st.toggled.remove(layer)
                    } else {
                        st.toggled.insert(layer)
                    },
                    ..st
                },
            ),
            Edge::Up => (ResolvedView::Ignored, st),
        },
        ActionView::NoOp => (ResolvedView::Ignored, st),
        ActionView::Trans => (ResolvedView::Ignored, st),
        _ => match edge {
            Edge::Down => (ResolvedView::Fire(a), st),
            Edge::Up => (ResolvedView::Ignored, st),
        },
    }
}

/// The outcome of key event (`k`, `edge`) in layer state `st`, and the state after it.
pub open spec fn resolve_spec(km: Keymap, st: LayerSets, k: Seq<char>, edge: Edge) -> (
    ResolvedView,
    LayerSets,
) {
    if !defines_key(km, k) {
        (ResolvedView::UnknownKey, st)
    } else {
        match resolved_action(km, st, k) {
            Some(a) => apply_action(a@, st, edge),
            None => (ResolvedView::NoResolution, st),
        }
    }
}

fn defines_key_exec(km: &Keymap, k: &String) -> (r: bool)
    ensures
        r == defines_key(*km, k@),
{
    let n = km.layers.len();
    for i in 0..n
        invariant
            n == km.layers@.len(),
            forall|a: int, b: int|
                0 <= a < i && 0 <= b < km.layers@[a].keys@.len() ==> (
                #[trigger] km.layers@[a].keys@[b]).0@ != k@,
    {
        match find_key(&km.layers[i].keys, k) {
            Some(j) => {
                assert(km.layers@[i as int].keys@[j as int].0@ == k@);
                return true;
            },
            None => {},
        }
    }
    false
}

fn action_at_exec<'a>(km: &'a Keymap, id: u8, k: &String) -> (r: Option<&'a Action>)
    ensures
        match action_at(*km, id, k@) {
            Some(a) => r == Some(&a),
            None => r is None,
        },
{
    match find_layer(&km.layers, id) {
        Some(i) => match find_key(&km.layers[i].keys, k) {
            Some(j) => Some(&km.layers[i].keys[j].1.action),
            None => None,
        },
        None => None,
    }
}

/// Resolves one key event against `keymap` and updates the layer state `state`.
/// Only the keymap, the state and the event decide the outcome, so one sequence of
/// events gives one sequence of outcomes.
pub fn resolve(keymap: &Keymap, state: &mut LayerState, key_id: &str, edge: Edge) -> (r: Resolved)
    ensures
        (r@, final(state)@) == resolve_spec(*keymap, old(state)@, key_id@, edge),
{
    let k = key_id.to_owned();
    if !defines_key_exec(keymap, &k) {
        return Resolved::UnknownKey;
    }
    let ghost st = state@;
    let mut n: u16 = 256;
    let mut found: Option<&Action> = None;
    while n > 0
        invariant_except_break
            n <= 256,
            found is None,
            forall|h: u8| n <= h ==> !#[trigger] resolves_at(*keymap, st, k@, h),
        invariant
            state@ == st,
        ensures
            match found {
                Some(a) => exists|id: u8|
                    is_top_layer(*keymap, st, k@, id) && action_at(*keymap, id, k@) == Some(*a),
                None => forall|h: u8| !#[trigger] resolves_at(*keymap, st, k@, h),
            },
        decreases n,
    {
        n = n - 1;
        let id = n as u8;
        if state.is_active(id) {
            match action_at_exec(keymap, id, &k) {
                Some(a) => {
                    if !matches!(a, Action::Trans) {
                        assert(is_top_layer(*keymap, st, k@, id));
                        found = Some(a);
                        break;
                    }
                },
                None => {},
            }
        }
    }
    let action = match found {
        Some(a) => a,
        None => {
            assert(!exists|id: u8| is_top_layer(*keymap, st, k@, id));
            return Resolved::NoResolution;
        },
    };
    proof {
        let id = choose|id: u8| is_top_layer(*keymap, st, k@, id);
        assert forall|id2: u8| is_top_layer(*keymap, st, k@, id2) implies id2 == id by {
            if id2 < id {
                assert(!resolves_at(*keymap, st, k@, id));
            } else if id < id2 {
                assert(!resolves_at(*keymap, st, k@, id2));
            }
        }
        assert(resolved_action(*keymap, st, k@) == Some(*action));
    }
    match action {
        Action::Mo { layer } => {
            let layer = *layer;
            match edge {
                Edge::Down => {
                    state.momentary.insert(layer);
                    Resolved::LayerChanged
                },
                Edge::Up => {
                    if state.momentary.remove(&layer) {
                        Resolved::LayerChanged
                    } else {
                        Resolved::Ignored
                    }
                },
            }
        },
        Action::Tg { layer } => {
            let layer = *layer;
            match edge {
                Edge::Down => {
                    if !state.toggled.remove(&layer) {
                        state.toggled.insert(layer);
                    }
                    Resolved::LayerChanged
                },
                Edge::Up => Resolved::Ignored,
            }
        },
        Action::NoOp => Resolved::Ignored,
        Action::Trans => Resolved::Ignored,
        _ => match edge {
            Edge::Down => Resolved::Fire(action.copy()),
            Edge::Up => Resolved::Ignored,
        },
    }
}

// ---------------------------------------------------------------------------
// Load-time validation
// ---------------------------------------------------------------------------

/// The text is not JSON (or the file could not be read).
pub const LOAD_JSON_SYNTAX: &'static str = "LOAD_JSON_SYNTAX";
/// The JSON does not have the keymap's shape, or breaks a layer-0 rule.
pub const LOAD_SCHEMA_INVALID: &'static str = "LOAD_SCHEMA_INVALID";
/// A key or chord names a key outside the key-name dictionary.
pub const LOAD_VK_UNKNOWN: &'static str = "LOAD_VK_UNKNOWN";
/// A `mo` or `tg` action names a layer the keymap does not have.
pub const LOAD_LAYER_REF_INVALID: &'static str = "LOAD_LAYER_REF_INVALID";
/// A key event names a key id that no layer binds.
pub const KEY_UNKNOWN_ID: &'static str = "KEY_UNKNOWN_ID";
/// A key event finds no binding in the active layers.
pub const KEY_RESOLVE_NONE: &'static str = "KEY_RESOLVE_NONE";

/// A rejected keymap: an error code and a readable cause that names the source, the
/// layer, the key id and what is wrong.
#[derive(Debug, Clone, PartialEq, Eq)]
pub struct KeymapError {
    pub code: &'static str,
    pub cause: String,
}

impl KeymapError {
    /// The error with code `code` and cause `cause`.
    pub fn new(code: &'static str, cause: String) -> (r: Self)
        ensures
            r.code == code,
            r.cause@ == cause@,
    {
        KeymapError { code, cause }
    }

    /// The error with code `code` for the file `source`: the cause is the source, a
    /// colon and `message`.
    pub fn for_source(code: &'static str, source: &str, message: &str) -> (r: Self)
        ensures
            r.code == code,
            r.cause@ == source@ + ": "@ + message@,
    {
        let mut cause = source.to_owned();
        cause.append(": ");
        cause.append(message);
        KeymapError { code, cause }
    }

    /// The error `[code] cause` as one line of text.
    pub fn to_text(&self) -> (r: String)
        ensures
            r@ == "["@ + self.code@ + "] "@ + self.cause@,
    {
        let mut s = "[".to_owned();
        s.append(self.code);
        s.append("] ");
        s.append(self.cause.as_str());
        s
    }
}

/// Reads the text of a keymap file from `source` as JSON. Text that is not JSON is
/// refused with `LOAD_JSON_SYNTAX`, the reader's message in the cause.
pub fn keymap_json(source: &str, text: &str) -> (r: Result<serde_json::Value, KeymapError>)
    ensures
        match json_syntax_error(text@) {
            None => r is Ok,
            Some(m) => r matches Err(e) && e.code == LOAD_JSON_SYNTAX && e.cause@ == source@ + ": "@ + m,
        },
{
    match parse_json_value(text) {
        Ok(v) => Ok(v),
        Err(message) => Err(KeymapError::for_source(LOAD_JSON_SYNTAX, source, message.as_str())),
    }
}

/// The key bindings of all layers in order, each with the number of its layer.
pub open spec fn entries(layers: Seq<Layer>) -> Seq<(u8, (String, KeyDef))>
    decreases layers.len(),
{
    if layers.len() == 0 {
        seq![]
    } else {
        let last = layers.last();
        entries(layers.drop_last()) + last.keys@.map_values(|e: (String, KeyDef)| (last.id, e))
    }
}

/// `c` is the first position in `keys` of a name outside the key-name dictionary.
pub open spec fn is_first_unknown_vk(keys: Seq<String>, c: int) -> bool {
    &&& 0 <= c < keys.len()
    &&& !is_vk_name(keys[c]@)
    &&& forall|d: int| 0 <= d < c ==> is_vk_name((#[trigger] keys[d])@)
}

/// The start of a cause about key `key` of layer `id`.
pub open spec fn key_cause_prefix(source: Seq<char>, id: u8, key: Seq<char>) -> Seq<char> {
    source + ": layer "@ + decimal(id as nat) + " key '"@ + key
}

/// What is wrong with one key binding, as an error code and a cause: a key or chord
/// outside the dictionary, or a `mo`/`tg` naming a missing layer.
pub open spec fn binding_problem(layers: Seq<Layer>, source: Seq<char>, e: (u8, (String, KeyDef))) -> Option<
    (&'static str, Seq<char>),
> {
    let prefix = key_cause_prefix(source, e.0, e.1.0@);
    match e.1.1.action {
        Action::Key { vk } => if is_vk_name(vk@) {
            None
        } else {
            Some((LOAD_VK_UNKNOWN, prefix + "': unknown vk '"@ + vk@ + "'"@))
        },
        Action::Chord { keys } => if exists|c: int| is_first_unknown_vk(keys@, c) {
            let c = choose|c: int| is_first_unknown_vk(keys@, c);
            Some((LOAD_VK_UNKNOWN, prefix + "': unknown vk '"@ + keys@[c]@ + "' in chord"@))
        } else {
            None
        },
        Action::Mo { layer } => if has_layer(layers, layer) {
            None
        } else {
            Some((LOAD_LAYER_REF_INVALID, prefix + "': references undefined layer "@ + decimal(layer as nat)))
        },
        Action::Tg { layer } => if has_layer(layers, layer) {
            None
        } else {
            Some((LOAD_LAYER_REF_INVALID, prefix + "': references undefined layer "@ + decimal(layer as nat)))
        },
        _ => None,
    }
}

/// `p` is the position of the first faulty key binding.
pub open spec fn is_first_problem(layers: Seq<Layer>, source: Seq<char>, p: int) -> bool {
    let es = entries(layers);
    &&& 0 <= p < es.len()
    &&& binding_problem(layers, source, es[p]) is Some
    &&& forall|q: int| 0 <= q < p ==> binding_problem(layers, source, #[trigger] es[q]) is None
}

/// `j` is the first position in `keys` of a `trans` binding.
pub open spec fn is_first_trans(keys: Seq<(String, KeyDef)>, j: int) -> bool {
    &&& 0 <= j < keys.len()
    &&& keys[j].1.action is Trans
    &&& forall|i: int| 0 <= i < j ==> !((#[trigger] keys[i]).1.action is Trans)
}

/// Why `km`, read from `source`, is rejected, checked in this order: layer 0 is
/// missing; layer 0 binds `trans`; a binding names an unknown key or a missing layer.
/// `None` when the keymap is accepted.
pub open spec fn keymap_problem(km: Keymap, source: Seq<char>) -> Option<(&'static str, Seq<char>)> {
    let layers = km.layers@;
    if !has_layer(layers, 0) {
        Some((LOAD_SCHEMA_INVALID, source + ": layer 0 is required but was not found"@))
    } else {
        let keys0 = layers[layer_index(layers, 0)->0].keys@;
        if exists|j: int| is_first_trans(keys0, j) {
            let j = choose|j: int| is_first_trans(keys0, j);
            Some((
                LOAD_SCHEMA_INVALID,
                source + ": layer 0 key '"@ + keys0[j].0@
                    + "' must not be trans (no lower layer to fall through to)"@,
            ))
        } else if exists|p: int| is_first_problem(layers, source, p) {
            let p = choose|p: int| is_first_problem(layers, source, p);
            binding_problem(layers, source, entries(layers)[p])
        } else {
            None
        }
    }
}

/// The result of checking a keymap that has the keymap's shape.
pub open spec fn validated(km: Keymap, source: Seq<char>, r: Result<Keymap, KeymapError>) -> bool {
    match keymap_problem(km, source) {
        None => r == Ok::<Keymap, KeymapError>(km),
        Some((code, cause)) => match r {
            Ok(_) => false,
            Err(e) => e.code == code && e.cause@ == cause,
        },
    }
}

fn cause_prefix(source: &str, id: u8, key: &String) -> (r: String)
    ensures
        r@ == key_cause_prefix(source@, id, key@),
{
    let mut s = source.to_owned();
    s.append(": layer ");
    append_decimal(&mut s, id as u64);
    s.append(" key '");
    s.append(key.as_str());
    s
}

fn first_unknown_vk(keys: &Vec<String>) -> (r: Option<usize>)
    ensures
        match r {
            Some(c) => is_first_unknown_vk(keys@, c as int),
            None => forall|c: int| !is_first_unknown_vk(keys@, c),
        },
{
    let n = keys.len();
    for c in 0..n
        invariant
            n == keys@.len(),
            forall|d: int| 0 <= d < c ==> is_vk_name((#[trigger] keys@[d])@),
    {
        if !is_known_vk(keys[c].as_str()) {
            return Some(c);
        }
    }
    None
}

fn binding_problem_exec(layers: &Vec<Layer>, source: &str, id: u8, entry: &(String, KeyDef)) -> (r:
    Option<KeymapError>)
    ensures
        match binding_problem(layers@, source@, (id, *entry)) {
            None => r is None,
            Some((code, cause)) => r matches Some(e) && e.code == code && e.cause@ == cause,
        },
{
    let key = &entry.0;
    match &entry.1.action {
        Action::Key { vk } => {
            if is_known_vk(vk.as_str()) {
                None
            } else {
                let mut cause = cause_prefix(source, id, key);
                cause.append("': unknown vk '");
                cause.append(vk.as_str());
                cause.append("'");
                Some(KeymapError { code: LOAD_VK_UNKNOWN, cause })
            }
        },
        Action::Chord { keys } => match first_unknown_vk(keys) {
            Some(c) => {
                let mut cause = cause_prefix(source, id, key);
                cause.append("': unknown vk '");
                cause.append(keys[c].as_str());
                cause.append("' in chord");
                Some(KeymapError { code: LOAD_VK_UNKNOWN, cause })
            },
            None => None,
        },
        Action::Mo { layer } | Action::Tg { layer } => {
            match find_layer(layers, *layer) {
                Some(_) => None,
                None => {
                    let mut cause = cause_prefix(source, id, key);
                    cause.append("': references undefined layer ");
                    append_decimal(&mut cause, *layer as u64);
                    Some(KeymapError { code: LOAD_LAYER_REF_INVALID, cause })
                },
            }
        },
        _ => None,
    }
}

proof fn lemma_entries_step(layers: Seq<Layer>, i: int)
    requires
        0 <= i < layers.len(),
    ensures
        entries(layers.take(i + 1)) == entries(layers.take(i)) + layers[i].keys@.map_values(
            |e: (String, KeyDef)| (layers[i].id, e),
        ),
{
    assert(layers.take(i + 1).drop_last() =~= layers.take(i));
}

proof fn lemma_entries_prefix(layers: Seq<Layer>, k: int)
    requires
        0 <= k <= layers.len(),
    ensures
        entries(layers.take(k)).len() <= entries(layers).len(),
        forall|q: int|
            0 <= q < entries(layers.take(k)).len() ==> #[trigger] entries(layers.take(k))[q]
                == entries(layers)[q],
    decreases layers.len(),
{
    if k == layers.len() {
        assert(layers.take(k) =~= layers);
    } else {
        let d = layers.drop_last();
        lemma_entries_prefix(d, k);
        assert(d.take(k) =~= layers.take(k));
    }
}

/// Checks a keymap that has the keymap's shape: layer 0 must exist and bind no
/// `trans`, every key and chord must name dictionary keys, and every `mo`/`tg` must
/// name an existing layer. `source` names where the keymap came from, for the cause.
pub fn validate_keymap(source: &str, keymap: Keymap) -> (r: Result<Keymap, KeymapError>)
    ensures
        validated(keymap, source@, r),
        r matches Ok(k) ==> forall|i: int, j: int|
            0 <= i < k.layers@.len() && 0 <= j < k.layers@[i].keys@.len()
                ==> names_what_exists(k.layers@, (#[trigger] k.layers@[i].keys@[j]).1.action),
{
    let ghost layers = keymap.layers@;
    let i0 = match find_layer(&keymap.layers, 0) {
        Some(i0) => i0,
        None => {
            let mut cause = source.to_owned();
            cause.append(": layer 0 is required but was not found");
            return Err(KeymapError { code: LOAD_SCHEMA_INVALID, cause });
        },
    };
    let keys0 = &keymap.layers[i0].keys;
    let n0 = keys0.len();
    for j in 0..n0
        invariant
            n0 == keys0@.len(),
            layers == keymap.layers@,
            0 <= i0 < layers.len(),
            layers[i0 as int].id == 0,
            layer_index(layers, 0) == Some(i0 as int),
            keys0@ == layers[i0 as int].keys@,
            forall|i: int| 0 <= i < j ==> !((#[trigger] keys0@[i]).1.action is Trans),
    {
        if matches!(keys0[j].1.action, Action::Trans) {
            proof {
                assert(layers[i0 as int].id == 0);
                assert(has_layer(layers, 0));
                assert(is_first_trans(keys0@, j as int));
                let j2 = choose|j2: int| is_first_trans(keys0@, j2);
                if j2 < j {
                    assert(!(keys0@[j2].1.action is Trans));
                } else if j < j2 {
                    assert(!(keys0@[j as int].1.action is Trans));
                }
            }
            let mut cause = source.to_owned();
            cause.append(": layer 0 key '");
            cause.append(keys0[j].0.as_str());
            cause.append("' must not be trans (no lower layer to fall through to)");
            return Err(KeymapError { code: LOAD_SCHEMA_INVALID, cause });
        }
    }
    assert(!exists|j: int| is_first_trans(keys0@, j));
    assert(layers[i0 as int].id == 0);
    let n = keymap.layers.len();
    let ghost mut done: Seq<(u8, (String, KeyDef))> = seq![];
    assert(layers.take(0) =~= Seq::<Layer>::empty());
    for i in 0..n
        invariant
            n == layers.len(),
            layers == keymap.layers@,
            has_layer(layers, 0),
            !exists|j: int| is_first_trans(layers[layer_index(layers, 0)->0].keys@, j),
            done == entries(layers.take(i as int)),
            forall|q: int| 0 <= q < done.len() ==> binding_problem(layers, source@, #[trigger] done[q]) is None,
    {
        proof {
            lemma_entries_step(layers, i as int);
        }
        let layer = &keymap.layers[i];
        let m = layer.keys.len();
        let ghost mapped = layer.keys@.map_values(|e: (String, KeyDef)| (layer.id, e));
        for j in 0..m
            invariant
                m == layer.keys@.len(),
                layers == keymap.layers@,
                0 <= i < layers.len(),
                *layer == layers[i as int],
                done == entries(layers.take(i as int)),
                mapped == layer.keys@.map_values(|e: (String, KeyDef)| (layer.id, e)),
                entries(layers.take(i + 1)) == done + mapped,
                has_layer(layers, 0),
                !exists|j: int| is_first_trans(layers[layer_index(layers, 0)->0].keys@, j),
                forall|q: int| 0 <= q < done.len() ==> binding_problem(layers, source@, #[trigger] done[q]) is None,
                forall|q: int| 0 <= q < j ==> binding_problem(layers, source@, #[trigger] mapped[q]) is None,
        {
            let entry = &layer.keys[j];
            match binding_problem_exec(&keymap.layers, source, layer.id, entry) {
                Some(e) => {
                    proof {
                        let es = entries(layers);
                        let upto = entries(layers.take(i + 1));
                        let p = done.len() + j;
                        lemma_entries_prefix(layers, i + 1);
                        assert(upto == done + mapped);
                        assert(upto[p] == mapped[j as int]);
                        assert(es[p] == upto[p]);
                        assert forall|q: int| 0 <= q < p implies binding_problem(layers, source@, #[trigger] es[q]) is None by {
                            assert(es[q] == upto[q]);
                            if q < done.len() {
                                assert(upto[q] == done[q]);
                            } else {
                                assert(upto[q] == mapped[q - done.len()]);
                            }
                        }
                        assert(is_first_problem(layers, source@, p));
                        let p2 = choose|p2: int| is_first_problem(layers, source@, p2);
                        if p2 < p {
                            assert(binding_problem(layers, source@, es[p2]) is None);
                        } else if p < p2 {
                            assert(binding_problem(layers, source@, es[p]) is None);
                        }
                    }
                    return Err(e);
                },
                None => {},
            }
        }
        proof {
            let next = done + mapped;
            assert forall|q: int| 0 <= q < next.len() implies binding_problem(layers, source@, #[trigger] next[q]) is None by {
                if q >= done.len() {
                    assert(next[q] == mapped[q - done.len()]);
                } else {
                    assert(next[q] == done[q]);
                }
            }
            done = next;
        }
    }
    proof {
        assert(layers.take(n as int) =~= layers);
        let es = entries(layers);
        assert(es == done);
        if exists|p: int| is_first_problem(layers, source@, p) {
            let p = choose|p: int| is_first_problem(layers, source@, p);
            assert(binding_problem(layers, source@, done[p]) is None);
        }
        lemma_accepted_keymap_names_known_keys(keymap, source@);
    }
    Ok(keymap)
}

/// What is wrong with a keymap file's layout for its kind: a split keymap needs its
/// halves, a single-board keymap needs its board. `None` when the layout fits.
pub open spec fn kind_problem(m: KeymapManifest, source: Seq<char>) -> Option<Seq<char>> {
    match m.kind {
        KeymapKind::Split => if m.halves is None {
            Some(source + ": kind 'split' requires halves"@)
        } else {
            None
        },
        KeymapKind::Single => if m.board is None {
            Some(source + ": kind 'single' requires board"@)
        } else {
            None
        },
    }
}

/// `i` is the first of the layer files `files` that failed to load.
pub open spec fn is_first_failed(files: Seq<Result<LayerFile, KeymapError>>, i: int) -> bool {
    &&& 0 <= i < files.len()
    &&& files[i] is Err
    &&& forall|j: int| 0 <= j < i ==> (#[trigger] files[j]) is Ok
}

/// `km` is the keymap that keymap file `m` and its loaded layer files `files` make:
/// the file's id, description, kind and layout, and one layer per layer file, in order.
pub open spec fn combines(m: KeymapManifest, files: Seq<Result<LayerFile, KeymapError>>, km: Keymap) -> bool {
    &&& km.keymap_id == m.keymap_id
    &&& km.description == m.description
    &&& km.kind == m.kind
    &&& km.halves == m.halves
    &&& km.board == m.board
    &&& km.layers@.len() == files.len()
    &&& forall|i: int|
        0 <= i < files.len() ==> ((#[trigger] files[i]) matches Ok(lf) && km.layers@[i] == (Layer {
            id: lf.layer,
            keys: lf.keys,
        }))
}

/// Puts a keymap together from its keymap file `manifest` (read from `source`) and what
/// loading each of its layer files gave, in the file's order; then checks it as
/// `validate_keymap` does. Refused, in this order: a layout that does not fit the kind
/// (`LOAD_SCHEMA_INVALID`); the first layer file that failed to load, with its error;
/// then the first problem of the whole keymap. The checks that span layers (such as a
/// `mo` that names another file's layer) see all the layers together.
pub fn combine_keymap(
    source: &str,
    manifest: KeymapManifest,
    layer_files: Vec<Result<LayerFile, KeymapError>>,
) -> (r: Result<Keymap, KeymapError>)
    ensures
        match kind_problem(manifest, source@) {
            Some(cause) => r matches Err(e) && e.code == LOAD_SCHEMA_INVALID && e.cause@ == cause,
            None => if exists|i: int| is_first_failed(layer_files@, i) {
                r == Err::<Keymap, KeymapError>(
                    layer_files@[choose|i: int| is_first_failed(layer_files@, i)]->Err_0,
                )
            } else {
                exists|c: Keymap| combines(manifest, layer_files@, c) && validated(c, source@, r)
            },
        },
{
    let ghost files = layer_files@;
    match manifest.kind {
        KeymapKind::Split => {
            if manifest.halves.is_none() {
                let mut cause = source.to_owned();
                cause.append(": kind 'split' requires halves");
                return Err(KeymapError { code: LOAD_SCHEMA_INVALID, cause });
            }
        },
        KeymapKind::Single => {
            if manifest.board.is_none() {
                let mut cause = source.to_owned();
                cause.append(": kind 'single' requires board");
                return Err(KeymapError { code: LOAD_SCHEMA_INVALID, cause });
            }
        },
    }
    let mut layers: Vec<Layer> = Vec::new();
    let n = layer_files.len();
    let mut rest = layer_files;
    for i in 0..n
        invariant
            n == files.len(),
            files == layer_files@,
            kind_problem(manifest, source@) is None,
            rest@ == files.skip(i as int),
            layers@.len() == i,
            forall|j: int|
                0 <= j < i ==> ((#[trigger] files[j]) matches Ok(lf) && layers@[j] == (Layer {
                    id: lf.layer,
                    keys: lf.keys,
                })),
    {
        assert(rest@[0] == files[i as int]);
        let loaded = rest.remove(0);
        assert(rest@ =~= files.skip(i + 1));
        match loaded {
            Ok(lf) => {
                layers.push(Layer { id: lf.layer, keys: lf.keys });
            },
            Err(e) => {
                proof {
                    assert(is_first_failed(files, i as int));
                    let i2 = choose|i2: int| is_first_failed(files, i2);
                    if i2 < i {
                        assert(files[i2] is Ok);
                    } else if i < i2 {
                        assert(files[i as int] is Ok);
                    }
                    assert(files[i as int]->Err_0 == e);
                }
                return Err(e);
            },
        }
    }
    assert(!exists|i: int| is_first_failed(files, i));
    let keymap = Keymap {
        keymap_id: manifest.keymap_id,
        description: manifest.description,
        kind: manifest.kind,
        halves: manifest.halves,
        board: manifest.board,
        layers,
    };
    assert(combines(manifest, files, keymap));
    validate_keymap(source, keymap)
}

// ---------------------------------------------------------------------------
// Laws of resolution and validation
// ---------------------------------------------------------------------------

/// A key release never fires an action: keys, chords, text and keymap actions fire on
/// the press only.
pub proof fn lemma_release_never_fires(km: Keymap, st: LayerSets, k: Seq<char>)
    ensures
        !(resolve_spec(km, st, k, Edge::Up).0 is Fire),
{
}

/// The layer state changes only when the outcome is `LayerChanged`.
pub proof fn lemma_state_changes_only_with_layer_change(km: Keymap, st: LayerSets, k: Seq<char>, edge: Edge)
    ensures
        !(resolve_spec(km, st, k, edge).0 is LayerChanged) ==> resolve_spec(km, st, k, edge).1 == st,
{
}

/// Only key, chord, text and keymap actions ever fire; layer actions, `trans` and
/// `none` never reach the caller as an action.
pub proof fn lemma_only_sendable_actions_fire(km: Keymap, st: LayerSets, k: Seq<char>, edge: Edge)
    ensures
        resolve_spec(km, st, k, edge).0 matches ResolvedView::Fire(a) ==> (a is Key || a is Chord
            || a is Text || a is KeymapSwitch || a is KeymapReset),
{
}

/// A fired action is one that the keymap binds to the pressed key id, so a client
/// that sends key ids can fire nothing but what the loaded keymap holds.
pub proof fn lemma_fired_action_is_bound_in_keymap(km: Keymap, st: LayerSets, k: Seq<char>, edge: Edge)
    ensures
        resolve_spec(km, st, k, edge).0 matches ResolvedView::Fire(a) ==> exists|i: int, j: int|
            0 <= i < km.layers@.len() && 0 <= j < km.layers@[i].keys@.len()
                && (#[trigger] km.layers@[i].keys@[j]).0@ == k && km.layers@[i].keys@[j].1.action@ == a,
{
    if resolve_spec(km, st, k, edge).0 is Fire {
        let id = choose|id: u8| is_top_layer(km, st, k, id);
        let i = layer_index(km.layers@, id)->0;
        let j = key_index(km.layers@[i].keys@, k)->0;
        assert(km.layers@[i].keys@[j].0@ == k);
    }
}

/// Pressing and then releasing a `mo` key restores the layer state, when the layer
/// was not held before and the key still resolves to the same `mo` while held.
pub proof fn lemma_momentary_press_release_restores(km: Keymap, st: LayerSets, k: Seq<char>, layer: u8)
    requires
        defines_key(km, k),
        resolved_action(km, st, k) matches Some(a) && a@ == (ActionView::Mo { layer }),
        !st.momentary.contains(layer),
        resolved_action(km, resolve_spec(km, st, k, Edge::Down).1, k) matches Some(a) && a@ == (
        ActionView::Mo { layer }),
    ensures
        resolve_spec(km, st, k, Edge::Down).0 == ResolvedView::LayerChanged,
        resolve_spec(km, st, k, Edge::Down).1.momentary.contains(layer),
        resolve_spec(km, resolve_spec(km, st, k, Edge::Down).1, k, Edge::Up).0 == ResolvedView::LayerChanged,
        resolve_spec(km, resolve_spec(km, st, k, Edge::Down).1, k, Edge::Up).1 == st,
{
    let st1 = resolve_spec(km, st, k, Edge::Down).1;
    assert(st1.momentary.remove(layer) =~= st.momentary);
}

/// Two presses of a `tg` key switch its layer on and off again, restoring the layer
/// state, when the key resolves to the same `tg` both times; its releases change nothing.
pub proof fn lemma_toggle_twice_restores(km: Keymap, st: LayerSets, k: Seq<char>, layer: u8)
    requires
        defines_key(km, k),
        resolved_action(km, st, k) matches Some(a) && a@ == (ActionView::Tg { layer }),
        resolved_action(km, resolve_spec(km, st, k, Edge::Down).1, k) matches Some(a) && a@ == (
        ActionView::Tg { layer }),
    ensures
        resolve_spec(km, st, k, Edge::Down).1.toggled.contains(layer) != st.toggled.contains(layer),
        resolve_spec(km, st, k, Edge::Up) == (ResolvedView::Ignored, st),
        resolve_spec(km, resolve_spec(km, st, k, Edge::Down).1, k, Edge::Down).1 == st,
{
    let st1 = resolve_spec(km, st, k, Edge::Down).1;
    if st.toggled.contains(layer) {
        assert(st1.toggled.insert(layer) =~= st.toggled);
    } else {
        assert(st1.toggled.remove(layer) =~= st.toggled);
    }
}

/// The highest active layer that binds a key id to something other than `trans`
/// decides what the key does: every layer below it is shadowed, and a `trans` above it
/// falls through.
pub proof fn lemma_highest_active_binding_wins(km: Keymap, st: LayerSets, k: Seq<char>, id: u8)
    requires
        is_active(st, id),
        action_at(km, id, k) matches Some(a) && !(a is Trans),
        forall|h: u8|
            id < h && #[trigger] is_active(st, h) ==> match action_at(km, h, k) {
                Some(b) => b is Trans,
                None => true,
            },
    ensures
        resolved_action(km, st, k) == action_at(km, id, k),
{
    assert forall|h: u8| id < h implies !#[trigger] resolves_at(km, st, k, h) by {
        if is_active(st, h) {
        }
    }
    assert(is_top_layer(km, st, k, id));
    let t = choose|t: u8| is_top_layer(km, st, k, t);
    if t < id {
        assert(resolves_at(km, st, k, id));
    } else if id < t {
        assert(resolves_at(km, st, k, t));
    }
}

/// Pressing a `mo` key makes its layer active; so does pressing a `tg` key whose layer
/// was not toggled on, while a `tg` press on a toggled layer leaves it active only if it
/// is layer 0 or held.
pub proof fn lemma_layer_keys_activate_their_layer(km: Keymap, st: LayerSets, k: Seq<char>, layer: u8)
    requires
        defines_key(km, k),
    ensures
        resolved_action(km, st, k) matches Some(a) && a@ == (ActionView::Mo { layer })
            ==> is_active(resolve_spec(km, st, k, Edge::Down).1, layer),
        resolved_action(km, st, k) matches Some(a) && a@ == (ActionView::Tg { layer })
            ==> (is_active(resolve_spec(km, st, k, Edge::Down).1, layer) <==> (!st.toggled.contains(layer)
            || layer == 0 || st.momentary.contains(layer))),
{
}

proof fn lemma_top_layer_exists(km: Keymap, st: LayerSets, k: Seq<char>, id: u8)
    requires
        resolves_at(km, st, k, id),
    ensures
        exists|t: u8| is_top_layer(km, st, k, t),
    decreases 256 - id,
{
    if !is_top_layer(km, st, k, id) {
        let h = choose|h: u8| id < h && resolves_at(km, st, k, h);
        lemma_top_layer_exists(km, st, k, h);
    }
}

/// Where some layer is numbered `id`, the layer numbered `id` can be found.
pub proof fn lemma_layer_found(layers: Seq<Layer>, id: u8)
    requires
        has_layer(layers, id),
    ensures
        layer_index(layers, id) is Some,
{
    let i = choose|i: int| 0 <= i < layers.len() && (#[trigger] layers[i]).id == id;
    lemma_first_layer_exists(layers, id, i);
}

proof fn lemma_first_layer_exists(layers: Seq<Layer>, id: u8, i: int)
    requires
        0 <= i < layers.len(),
        layers[i].id == id,
    ensures
        exists|f: int| is_first_layer(layers, id, f),
    decreases i,
{
    if !is_first_layer(layers, id, i) {
        let j = choose|j: int| 0 <= j < i && (#[trigger] layers[j]).id == id;
        lemma_first_layer_exists(layers, id, j);
    }
}

proof fn lemma_first_trans_exists(keys: Seq<(String, KeyDef)>, j: int)
    requires
        0 <= j < keys.len(),
        keys[j].1.action is Trans,
    ensures
        exists|f: int| is_first_trans(keys, f),
    decreases j,
{
    if !is_first_trans(keys, j) {
        let i = choose|i: int| 0 <= i < j && (#[trigger] keys[i]).1.action is Trans;
        lemma_first_trans_exists(keys, i);
    }
}

proof fn lemma_first_problem_exists(layers: Seq<Layer>, source: Seq<char>, p: int)
    requires
        0 <= p < entries(layers).len(),
        binding_problem(layers, source, entries(layers)[p]) is Some,
    ensures
        exists|f: int| is_first_problem(layers, source, f),
    decreases p,
{
    if !is_first_problem(layers, source, p) {
        let q = choose|q: int|
            0 <= q < p && binding_problem(layers, source, #[trigger] entries(layers)[q]) is Some;
        lemma_first_problem_exists(layers, source, q);
    }
}

/// An accepted keymap has a layer 0 that binds no `trans`, and every binding of every
/// layer names dictionary keys and existing layers.
pub proof fn lemma_accepted_keymap_is_well_formed(km: Keymap, source: Seq<char>)
    requires
        keymap_problem(km, source) is None,
    ensures
        has_layer(km.layers@, 0),
        layer_index(km.layers@, 0) is Some,
        forall|j: int|
            0 <= j < km.layers@[layer_index(km.layers@, 0)->0].keys@.len() ==> !((#[trigger] km.layers@[layer_index(km.layers@, 0)->0].keys@[j]).1.action is Trans),
        forall|q: int|
            0 <= q < entries(km.layers@).len() ==> binding_problem(km.layers@, source, #[trigger] entries(km.layers@)[q]) is None,
{
    lemma_layer_found(km.layers@, 0);
    let keys0 = km.layers@[layer_index(km.layers@, 0)->0].keys@;
    assert forall|j: int| 0 <= j < keys0.len() implies !((#[trigger] keys0[j]).1.action is Trans) by {
        if keys0[j].1.action is Trans {
            lemma_first_trans_exists(keys0, j);
        }
    }
    assert forall|q: int| 0 <= q < entries(km.layers@).len() implies binding_problem(km.layers@, source, #[trigger] entries(km.layers@)[q]) is None by {
        if binding_problem(km.layers@, source, entries(km.layers@)[q]) is Some {
            lemma_first_problem_exists(km.layers@, source, q);
        }
    }
}

/// A list of key names that holds a name outside the dictionary has a first such name.
pub proof fn lemma_unknown_vk_has_a_first(keys: Seq<String>, c: int)
    requires
        0 <= c < keys.len(),
        !is_vk_name(keys[c]@),
    ensures
        exists|f: int| is_first_unknown_vk(keys, f),
    decreases c,
{
    if !is_first_unknown_vk(keys, c) {
        let d = choose|d: int| 0 <= d < c && !is_vk_name((#[trigger] keys[d])@);
        lemma_unknown_vk_has_a_first(keys, d);
    }
}

proof fn lemma_binding_is_an_entry(layers: Seq<Layer>, i: int, j: int)
    requires
        0 <= i < layers.len(),
        0 <= j < layers[i].keys@.len(),
    ensures
        exists|q: int| 0 <= q < entries(layers).len() && #[trigger] entries(layers)[q] == (layers[i].id, layers[i].keys@[j]),
    decreases layers.len(),
{
    let d = layers.drop_last();
    let last = layers.last();
    let tail = last.keys@.map_values(|e: (String, KeyDef)| (last.id, e));
    assert(entries(layers) == entries(d) + tail);
    if i == layers.len() - 1 {
        let q = entries(d).len() + j;
        assert(entries(layers)[q] == tail[j]);
    } else {
        lemma_binding_is_an_entry(d, i, j);
        let q = choose|q: int| 0 <= q < entries(d).len() && #[trigger] entries(d)[q] == (d[i].id, d[i].keys@[j]);
        assert(entries(layers)[q] == entries(d)[q]);
    }
}

/// What a binding names is there: a key is in the dictionary, every key of a chord is
/// in the dictionary, and a `mo` or `tg` names a layer of `layers`.
pub open spec fn names_what_exists(layers: Seq<Layer>, a: Action) -> bool {
    match a {
        Action::Key { vk } => is_vk_name(vk@),
        Action::Chord { keys } => forall|c: int| 0 <= c < keys@.len() ==> is_vk_name((#[trigger] keys@[c])@),
        Action::Mo { layer } => has_layer(layers, layer),
        Action::Tg { layer } => has_layer(layers, layer),
        _ => true,
    }
}

/// An accepted keymap names only dictionary keys and existing layers: in every layer,
/// a key binding names a dictionary key, each key of a chord (every one of them, the
/// modifiers as well as the last) is in the dictionary, and each `mo`/`tg` names a
/// layer of the keymap.
pub proof fn lemma_accepted_keymap_names_known_keys(km: Keymap, source: Seq<char>)
    requires
        keymap_problem(km, source) is None,
    ensures
        forall|i: int, j: int|
            0 <= i < km.layers@.len() && 0 <= j < km.layers@[i].keys@.len()
                ==> names_what_exists(km.layers@, (#[trigger] km.layers@[i].keys@[j]).1.action),
{
    lemma_accepted_keymap_is_well_formed(km, source);
    let layers = km.layers@;
    assert forall|i: int, j: int|
        0 <= i < layers.len() && 0 <= j < layers[i].keys@.len()
            implies names_what_exists(layers, (#[trigger] layers[i].keys@[j]).1.action) by {
        lemma_binding_is_an_entry(layers, i, j);
        let q = choose|q: int| 0 <= q < entries(layers).len() && #[trigger] entries(layers)[q] == (layers[i].id, layers[i].keys@[j]);
        assert(binding_problem(layers, source, entries(layers)[q]) is None);
        match layers[i].keys@[j].1.action {
            Action::Chord { keys } => {
                assert forall|c: int| 0 <= c < keys@.len() implies is_vk_name((#[trigger] keys@[c])@) by {
                    if !is_vk_name(keys@[c]@) {
                        lemma_unknown_vk_has_a_first(keys@, c);
                    }
                }
            },
            _ => {},
        }
    }
}

/// In an accepted keymap, a key id that layer 0 binds always resolves: layer 0 is
/// always active and binds no `trans`, so the walk down the layers ends at the latest
/// in layer 0.
pub proof fn lemma_layer0_key_always_resolves(km: Keymap, source: Seq<char>, st: LayerSets, k: Seq<char>, edge: Edge)
    requires
        keymap_problem(km, source) is None,
        action_at(km, 0, k) is Some,
    ensures
        !(resolve_spec(km, st, k, edge).0 is UnknownKey),
        !(resolve_spec(km, st, k, edge).0 is NoResolution),
{
    lemma_accepted_keymap_is_well_formed(km, source);
    let i = layer_index(km.layers@, 0)->0;
    let j = key_index(km.layers@[i].keys@, k)->0;
    assert(km.layers@[i].keys@[j].0@ == k);
    assert(defines_key(km, k));
    assert(!(km.layers@[i].keys@[j].1.action is Trans));
    assert(resolves_at(km, st, k, 0));
    lemma_top_layer_exists(km, st, k, 0);
}

} // verus!
