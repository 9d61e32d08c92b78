//! Deck setlists: pages of slots, each bound to an action, and their load-time checks.
use vstd::prelude::*;
use crate::keymap::{is_first_unknown_vk, lemma_unknown_vk_has_a_first, Action, LOAD_JSON_SYNTAX, LOAD_SCHEMA_INVALID, LOAD_VK_UNKNOWN};
use crate::json::{json_syntax_error, parse_json_value};
use crate::strmap::StrMap;
use crate::vk::{is_known_vk, is_vk_name};

verus! {

/// A rejected deck: an error code and a readable cause naming the source and the slot.
#[derive(Debug, Clone, PartialEq, Eq)]
pub struct DeckError {
    pub code: &'static str,
    pub cause: String,
}

impl DeckError {
    /// The error with code `code` and cause `cause`.
    pub fn new(code: &'static str, cause: String) -> (r: Self)
        ensures
            r.code == code,
            r.cause@ == cause@,
    {
        DeckError { code, cause }
    }

    /// The error with code `code` for the file `source`: the cause is the source, a
    /// colon and `message`.
    pub fn for_source(code: &'static str, source: &str, message: &str) -> (r: Self)
        ensures
            r.code == code,
            r.cause@ == source@ + ": "@ + message@,
    {
        let mut cause = source.to_owned();
        cause.append(": ");
        cause.append(message);
        DeckError { code, cause }
    }

    /// The error `[code] cause` as one line of text.
    pub fn to_text(&self) -> (r: String)
        ensures
            r@ == "["@ + self.code@ + "] "@ + self.cause@,
    {
        let mut s = "[".to_owned();
        s.append(self.code);
        s.append("] ");
        s.append(self.cause.as_str());
        s
    }
}

/// Reads the text of a deck file from `source` as JSON. Text that is not JSON is
/// refused with `LOAD_JSON_SYNTAX`, the reader's message in the cause.
pub fn deck_json(source: &str, text: &str) -> (r: Result<serde_json::Value, DeckError>)
    ensures
        match json_syntax_error(text@) {
            None => r is Ok,
            Some(m) => r matches Err(e) && e.code == LOAD_JSON_SYNTAX && e.cause@ == source@ + ": "@ + m,
        },
{
    match parse_json_value(text) {
        Ok(v) => Ok(v),
        Err(message) => Err(DeckError::for_source(LOAD_JSON_SYNTAX, source, message.as_str())),
    }
}

/// The number of slot columns and rows on a page.
#[derive(Debug, Clone, Copy, PartialEq, Eq)]
pub struct Grid {
    pub cols: u8,
    pub rows: u8,
}

/// One button of the deck.
#[derive(Debug, Clone, PartialEq, Eq)]
pub struct Slot {
    pub slot_id: String,
    pub label: String,
    pub icon: Option<String>,
    pub action: Action,
}

/// A page of slots.
#[derive(Debug, Clone, PartialEq, Eq)]
pub struct Page {
    pub id: u32,
    pub slots: Vec<Slot>,
}

/// A deck setlist: its id, the grid and the pages.
#[derive(Debug, Clone, PartialEq, Eq)]
pub struct DeckSetlist {
    pub deck_id: String,
    pub description: String,
    pub grid: Grid,
    pub pages: Vec<Page>,
}

/// The slots of all pages, page by page.
pub open spec fn deck_slots(pages: Seq<Page>) -> Seq<Slot>
    decreases pages.len(),
{
    if pages.len() == 0 {
        seq![]
    } else {
        deck_slots(pages.drop_last()) + pages.last().slots@
    }
}

/// `p` is the first position of slot id `id` among `slots`.
pub open spec fn is_first_slot(slots: Seq<Slot>, id: Seq<char>, p: int) -> bool {
    &&& 0 <= p < slots.len()
    &&& slots[p].slot_id@ == id
    &&& forall|q: int| 0 <= q < p ==> (#[trigger] slots[q]).slot_id@ != id
}

proof fn lemma_slots_step(pages: Seq<Page>, i: int)
    requires
        0 <= i < pages.len(),
    ensures
        deck_slots(pages.take(i + 1)) == deck_slots(pages.take(i)) + pages[i].slots@,
{
    assert(pages.take(i + 1).drop_last() =~= pages.take(i));
}

/// All slots of `pages`, page by page.
fn all_slots(pages: &Vec<Page>) -> (r: Vec<&Slot>)
    ensures
        r@.len() == deck_slots(pages@).len(),
        forall|p: int| 0 <= p < r@.len() ==> *r@[p] == deck_slots(pages@)[p],
{
    let mut r: Vec<&Slot> = Vec::new();
    let n = pages.len();
    assert(pages@.take(0) =~= Seq::<Page>::empty());
    for i in 0..n
        invariant
            n == pages@.len(),
            r@.len() == deck_slots(pages@.take(i as int)).len(),
            forall|p: int| 0 <= p < r@.len() ==> *r@[p] == deck_slots(pages@.take(i as int))[p],
    {
        proof {
            lemma_slots_step(pages@, i as int);
        }
        let page = &pages[i];
        let m = page.slots.len();
        let ghost base = r@.len();
        for j in 0..m
            invariant
                m == page.slots@.len(),
                *page == pages@[i as int],
                0 <= i < n,
                n == pages@.len(),
                base == deck_slots(pages@.take(i as int)).len(),
                deck_slots(pages@.take(i + 1)) == deck_slots(pages@.take(i as int)) + page.slots@,
                r@.len() == base + j,
                forall|p: int| 0 <= p < r@.len() ==> *r@[p] == deck_slots(pages@.take(i + 1))[p],
        {
            r.push(&page.slots[j]);
        }
    }
    assert(pages@.take(n as int) =~= pages@);
    r
}

impl DeckSetlist {
    /// The first slot with id `slot_id`, over the pages in order.
    pub fn find_slot(&self, slot_id: &str) -> (r: Option<&Slot>)
        ensures
            match r {
                Some(s) => exists|p: int| is_first_slot(deck_slots(self.pages@), slot_id@, p) && *s == deck_slots(self.pages@)[p],
                None => forall|p: int| 0 <= p < deck_slots(self.pages@).len() ==> (#[trigger] deck_slots(self.pages@)[p]).slot_id@ != slot_id@,
            },
    {
        let slots = all_slots(&self.pages);
        let id = slot_id.to_owned();
        let n = slots.len();
        for p in 0..n
            invariant
                n == slots@.len(),
                slots@.len() == deck_slots(self.pages@).len(),
                forall|q: int| 0 <= q < slots@.len() ==> *slots@[q] == deck_slots(self.pages@)[q],
                id@ == slot_id@,
                forall|q: int| 0 <= q < p ==> (#[trigger] deck_slots(self.pages@)[q]).slot_id@ != slot_id@,
        {
            if slots[p].slot_id == id {
                assert(is_first_slot(deck_slots(self.pages@), slot_id@, p as int));
                return Some(slots[p]);
            }
        }
        None
    }

    /// The action of every slot, page by page.
    pub fn actions(&self) -> (r: Vec<&Action>)
        ensures
            r@.len() == deck_slots(self.pages@).len(),
            forall|p: int| 0 <= p < r@.len() ==> *r@[p] == (#[trigger] deck_slots(self.pages@)[p]).action,
    {
        let slots = all_slots(&self.pages);
        let mut r: Vec<&Action> = Vec::new();
        let n = slots.len();
        for p in 0..n
            invariant
                n == slots@.len(),
                slots@.len() == deck_slots(self.pages@).len(),
                forall|q: int| 0 <= q < slots@.len() ==> *slots@[q] == deck_slots(self.pages@)[q],
                r@.len() == p,
                forall|q: int| 0 <= q < p ==> *r@[q] == (#[trigger] deck_slots(self.pages@)[q]).action,
        {
            r.push(&slots[p].action);
        }
        r
    }
}

/// Slot `p` repeats the id of an earlier slot.
pub open spec fn repeats_id(slots: Seq<Slot>, p: int) -> bool {
    exists|q: int| 0 <= q < p && (#[trigger] slots[q]).slot_id@ == slots[p].slot_id@
}

/// `p` is the first slot that repeats an earlier slot's id.
pub open spec fn is_first_repeat(slots: Seq<Slot>, p: int) -> bool {
    &&& 0 <= p < slots.len()
    &&& repeats_id(slots, p)
    &&& forall|q: int| 0 <= q < p ==> !#[trigger] repeats_id(slots, q)
}

/// What is wrong with the action of slot `s`: a key or chord outside the dictionary,
/// or a keyboard-layer action (`mo`, `tg`, `trans`), which has no meaning on the deck.
pub open spec fn slot_problem(source: Seq<char>, s: Slot) -> Option<(&'static str, Seq<char>)> {
    let prefix = source + ": slot '"@ + s.slot_id@;
    match s.action {
        Action::Key { vk } => if is_vk_name(vk@) {
            None
        } else {
            Some((LOAD_VK_UNKNOWN, prefix + "': unknown vk '"@ + vk@ + "'"@))
        },
        Action::Chord { keys } => if exists|c: int| is_first_unknown_vk(keys@, c) {
            let c = choose|c: int| is_first_unknown_vk(keys@, c);
            Some((LOAD_VK_UNKNOWN, prefix + "': unknown vk '"@ + keys@[c]@ + "' in chord"@))
        } else {
            None
        },
        Action::Mo { .. } | Action::Tg { .. } | Action::Trans => Some((
            LOAD_SCHEMA_INVALID,
            prefix + "': mo/tg/trans are keyboard-layer actions and are not valid on the Deck"@,
        )),
        _ => None,
    }
}

/// No slot of `deck` holds a keyboard-layer action (`mo`, `tg`, `trans`).
pub open spec fn deck_fireable(deck: DeckSetlist) -> bool {
    forall|p: int|
        0 <= p < deck_slots(deck.pages@).len() ==> {
            let a = (#[trigger] deck_slots(deck.pages@)[p]).action@;
            !(a is Mo) && !(a is Tg) && !(a is Trans)
        }
}

/// `p` is the first slot whose action is faulty.
pub open spec fn is_first_bad_slot(source: Seq<char>, slots: Seq<Slot>, p: int) -> bool {
    &&& 0 <= p < slots.len()
    &&& slot_problem(source, slots[p]) is Some
    &&& forall|q: int| 0 <= q < p ==> slot_problem(source, #[trigger] slots[q]) is None
}

/// Why `deck`, read from `source`, is rejected, checked in this order: a slot id used
/// twice (over all pages); a faulty slot action. `None` when the deck is accepted.
pub open spec fn deck_problem(deck: DeckSetlist, source: Seq<char>) -> Option<(&'static str, Seq<char>)> {
    let slots = deck_slots(deck.pages@);
    if exists|p: int| is_first_repeat(slots, p) {
        let p = choose|p: int| is_first_repeat(slots, p);
        Some((LOAD_SCHEMA_INVALID, source + ": duplicate slotId '"@ + slots[p].slot_id@ + "'"@))
    } else if exists|p: int| is_first_bad_slot(source, slots, p) {
        let p = choose|p: int| is_first_bad_slot(source, slots, p);
        slot_problem(source, slots[p])
    } else {
        None
    }
}

/// The result of checking a deck that has the deck's shape.
pub open spec fn deck_validated(deck: DeckSetlist, source: Seq<char>, r: Result<DeckSetlist, DeckError>) -> bool {
    match deck_problem(deck, source) {
        None => r == Ok::<DeckSetlist, DeckError>(deck),
        Some((code, cause)) => match r {
            Ok(_) => false,
            Err(e) => e.code == code && e.cause@ == cause,
        },
    }
}

fn first_unknown(keys: &Vec<String>) -> (r: Option<usize>)
    ensures
        match r {
            Some(c) => is_first_unknown_vk(keys@, c as int),
            None => forall|c: int| !is_first_unknown_vk(keys@, c),
        },
{
    let n = keys.len();
    for c in 0..n
        invariant
            n == keys@.len(),
            forall|d: int| 0 <= d < c ==> is_vk_name((#[trigger] keys@[d])@),
    {
        if !is_known_vk(keys[c].as_str()) {
            return Some(c);
        }
    }
    None
}

fn slot_problem_exec(source: &str, s: &Slot) -> (r: Option<DeckError>)
    ensures
        match slot_problem(source@, *s) {
            None => r is None,
            Some((code, cause)) => r matches Some(e) && e.code == code && e.cause@ == cause,
        },
{
    let mut prefix = source.to_owned();
    prefix.append(": slot '");
    prefix.append(s.slot_id.as_str());
    match &s.action {
        Action::Key { vk } => {
            if is_known_vk(vk.as_str()) {
                None
            } else {
                prefix.append("': unknown vk '");
                prefix.append(vk.as_str());
                prefix.append("'");
                Some(DeckError { code: LOAD_VK_UNKNOWN, cause: prefix })
            }
        },
        Action::Chord { keys } => match first_unknown(keys) {
            Some(c) => {
                prefix.append("': unknown vk '");
                prefix.append(keys[c].as_str());
                prefix.append("' in chord");
                Some(DeckError { code: LOAD_VK_UNKNOWN, cause: prefix })
            },
            None => None,
        },
        Action::Mo { .. } | Action::Tg { .. } | Action::Trans => {
            prefix.append("': mo/tg/trans are keyboard-layer actions and are not valid on the Deck");
            Some(DeckError { code: LOAD_SCHEMA_INVALID, cause: prefix })
        },
        _ => None,
    }
}

/// Checks a deck that has the deck's shape: slot ids are unique over all pages, keys
/// and chords name dictionary keys, and no slot holds a keyboard-layer action.
/// `source` names where the deck came from, for the cause.
pub fn validate_deck(source: &str, deck: DeckSetlist) -> (r: Result<DeckSetlist, DeckError>)
    ensures
        deck_validated(deck, source@, r),
        r matches Ok(d) ==> deck_fireable(d),
        r matches Ok(d) ==> forall|p: int|
            0 <= p < deck_slots(d.pages@).len() ==> deck_action_ok((#[trigger] deck_slots(d.pages@)[p]).action),
{
    let ghost slots_spec = deck_slots(deck.pages@);
    let slots = all_slots(&deck.pages);
    let n = slots.len();
    let mut seen: StrMap<()> = StrMap::new();
    for p in 0..n
        invariant
            n == slots@.len(),
            slots@.len() == slots_spec.len(),
            slots_spec == deck_slots(deck.pages@),
            forall|q: int| 0 <= q < slots@.len() ==> *slots@[q] == slots_spec[q],
            seen.wf(),
            forall|k: Seq<char>| #[trigger] seen@.contains_key(k) <==> exists|q: int| 0 <= q < p && (#[trigger] slots_spec[q]).slot_id@ == k,
            forall|q: int| 0 <= q < p ==> !#[trigger] repeats_id(slots_spec, q),
    {
        let id = slots[p].slot_id.clone();
        let found = seen.insert(id, ());
        if found.is_some() {
            proof {
                assert(repeats_id(slots_spec, p as int));
                assert(is_first_repeat(slots_spec, p as int));
                let p2 = choose|p2: int| is_first_repeat(slots_spec, p2);
                if p2 < p {
                    assert(!repeats_id(slots_spec, p2));
                } else if p < p2 {
                    assert(!repeats_id(slots_spec, p as int));
                }
            }
            let mut cause = source.to_owned();
            cause.append(": duplicate slotId '");
            cause.append(slots[p].slot_id.as_str());
            cause.append("'");
            return Err(DeckError { code: LOAD_SCHEMA_INVALID, cause });
        }
        proof {
            assert(!repeats_id(slots_spec, p as int));
            assert forall|k: Seq<char>| #[trigger] seen@.contains_key(k) <==> exists|q: int| 0 <= q < p + 1 && (#[trigger] slots_spec[q]).slot_id@ == k by {
                if k == slots_spec[p as int].slot_id@ {
                    assert(slots_spec[p as int].slot_id@ == k);
                }
            }
        }
    }
    assert(!exists|p: int| is_first_repeat(slots_spec, p));
    for p in 0..n
        invariant
            n == slots@.len(),
            slots@.len() == slots_spec.len(),
            slots_spec == deck_slots(deck.pages@),
            forall|q: int| 0 <= q < slots@.len() ==> *slots@[q] == slots_spec[q],
            !exists|p: int| is_first_repeat(slots_spec, p),
            forall|q: int| 0 <= q < p ==> slot_problem(source@, #[trigger] slots_spec[q]) is None,
    {
        match slot_problem_exec(source, slots[p]) {
            Some(e) => {
                proof {
                    assert(is_first_bad_slot(source@, slots_spec, p as int));
                    let p2 = choose|p2: int| is_first_bad_slot(source@, slots_spec, p2);
                    if p2 < p {
                        assert(slot_problem(source@, slots_spec[p2]) is None);
                    } else if p < p2 {
                        assert(slot_problem(source@, slots_spec[p as int]) is None);
                    }
                }
                return Err(e);
            },
            None => {},
        }
    }
    proof {
        lemma_accepted_deck_is_fireable(deck, source@);
        lemma_accepted_deck_names_known_keys(deck, source@);
    }
    Ok(deck)
}

proof fn lemma_first_bad_slot_exists(source: Seq<char>, slots: Seq<Slot>, p: int)
    requires
        0 <= p < slots.len(),
        slot_problem(source, slots[p]) is Some,
    ensures
        exists|q: int| is_first_bad_slot(source, slots, q),
    decreases p,
{
    if exists|q: int| 0 <= q < p && slot_problem(source, #[trigger] slots[q]) is Some {
        let q = choose|q: int| 0 <= q < p && slot_problem(source, #[trigger] slots[q]) is Some;
        lemma_first_bad_slot_exists(source, slots, q);
    } else {
        assert(is_first_bad_slot(source, slots, p));
    }
}

/// An accepted deck holds no keyboard-layer action.
pub proof fn lemma_accepted_deck_is_fireable(deck: DeckSetlist, source: Seq<char>)
    requires
        deck_problem(deck, source) is None,
    ensures
        deck_fireable(deck),
{
    let slots = deck_slots(deck.pages@);
    assert forall|p: int| 0 <= p < slots.len() implies {
        let a = (#[trigger] slots[p]).action@;
        !(a is Mo) && !(a is Tg) && !(a is Trans)
    } by {
        if slot_problem(source, slots[p]) is Some {
            lemma_first_bad_slot_exists(source, slots, p);
        }
    }
}

/// What a slot of an accepted deck may hold: a key names a dictionary key, every key
/// of a chord is in the dictionary, and no keyboard-layer action (`mo`, `tg`, `trans`).
pub open spec fn deck_action_ok(a: Action) -> bool {
    match a {
        Action::Key { vk } => is_vk_name(vk@),
        Action::Chord { keys } => forall|c: int| 0 <= c < keys@.len() ==> is_vk_name((#[trigger] keys@[c])@),
        Action::Mo { .. } | Action::Tg { .. } | Action::Trans => false,
        _ => true,
    }
}

/// An accepted deck names only dictionary keys: over all pages, slot ids are distinct,
/// a key slot names a dictionary key, each key of a chord slot (every one of them, the
/// modifiers as well as the last) is in the dictionary, and no slot holds a
/// keyboard-layer action.
pub proof fn lemma_accepted_deck_names_known_keys(deck: DeckSetlist, source: Seq<char>)
    requires
        deck_problem(deck, source) is None,
    ensures
        forall|p: int, q: int|
            0 <= p < q < deck_slots(deck.pages@).len() ==> (#[trigger] deck_slots(deck.pages@)[p]).slot_id@
                != (#[trigger] deck_slots(deck.pages@)[q]).slot_id@,
        forall|p: int|
            0 <= p < deck_slots(deck.pages@).len() ==> deck_action_ok((#[trigger] deck_slots(deck.pages@)[p]).action),
{
    let slots = deck_slots(deck.pages@);
    assert forall|p: int, q: int| 0 <= p < q < slots.len() implies (#[trigger] slots[p]).slot_id@
        != (#[trigger] slots[q]).slot_id@ by {
        if slots[p].slot_id@ == slots[q].slot_id@ {
            assert(repeats_id(slots, q));
            lemma_first_repeat_exists(slots, q);
        }
    }
    assert forall|p: int| 0 <= p < slots.len() implies deck_action_ok((#[trigger] slots[p]).action) by {
        if slot_problem(source, slots[p]) is Some {
            lemma_first_bad_slot_exists(source, slots, p);
        }
        match slots[p].action {
            Action::Chord { keys } => {
                assert forall|c: int| 0 <= c < keys@.len() implies is_vk_name((#[trigger] keys@[c])@) by {
                    if !is_vk_name(keys@[c]@) {
                        lemma_unknown_vk_has_a_first(keys@, c);
                    }
                }
            },
            _ => {},
        }
    }
}

proof fn lemma_first_repeat_exists(slots: Seq<Slot>, p: int)
    requires
        0 <= p < slots.len(),
        repeats_id(slots, p),
    ensures
        exists|f: int| is_first_repeat(slots, f),
    decreases p,
{
    if !is_first_repeat(slots, p) {
        let q = choose|q: int| 0 <= q < p && #[trigger] repeats_id(slots, q);
        lemma_first_repeat_exists(slots, q);
    }
}

} // verus!
