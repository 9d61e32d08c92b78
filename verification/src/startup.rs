//! What the hub starts with (and reloads): the keymaps from the keymap files, the
//! deck, and the allow-list of the actions they bind. Any error rejects the whole
//! set; nothing is applied in part.
use vstd::prelude::*;
use crate::deck::{deck_slots, DeckError, DeckSetlist, Slot};
use crate::hub::{command_id_of, IPAD_KEYMAP_ID};
use crate::hub_core::{id_set, CommandRegistry};
use crate::keymap::{Action, ActionView, KeyDef, Keymap, KeymapError, Layer, LOAD_SCHEMA_INVALID};
use crate::strmap::{ascending, map_of, StrMap};
use crate::text::{chars_less, chars_of, seq_lt};
use crate::hub::canonical_command_id;

verus! {

/// The keymaps by id, the deck and the allow-list that the hub runs with.
pub struct StartupData {
    pub keymaps: StrMap<Keymap>,
    pub deck: DeckSetlist,
    pub command_registry: CommandRegistry,
}

/// The keymaps that the loads in `loads` give, each under its id; a later keymap
/// with the same id replaces an earlier one.
pub open spec fn loads_map(loads: Seq<(String, Result<Keymap, KeymapError>)>) -> Map<Seq<char>, Keymap>
    decreases loads.len(),
{
    if loads.len() == 0 {
        Map::empty()
    } else {
        let m = loads_map(loads.drop_last());
        match loads.last().1 {
            Ok(km) => m.insert(km.keymap_id@, km),
            Err(_) => m,
        }
    }
}

/// `[code] cause` for a keymap error.
pub open spec fn keymap_error_text(e: KeymapError) -> Seq<char> {
    "["@ + e.code@ + "] "@ + e.cause@
}

/// `[code] cause` for a deck error.
pub open spec fn deck_error_text(e: DeckError) -> Seq<char> {
    "["@ + e.code@ + "] "@ + e.cause@
}

/// One line for each failed load of `loads`, in order: the path, a colon and the error.
pub open spec fn load_errors(loads: Seq<(String, Result<Keymap, KeymapError>)>) -> Seq<Seq<char>>
    decreases loads.len(),
{
    if loads.len() == 0 {
        seq![]
    } else {
        let e = load_errors(loads.drop_last());
        match loads.last().1 {
            Ok(_) => e,
            Err(err) => e.push(loads.last().0@ + ": "@ + keymap_error_text(err)),
        }
    }
}

/// The actions bound in the key list `keys`, in order.
pub open spec fn layer_actions(keys: Seq<(String, KeyDef)>) -> Seq<ActionView> {
    keys.map_values(|e: (String, KeyDef)| e.1.action@)
}

/// The actions bound in `layers`, layer by layer.
pub open spec fn keymap_actions(layers: Seq<Layer>) -> Seq<ActionView>
    decreases layers.len(),
{
    if layers.len() == 0 {
        seq![]
    } else {
        keymap_actions(layers.drop_last()) + layer_actions(layers.last().keys@)
    }
}

/// The actions bound in the keymaps of `es`, keymap by keymap.
pub open spec fn table_actions(es: Seq<(String, Keymap)>) -> Seq<ActionView>
    decreases es.len(),
{
    if es.len() == 0 {
        seq![]
    } else {
        table_actions(es.drop_last()) + keymap_actions(es.last().1.layers@)
    }
}

/// The actions of the slots `slots`, in order.
pub open spec fn slot_actions(slots: Seq<Slot>) -> Seq<ActionView> {
    slots.map_values(|s: Slot| s.action@)
}

/// Every action the hub can meet: those of the keymaps of `es` in order, then those
/// of the deck.
pub open spec fn startup_actions(es: Seq<(String, Keymap)>, deck: DeckSetlist) -> Seq<ActionView> {
    table_actions(es) + slot_actions(deck_slots(deck.pages@))
}

/// The error line for a keymap switch to `id`, which is not loaded.
pub open spec fn unknown_switch_error(id: Seq<char>) -> Seq<char> {
    "["@ + LOAD_SCHEMA_INVALID@ + "] keymap.switch references unknown keymapId '"@ + id + "'"@
}

/// One error line for each keymap switch in `acts` whose keymap `m` lacks, in order.
pub open spec fn switch_errors(acts: Seq<ActionView>, m: Map<Seq<char>, Keymap>) -> Seq<Seq<char>>
    decreases acts.len(),
{
    if acts.len() == 0 {
        seq![]
    } else {
        let e = switch_errors(acts.drop_last(), m);
        match acts.last() {
            ActionView::KeymapSwitch { id } => if m.contains_key(id) {
                e
            } else {
                e.push(unknown_switch_error(id))
            },
            _ => e,
        }
    }
}

/// The allow-list ids of the actions of `acts` that have one, in order.
pub open spec fn action_ids(acts: Seq<ActionView>) -> Seq<Seq<char>>
    decreases acts.len(),
{
    if acts.len() == 0 {
        seq![]
    } else {
        let e = action_ids(acts.drop_last());
        match command_id_of(acts.last()) {
            Some(id) => e.push(id),
            None => e,
        }
    }
}

/// The error line when no keymap file was found under `dir`.
pub open spec fn no_files_error(dir: Seq<char>) -> Seq<char> {
    "["@ + LOAD_SCHEMA_INVALID@ + "] no keymap_*.json files found under "@ + dir
}

/// The error line when the iPad keymap is not among the loaded keymaps.
pub open spec fn ipad_missing_error() -> Seq<char> {
    "["@ + LOAD_SCHEMA_INVALID@ + "] ipad surface requires keymapId '"@ + IPAD_KEYMAP_ID@
        + "' to be loaded"@
}

/// The errors of a startup, in the order they are found: no keymap file at all;
/// each failed keymap load; then, if there was none of those, a missing iPad keymap;
/// a failed deck load; and, only when everything so far succeeded, each keymap switch
/// (over the keymaps `es` in id order, then the deck) to a keymap that is not loaded.
pub open spec fn startup_errors(
    dir: Seq<char>,
    loads: Seq<(String, Result<Keymap, KeymapError>)>,
    deck_path: Seq<char>,
    deck_load: Result<DeckSetlist, DeckError>,
    es: Seq<(String, Keymap)>,
) -> Seq<Seq<char>> {
    let m = loads_map(loads);
    let e1 = (if loads.len() == 0 {
        seq![no_files_error(dir)]
    } else {
        seq![]
    }) + load_errors(loads);
    let e2 = if e1.len() == 0 && !m.contains_key(IPAD_KEYMAP_ID@) {
        e1.push(ipad_missing_error())
    } else {
        e1
    };
    match deck_load {
        Ok(deck) => if e2.len() == 0 {
            switch_errors(startup_actions(es, deck), m)
        } else {
            e2
        },
        Err(e) => e2.push(deck_path + ": "@ + deck_error_text(e)),
    }
}

/// The characters of each string of `v`.
pub open spec fn texts(v: Seq<String>) -> Seq<Seq<char>> {
    v.map_values(|s: String| s@)
}

proof fn lemma_texts_push(v: Seq<String>, s: String)
    ensures
        texts(v.push(s)) == texts(v).push(s@),
{
    assert(texts(v.push(s)) =~= texts(v).push(s@));
}

proof fn lemma_views_push<'a>(v: Seq<&'a Action>, a: &'a Action)
    ensures
        v.push(a).map_values(|x: &Action| x@) == v.map_values(|x: &Action| x@).push(a@),
{
    assert(v.push(a).map_values(|x: &Action| x@) =~= v.map_values(|x: &Action| x@).push(a@));
}

/// A keymap file's name: `keymap_` first and `.json` last.
pub open spec fn is_keymap_file_name(name: Seq<char>) -> bool {
    &&& name.len() >= 7
    &&& name.take(7) == "keymap_"@
    &&& name.len() >= 5
    &&& name.skip(name.len() - 5) == ".json"@
}

/// The keymap file names among `names`, in their order.
pub open spec fn keymap_names(names: Seq<Seq<char>>) -> Seq<Seq<char>>
    decreases names.len(),
{
    if names.len() == 0 {
        seq![]
    } else if is_keymap_file_name(names.last()) {
        keymap_names(names.drop_last()).push(names.last())
    } else {
        keymap_names(names.drop_last())
    }
}

/// `s` is in ascending string order (equal strings may repeat).
pub open spec fn in_name_order(s: Seq<Seq<char>>) -> bool {
    forall|i: int, j: int| 0 <= i < j < s.len() ==> !seq_lt(#[trigger] s[j], #[trigger] s[i])
}

fn matches_keymap_file_name(name: &str) -> (r: bool)
    ensures
        r == is_keymap_file_name(name@),
{
    let w = chars_of(name);
    let n = w.len();
    let prefix: [char; 7] = ['k', 'e', 'y', 'm', 'a', 'p', '_'];
    let suffix: [char; 5] = ['.', 'j', 's', 'o', 'n'];
    proof {
        reveal_strlit("keymap_");
        reveal_strlit(".json");
        assert(prefix@ =~= "keymap_"@);
        assert(suffix@ =~= ".json"@);
    }
    if n < 7 {
        return false;
    }
    let mut i: usize = 0;
    while i < 7
        invariant
            i <= 7,
            n == w@.len(),
            n >= 7,
            w@ == name@,
            prefix@ == "keymap_"@,
            forall|j: int| 0 <= j < i ==> w@[j] == prefix@[j],
        decreases 7 - i,
    {
        if w[i] != prefix[i] {
            assert(w@.take(7)[i as int] != "keymap_"@[i as int]);
            return false;
        }
        i = i + 1;
    }
    assert(w@.take(7) =~= "keymap_"@);
    let mut k: usize = 0;
    while k < 5
        invariant
            k <= 5,
            n == w@.len(),
            n >= 7,
            w@ == name@,
            suffix@ == ".json"@,
            forall|j: int| 0 <= j < k ==> w@[n - 5 + j] == suffix@[j],
        decreases 5 - k,
    {
        if w[n - 5 + k] != suffix[k] {
            assert(w@.skip(n - 5)[k as int] != ".json"@[k as int]);
            return false;
        }
        k = k + 1;
    }
    assert(w@.skip(n - 5) =~= ".json"@);
    true
}

/// The keymap files among a directory's entry names `names`: those named `keymap_`
/// ... `.json`, in ascending name order.
pub fn keymap_file_names(names: Vec<String>) -> (r: Vec<String>)
    ensures
        in_name_order(texts(r@)),
        texts(r@).to_multiset() == keymap_names(texts(names@)).to_multiset(),
{
    broadcast use vstd::seq_lib::group_to_multiset_ensures;
    let ghost all = texts(names@);
    let mut r: Vec<String> = Vec::new();
    assert(texts(r@) =~= Seq::<Seq<char>>::empty());
    let n = names.len();
    assert(all.take(0) =~= Seq::<Seq<char>>::empty());
    for i in 0..n
        invariant
            n == names@.len(),
            all == texts(names@),
            in_name_order(texts(r@)),
            texts(r@).to_multiset() == keymap_names(all.take(i as int)).to_multiset(),
    {
        assert(all.take(i + 1).drop_last() =~= all.take(i as int));
        assert(all.take(i + 1).last() == names@[i as int]@);
        let name = names[i].clone();
        if matches_keymap_file_name(name.as_str()) {
            let x = chars_of(name.as_str());
            let ghost before = texts(r@);
            let mut p: usize = 0;
            let m = r.len();
            while p < m
                invariant
                    m == r@.len(),
                    p <= m,
                    before == texts(r@),
                    x@ == name@,
                    forall|j: int| 0 <= j < p ==> !seq_lt(x@, #[trigger] before[j]),
                ensures
                    p <= m,
                    forall|j: int| 0 <= j < p ==> !seq_lt(x@, #[trigger] before[j]),
                    p < m ==> seq_lt(x@, before[p as int]),
                decreases m - p,
            {
                let y = chars_of(r[p].as_str());
                if chars_less(&x, &y) {
                    break;
                }
                p = p + 1;
            }
            let ghost gt = p < m;
            assert(p < m ==> seq_lt(x@, before[p as int]));
            r.insert(p, name);
            proof {
                let after = texts(r@);
                assert(after =~= before.insert(p as int, name@));
                assert forall|a: int, b: int| 0 <= a < b < after.len() implies !seq_lt(#[trigger] after[b], #[trigger] after[a]) by {
                    if a == p {
                        let e = before[b - 1];
                        if b - 1 > p {
                            assert(!seq_lt(e, before[p as int]));
                            crate::text::lemma_seq_lt_total(e, before[p as int]);
                            if seq_lt(e, name@) {
                                if e == before[p as int] {
                                } else {
                                    crate::text::lemma_seq_lt_transitive(name@, before[p as int], e);
                                    crate::text::lemma_seq_lt_total(e, name@);
                                }
                            }
                        } else {
                            crate::text::lemma_seq_lt_total(e, name@);
                        }
                    } else if b == p {
                        assert(!seq_lt(x@, before[a]));
                    } else if a < p && b > p {
                        let e = before[b - 1];
                        let d = before[a];
                        assert(!seq_lt(x@, d));
                        if b - 1 >= p {
                            assert(seq_lt(x@, before[p as int]));
                            if b - 1 > p {
                                assert(!seq_lt(e, before[p as int]));
                                crate::text::lemma_seq_lt_total(e, before[p as int]);
                                if e != before[p as int] {
                                    crate::text::lemma_seq_lt_transitive(x@, before[p as int], e);
                                }
                            }
                            crate::text::lemma_seq_lt_total(d, x@);
                            if seq_lt(e, d) {
                                if d == x@ {
                                    crate::text::lemma_seq_lt_total(e, x@);
                                } else {
                                    crate::text::lemma_seq_lt_transitive(e, d, x@);
                                    crate::text::lemma_seq_lt_total(e, x@);
                                }
                            }
                        }
                    } else if b < p {
                        assert(!seq_lt(before[b], before[a]));
                    } else {
                        assert(!seq_lt(before[b - 1], before[a - 1]));
                    }
                }
                vstd::seq_lib::to_multiset_insert(before, p as int, name@);
                vstd::seq_lib::to_multiset_build(keymap_names(all.take(i as int)), name@);
            }
        } else {
            assert(keymap_names(all.take(i + 1)) == keymap_names(all.take(i as int)));
        }
    }
    assert(all.take(n as int) =~= all);
    r
}

/// Every action bound in `keymaps` (keymap by keymap in id order, layer by layer, key
/// by key), then every action of the deck's slots.
pub fn all_actions<'a>(keymaps: &'a StrMap<Keymap>, deck: &'a DeckSetlist) -> (r: Vec<&'a Action>)
    ensures
        r@.map_values(|a: &Action| a@) == startup_actions(keymaps.entries(), *deck),
{
    let ghost es = keymaps.entries();
    let mut r: Vec<&Action> = Vec::new();
    let n = keymaps.len();
    assert(es.take(0) =~= Seq::<(String, Keymap)>::empty());
    for i in 0..n
        invariant
            n == es.len(),
            es == keymaps.entries(),
            r@.map_values(|a: &Action| a@) == table_actions(es.take(i as int)),
    {
        let layers = &keymaps.value_at(i).layers;
        assert(es.take(i + 1).drop_last() =~= es.take(i as int));
        let ghost base = r@.map_values(|a: &Action| a@);
        let m = layers.len();
        assert(layers@.take(0) =~= Seq::<Layer>::empty());
        for j in 0..m
            invariant
                m == layers@.len(),
                0 <= i < n,
                n == es.len(),
                *layers == es[i as int].1.layers,
                base == table_actions(es.take(i as int)),
                r@.map_values(|a: &Action| a@) == base + keymap_actions(layers@.take(j as int)),
        {
            let keys = &layers[j].keys;
            assert(layers@.take(j + 1).drop_last() =~= layers@.take(j as int));
            let ghost base2 = r@.map_values(|a: &Action| a@);
            let k = keys.len();
            for q in 0..k
                invariant
                    k == keys@.len(),
                    0 <= j < m,
                    m == layers@.len(),
                    *keys == layers@[j as int].keys,
                    base2 == base + keymap_actions(layers@.take(j as int)),
                    r@.map_values(|a: &Action| a@) == base2 + layer_actions(keys@.take(q as int)),
            {
                let ghost before = r@;
                r.push(&keys[q].1.action);
                proof {
                    lemma_views_push(before, &keys@[q as int].1.action);
                }
                assert(layer_actions(keys@.take(q + 1)) =~= layer_actions(keys@.take(q as int)).push(keys@[q as int].1.action@));
                assert(r@.map_values(|a: &Action| a@) =~= base2 + layer_actions(keys@.take(q + 1)));
            }
            assert(keys@.take(k as int) =~= keys@);
            assert(r@.map_values(|a: &Action| a@) =~= base + keymap_actions(layers@.take(j + 1)));
        }
        assert(layers@.take(m as int) =~= layers@);
        assert(r@.map_values(|a: &Action| a@) =~= table_actions(es.take(i + 1)));
    }
    assert(es.take(n as int) =~= es);
    let ghost base = r@.map_values(|a: &Action| a@);
    let slots = deck.actions();
    let ghost ds = deck_slots(deck.pages@);
    let s = slots.len();
    for p in 0..s
        invariant
            s == slots@.len(),
            slots@.len() == ds.len(),
            ds == deck_slots(deck.pages@),
            forall|q: int| 0 <= q < slots@.len() ==> *slots@[q] == (#[trigger] ds[q]).action,
            base == table_actions(es),
            r@.map_values(|a: &Action| a@) == base + slot_actions(ds.take(p as int)),
    {
        let ghost before = r@;
        r.push(slots[p]);
        proof {
            lemma_views_push(before, slots@[p as int]);
        }
        assert(slot_actions(ds.take(p + 1)) =~= slot_actions(ds.take(p as int)).push(ds[p as int].action@));
        assert(r@.map_values(|a: &Action| a@) =~= base + slot_actions(ds.take(p + 1)));
    }
    assert(ds.take(s as int) =~= ds);
    r
}

fn error_line(head: &str, code: &str, cause: &str) -> (r: String)
    ensures
        r@ == head@ + ": "@ + "["@ + code@ + "] "@ + cause@,
{
    let mut s = head.to_owned();
    s.append(": [");
    s.append(code);
    s.append("] ");
    s.append(cause);
    proof {
        reveal_strlit(": [");
        reveal_strlit(": ");
        reveal_strlit("[");
        assert(s@ =~= head@ + ": "@ + "["@ + code@ + "] "@ + cause@);
    }
    s
}

fn schema_line(middle: &str, subject: &str, tail: &str) -> (r: String)
    ensures
        r@ == "["@ + LOAD_SCHEMA_INVALID@ + middle@ + subject@ + tail@,
{
    let mut s = "[".to_owned();
    s.append(LOAD_SCHEMA_INVALID);
    s.append(middle);
    s.append(subject);
    s.append(tail);
    s
}

/// Puts together what the hub starts with, from what loading each keymap file gave
/// (`keymap_loads`: the path of each file found under `keymaps_dir`, in name order,
/// and its keymap or error) and what loading the deck file at `deck_path` gave.
/// Succeeds exactly when `startup_errors` finds nothing; then the keymaps are the
/// loaded ones by id, the deck is the loaded deck and the allow-list holds the ids of
/// all their actions. Otherwise every error found is returned, and nothing else.
pub fn load_startup_data(
    keymaps_dir: &str,
    keymap_loads: Vec<(String, Result<Keymap, KeymapError>)>,
    deck_path: &str,
    deck_load: Result<DeckSetlist, DeckError>,
) -> (r: Result<StartupData, Vec<String>>)
    ensures
        match r {
            Ok(data) => {
                &&& data.keymaps.wf()
                &&& data.keymaps@ == loads_map(keymap_loads@)
                &&& data.keymaps@.contains_key(IPAD_KEYMAP_ID@)
                &&& deck_load == Ok::<DeckSetlist, DeckError>(data.deck)
                &&& startup_errors(keymaps_dir@, keymap_loads@, deck_path@, deck_load, data.keymaps.entries()).len() == 0
                &&& data.command_registry.wf()
                &&& data.command_registry@ == action_ids(startup_actions(data.keymaps.entries(), data.deck)).to_set()
            },
            Err(errors) => exists|es: Seq<(String, Keymap)>| {
                &&& ascending(es)
                &&& map_of(es) == loads_map(keymap_loads@)
                &&& texts(errors@) == startup_errors(keymaps_dir@, keymap_loads@, deck_path@, deck_load, es)
                &&& errors@.len() > 0
            },
        },
{
    let ghost loads = keymap_loads@;
    let mut errors: Vec<String> = Vec::new();
    let mut keymaps: StrMap<Keymap> = StrMap::new();
    if keymap_loads.len() == 0 {
        errors.push(schema_line("] no keymap_*.json files found under ", keymaps_dir, ""));
        proof {
            reveal_strlit("");
            assert(errors@[0]@ =~= no_files_error(keymaps_dir@));
        }
    }
    let ghost e0 = texts(errors@);
    assert(e0 == (if loads.len() == 0 {
        seq![no_files_error(keymaps_dir@)]
    } else {
        seq![]
    })) by {
        if loads.len() == 0 {
            assert(e0 =~= seq![no_files_error(keymaps_dir@)]);
        } else {
            assert(e0 =~= Seq::<Seq<char>>::empty());
        }
    }
    let n = keymap_loads.len();
    let mut rest = keymap_loads;
    assert(loads.take(0) =~= Seq::<(String, Result<Keymap, KeymapError>)>::empty());
    for i in 0..n
        invariant
            n == loads.len(),
            rest@ == loads.skip(i as int),
            keymaps.wf(),
            keymaps@ == loads_map(loads.take(i as int)),
            texts(errors@) == e0 + load_errors(loads.take(i as int)),
    {
        let (path, result) = rest.remove(0);
        assert(loads.take(i + 1).drop_last() =~= loads.take(i as int));
        assert(loads.take(i + 1).last() == loads[i as int]);
        assert((path, result) == loads[i as int]);
        match result {
            Ok(keymap) => {
                let id = keymap.keymap_id.clone();
                keymaps.insert(id, keymap);
            },
            Err(error) => {
                let line = error_line(path.as_str(), error.code, error.cause.as_str());
                let ghost before = errors@;
                errors.push(line);
                proof {
                    lemma_texts_push(before, line);
                    let t = loads.take(i + 1);
                    assert(t.last() == loads[i as int]);
                    assert(line@ =~= path@ + ": "@ + keymap_error_text(error));
                    assert(load_errors(t) == load_errors(t.drop_last()).push(t.last().0@ + ": "@ + keymap_error_text(error)));
                    assert((e0 + load_errors(loads.take(i as int))).push(line@) =~= e0 + load_errors(loads.take(i as int)).push(line@));
                }
                assert(texts(errors@) =~= e0 + load_errors(loads.take(i + 1)));
            },
        }
        assert(rest@ =~= loads.skip(i + 1));
    }
    assert(loads.take(n as int) =~= loads);
    let ghost e1 = texts(errors@);
    if errors.len() == 0 && !keymaps.contains_key(IPAD_KEYMAP_ID) {
        errors.push(schema_line("] ipad surface requires keymapId '", IPAD_KEYMAP_ID, "' to be loaded"));
        assert(texts(errors@) =~= seq![ipad_missing_error()]);
    }
    let ghost e2 = texts(errors@);
    assert(e2 == (if e1.len() == 0 && !loads_map(loads).contains_key(IPAD_KEYMAP_ID@) {
        e1.push(ipad_missing_error())
    } else {
        e1
    })) by {
        if e1.len() == 0 && !loads_map(loads).contains_key(IPAD_KEYMAP_ID@) {
            assert(e1.push(ipad_missing_error()) =~= seq![ipad_missing_error()]);
        }
    }
    let deck = match deck_load {
        Ok(deck) => deck,
        Err(error) => {
            let line = error_line(deck_path, error.code, error.cause.as_str());
            let ghost before = errors@;
            errors.push(line);
            proof {
                lemma_texts_push(before, line);
                let es = keymaps.entries();
                assert(e1 == e0 + load_errors(loads));
                assert(line@ =~= deck_path@ + ": "@ + deck_error_text(error));
                assert(texts(errors@) =~= startup_errors(keymaps_dir@, loads, deck_path@, deck_load, es));
                assert(ascending(es) && map_of(es) == loads_map(loads));
            }
            return Err(errors);
        },
    };
    let ghost es = keymaps.entries();
    let ghost acts = startup_actions(es, deck);
    if errors.len() > 0 {
        proof {
            assert(texts(errors@) == startup_errors(keymaps_dir@, loads, deck_path@, deck_load, es));
            assert(ascending(es) && map_of(es) == loads_map(loads));
        }
        return Err(errors);
    }
    let actions = all_actions(&keymaps, &deck);
    let mut ids: Vec<String> = Vec::new();
    let k = actions.len();
    assert(acts.take(0) =~= Seq::<ActionView>::empty());
    for q in 0..k
        invariant
            k == actions@.len(),
            actions@.map_values(|a: &Action| a@) == acts,
            keymaps.wf(),
            keymaps.entries() == es,
            texts(errors@) == switch_errors(acts.take(q as int), keymaps@),
            texts(ids@) == action_ids(acts.take(q as int)),
    {
        let action = actions[q];
        assert(acts.take(q + 1).drop_last() =~= acts.take(q as int));
        assert(acts[q as int] == action@);
        match action {
            Action::KeymapSwitch { id } => {
                if !keymaps.contains_key(id.as_str()) {
                    let line = schema_line("] keymap.switch references unknown keymapId '", id.as_str(), "'");
                    let ghost before = errors@;
                    errors.push(line);
                    proof {
                        lemma_texts_push(before, line);
                    }
                    assert(texts(errors@) =~= switch_errors(acts.take(q + 1), keymaps@));
                }
            },
            _ => {},
        }
        match canonical_command_id(action) {
            Some(cid) => {
                let ghost before = ids@;
                ids.push(cid);
                proof {
                    lemma_texts_push(before, cid);
                }
                assert(texts(ids@) =~= action_ids(acts.take(q + 1)));
            },
            None => {},
        }
    }
    assert(acts.take(k as int) =~= acts);
    if errors.len() > 0 {
        proof {
            assert(texts(errors@) == startup_errors(keymaps_dir@, loads, deck_path@, deck_load, es));
            assert(ascending(es) && map_of(es) == loads_map(loads));
        }
        return Err(errors);
    }
    let command_registry = CommandRegistry::new(ids);
    proof {
        assert(command_registry@ =~= action_ids(acts).to_set()) by {
            assert forall|c: Seq<char>| #[trigger] command_registry@.contains(c) <==> action_ids(acts).to_set().contains(c) by {
                if command_registry@.contains(c) {
                    let j = choose|j: int| 0 <= j < ids@.len() && (#[trigger] ids@[j])@ == c;
                    assert(texts(ids@)[j] == c);
                }
                if action_ids(acts).contains(c) {
                    let j = choose|j: int| 0 <= j < action_ids(acts).len() && action_ids(acts)[j] == c;
                    assert(texts(ids@)[j] == ids@[j]@);
                    assert(id_set(ids@).contains(c));
                }
            }
        }
    }
    Ok(StartupData { keymaps, deck, command_registry })
}

proof fn lemma_same_tables_same_actions(es1: Seq<(String, Keymap)>, es2: Seq<(String, Keymap)>)
    requires
        es1.len() == es2.len(),
        forall|i: int| 0 <= i < es1.len() ==> (#[trigger] es1[i]).1 == es2[i].1,
    ensures
        table_actions(es1) == table_actions(es2),
    decreases es1.len(),
{
    if es1.len() > 0 {
        let d1 = es1.drop_last();
        let d2 = es2.drop_last();
        assert forall|i: int| 0 <= i < d1.len() implies (#[trigger] d1[i]).1 == d2[i].1 by {
            assert(es1[i].1 == es2[i].1);
        }
        lemma_same_tables_same_actions(d1, d2);
        assert(es1[es1.len() - 1].1 == es2[es2.len() - 1].1);
    }
}

/// The errors of a startup depend on the loads alone: any two ways of listing the
/// loaded keymaps in ascending id order give the same errors. (So the error list that
/// `load_startup_data` returns is fully determined by its arguments.)
pub proof fn lemma_startup_errors_are_determined(
    dir: Seq<char>,
    loads: Seq<(String, Result<Keymap, KeymapError>)>,
    deck_path: Seq<char>,
    deck_load: Result<DeckSetlist, DeckError>,
    es1: Seq<(String, Keymap)>,
    es2: Seq<(String, Keymap)>,
)
    requires
        ascending(es1),
        ascending(es2),
        map_of(es1) == loads_map(loads),
        map_of(es2) == loads_map(loads),
    ensures
        startup_errors(dir, loads, deck_path, deck_load, es1) == startup_errors(
            dir,
            loads,
            deck_path,
            deck_load,
            es2,
        ),
{
    crate::strmap::lemma_entries_determined(es1, es2);
    lemma_same_tables_same_actions(es1, es2);
}

} // verus!
