//! The dictionary of key names (`vk`) that keymaps and decks may use.
use vstd::prelude::*;
use crate::text::{chars_of, spells};

verus! {

/// A single upper-case letter `A`..`Z` or a single digit `0`..`9`.
pub open spec fn is_letter_or_digit_name(s: Seq<char>) -> bool {
    s.len() == 1 && (('A' <= s[0] && s[0] <= 'Z') || ('0' <= s[0] && s[0] <= '9'))
}

/// The number `n` of a function-key name `F1`..`F24`, written without leading zeros.
pub open spec fn function_key_number(s: Seq<char>) -> Option<nat> {
    if s.len() == 2 && s[0] == 'F' && '1' <= s[1] && s[1] <= '9' {
        Some((s[1] as nat - '0' as nat) as nat)
    } else if s.len() == 3 && s[0] == 'F' && s[1] == '1' && '0' <= s[2] && s[2] <= '9' {
        Some((10 + (s[2] as nat - '0' as nat)) as nat)
    } else if s.len() == 3 && s[0] == 'F' && s[1] == '2' && '0' <= s[2] && s[2] <= '4' {
        Some((20 + (s[2] as nat - '0' as nat)) as nat)
    } else {
        None
    }
}

/// The named keys of the dictionary: control, arrows, modifiers, symbols and media keys.
pub open spec fn is_named_key(s: Seq<char>) -> bool {
    s == seq!['E', 'N', 'T', 'E', 'R']
        || s == seq!['E', 'S', 'C']
        || s == seq!['T', 'A', 'B']
        || s == seq!['S', 'P', 'A', 'C', 'E']
        || s == seq!['B', 'K', 'S', 'P']
        || s == seq!['D', 'E', 'L']
        || s == seq!['U', 'P']
        || s == seq!['D', 'O', 'W', 'N']
        || s == seq!['L', 'E', 'F', 'T']
        || s == seq!['R', 'I', 'G', 'H', 'T']
        || s == seq!['C', 'T', 'R', 'L']
        || s == seq!['S', 'H', 'I', 'F', 'T']
        || s == seq!['A', 'L', 'T']
        || s == seq!['W', 'I', 'N']
        || s == seq!['C', 'O', 'M', 'M', 'A']
        || s == seq!['P', 'E', 'R', 'I', 'O', 'D']
        || s == seq!['S', 'L', 'A', 'S', 'H']
        || s == seq!['S', 'E', 'M', 'I', 'C', 'O', 'L', 'O', 'N']
        || s == seq!['Q', 'U', 'O', 'T', 'E']
        || s == seq!['M', 'I', 'N', 'U', 'S']
        || s == seq!['E', 'Q', 'U', 'A', 'L', 'S']
        || s == seq!['L', 'B', 'R', 'A', 'C', 'K', 'E', 'T']
        || s == seq!['R', 'B', 'R', 'A', 'C', 'K', 'E', 'T']
        || s == seq!['B', 'A', 'C', 'K', 'S', 'L', 'A', 'S', 'H']
        || s == seq!['G', 'R', 'A', 'V', 'E']
        || s == seq!['V', 'O', 'L', '_', 'U', 'P']
        || s == seq!['V', 'O', 'L', '_', 'D', 'O', 'W', 'N']
        || s == seq!['M', 'U', 'T', 'E']
        || s == seq!['M', 'E', 'D', 'I', 'A', '_', 'P', 'L', 'A', 'Y']
        || s == seq!['M', 'E', 'D', 'I', 'A', '_', 'N', 'E', 'X', 'T']
        || s == seq!['M', 'E', 'D', 'I', 'A', '_', 'P', 'R', 'E', 'V']
}

/// Whether `s` is an entry of the key-name dictionary.
pub open spec fn is_vk_name(s: Seq<char>) -> bool {
    is_letter_or_digit_name(s) || function_key_number(s) is Some || is_named_key(s)
}

/// Whether the characters `w` spell one of the named keys.
fn named_key(w: &Vec<char>) -> (r: bool)
    ensures
        r == is_named_key(w@),
{
    let k: [char; 5] = ['E', 'N', 'T', 'E', 'R'];
    if spells(w, &k) {
        return true;
    }
    let k: [char; 3] = ['E', 'S', 'C'];
    if spells(w, &k) {
        return true;
    }
    let k: [char; 3] = ['T', 'A', 'B'];
    if spells(w, &k) {
        return true;
    }
    let k: [char; 5] = ['S', 'P', 'A', 'C', 'E'];
    if spells(w, &k) {
        return true;
    }
    let k: [char; 4] = ['B', 'K', 'S', 'P'];
    if spells(w, &k) {
        return true;
    }
    let k: [char; 3] = ['D', 'E', 'L'];
    if spells(w, &k) {
        return true;
    }
    let k: [char; 2] = ['U', 'P'];
    if spells(w, &k) {
        return true;
    }
    let k: [char; 4] = ['D', 'O', 'W', 'N'];
    if spells(w, &k) {
        return true;
    }
    let k: [char; 4] = ['L', 'E', 'F', 'T'];
    if spells(w, &k) {
        return true;
    }
    let k: [char; 5] = ['R', 'I', 'G', 'H', 'T'];
    if spells(w, &k) {
        return true;
    }
    let k: [char; 4] = ['C', 'T', 'R', 'L'];
    if spells(w, &k) {
        return true;
    }
    let k: [char; 5] = ['S', 'H', 'I', 'F', 'T'];
    if spells(w, &k) {
        return true;
    }
    let k: [char; 3] = ['A', 'L', 'T'];
    if spells(w, &k) {
        return true;
    }
    let k: [char; 3] = ['W', 'I', 'N'];
    if spells(w, &k) {
        return true;
    }
    let k: [char; 5] = ['C', 'O', 'M', 'M', 'A'];
    if spells(w, &k) {
        return true;
    }
    let k: [char; 6] = ['P', 'E', 'R', 'I', 'O', 'D'];
    if spells(w, &k) {
        return true;
    }
    let k: [char; 5] = ['S', 'L', 'A', 'S', 'H'];
    if spells(w, &k) {
        return true;
    }
    let k: [char; 9] = ['S', 'E', 'M', 'I', 'C', 'O', 'L', 'O', 'N'];
    if spells(w, &k) {
        return true;
    }
    let k: [char; 5] = ['Q', 'U', 'O', 'T', 'E'];
    if spells(w, &k) {
        return true;
    }
    let k: [char; 5] = ['M', 'I', 'N', 'U', 'S'];
    if spells(w, &k) {
        return true;
    }
    let k: [char; 6] = ['E', 'Q', 'U', 'A', 'L', 'S'];
    if spells(w, &k) {
        return true;
    }
    let k: [char; 8] = ['L', 'B', 'R', 'A', 'C', 'K', 'E', 'T'];
    if spells(w, &k) {
        return true;
    }
    let k: [char; 8] = ['R', 'B', 'R', 'A', 'C', 'K', 'E', 'T'];
    if spells(w, &k) {
        return true;
    }
    let k: [char; 9] = ['B', 'A', 'C', 'K', 'S', 'L', 'A', 'S', 'H'];
    if spells(w, &k) {
        return true;
    }
    let k: [char; 5] = ['G', 'R', 'A', 'V', 'E'];
    if spells(w, &k) {
        return true;
    }
    let k: [char; 6] = ['V', 'O', 'L', '_', 'U', 'P'];
    if spells(w, &k) {
        return true;
    }
    let k: [char; 8] = ['V', 'O', 'L', '_', 'D', 'O', 'W', 'N'];
    if spells(w, &k) {
        return true;
    }
    let k: [char; 4] = ['M', 'U', 'T', 'E'];
    if spells(w, &k) {
        return true;
    }
    let k: [char; 10] = ['M', 'E', 'D', 'I', 'A', '_', 'P', 'L', 'A', 'Y'];
    if spells(w, &k) {
        return true;
    }
    let k: [char; 10] = ['M', 'E', 'D', 'I', 'A', '_', 'N', 'E', 'X', 'T'];
    if spells(w, &k) {
        return true;
    }
    let k: [char; 10] = ['M', 'E', 'D', 'I', 'A', '_', 'P', 'R', 'E', 'V'];
    if spells(w, &k) {
        return true;
    }
    false
}

/// Whether `vk` is a name of the key-name dictionary.
pub fn is_known_vk(vk: &str) -> (r: bool)
    ensures
        r == is_vk_name(vk@),
{
    let w = chars_of(vk);
    if w.len() == 1 {
        let c = w[0];
        if ('A' <= c && c <= 'Z') || ('0' <= c && c <= '9') {
            return true;
        }
    }
    if (w.len() == 2 || w.len() == 3) && w[0] == 'F' {
        let d1 = w[1];
        if w.len() == 2 {
            if '1' <= d1 && d1 <= '9' {
                return true;
            }
        } else {
            let d2 = w[2];
            if (d1 == '1' && '0' <= d2 && d2 <= '9') || (d1 == '2' && '0' <= d2 && d2 <= '4') {
                return true;
            }
        }
    }
    named_key(&w)
}

/// The key-name dictionary in its canonical order: letters, digits, function keys,
/// then the named keys.
pub open spec fn vk_dictionary_entries() -> Seq<&'static str> {
    seq![
        "A", "B", "C", "D", "E", "F", "G", "H", "I", "J",
        "K", "L", "M", "N", "O", "P", "Q", "R", "S", "T",
        "U", "V", "W", "X", "Y", "Z", "0", "1", "2", "3",
        "4", "5", "6", "7", "8", "9", "F1", "F2", "F3", "F4",
        "F5", "F6", "F7", "F8", "F9", "F10", "F11", "F12", "F13", "F14",
        "F15", "F16", "F17", "F18", "F19", "F20", "F21", "F22", "F23", "F24",
        "ENTER", "ESC", "TAB", "SPACE", "BKSP", "DEL", "UP", "DOWN", "LEFT", "RIGHT",
        "CTRL", "SHIFT", "ALT", "WIN", "COMMA", "PERIOD", "SLASH", "SEMICOLON", "QUOTE", "MINUS",
        "EQUALS", "LBRACKET", "RBRACKET", "BACKSLASH", "GRAVE", "VOL_UP", "VOL_DOWN", "MUTE", "MEDIA_PLAY", "MEDIA_NEXT",
        "MEDIA_PREV",
    ]
}

/// The key-name dictionary, in its canonical order (see `vk_dictionary_entries`).
pub fn vk_dictionary() -> (r: Vec<&'static str>)
    ensures
        r@ == vk_dictionary_entries(),
{
    let r: Vec<&'static str> = vec![
        "A", "B", "C", "D", "E", "F", "G", "H", "I", "J",
        "K", "L", "M", "N", "O", "P", "Q", "R", "S", "T",
        "U", "V", "W", "X", "Y", "Z", "0", "1", "2", "3",
        "4", "5", "6", "7", "8", "9", "F1", "F2", "F3", "F4",
        "F5", "F6", "F7", "F8", "F9", "F10", "F11", "F12", "F13", "F14",
        "F15", "F16", "F17", "F18", "F19", "F20", "F21", "F22", "F23", "F24",
        "ENTER", "ESC", "TAB", "SPACE", "BKSP", "DEL", "UP", "DOWN", "LEFT", "RIGHT",
        "CTRL", "SHIFT", "ALT", "WIN", "COMMA", "PERIOD", "SLASH", "SEMICOLON", "QUOTE", "MINUS",
        "EQUALS", "LBRACKET", "RBRACKET", "BACKSLASH", "GRAVE", "VOL_UP", "VOL_DOWN", "MUTE", "MEDIA_PLAY", "MEDIA_NEXT",
        "MEDIA_PREV",
    ];
    assert(r@ =~= vk_dictionary_entries());
    r
}

} // verus!
