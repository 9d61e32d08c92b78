//! Windows virtual-key codes for the key-name dictionary, and the sending of
//! actions as a sequence of keyboard events.
use vstd::prelude::*;
use crate::keymap::Action;
use crate::text::{append_decimal, append_hex4, chars_of, decimal, encode_utf16, hex4, spells, utf16};
use crate::vk::{function_key_number, is_known_vk, is_letter_or_digit_name, is_vk_name};

verus! {

/// The virtual-key code of a named (non letter, digit or function) key.
pub open spec fn named_key_code(s: Seq<char>) -> Option<u16> {
    if s == seq!['E', 'N', 'T', 'E', 'R'] {
        Some(0x0Du16)
    } else if s == seq!['E', 'S', 'C'] {
        Some(0x1Bu16)
    } else if s == seq!['T', 'A', 'B'] {
        Some(0x09u16)
    } else if s == seq!['S', 'P', 'A', 'C', 'E'] {
        Some(0x20u16)
    } else if s == seq!['B', 'K', 'S', 'P'] {
        Some(0x08u16)
    } else if s == seq!['D', 'E', 'L'] {
        Some(0x2Eu16)
    } else if s == seq!['U', 'P'] {
        Some(0x26u16)
    } else if s == seq!['D', 'O', 'W', 'N'] {
        Some(0x28u16)
    } else if s == seq!['L', 'E', 'F', 'T'] {
        Some(0x25u16)
    } else if s == seq!['R', 'I', 'G', 'H', 'T'] {
        Some(0x27u16)
    } else if s == seq!['C', 'T', 'R', 'L'] {
        Some(0x11u16)
    } else if s == seq!['S', 'H', 'I', 'F', 'T'] {
        Some(0x10u16)
    } else if s == seq!['A', 'L', 'T'] {
        Some(0x12u16)
    } else if s == seq!['W', 'I', 'N'] {
        Some(0x5Bu16)
    } else if s == seq!['C', 'O', 'M', 'M', 'A'] {
        Some(0xBCu16)
    } else if s == seq!['P', 'E', 'R', 'I', 'O', 'D'] {
        Some(0xBEu16)
    } else if s == seq!['S', 'L', 'A', 'S', 'H'] {
        Some(0xBFu16)
    } else if s == seq!['S', 'E', 'M', 'I', 'C', 'O', 'L', 'O', 'N'] {
        Some(0xBAu16)
    } else if s == seq!['Q', 'U', 'O', 'T', 'E'] {
        Some(0xDEu16)
    } else if s == seq!['M', 'I', 'N', 'U', 'S'] {
        Some(0xBDu16)
    } else if s == seq!['E', 'Q', 'U', 'A', 'L', 'S'] {
        Some(0xBBu16)
    } else if s == seq!['L', 'B', 'R', 'A', 'C', 'K', 'E', 'T'] {
        Some(0xDBu16)
    } else if s == seq!['R', 'B', 'R', 'A', 'C', 'K', 'E', 'T'] {
        Some(0xDDu16)
    } else if s == seq!['B', 'A', 'C', 'K', 'S', 'L', 'A', 'S', 'H'] {
        Some(0xDCu16)
    } else if s == seq!['G', 'R', 'A', 'V', 'E'] {
        Some(0xC0u16)
    } else if s == seq!['V', 'O', 'L', '_', 'U', 'P'] {
        Some(0xAFu16)
    } else if s == seq!['V', 'O', 'L', '_', 'D', 'O', 'W', 'N'] {
        Some(0xAEu16)
    } else if s == seq!['M', 'U', 'T', 'E'] {
        Some(0xADu16)
    } else if s == seq!['M', 'E', 'D', 'I', 'A', '_', 'P', 'L', 'A', 'Y'] {
        Some(0xB3u16)
    } else if s == seq!['M', 'E', 'D', 'I', 'A', '_', 'N', 'E', 'X', 'T'] {
        Some(0xB0u16)
    } else if s == seq!['M', 'E', 'D', 'I', 'A', '_', 'P', 'R', 'E', 'V'] {
        Some(0xB1u16)
    } else {
        None
    }
}

/// The Windows virtual-key code of a dictionary key name: letters and digits map to
/// their ASCII codes, `F1`..`F24` to `0x70`..`0x87`, the named keys by their table.
pub open spec fn vk_code_of(s: Seq<char>) -> Option<u16> {
    if is_letter_or_digit_name(s) {
        Some(s[0] as u16)
    } else if function_key_number(s) is Some {
        Some((0x6F + function_key_number(s)->0) as u16)
    } else {
        named_key_code(s)
    }
}

fn named_code(w: &Vec<char>) -> (r: Option<u16>)
    ensures
        r == named_key_code(w@),
{
    let k: [char; 5] = ['E', 'N', 'T', 'E', 'R'];
    if spells(w, &k) {
        return Some(0x0D);
    }
    let k: [char; 3] = ['E', 'S', 'C'];
    if spells(w, &k) {
        return Some(0x1B);
    }
    let k: [char; 3] = ['T', 'A', 'B'];
    if spells(w, &k) {
        return Some(0x09);
    }
    let k: [char; 5] = ['S', 'P', 'A', 'C', 'E'];
    if spells(w, &k) {
        return Some(0x20);
    }
    let k: [char; 4] = ['B', 'K', 'S', 'P'];
    if spells(w, &k) {
        return Some(0x08);
    }
    let k: [char; 3] = ['D', 'E', 'L'];
    if spells(w, &k) {
        return Some(0x2E);
    }
    let k: [char; 2] = ['U', 'P'];
    if spells(w, &k) {
        return Some(0x26);
    }
    let k: [char; 4] = ['D', 'O', 'W', 'N'];
    if spells(w, &k) {
        return Some(0x28);
    }
    let k: [char; 4] = ['L', 'E', 'F', 'T'];
    if spells(w, &k) {
        return Some(0x25);
    }
    let k: [char; 5] = ['R', 'I', 'G', 'H', 'T'];
    if spells(w, &k) {
        return Some(0x27);
    }
    let k: [char; 4] = ['C', 'T', 'R', 'L'];
    if spells(w, &k) {
        return Some(0x11);
    }
    let k: [char; 5] = ['S', 'H', 'I', 'F', 'T'];
    if spells(w, &k) {
        return Some(0x10);
    }
    let k: [char; 3] = ['A', 'L', 'T'];
    if spells(w, &k) {
        return Some(0x12);
    }
    let k: [char; 3] = ['W', 'I', 'N'];
    if spells(w, &k) {
        return Some(0x5B);
    }
    let k: [char; 5] = ['C', 'O', 'M', 'M', 'A'];
    if spells(w, &k) {
        return Some(0xBC);
    }
    let k: [char; 6] = ['P', 'E', 'R', 'I', 'O', 'D'];
    if spells(w, &k) {
        return Some(0xBE);
    }
    let k: [char; 5] = ['S', 'L', 'A', 'S', 'H'];
    if spells(w, &k) {
        return Some(0xBF);
    }
    let k: [char; 9] = ['S', 'E', 'M', 'I', 'C', 'O', 'L', 'O', 'N'];
    if spells(w, &k) {
        return Some(0xBA);
    }
    let k: [char; 5] = ['Q', 'U', 'O', 'T', 'E'];
    if spells(w, &k) {
        return Some(0xDE);
    }
    let k: [char; 5] = ['M', 'I', 'N', 'U', 'S'];
    if spells(w, &k) {
        return Some(0xBD);
    }
    let k: [char; 6] = ['E', 'Q', 'U', 'A', 'L', 'S'];
    if spells(w, &k) {
        return Some(0xBB);
    }
    let k: [char; 8] = ['L', 'B', 'R', 'A', 'C', 'K', 'E', 'T'];
    if spells(w, &k) {
        return Some(0xDB);
    }
    let k: [char; 8] = ['R', 'B', 'R', 'A', 'C', 'K', 'E', 'T'];
    if spells(w, &k) {
        return Some(0xDD);
    }
    let k: [char; 9] = ['B', 'A', 'C', 'K', 'S', 'L', 'A', 'S', 'H'];
    if spells(w, &k) {
        return Some(0xDC);
    }
    let k: [char; 5] = ['G', 'R', 'A', 'V', 'E'];
    if spells(w, &k) {
        return Some(0xC0);
    }
    let k: [char; 6] = ['V', 'O', 'L', '_', 'U', 'P'];
    if spells(w, &k) {
        return Some(0xAF);
    }
    let k: [char; 8] = ['V', 'O', 'L', '_', 'D', 'O', 'W', 'N'];
    if spells(w, &k) {
        return Some(0xAE);
    }
    let k: [char; 4] = ['M', 'U', 'T', 'E'];
    if spells(w, &k) {
        return Some(0xAD);
    }
    let k: [char; 10] = ['M', 'E', 'D', 'I', 'A', '_', 'P', 'L', 'A', 'Y'];
    if spells(w, &k) {
        return Some(0xB3);
    }
    let k: [char; 10] = ['M', 'E', 'D', 'I', 'A', '_', 'N', 'E', 'X', 'T'];
    if spells(w, &k) {
        return Some(0xB0);
    }
    let k: [char; 10] = ['M', 'E', 'D', 'I', 'A', '_', 'P', 'R', 'E', 'V'];
    if spells(w, &k) {
        return Some(0xB1);
    }
    None
}

/// Converts a dictionary key name to its Windows virtual-key code; `None` for any
/// other name.
pub fn vk_code(vk: &str) -> (r: Option<u16>)
    ensures
        r == vk_code_of(vk@),
{
    let w = chars_of(vk);
    if w.len() == 1 {
        let c = w[0];
        if ('A' <= c && c <= 'Z') || ('0' <= c && c <= '9') {
            return Some(c as u16);
        }
    }
    if (w.len() == 2 || w.len() == 3) && w[0] == 'F' {
        let d1 = w[1];
        if w.len() == 2 {
            if '1' <= d1 && d1 <= '9' {
                return Some(0x6F + (d1 as u16 - '0' as u16));
            }
        } else {
            let d2 = w[2];
            if d1 == '1' && '0' <= d2 && d2 <= '9' {
                return Some(0x6F + 10 + (d2 as u16 - '0' as u16));
            }
            if d1 == '2' && '0' <= d2 && d2 <= '4' {
                return Some(0x6F + 20 + (d2 as u16 - '0' as u16));
            }
        }
    }
    named_code(&w)
}

/// Every name of the key-name dictionary has a virtual-key code, and nothing else has one.
pub proof fn lemma_vk_code_covers_dictionary(s: Seq<char>)
    ensures
        vk_code_of(s) is Some <==> is_vk_name(s),
{
}

/// The virtual-key codes of the dictionary are Windows' own: a letter or a digit has
/// its ASCII code, `F1`..`F24` are `0x70`..`0x87`, and each named key has its fixed
/// code (`ENTER` is `VK_RETURN` 0x0D, `BKSP` is `VK_BACK` 0x08, `DEL` is `VK_DELETE`
/// 0x2E, and so on).
#[verifier::rlimit(50)]
pub proof fn lemma_vk_code_table()
    ensures
        forall|s: Seq<char>| s.len() == 1 && ('A' <= s[0] <= 'Z' || '0' <= s[0] <= '9')
            ==> #[trigger] vk_code_of(s) == Some(s[0] as u16),
        forall|s: Seq<char>| s.len() == 2 && s[0] == 'F' && '1' <= s[1] <= '9'
            ==> #[trigger] vk_code_of(s) == Some((0x70 + (s[1] as int - '1' as int)) as u16),
        forall|s: Seq<char>| s.len() == 3 && s[0] == 'F' && s[1] == '1' && '0' <= s[2] <= '9'
            ==> #[trigger] vk_code_of(s) == Some((0x79 + (s[2] as int - '0' as int)) as u16),
        forall|s: Seq<char>| s.len() == 3 && s[0] == 'F' && s[1] == '2' && '0' <= s[2] <= '4'
            ==> #[trigger] vk_code_of(s) == Some((0x83 + (s[2] as int - '0' as int)) as u16),
        vk_code_of(seq!['E', 'N', 'T', 'E', 'R']) == Some(0x0Du16),
        vk_code_of(seq!['E', 'S', 'C']) == Some(0x1Bu16),
        vk_code_of(seq!['T', 'A', 'B']) == Some(0x09u16),
        vk_code_of(seq!['S', 'P', 'A', 'C', 'E']) == Some(0x20u16),
        vk_code_of(seq!['B', 'K', 'S', 'P']) == Some(0x08u16),
        vk_code_of(seq!['D', 'E', 'L']) == Some(0x2Eu16),
        vk_code_of(seq!['U', 'P']) == Some(0x26u16),
        vk_code_of(seq!['D', 'O', 'W', 'N']) == Some(0x28u16),
        vk_code_of(seq!['L', 'E', 'F', 'T']) == Some(0x25u16),
        vk_code_of(seq!['R', 'I', 'G', 'H', 'T']) == Some(0x27u16),
        vk_code_of(seq!['C', 'T', 'R', 'L']) == Some(0x11u16),
        vk_code_of(seq!['S', 'H', 'I', 'F', 'T']) == Some(0x10u16),
        vk_code_of(seq!['A', 'L', 'T']) == Some(0x12u16),
        vk_code_of(seq!['W', 'I', 'N']) == Some(0x5Bu16),
        vk_code_of(seq!['C', 'O', 'M', 'M', 'A']) == Some(0xBCu16),
        vk_code_of(seq!['P', 'E', 'R', 'I', 'O', 'D']) == Some(0xBEu16),
        vk_code_of(seq!['S', 'L', 'A', 'S', 'H']) == Some(0xBFu16),
        vk_code_of(seq!['S', 'E', 'M', 'I', 'C', 'O', 'L', 'O', 'N']) == Some(0xBAu16),
        vk_code_of(seq!['Q', 'U', 'O', 'T', 'E']) == Some(0xDEu16),
        vk_code_of(seq!['M', 'I', 'N', 'U', 'S']) == Some(0xBDu16),
        vk_code_of(seq!['E', 'Q', 'U', 'A', 'L', 'S']) == Some(0xBBu16),
        vk_code_of(seq!['L', 'B', 'R', 'A', 'C', 'K', 'E', 'T']) == Some(0xDBu16),
        vk_code_of(seq!['R', 'B', 'R', 'A', 'C', 'K', 'E', 'T']) == Some(0xDDu16),
        vk_code_of(seq!['B', 'A', 'C', 'K', 'S', 'L', 'A', 'S', 'H']) == Some(0xDCu16),
        vk_code_of(seq!['G', 'R', 'A', 'V', 'E']) == Some(0xC0u16),
        vk_code_of(seq!['V', 'O', 'L', '_', 'U', 'P']) == Some(0xAFu16),
        vk_code_of(seq!['V', 'O', 'L', '_', 'D', 'O', 'W', 'N']) == Some(0xAEu16),
        vk_code_of(seq!['M', 'U', 'T', 'E']) == Some(0xADu16),
        vk_code_of(seq!['M', 'E', 'D', 'I', 'A', '_', 'P', 'L', 'A', 'Y']) == Some(0xB3u16),
        vk_code_of(seq!['M', 'E', 'D', 'I', 'A', '_', 'N', 'E', 'X', 'T']) == Some(0xB0u16),
        vk_code_of(seq!['M', 'E', 'D', 'I', 'A', '_', 'P', 'R', 'E', 'V']) == Some(0xB1u16),
{
    assert(vk_code_of(seq!['E', 'N', 'T', 'E', 'R']) == Some(0x0Du16));
    assert(vk_code_of(seq!['E', 'S', 'C']) == Some(0x1Bu16));
    assert(vk_code_of(seq!['T', 'A', 'B']) == Some(0x09u16));
    assert(vk_code_of(seq!['S', 'P', 'A', 'C', 'E']) == Some(0x20u16));
    assert(vk_code_of(seq!['B', 'K', 'S', 'P']) == Some(0x08u16));
    assert(vk_code_of(seq!['D', 'E', 'L']) == Some(0x2Eu16));
    assert(vk_code_of(seq!['U', 'P']) == Some(0x26u16));
    assert(vk_code_of(seq!['D', 'O', 'W', 'N']) == Some(0x28u16));
    assert(vk_code_of(seq!['L', 'E', 'F', 'T']) == Some(0x25u16));
    assert(vk_code_of(seq!['R', 'I', 'G', 'H', 'T']) == Some(0x27u16));
    assert(vk_code_of(seq!['C', 'T', 'R', 'L']) == Some(0x11u16));
    assert(vk_code_of(seq!['S', 'H', 'I', 'F', 'T']) == Some(0x10u16));
    assert(vk_code_of(seq!['A', 'L', 'T']) == Some(0x12u16));
    assert(vk_code_of(seq!['W', 'I', 'N']) == Some(0x5Bu16));
    assert(vk_code_of(seq!['C', 'O', 'M', 'M', 'A']) == Some(0xBCu16));
    assert(vk_code_of(seq!['P', 'E', 'R', 'I', 'O', 'D']) == Some(0xBEu16));
    assert(vk_code_of(seq!['S', 'L', 'A', 'S', 'H']) == Some(0xBFu16));
    assert(vk_code_of(seq!['S', 'E', 'M', 'I', 'C', 'O', 'L', 'O', 'N']) == Some(0xBAu16));
    assert(vk_code_of(seq!['Q', 'U', 'O', 'T', 'E']) == Some(0xDEu16));
    assert(vk_code_of(seq!['M', 'I', 'N', 'U', 'S']) == Some(0xBDu16));
    assert(vk_code_of(seq!['E', 'Q', 'U', 'A', 'L', 'S']) == Some(0xBBu16));
    assert(vk_code_of(seq!['L', 'B', 'R', 'A', 'C', 'K', 'E', 'T']) == Some(0xDBu16));
    assert(vk_code_of(seq!['R', 'B', 'R', 'A', 'C', 'K', 'E', 'T']) == Some(0xDDu16));
    assert(vk_code_of(seq!['B', 'A', 'C', 'K', 'S', 'L', 'A', 'S', 'H']) == Some(0xDCu16));
    assert(vk_code_of(seq!['G', 'R', 'A', 'V', 'E']) == Some(0xC0u16));
    assert(vk_code_of(seq!['V', 'O', 'L', '_', 'U', 'P']) == Some(0xAFu16));
    assert(vk_code_of(seq!['V', 'O', 'L', '_', 'D', 'O', 'W', 'N']) == Some(0xAEu16));
    assert(vk_code_of(seq!['M', 'U', 'T', 'E']) == Some(0xADu16));
    assert(vk_code_of(seq!['M', 'E', 'D', 'I', 'A', '_', 'P', 'L', 'A', 'Y']) == Some(0xB3u16));
    assert(vk_code_of(seq!['M', 'E', 'D', 'I', 'A', '_', 'N', 'E', 'X', 'T']) == Some(0xB0u16));
    assert(vk_code_of(seq!['M', 'E', 'D', 'I', 'A', '_', 'P', 'R', 'E', 'V']) == Some(0xB1u16));
}

/// No two dictionary names share a virtual-key code.
pub proof fn lemma_vk_codes_are_unique(s1: Seq<char>, s2: Seq<char>)
    requires
        vk_code_of(s1) is Some,
        vk_code_of(s1) == vk_code_of(s2),
    ensures
        s1 == s2,
{
}

// ---------------------------------------------------------------------------
// Sending actions
// ---------------------------------------------------------------------------

/// Why an action could not be sent.
#[derive(Debug, Clone, PartialEq, Eq)]
pub enum AdapterError {
    /// The system refused a keyboard event; the cause names the key and the refusal.
    SendFailed { cause: String },
    /// The action cannot be sent as keyboard input, or names no known key.
    Unsupported { cause: String },
}

/// An adapter error with its cause taken as characters.
pub ghost enum AdapterErrorView {
    SendFailed(Seq<char>),
    Unsupported(Seq<char>),
}

impl View for AdapterError {
    type V = AdapterErrorView;

    open spec fn view(&self) -> AdapterErrorView {
        match self {
            AdapterError::SendFailed { cause } => AdapterErrorView::SendFailed(cause@),
            AdapterError::Unsupported { cause } => AdapterErrorView::Unsupported(cause@),
        }
    }
}

/// The view of a send result.
pub open spec fn result_view(r: Result<(), AdapterError>) -> Result<(), AdapterErrorView> {
    match r {
        Ok(()) => Ok(()),
        Err(e) => Err(e@),
    }
}

impl AdapterError {
    /// A copy of this error.
    pub fn copy(&self) -> (r: AdapterError)
        ensures
            r@ == self@,
    {
        match self {
            AdapterError::SendFailed { cause } => AdapterError::SendFailed { cause: cause.clone() },
            AdapterError::Unsupported { cause } => AdapterError::Unsupported { cause: cause.clone() },
        }
    }

    /// The error as one line of text: its kind, a colon and its cause.
    pub fn to_text(&self) -> (r: String)
        ensures
            r@ == match self@ {
                AdapterErrorView::SendFailed(c) => "SendFailed: "@ + c,
                AdapterErrorView::Unsupported(c) => "Unsupported: "@ + c,
            },
    {
        match self {
            AdapterError::SendFailed { cause } => {
                let mut s = "SendFailed: ".to_owned();
                s.append(cause.as_str());
                s
            },
            AdapterError::Unsupported { cause } => {
                let mut s = "Unsupported: ".to_owned();
                s.append(cause.as_str());
                s
            },
        }
    }
}

/// One keyboard event: a virtual key or a UTF-16 code unit, pressed or released.
#[derive(Debug, Clone, Copy, PartialEq, Eq)]
pub enum KeyEvent {
    Press(u16),
    Release(u16),
    UnicodePress(u16),
    UnicodeRelease(u16),
}

/// `std`'s debug notation of a string: quoted, with special characters escaped.
pub uninterp spec fn debug_str(s: Seq<char>) -> Seq<char>;

/// Writes the debug notation of `s` with `std`'s `Debug` for `str`.
#[verifier::external_body]
fn debug_quoted(s: &str) -> (r: String)
    ensures
        r@ == debug_str(s@),
{
    format!("{:?}", s)
}

/// How an action that is not keyboard input is named in an error cause.
pub open spec fn action_name(a: Action) -> Seq<char> {
    match a {
        Action::Mo { layer } => "Mo { layer: "@ + decimal(layer as nat) + " }"@,
        Action::Tg { layer } => "Tg { layer: "@ + decimal(layer as nat) + " }"@,
        Action::Trans => "Trans"@,
        Action::NoOp => "None"@,
        Action::KeymapSwitch { id } => "KeymapSwitch { id: "@ + debug_str(id@) + " }"@,
        Action::KeymapReset => "KeymapReset"@,
        _ => seq![],
    }
}

fn action_name_exec(a: &Action) -> (r: String)
    ensures
        r@ == action_name(*a),
{
    match a {
        Action::Mo { layer } => {
            let mut s = "Mo { layer: ".to_owned();
            append_decimal(&mut s, *layer as u64);
            s.append(" }");
            s
        },
        Action::Tg { layer } => {
            let mut s = "Tg { layer: ".to_owned();
            append_decimal(&mut s, *layer as u64);
            s.append(" }");
            s
        },
        Action::Trans => "Trans".to_owned(),
        Action::NoOp => "None".to_owned(),
        Action::KeymapSwitch { id } => {
            let mut s = "KeymapSwitch { id: ".to_owned();
            let q = debug_quoted(id.as_str());
            s.append(q.as_str());
            s.append(" }");
            s
        },
        Action::KeymapReset => "KeymapReset".to_owned(),
        _ => String::new(),
    }
}

/// The cause given for a key name outside the dictionary.
pub open spec fn unknown_key_cause(vk: Seq<char>) -> Seq<char> {
    "'"@ + vk + "' is not in the vk dictionary"@
}

/// The keyboard events that send an action, each with the name used in a failure
/// cause and whether it presses a modifier that must be released afterwards; whether
/// failures and completion release the held modifiers; and the outcome when every
/// event is accepted.
#[verifier::ext_equal]
pub ghost struct PlanView {
    pub events: Seq<KeyEvent>,
    pub labels: Seq<Seq<char>>,
    pub holds: Seq<bool>,
    pub chord: bool,
    pub end: Result<(), AdapterErrorView>,
}

/// The number of leading modifiers of a chord that name dictionary keys.
pub open spec fn known_prefix(mods: Seq<String>, u: int) -> bool {
    &&& 0 <= u <= mods.len()
    &&& forall|i: int| 0 <= i < u ==> is_vk_name((#[trigger] mods[i])@)
    &&& u < mods.len() ==> !is_vk_name(mods[u]@)
}

/// The label of a text event: the code unit in hexadecimal.
pub open spec fn unit_label(unit: u16) -> Seq<char> {
    "text U+"@ + hex4(unit)
}

/// How an action is sent. A key is pressed and released. A chord presses its
/// leading keys as modifiers in order, then presses and releases its last key; the
/// modifiers are released afterwards in reverse order. A text presses and releases
/// each of its UTF-16 code units. An action that is not keyboard input, an empty
/// chord or text, or a name outside the dictionary is unsupported; a chord stops
/// pressing at the first unknown name.
pub open spec fn plan_of(a: Action) -> PlanView {
    let none = Seq::<KeyEvent>::empty();
    match a {
        Action::Key { vk } => if is_vk_name(vk@) {
            let c = vk_code_of(vk@)->0;
            PlanView {
                events: seq![KeyEvent::Press(c), KeyEvent::Release(c)],
                labels: seq![vk@, vk@],
                holds: seq![false, false],
                chord: false,
                end: Ok(()),
            }
        } else {
            PlanView {
                events: none,
                labels: seq![],
                holds: seq![],
                chord: false,
                end: Err(AdapterErrorView::Unsupported(unknown_key_cause(vk@))),
            }
        },
        Action::Chord { keys } => if keys@.len() == 0 {
            PlanView {
                events: none,
                labels: seq![],
                holds: seq![],
                chord: false,
                end: Err(AdapterErrorView::Unsupported("chord must contain at least one key"@)),
            }
        } else {
            let mods = keys@.drop_last();
            let main = keys@.last();
            let u = choose|u: int| known_prefix(mods, u);
            let presses = Seq::new(u as nat, |i: int| KeyEvent::Press(vk_code_of(mods[i]@)->0));
            let names = Seq::new(u as nat, |i: int| mods[i]@);
            if u < mods.len() {
                PlanView {
                    events: presses,
                    labels: names,
                    holds: Seq::new(u as nat, |i: int| true),
                    chord: true,
                    end: Err(AdapterErrorView::Unsupported(unknown_key_cause(mods[u]@))),
                }
            } else if !is_vk_name(main@) {
                PlanView {
                    events: presses,
                    labels: names,
                    holds: Seq::new(u as nat, |i: int| true),
                    chord: true,
                    end: Err(AdapterErrorView::Unsupported(unknown_key_cause(main@))),
                }
            } else {
                let c = vk_code_of(main@)->0;
                PlanView {
                    events: presses + seq![KeyEvent::Press(c), KeyEvent::Release(c)],
                    labels: names + seq![main@, main@],
                    holds: Seq::new(u as nat, |i: int| true) + seq![false, false],
                    chord: true,
                    end: Ok(()),
                }
            }
        },
        Action::Text { string } => if string@.len() == 0 {
            PlanView {
                events: none,
                labels: seq![],
                holds: seq![],
                chord: false,
                end: Err(AdapterErrorView::Unsupported("text action string must not be empty"@)),
            }
        } else {
            let units = utf16(string@);
            PlanView {
                events: Seq::new(
                    2 * units.len(),
                    |i: int|
                        if i % 2 == 0 {
                            KeyEvent::UnicodePress(units[i / 2])
                        } else {
                            KeyEvent::UnicodeRelease(units[i / 2])
                        },
                ),
                labels: Seq::new(2 * units.len(), |i: int| unit_label(units[i / 2])),
                holds: Seq::new(2 * units.len(), |i: int| false),
                chord: false,
                end: Ok(()),
            }
        },
        _ => PlanView {
            events: none,
            labels: seq![],
            holds: seq![],
            chord: false,
            end: Err(AdapterErrorView::Unsupported("action cannot be sent to the OS: "@ + action_name(a))),
        },
    }
}

/// A key of the dictionary is sent as exactly one press followed by one release of
/// its virtual-key code, and sending it succeeds once both are accepted; a name outside
/// the dictionary sends nothing and is unsupported.
pub proof fn lemma_key_is_pressed_and_released_once(vk: String)
    ensures
        is_vk_name(vk@) ==> {
            let p = plan_of(Action::Key { vk });
            &&& p.events.len() == 2
            &&& p.events[0] == KeyEvent::Press(vk_code_of(vk@)->0)
            &&& p.events[1] == KeyEvent::Release(vk_code_of(vk@)->0)
            &&& p.holds == seq![false, false]
            &&& !p.chord
            &&& p.end is Ok
        },
        !is_vk_name(vk@) ==> plan_of(Action::Key { vk }).events.len() == 0 && plan_of(Action::Key { vk }).end is Err,
{
    lemma_vk_code_covers_dictionary(vk@);
}

/// A chord of dictionary keys presses every key but the last, in order, as held
/// modifiers; then presses and releases the last key. Nothing else is sent before the
/// modifiers are released (the sender releases them in reverse, see
/// `lemma_release_in_reverse`), and the chord succeeds once all are accepted.
pub proof fn lemma_chord_presses_modifiers_then_the_key(keys: Vec<String>)
    requires
        keys@.len() > 0,
        forall|i: int| 0 <= i < keys@.len() ==> is_vk_name((#[trigger] keys@[i])@),
    ensures
        ({
            let p = plan_of(Action::Chord { keys });
            let n = keys@.len();
            &&& p.chord
            &&& p.end is Ok
            &&& p.events.len() == n + 1
            &&& forall|i: int| 0 <= i < n ==> #[trigger] p.events[i] == KeyEvent::Press(vk_code_of(keys@[i]@)->0)
            &&& p.events[n as int] == KeyEvent::Release(vk_code_of(keys@[n - 1]@)->0)
            &&& forall|i: int| 0 <= i < n - 1 ==> #[trigger] p.holds[i]
            &&& !p.holds[n - 1] && !p.holds[n as int]
        }),
{
    let mods = keys@.drop_last();
    assert(known_prefix(mods, mods.len() as int));
    let u = choose|u: int| known_prefix(mods, u);
    if u < mods.len() {
        assert(is_vk_name(keys@[u]@));
    }
    assert(u == mods.len());
}

/// A text is sent as its UTF-16 code units, each pressed and then released, in order;
/// no key is held, and sending succeeds once all are accepted. An empty text sends
/// nothing and is unsupported.
pub proof fn lemma_text_is_sent_unit_by_unit(string: String)
    ensures
        string@.len() > 0 ==> {
            let p = plan_of(Action::Text { string });
            let units = utf16(string@);
            &&& p.events.len() == 2 * units.len()
            &&& forall|k: int| 0 <= k < units.len() ==> #[trigger] p.events[2 * k] == KeyEvent::UnicodePress(units[k])
                && p.events[2 * k + 1] == KeyEvent::UnicodeRelease(units[k])
            &&& forall|i: int| 0 <= i < p.holds.len() ==> !#[trigger] p.holds[i]
            &&& !p.chord
            &&& p.end is Ok
        },
        string@.len() == 0 ==> plan_of(Action::Text { string }).events.len() == 0
            && plan_of(Action::Text { string }).end is Err,
{
    if string@.len() > 0 {
        let p = plan_of(Action::Text { string });
        let units = utf16(string@);
        assert forall|k: int| 0 <= k < units.len() implies #[trigger] p.events[2 * k] == KeyEvent::UnicodePress(units[k])
            && p.events[2 * k + 1] == KeyEvent::UnicodeRelease(units[k]) by {
            assert((2 * k) % 2 == 0 && (2 * k) / 2 == k) by (nonlinear_arith);
            assert((2 * k + 1) % 2 == 1 && (2 * k + 1) / 2 == k) by (nonlinear_arith);
        }
    }
}

/// The keyboard events that send one action (see `plan_of`).
pub struct SendPlan {
    pub events: Vec<KeyEvent>,
    pub labels: Vec<String>,
    pub holds: Vec<bool>,
    pub chord: bool,
    pub end: Result<(), AdapterError>,
}

/// The characters of each string of `v`.
pub open spec fn labels_view(v: Seq<String>) -> Seq<Seq<char>> {
    v.map_values(|s: String| s@)
}

impl View for SendPlan {
    type V = PlanView;

    open spec fn view(&self) -> PlanView {
        PlanView {
            events: self.events@,
            labels: labels_view(self.labels@),
            holds: self.holds@,
            chord: self.chord,
            end: result_view(self.end),
        }
    }
}

proof fn lemma_labels_push(v: Seq<String>, x: String)
    ensures
        labels_view(v.push(x)) == labels_view(v).push(x@),
{
    assert(labels_view(v.push(x)) =~= labels_view(v).push(x@));
}

fn push_label(labels: &mut Vec<String>, x: String)
    ensures
        labels_view(final(labels)@) == labels_view(old(labels)@).push(x@),
{
    proof {
        lemma_labels_push(labels@, x);
    }
    labels.push(x);
}

fn unknown_key_error(vk: &String) -> (r: AdapterError)
    ensures
        r@ == AdapterErrorView::Unsupported(unknown_key_cause(vk@)),
{
    let mut cause = "'".to_owned();
    cause.append(vk.as_str());
    cause.append("' is not in the vk dictionary");
    AdapterError::Unsupported { cause }
}

fn known_code(vk: &String) -> (c: u16)
    requires
        is_vk_name(vk@),
    ensures
        vk_code_of(vk@) == Some(c),
{
    proof {
        lemma_vk_code_covers_dictionary(vk@);
    }
    match vk_code(vk.as_str()) {
        Some(c) => c,
        None => 0,
    }
}

fn unsupported(cause: &str) -> (r: Result<(), AdapterError>)
    ensures
        result_view(r) == Err::<(), AdapterErrorView>(AdapterErrorView::Unsupported(cause@)),
{
    Err(AdapterError::Unsupported { cause: cause.to_owned() })
}

fn empty_plan(end: Result<(), AdapterError>) -> (p: SendPlan)
    ensures
        p@.events == Seq::<KeyEvent>::empty(),
        p@.labels == Seq::<Seq<char>>::empty(),
        p@.holds == Seq::<bool>::empty(),
        !p@.chord,
        p@.end == result_view(end),
{
    let p = SendPlan { events: Vec::new(), labels: Vec::new(), holds: Vec::new(), chord: false, end };
    assert(labels_view(p.labels@) =~= Seq::<Seq<char>>::empty());
    assert(p.events@ =~= Seq::<KeyEvent>::empty());
    assert(p.holds@ =~= Seq::<bool>::empty());
    p
}

fn chord_plan(keys: &Vec<String>) -> (p: SendPlan)
    requires
        keys@.len() > 0,
    ensures
        p@ == plan_of(Action::Chord { keys: *keys }),
{
    let ghost mods = keys@.drop_last();
    let nm = keys.len() - 1;
    let mut events: Vec<KeyEvent> = Vec::new();
    let mut labels: Vec<String> = Vec::new();
    let mut holds: Vec<bool> = Vec::new();
    let mut u: usize = 0;
    while u < nm && is_known_vk(keys[u].as_str())
        invariant
            nm == mods.len(),
            keys@.len() == nm + 1,
            mods == keys@.drop_last(),
            u <= nm,
            forall|i: int| 0 <= i < u ==> is_vk_name((#[trigger] mods[i])@),
            events@ == Seq::new(u as nat, |i: int| KeyEvent::Press(vk_code_of(mods[i]@)->0)),
            labels_view(labels@) == Seq::new(u as nat, |i: int| mods[i]@),
            holds@ == Seq::new(u as nat, |i: int| true),
        decreases nm - u,
    {
        assert(mods[u as int] == keys@[u as int]);
        let c = known_code(&keys[u]);
        events.push(KeyEvent::Press(c));
        push_label(&mut labels, keys[u].clone());
        holds.push(true);
        u = u + 1;
        assert(events@ =~= Seq::new(u as nat, |i: int| KeyEvent::Press(vk_code_of(mods[i]@)->0)));
        assert(labels_view(labels@) =~= Seq::new(u as nat, |i: int| mods[i]@));
        assert(holds@ =~= Seq::new(u as nat, |i: int| true));
    }
    proof {
        assert(known_prefix(mods, u as int));
        let u2 = choose|u2: int| known_prefix(mods, u2);
        if u2 < u {
            assert(is_vk_name(mods[u2]@));
        } else if u < u2 {
            assert(is_vk_name(mods[u as int]@));
        }
    }
    if u < nm {
        let end = Err(unknown_key_error(&keys[u]));
        return SendPlan { events, labels, holds, chord: true, end };
    }
    let main = &keys[nm];
    if !is_known_vk(main.as_str()) {
        let end = Err(unknown_key_error(main));
        return SendPlan { events, labels, holds, chord: true, end };
    }
    let c = known_code(main);
    events.push(KeyEvent::Press(c));
    events.push(KeyEvent::Release(c));
    push_label(&mut labels, main.clone());
    push_label(&mut labels, main.clone());
    holds.push(false);
    holds.push(false);
    let p = SendPlan { events, labels, holds, chord: true, end: Ok(()) };
    proof {
        let spec_p = plan_of(Action::Chord { keys: *keys });
        assert(p@.events =~= spec_p.events);
        assert(p@.labels =~= spec_p.labels);
        assert(p@.holds =~= spec_p.holds);
    }
    p
}

fn text_plan(string: &String) -> (p: SendPlan)
    requires
        string@.len() > 0,
    ensures
        p@ == plan_of(Action::Text { string: *string }),
{
    let units = encode_utf16(string.as_str());
    let ghost us = units@;
    let mut events: Vec<KeyEvent> = Vec::new();
    let mut labels: Vec<String> = Vec::new();
    let mut holds: Vec<bool> = Vec::new();
    let n = units.len();
    for i in 0..n
        invariant
            n == us.len(),
            us == units@,
            us == utf16(string@),
            events@ == Seq::new(
                2 * i as nat,
                |j: int|
                    if j % 2 == 0 {
                        KeyEvent::UnicodePress(us[j / 2])
                    } else {
                        KeyEvent::UnicodeRelease(us[j / 2])
                    },
            ),
            labels_view(labels@) == Seq::new(2 * i as nat, |j: int| unit_label(us[j / 2])),
            holds@ == Seq::new(2 * i as nat, |j: int| false),
    {
        let unit = units[i];
        let mut label = "text U+".to_owned();
        append_hex4(&mut label, unit);
        assert(label@ == unit_label(us[i as int]));
        events.push(KeyEvent::UnicodePress(unit));
        events.push(KeyEvent::UnicodeRelease(unit));
        push_label(&mut labels, label.clone());
        push_label(&mut labels, label);
        holds.push(false);
        holds.push(false);
        proof {
            assert(events@ =~= Seq::new(
                2 * (i + 1) as nat,
                |j: int|
                    if j % 2 == 0 {
                        KeyEvent::UnicodePress(us[j / 2])
                    } else {
                        KeyEvent::UnicodeRelease(us[j / 2])
                    },
            ));
            assert forall|j: int| 0 <= j < 2 * (i + 1) implies #[trigger] labels_view(labels@)[j] == unit_label(us[j / 2]) by {
                if j == 2 * i || j == 2 * i + 1 {
                    assert(j / 2 == i);
                }
            }
            assert(labels_view(labels@) =~= Seq::new(2 * (i + 1) as nat, |j: int| unit_label(us[j / 2])));
            assert(holds@ =~= Seq::new(2 * (i + 1) as nat, |j: int| false));
        }
    }
    SendPlan { events, labels, holds, chord: false, end: Ok(()) }
}

/// The keyboard events that send `action` (see `plan_of`).
pub fn plan(action: &Action) -> (p: SendPlan)
    ensures
        p@ == plan_of(*action),
{
    match action {
        Action::Key { vk } => {
            if is_known_vk(vk.as_str()) {
                let c = known_code(vk);
                let mut events: Vec<KeyEvent> = Vec::new();
                events.push(KeyEvent::Press(c));
                events.push(KeyEvent::Release(c));
                let mut labels: Vec<String> = Vec::new();
                push_label(&mut labels, vk.clone());
                push_label(&mut labels, vk.clone());
                let mut holds: Vec<bool> = Vec::new();
                holds.push(false);
                holds.push(false);
                let p = SendPlan { events, labels, holds, chord: false, end: Ok(()) };
                assert(p@.events =~= plan_of(*action).events);
                assert(p@.labels =~= plan_of(*action).labels);
                assert(p@.holds =~= plan_of(*action).holds);
                p
            } else {
                empty_plan(Err(unknown_key_error(vk)))
            }
        },
        Action::Chord { keys } => {
            if keys.len() == 0 {
                empty_plan(unsupported("chord must contain at least one key"))
            } else {
                chord_plan(keys)
            }
        },
        Action::Text { string } => {
            if string.as_str().is_empty() {
                empty_plan(unsupported("text action string must not be empty"))
            } else {
                text_plan(string)
            }
        },
        _ => {
            let mut cause = "action cannot be sent to the OS: ".to_owned();
            let name = action_name_exec(action);
            cause.append(name.as_str());
            empty_plan(Err(AdapterError::Unsupported { cause }))
        },
    }
}

/// One step of sending: a keyboard event to hand to the system, or the outcome.
#[derive(Debug, PartialEq, Eq)]
pub enum SendStep {
    Emit(KeyEvent),
    Finished(Result<(), AdapterError>),
}

/// A step with its outcome taken by its view.
pub ghost enum StepView {
    Emit(KeyEvent),
    Finished(Result<(), AdapterErrorView>),
}

impl View for SendStep {
    type V = StepView;

    open spec fn view(&self) -> StepView {
        match self {
            SendStep::Emit(e) => StepView::Emit(*e),
            SendStep::Finished(r) => StepView::Finished(result_view(*r)),
        }
    }
}

/// The progress of sending one action. The caller hands each emitted event to the
/// system and reports the system's answer with the next step, until the sender
/// finishes. Modifiers that were pressed are released, in reverse order, whatever
/// happens to the rest of a chord.
pub struct KeySender {
    plan: SendPlan,
    next: usize,
    awaiting: bool,
    held: Vec<u16>,
    releasing: bool,
    pending: Result<(), AdapterError>,
    done: bool,
}

/// The state of a sender: the plan; the position of the next plan event and whether
/// it was emitted and awaits its answer; the modifiers held; whether the held
/// modifiers are being released; the outcome to report once they are; and whether
/// the sender has finished.
#[verifier::ext_equal]
pub ghost struct SenderView {
    pub plan: PlanView,
    pub next: int,
    pub awaiting: bool,
    pub held: Seq<u16>,
    pub releasing: bool,
    pub pending: Result<(), AdapterErrorView>,
    pub done: bool,
}

impl View for KeySender {
    type V = SenderView;

    closed spec fn view(&self) -> SenderView {
        SenderView {
            plan: self.plan@,
            next: self.next as int,
            awaiting: self.awaiting,
            held: self.held@,
            releasing: self.releasing,
            pending: result_view(self.pending),
            done: self.done,
        }
    }
}

/// The virtual key that a press event presses.
pub open spec fn pressed_code(e: KeyEvent) -> u16 {
    match e {
        KeyEvent::Press(c) => c,
        _ => 0,
    }
}

/// A plan whose parts agree: one label and one hold flag per event, and holds only on
/// the modifier presses of a chord.
pub open spec fn plan_wf(p: PlanView) -> bool {
    &&& p.labels.len() == p.events.len()
    &&& p.holds.len() == p.events.len()
    &&& forall|i: int| 0 <= i < p.holds.len() && #[trigger] p.holds[i] ==> p.chord && p.events[i] is Press
}

/// A consistent sender state.
pub open spec fn sender_wf(v: SenderView) -> bool {
    &&& plan_wf(v.plan)
    &&& 0 <= v.next <= v.plan.events.len()
    &&& v.awaiting ==> v.next < v.plan.events.len() && !v.releasing && !v.done
    &&& !v.plan.chord ==> v.held.len() == 0 && !v.releasing
    &&& v.done ==> v.held.len() == 0
}

/// The sender before its first step.
pub open spec fn initial_sender(p: PlanView) -> SenderView {
    SenderView {
        plan: p,
        next: 0,
        awaiting: false,
        held: seq![],
        releasing: false,
        pending: Ok(()),
        done: false,
    }
}

/// Takes in the system's answer to the event awaiting one; an early outcome when a
/// refusal ends a send that holds no modifiers.
pub open spec fn absorb(v: SenderView, answer: Result<(), Seq<char>>) -> (SenderView, Option<
    Result<(), AdapterErrorView>,
>) {
    if v.awaiting {
        let i = v.next;
        match answer {
            Ok(()) => (
                SenderView {
                    awaiting: false,
                    next: i + 1,
                    held: if v.plan.holds[i] {
                        v.held.push(pressed_code(v.plan.events[i]))
                    } else {
                        v.held
                    },
                    ..v
                },
                None,
            ),
            Err(m) => {
                let e = AdapterErrorView::SendFailed(v.plan.labels[i] + ": "@ + m);
                if v.plan.chord {
                    (SenderView { awaiting: false, releasing: true, pending: Err(e), ..v }, None)
                } else {
                    (SenderView { awaiting: false, done: true, pending: Err(e), ..v }, Some(Err(e)))
                }
            },
        }
    } else {
        (v, None)
    }
}

/// Chooses what comes next: the next plan event; else, for a chord, the release of
/// the last held modifier; else the outcome.
pub open spec fn emit(v: SenderView) -> (SenderView, StepView) {
    if v.done {
        (v, StepView::Finished(v.pending))
    } else if !v.releasing && v.next < v.plan.events.len() {
        (SenderView { awaiting: true, ..v }, StepView::Emit(v.plan.events[v.next]))
    } else if !v.releasing && !v.plan.chord {
        (SenderView { done: true, pending: v.plan.end, ..v }, StepView::Finished(v.plan.end))
    } else {
        let w = if v.releasing {
            v
        } else {
            SenderView { releasing: true, pending: v.plan.end, ..v }
        };
        if w.held.len() > 0 {
            (SenderView { held: w.held.drop_last(), ..w }, StepView::Emit(KeyEvent::Release(w.held.last())))
        } else {
            (SenderView { done: true, ..w }, StepView::Finished(w.pending))
        }
    }
}

/// One step of a sender, given the system's answer to the event emitted last (any
/// answer where none awaits one).
pub open spec fn step_spec(v: SenderView, answer: Result<(), Seq<char>>) -> (SenderView, StepView) {
    let (w, early) = absorb(v, answer);
    match early {
        Some(r) => (w, StepView::Finished(r)),
        None => emit(w),
    }
}

/// How far a sender is from finishing; every emitted event lowers it.
pub open spec fn remaining_work(v: SenderView) -> int {
    if v.done {
        0
    } else {
        1 + 2 * v.held.len() + if v.releasing {
            0
        } else {
            1 + 3 * (v.plan.events.len() - v.next) - if v.awaiting { 1int } else { 0 }
        }
    }
}

/// The view of the system's answer.
pub open spec fn answer_view(a: Result<(), String>) -> Result<(), Seq<char>> {
    match a {
        Ok(()) => Ok(()),
        Err(m) => Err(m@),
    }
}

impl KeySender {
    /// A sender for `action`, before its first step.
    pub fn new(action: &Action) -> (r: KeySender)
        ensures
            r@ == initial_sender(plan_of(*action)),
            sender_wf(r@),
    {
        let p = plan(action);
        proof {
            lemma_plan_wf(*action);
        }
        KeySender {
            plan: p,
            next: 0,
            awaiting: false,
            held: Vec::new(),
            releasing: false,
            pending: Ok(()),
            done: false,
        }
    }

    /// The next step, given the system's answer to the event emitted last; the answer
    /// is ignored where no plan event awaits one (at the start, after a release).
    pub fn step(&mut self, answer: Result<(), String>) -> (r: SendStep)
        requires
            sender_wf(old(self)@),
        ensures
            (final(self)@, r@) == step_spec(old(self)@, answer_view(answer)),
            sender_wf(final(self)@),
    {
        if self.awaiting {
            let i = self.next;
            let len = self.plan.events.len();
            assert(i < len);
            self.awaiting = false;
            match answer {
                Ok(()) => {
                    if self.plan.holds[i] {
                        let code = match self.plan.events[i] {
                            KeyEvent::Press(c) => c,
                            _ => 0,
                        };
                        self.held.push(code);
                    }
                    self.next = i + 1;
                },
                Err(m) => {
                    let mut cause = self.plan.labels[i].clone();
                    cause.append(": ");
                    cause.append(m.as_str());
                    if self.plan.chord {
                        self.releasing = true;
                        self.pending = Err(AdapterError::SendFailed { cause });
                    } else {
                        self.done = true;
                        let e = AdapterError::SendFailed { cause };
                        self.pending = Err(e.copy());
                        return SendStep::Finished(Err(e));
                    }
                },
            }
        }
        if self.done {
            return SendStep::Finished(copy_result(&self.pending));
        }
        if !self.releasing && self.next < self.plan.events.len() {
            self.awaiting = true;
            return SendStep::Emit(self.plan.events[self.next]);
        }
        if !self.releasing && !self.plan.chord {
            self.done = true;
            self.pending = copy_result(&self.plan.end);
            return SendStep::Finished(copy_result(&self.plan.end));
        }
        if !self.releasing {
            self.releasing = true;
            self.pending = copy_result(&self.plan.end);
        }
        match self.held.pop() {
            Some(c) => SendStep::Emit(KeyEvent::Release(c)),
            None => {
                self.done = true;
                SendStep::Finished(copy_result(&self.pending))
            },
        }
    }
}

fn copy_result(r: &Result<(), AdapterError>) -> (c: Result<(), AdapterError>)
    ensures
        result_view(c) == result_view(*r),
{
    match r {
        Ok(()) => Ok(()),
        Err(e) => Err(e.copy()),
    }
}

/// Every plan is well formed.
pub proof fn lemma_plan_wf(a: Action)
    ensures
        plan_wf(plan_of(a)),
{
    let p = plan_of(a);
    if let Action::Chord { keys } = a {
        if keys@.len() > 0 {
            let mods = keys@.drop_last();
            let u = choose|u: int| known_prefix(mods, u);
            assert forall|i: int| 0 <= i < p.holds.len() && #[trigger] p.holds[i] implies p.chord && p.events[i] is Press by {
                if i < u {
                } else {
                }
            }
        }
    }
}

/// A sender that is stepped stays consistent, and finishes only once no modifier is
/// held any more: a chord never leaves a modifier pressed, whatever the system answers.
pub proof fn lemma_finish_leaves_nothing_held(v: SenderView, answer: Result<(), Seq<char>>)
    requires
        sender_wf(v),
    ensures
        sender_wf(step_spec(v, answer).0),
        step_spec(v, answer).1 is Finished ==> step_spec(v, answer).0.held.len() == 0,
{
}

/// The modifiers are released last pressed first: a release emitted while releasing
/// is the last held modifier, which stops being held.
pub proof fn lemma_release_in_reverse(v: SenderView, answer: Result<(), Seq<char>>)
    requires
        sender_wf(v),
        !v.awaiting,
        v.releasing,
    ensures
        step_spec(v, answer).1 matches StepView::Emit(e) ==> e == KeyEvent::Release(v.held.last())
            && step_spec(v, answer).0.held == v.held.drop_last(),
{
}

/// Sending always ends: every emitted event lowers the remaining work, whatever the
/// system answers.
pub proof fn lemma_emit_makes_progress(v: SenderView, answer: Result<(), Seq<char>>)
    requires
        sender_wf(v),
    ensures
        step_spec(v, answer).1 is Emit ==> 0 <= remaining_work(step_spec(v, answer).0) < remaining_work(v),
{
}

/// A sender for a dictionary key, stepped with the system accepting each event, emits
/// exactly the press of the key's virtual-key code, then its release, then finishes
/// with success: the key is typed once.
pub proof fn lemma_key_sender_types_the_key_once(vk: String, first: Result<(), Seq<char>>)
    requires
        is_vk_name(vk@),
    ensures
        ({
            let c = vk_code_of(vk@)->0;
            let s0 = initial_sender(plan_of(Action::Key { vk }));
            let (s1, e1) = step_spec(s0, first);
            let (s2, e2) = step_spec(s1, Ok(()));
            let (s3, e3) = step_spec(s2, Ok(()));
            &&& e1 == StepView::Emit(KeyEvent::Press(c))
            &&& e2 == StepView::Emit(KeyEvent::Release(c))
            &&& e3 == StepView::Finished(Ok(()))
            &&& s3.done
        }),
{
    lemma_key_is_pressed_and_released_once(vk);
}

/// The first `n` steps of a sender whose every event the system accepts.
pub open spec fn accepted_run(v: SenderView, n: nat) -> Seq<StepView>
    decreases n,
{
    if n == 0 {
        seq![]
    } else {
        let (w, e) = step_spec(v, Ok(()));
        seq![e] + accepted_run(w, (n - 1) as nat)
    }
}

spec fn key_codes(keys: Seq<String>) -> Seq<u16> {
    Seq::new(keys.len(), |i: int| vk_code_of(keys[i]@)->0)
}

/// A chord sender about to emit (or awaiting the answer to) plan event `i`, holding the
/// modifiers pressed so far.
spec fn chord_pressing(p: PlanView, codes: Seq<u16>, i: int, awaiting: bool) -> SenderView {
    let m = codes.len() - 1;
    SenderView {
        plan: p,
        next: i,
        awaiting,
        held: codes.take(if i < m { i } else { m }),
        releasing: false,
        pending: Ok(()),
        done: false,
    }
}

/// A chord sender releasing its modifiers, `h` of them still held.
spec fn chord_releasing(p: PlanView, codes: Seq<u16>, h: int) -> SenderView {
    SenderView {
        plan: p,
        next: p.events.len() as int,
        awaiting: false,
        held: codes.take(h),
        releasing: true,
        pending: Ok(()),
        done: false,
    }
}

proof fn lemma_run_same_step(v1: SenderView, v2: SenderView, n: nat)
    requires
        n > 0,
        step_spec(v1, Ok(())) == step_spec(v2, Ok(())),
    ensures
        accepted_run(v1, n) == accepted_run(v2, n),
{
}

proof fn lemma_chord_release_run(p: PlanView, codes: Seq<u16>, h: int)
    requires
        0 <= h < codes.len(),
        p.chord,
    ensures
        accepted_run(chord_releasing(p, codes, h), (h + 1) as nat) == Seq::new(
            h as nat,
            |j: int| StepView::Emit(KeyEvent::Release(codes[h - 1 - j])),
        ) + seq![StepView::Finished(Ok(()))],
    decreases h,
{
    let v = chord_releasing(p, codes, h);
    let (w, e) = step_spec(v, Ok(()));
    if h == 0 {
        assert(v.held =~= Seq::<u16>::empty());
        assert(accepted_run(w, 0) == Seq::<StepView>::empty());
        assert(accepted_run(v, 1) =~= seq![e]);
        assert(Seq::new(0, |j: int| StepView::Emit(KeyEvent::Release(codes[h - 1 - j]))) =~= Seq::<StepView>::empty());
    } else {
        assert(v.held.last() == codes[h - 1]);
        assert(v.held.drop_last() =~= codes.take(h - 1));
        assert(w =~= chord_releasing(p, codes, h - 1));
        lemma_chord_release_run(p, codes, h - 1);
        assert(accepted_run(v, (h + 1) as nat) == seq![e] + accepted_run(w, h as nat));
        assert(accepted_run(v, (h + 1) as nat) =~= Seq::new(
            h as nat,
            |j: int| StepView::Emit(KeyEvent::Release(codes[h - 1 - j])),
        ) + seq![StepView::Finished(Ok(()))]);
    }
}

proof fn lemma_chord_press_run(p: PlanView, codes: Seq<u16>, i: int)
    requires
        codes.len() > 0,
        p.chord,
        p.end == Ok::<(), AdapterErrorView>(()),
        p.events.len() == codes.len() + 1,
        p.holds.len() == p.events.len(),
        forall|k: int| 0 <= k < codes.len() - 1 ==> #[trigger] p.holds[k] && p.events[k] == KeyEvent::Press(codes[k]),
        !p.holds[codes.len() - 1],
        !p.holds[codes.len() as int],
        0 <= i < p.events.len(),
    ensures
        accepted_run(chord_pressing(p, codes, i, false), (p.events.len() - i + codes.len()) as nat) == Seq::new(
            (p.events.len() - i) as nat,
            |j: int| StepView::Emit(p.events[i + j]),
        ) + Seq::new(
            (codes.len() - 1) as nat,
            |j: int| StepView::Emit(KeyEvent::Release(codes[codes.len() - 2 - j])),
        ) + seq![StepView::Finished(Ok(()))],
    decreases p.events.len() - i,
{
    let m = codes.len() - 1;
    let len = p.events.len() as int;
    let n = (len - i + codes.len()) as nat;
    let a = chord_pressing(p, codes, i, false);
    let b = chord_pressing(p, codes, i, true);
    assert(step_spec(a, Ok(())) == (b, StepView::Emit(p.events[i])));
    assert(accepted_run(a, n) == seq![StepView::Emit(p.events[i])] + accepted_run(b, (n - 1) as nat));
    let rel = Seq::new(m as nat, |j: int| StepView::Emit(KeyEvent::Release(codes[m - 1 - j])));
    let fin = seq![StepView::Finished(Ok(()))];
    if i + 1 < len {
        let a2 = chord_pressing(p, codes, i + 1, false);
        if i < m {
            assert(codes.take(i).push(codes[i]) =~= codes.take(i + 1));
        }
        assert(absorb(b, Ok(())).0 =~= a2);
        assert(absorb(a2, Ok(())).0 == a2);
        lemma_run_same_step(b, a2, (n - 1) as nat);
        lemma_chord_press_run(p, codes, i + 1);
        assert(accepted_run(a, n) =~= Seq::new((len - i) as nat, |j: int| StepView::Emit(p.events[i + j])) + rel + fin);
    } else {
        let r = chord_releasing(p, codes, m);
        assert(absorb(b, Ok(())).0.held == r.held);
        assert(emit(absorb(b, Ok(())).0).0 == emit(r).0);
        lemma_run_same_step(b, r, (n - 1) as nat);
        lemma_chord_release_run(p, codes, m);
        assert(accepted_run(a, n) =~= Seq::new((len - i) as nat, |j: int| StepView::Emit(p.events[i + j])) + rel + fin);
    }
}

/// A plain sender about to emit (or awaiting the answer to) plan event `i`.
spec fn plain_at(p: PlanView, i: int, awaiting: bool) -> SenderView {
    SenderView { plan: p, next: i, awaiting, held: seq![], releasing: false, pending: Ok(()), done: false }
}

proof fn lemma_plain_run(p: PlanView, i: int)
    requires
        plan_wf(p),
        !p.chord,
        0 <= i <= p.events.len(),
    ensures
        accepted_run(plain_at(p, i, false), (p.events.len() - i + 1) as nat) == Seq::new(
            (p.events.len() - i) as nat,
            |j: int| StepView::Emit(p.events[i + j]),
        ) + seq![StepView::Finished(p.end)],
    decreases p.events.len() - i,
{
    let len = p.events.len() as int;
    let n = (len - i + 1) as nat;
    let a = plain_at(p, i, false);
    if i == len {
        let (w, e) = step_spec(a, Ok(()));
        assert(accepted_run(w, 0) == Seq::<StepView>::empty());
        assert(accepted_run(a, 1) =~= seq![StepView::Finished(p.end)]);
        assert(Seq::new(0, |j: int| StepView::Emit(p.events[i + j])) =~= Seq::<StepView>::empty());
    } else {
        let b = plain_at(p, i, true);
        let a2 = plain_at(p, i + 1, false);
        assert(!p.holds[i]);
        assert(step_spec(a, Ok(())) == (b, StepView::Emit(p.events[i])));
        assert(absorb(b, Ok(())).0 =~= a2);
        lemma_run_same_step(b, a2, (n - 1) as nat);
        lemma_plain_run(p, i + 1);
        assert(accepted_run(a, n) =~= Seq::new((len - i) as nat, |j: int| StepView::Emit(p.events[i + j]))
            + seq![StepView::Finished(p.end)]);
    }
}

/// A sender for any action other than a chord (a key, a text, or an action that
/// cannot be sent), stepped with the system accepting each event, emits exactly the
/// plan's events, in order and each once, then finishes with the plan's outcome.
pub proof fn lemma_plain_sender_emits_its_plan_once(a: Action)
    requires
        !plan_of(a).chord,
    ensures
        ({
            let p = plan_of(a);
            accepted_run(initial_sender(p), (p.events.len() + 1) as nat) == Seq::new(
                p.events.len(),
                |j: int| StepView::Emit(p.events[j]),
            ) + seq![StepView::Finished(p.end)]
        }),
{
    let p = plan_of(a);
    lemma_plan_wf(a);
    assert(initial_sender(p) =~= plain_at(p, 0, false));
    lemma_plain_run(p, 0);
    assert(Seq::new((p.events.len() - 0) as nat, |j: int| StepView::Emit(p.events[0 + j])) =~= Seq::new(
        p.events.len(),
        |j: int| StepView::Emit(p.events[j]),
    ));
}

/// A sender for a chord of dictionary keys, stepped with the system accepting each
/// event, presses the modifiers in order, presses and releases the last key, releases
/// the modifiers in reverse order and finishes with success.
pub proof fn lemma_chord_sender_releases_modifiers_in_reverse(keys: Vec<String>)
    requires
        keys@.len() > 0,
        forall|i: int| 0 <= i < keys@.len() ==> is_vk_name((#[trigger] keys@[i])@),
    ensures
        ({
            let n = keys@.len() as int;
            let m = n - 1;
            let code = |i: int| vk_code_of(keys@[i]@)->0;
            accepted_run(initial_sender(plan_of(Action::Chord { keys })), (2 * m + 3) as nat) == Seq::new(
                m as nat,
                |i: int| StepView::Emit(KeyEvent::Press(code(i))),
            ) + seq![StepView::Emit(KeyEvent::Press(code(m))), StepView::Emit(KeyEvent::Release(code(m)))]
                + Seq::new(m as nat, |j: int| StepView::Emit(KeyEvent::Release(code(m - 1 - j))))
                + seq![StepView::Finished(Ok(()))]
        }),
{
    lemma_chord_presses_modifiers_then_the_key(keys);
    let p = plan_of(Action::Chord { keys });
    let codes = key_codes(keys@);
    let n = keys@.len() as int;
    let m = n - 1;
    assert(initial_sender(p) =~= chord_pressing(p, codes, 0, false));
    lemma_chord_press_run(p, codes, 0);
}

/// Sends `action` to a keyboard that accepts every event, as on a system without
/// keyboard injection: the outcome is the plan's outcome. The events go through a
/// `KeySender`; an application that injects real keyboard input steps one itself.
pub fn send(action: &Action) -> (r: Result<(), AdapterError>)
    ensures
        result_view(r) == plan_of(*action).end,
{
    let mut sender = KeySender::new(action);
    let ghost end = plan_of(*action).end;
    loop
        invariant
            sender_wf(sender@),
            sender@.plan.end == end,
            end == plan_of(*action).end,
            (sender@.releasing || sender@.done) ==> sender@.pending == end,
        decreases remaining_work(sender@),
    {
        let ghost before = sender@;
        let step = sender.step(Ok(()));
        proof {
            lemma_emit_makes_progress(before, Ok(()));
        }
        match step {
            SendStep::Emit(_) => {},
            SendStep::Finished(r) => {
                return r;
            },
        }
    }
}

} // verus!
