//! Character-level helpers on strings.
use vstd::prelude::*;

verus! {

broadcast use vstd::string::group_string_axioms;

/// The characters of `s`, in order.
pub fn chars_of(s: &str) -> (out: Vec<char>)
    ensures
        out@ == s@,
{
    let mut out: Vec<char> = Vec::new();
    for c in it: s.chars()
        invariant
            it.seq() == s@,
            out@ == it.seq().take(it.index() as int),
    {
        out.push(c);
    }
    out
}

/// Whether the characters in `v` spell out exactly `word`.
pub fn spells(v: &Vec<char>, word: &[char]) -> (r: bool)
    ensures
        r == (v@ == word@),
{
    if v.len() != word.len() {
        return false;
    }
    let n = v.len();
    let mut i: usize = 0;
    while i < n
        invariant
            n == v.len(),
            n == word@.len(),
            i <= n,
            forall|j: int| 0 <= j < i ==> v@[j] == word@[j],
        decreases n - i,
    {
        if v[i] != word[i] {
            return false;
        }
        i = i + 1;
    }
    assert(v@ =~= word@);
    true
}



/// The character of the decimal digit `d`.
pub open spec fn digit_char(d: nat) -> char {
    if d == 0 { '0' } else if d == 1 { '1' } else if d == 2 { '2' } else if d == 3 { '3' }
    else if d == 4 { '4' } else if d == 5 { '5' } else if d == 6 { '6' } else if d == 7 { '7' }
    else if d == 8 { '8' } else { '9' }
}

/// The decimal notation of `n`, without leading zeros.
pub open spec fn decimal(n: nat) -> Seq<char>
    decreases n,
{
    if n < 10 {
        seq![digit_char(n)]
    } else {
        decimal(n / 10).push(digit_char(n % 10))
    }
}

fn digit_text(d: u64) -> (r: &'static str)
    requires
        d < 10,
    ensures
        r@ == seq![digit_char(d as nat)],
{
    proof {
        reveal_strlit("0");
        reveal_strlit("1");
        reveal_strlit("2");
        reveal_strlit("3");
        reveal_strlit("4");
        reveal_strlit("5");
        reveal_strlit("6");
        reveal_strlit("7");
        reveal_strlit("8");
        reveal_strlit("9");
    }
    match d {
        0 => "0",
        1 => "1",
        2 => "2",
        3 => "3",
        4 => "4",
        5 => "5",
        6 => "6",
        7 => "7",
        8 => "8",
        _ => "9",
    }
}

/// Appends the decimal notation of `n` to `s`.
pub fn append_decimal(s: &mut String, n: u64)
    ensures
        final(s)@ == old(s)@ + decimal(n as nat),
    decreases n,
{
    if n >= 10 {
        append_decimal(s, n / 10);
    }
    s.append(digit_text(n % 10));
    proof {
        if n >= 10 {
            assert(decimal(n as nat) == decimal((n / 10) as nat).push(digit_char((n % 10) as nat)));
        }
    }
}

/// Unicode's `White_Space` property, the whitespace that `str::trim` removes.
pub open spec fn is_white_space(c: char) -> bool {
    ('\u{9}' <= c && c <= '\u{d}') || c == ' ' || c == '\u{85}' || c == '\u{a0}'
        || c == '\u{1680}' || ('\u{2000}' <= c && c <= '\u{200a}') || c == '\u{2028}'
        || c == '\u{2029}' || c == '\u{202f}' || c == '\u{205f}' || c == '\u{3000}'
}

/// A string made of whitespace only (the empty string included): what trimming
/// leaves empty.
pub open spec fn is_blank(s: Seq<char>) -> bool {
    forall|i: int| 0 <= i < s.len() ==> is_white_space(#[trigger] s[i])
}

/// Whether `s` is empty once its surrounding whitespace is trimmed.
pub fn blank(s: &str) -> (r: bool)
    ensures
        r == is_blank(s@),
{
    let v = chars_of(s);
    let n = v.len();
    let mut i: usize = 0;
    while i < n
        invariant
            n == v@.len(),
            v@ == s@,
            i <= n,
            forall|j: int| 0 <= j < i ==> is_white_space(#[trigger] v@[j]),
        decreases n - i,
    {
        let c = v[i];
        let ws = ('\u{9}' <= c && c <= '\u{d}') || c == ' ' || c == '\u{85}' || c == '\u{a0}'
            || c == '\u{1680}' || ('\u{2000}' <= c && c <= '\u{200a}') || c == '\u{2028}'
            || c == '\u{2029}' || c == '\u{202f}' || c == '\u{205f}' || c == '\u{3000}';
        if !ws {
            return false;
        }
        i = i + 1;
    }
    true
}

/// The hexadecimal digit `d`, upper case when `upper` holds.
pub open spec fn hex_char(d: nat, upper: bool) -> char {
    if d < 10 {
        digit_char(d)
    } else if upper {
        if d == 10 { 'A' } else if d == 11 { 'B' } else if d == 12 { 'C' } else if d == 13 { 'D' }
        else if d == 14 { 'E' } else { 'F' }
    } else {
        if d == 10 { 'a' } else if d == 11 { 'b' } else if d == 12 { 'c' } else if d == 13 { 'd' }
        else if d == 14 { 'e' } else { 'f' }
    }
}

fn hex_text(d: u64, upper: bool) -> (r: &'static str)
    requires
        d < 16,
    ensures
        r@ == seq![hex_char(d as nat, upper)],
{
    if d < 10 {
        return digit_text(d);
    }
    proof {
        reveal_strlit("A");
        reveal_strlit("B");
        reveal_strlit("C");
        reveal_strlit("D");
        reveal_strlit("E");
        reveal_strlit("F");
        reveal_strlit("a");
        reveal_strlit("b");
        reveal_strlit("c");
        reveal_strlit("d");
        reveal_strlit("e");
        reveal_strlit("f");
    }
    if upper {
        match d {
            10 => "A",
            11 => "B",
            12 => "C",
            13 => "D",
            14 => "E",
            _ => "F",
        }
    } else {
        match d {
            10 => "a",
            11 => "b",
            12 => "c",
            13 => "d",
            14 => "e",
            _ => "f",
        }
    }
}

/// Four upper-case hexadecimal digits of `u`, most significant first.
pub open spec fn hex4(u: u16) -> Seq<char> {
    seq![
        hex_char((u as nat / 4096) % 16, true),
        hex_char((u as nat / 256) % 16, true),
        hex_char((u as nat / 16) % 16, true),
        hex_char(u as nat % 16, true),
    ]
}

/// Appends four upper-case hexadecimal digits of `u` to `s`.
pub fn append_hex4(s: &mut String, u: u16)
    ensures
        final(s)@ == old(s)@ + hex4(u),
{
    let v = u as u64;
    s.append(hex_text((v / 4096) % 16, true));
    s.append(hex_text((v / 256) % 16, true));
    s.append(hex_text((v / 16) % 16, true));
    s.append(hex_text(v % 16, true));
    assert(final(s)@ =~= old(s)@ + hex4(u));
}

/// Two lower-case hexadecimal digits of `b`, most significant first.
pub open spec fn hex2_lower(b: u8) -> Seq<char> {
    seq![hex_char(b as nat / 16, false), hex_char(b as nat % 16, false)]
}

/// Appends two lower-case hexadecimal digits of `b` to `s`.
pub fn append_hex2_lower(s: &mut String, b: u8)
    ensures
        final(s)@ == old(s)@ + hex2_lower(b),
{
    let v = b as u64;
    s.append(hex_text(v / 16, false));
    s.append(hex_text(v % 16, false));
    assert(final(s)@ =~= old(s)@ + hex2_lower(b));
}

/// The UTF-16 code units of `c`: one unit below U+10000, else a surrogate pair.
pub open spec fn utf16_units(c: char) -> Seq<u16> {
    let v = c as u32;
    if v < 0x10000 {
        seq![v as u16]
    } else {
        seq![(0xD800 + (v - 0x10000) / 0x400) as u16, (0xDC00 + (v - 0x10000) % 0x400) as u16]
    }
}

/// The UTF-16 encoding of `s`.
pub open spec fn utf16(s: Seq<char>) -> Seq<u16>
    decreases s.len(),
{
    if s.len() == 0 {
        seq![]
    } else {
        utf16(s.drop_last()) + utf16_units(s.last())
    }
}

/// The UTF-16 code units of `s`, in order.
pub fn encode_utf16(s: &str) -> (r: Vec<u16>)
    ensures
        r@ == utf16(s@),
{
    let v = chars_of(s);
    let mut r: Vec<u16> = Vec::new();
    let n = v.len();
    for i in 0..n
        invariant
            n == v@.len(),
            v@ == s@,
            r@ == utf16(v@.take(i as int)),
    {
        proof {
            assert(v@.take(i + 1).drop_last() =~= v@.take(i as int));
        }
        let c = v[i] as u32;
        if c < 0x10000 {
            r.push(c as u16);
        } else {
            let w = c - 0x10000;
            r.push((0xD800 + w / 0x400) as u16);
            r.push((0xDC00 + w % 0x400) as u16);
        }
        proof {
            let t = v@.take(i + 1);
            assert(t.last() == v@[i as int]);
            assert(utf16(t) == utf16(t.drop_last()) + utf16_units(t.last()));
            assert(r@ =~= utf16(v@.take(i as int)) + utf16_units(v@[i as int]));
        }
    }
    assert(v@.take(n as int) =~= v@);
    r
}

/// `a` and `b` first differ at position `i`, or one of them ends there.
pub open spec fn first_difference(a: Seq<char>, b: Seq<char>, i: int) -> bool {
    &&& 0 <= i <= a.len()
    &&& i <= b.len()
    &&& forall|j: int| 0 <= j < i ==> a[j] == b[j]
    &&& (i == a.len() || i == b.len() || a[i] != b[i])
}

/// The order of strings: lexicographic by character, a proper prefix first.
pub open spec fn seq_lt(a: Seq<char>, b: Seq<char>) -> bool {
    exists|i: int|
        #[trigger] first_difference(a, b, i) && (i == a.len() && i < b.len() || i < a.len() && i
            < b.len() && a[i] < b[i])
}

proof fn lemma_first_difference_exists(a: Seq<char>, b: Seq<char>) -> (i: int)
    ensures
        first_difference(a, b, i),
{
    let n = if a.len() < b.len() { a.len() as int } else { b.len() as int };
    if exists|j: int| 0 <= j < n && a[j] != b[j] {
        let k = choose|j: int| 0 <= j < n && a[j] != b[j];
        lemma_first_mismatch(a, b, k)
    } else {
        n
    }
}

proof fn lemma_first_mismatch(a: Seq<char>, b: Seq<char>, k: int) -> (i: int)
    requires
        0 <= k < a.len(),
        k < b.len(),
        a[k] != b[k],
    ensures
        first_difference(a, b, i),
        i <= k,
    decreases k,
{
    if exists|j: int| 0 <= j < k && a[j] != b[j] {
        let j = choose|j: int| 0 <= j < k && a[j] != b[j];
        lemma_first_mismatch(a, b, j)
    } else {
        k
    }
}

proof fn lemma_first_difference_unique(a: Seq<char>, b: Seq<char>, i: int, j: int)
    requires
        first_difference(a, b, i),
        first_difference(a, b, j),
    ensures
        i == j,
{
    if i < j {
        assert(a[i] == b[i]);
    } else if j < i {
        assert(a[j] == b[j]);
    }
}

/// The order of strings is a strict total order.
pub proof fn lemma_seq_lt_total(a: Seq<char>, b: Seq<char>)
    ensures
        !(seq_lt(a, b) && seq_lt(b, a)),
        !seq_lt(a, a),
        a != b ==> seq_lt(a, b) || seq_lt(b, a),
{
    let i = lemma_first_difference_exists(a, b);
    assert(first_difference(b, a, i));
    if seq_lt(a, b) {
        let j = choose|j: int| #[trigger] first_difference(a, b, j) && (j == a.len() && j < b.len() || j < a.len() && j < b.len() && a[j] < b[j]);
        lemma_first_difference_unique(a, b, i, j);
    }
    if seq_lt(b, a) {
        let j = choose|j: int| #[trigger] first_difference(b, a, j) && (j == b.len() && j < a.len() || j < b.len() && j < a.len() && b[j] < a[j]);
        assert(first_difference(a, b, j));
        lemma_first_difference_unique(a, b, i, j);
    }
    if seq_lt(a, a) {
        let j = choose|j: int| #[trigger] first_difference(a, a, j) && (j == a.len() && j < a.len() || j < a.len() && j < a.len() && a[j] < a[j]);
    }
    if a != b {
        if i == a.len() && i == b.len() {
            assert(a =~= b);
        }
    }
}

/// The order of strings is transitive.
pub proof fn lemma_seq_lt_transitive(a: Seq<char>, b: Seq<char>, c: Seq<char>)
    requires
        seq_lt(a, b),
        seq_lt(b, c),
    ensures
        seq_lt(a, c),
{
    let i = choose|i: int| #[trigger] first_difference(a, b, i) && (i == a.len() && i < b.len() || i < a.len() && i < b.len() && a[i] < b[i]);
    let j = choose|j: int| #[trigger] first_difference(b, c, j) && (j == b.len() && j < c.len() || j < b.len() && j < c.len() && b[j] < c[j]);
    let k = if i < j { i } else { j };
    assert(first_difference(a, c, k));
}

/// A proper prefix comes before the longer string; where two strings first differ in
/// a character, the one with the smaller character comes first.
pub proof fn lemma_seq_lt_is_lexicographic(a: Seq<char>, b: Seq<char>, i: int)
    requires
        0 <= i <= a.len(),
        i <= b.len(),
        a.take(i) == b.take(i),
    ensures
        i == a.len() && i < b.len() ==> seq_lt(a, b),
        i < a.len() && i < b.len() && a[i] < b[i] ==> seq_lt(a, b) && !seq_lt(b, a),
{
    assert forall|j: int| 0 <= j < i implies a[j] == b[j] by {
        assert(a.take(i)[j] == a[j]);
        assert(b.take(i)[j] == b[j]);
        assert(a.take(i)[j] == b.take(i)[j]);
    }
    if i == a.len() && i < b.len() || i < a.len() && i < b.len() && a[i] < b[i] {
        assert(first_difference(a, b, i));
        lemma_seq_lt_total(a, b);
        if i < a.len() {
            assert(a != b) by {
                assert(a[i] != b[i]);
            }
        }
    }
}

/// Whether `a` comes before `b` in the order of strings.
pub fn chars_less(a: &Vec<char>, b: &Vec<char>) -> (r: bool)
    ensures
        r == seq_lt(a@, b@),
{
    let mut i: usize = 0;
    while i < a.len() && i < b.len() && a[i] == b[i]
        invariant
            i <= a@.len(),
            i <= b@.len(),
            forall|j: int| 0 <= j < i ==> a@[j] == b@[j],
        decreases a@.len() - i,
    {
        i = i + 1;
    }
    assert(first_difference(a@, b@, i as int));
    let r = if i == a.len() {
        i < b.len()
    } else if i == b.len() {
        false
    } else {
        a[i] < b[i]
    };
    proof {
        if seq_lt(a@, b@) {
            let j = choose|j: int| #[trigger] first_difference(a@, b@, j) && (j == a@.len() && j < b@.len() || j < a@.len() && j < b@.len() && a@[j] < b@[j]);
            lemma_first_difference_unique(a@, b@, i as int, j);
        }
    }
    r
}

} // verus!
