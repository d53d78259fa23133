use vstd::prelude::*;

use crate::text::{chars_to_string, str_to_chars};

verus! {

/// An 8-bit RGBA color: red, green, blue, alpha.
#[derive(Clone, Copy, Debug, PartialEq, Eq)]
pub struct Rgba(pub [u8; 4]);

impl Rgba {
    pub open spec fn red(self) -> u8 {
        self.0@[0]
    }

    pub open spec fn green(self) -> u8 {
        self.0@[1]
    }

    pub open spec fn blue(self) -> u8 {
        self.0@[2]
    }

    pub open spec fn alpha(self) -> u8 {
        self.0@[3]
    }

    /// The same color, fully opaque.
    pub open spec fn opaque(self) -> Rgba {
        Rgba([self.red(), self.green(), self.blue(), 255])
    }
}

/// `s` without its leading `#` characters, as `trim_start_matches('#')` gives it.
pub open spec fn trim_hashes(s: Seq<char>) -> Seq<char>
    decreases s.len(),
{
    if s.len() > 0 && s[0] == '#' {
        trim_hashes(s.drop_first())
    } else {
        s
    }
}

/// The value of a hexadecimal digit, either case.
pub open spec fn hex_value(c: char) -> Option<u8> {
    let u = c as u32;
    if 0x30 <= u <= 0x39 {
        Some((u - 0x30) as u8)
    } else if 0x41 <= u <= 0x46 {
        Some((u - 0x41 + 10) as u8)
    } else if 0x61 <= u <= 0x66 {
        Some((u - 0x61 + 10) as u8)
    } else {
        None
    }
}

/// What `u8::from_str_radix(.., 16)` gives for the two characters `c0 c1`: an optional
/// `+` sign followed by hexadecimal digits.
pub open spec fn pair_value(c0: char, c1: char) -> Option<u8> {
    if c0 == '+' {
        hex_value(c1)
    } else {
        match (hex_value(c0), hex_value(c1)) {
            (Some(h), Some(l)) => Some((h * 16 + l) as u8),
            _ => None,
        }
    }
}

/// The color that the text `s` names: six hexadecimal digits after any number of
/// leading `#`, read as red, green and blue, with full alpha.
pub open spec fn color_of_text(s: Seq<char>) -> Option<Rgba> {
    let t = trim_hashes(s);
    if t.len() == 6 {
        match (pair_value(t[0], t[1]), pair_value(t[2], t[3]), pair_value(t[4], t[5])) {
            (Some(r), Some(g), Some(b)) => Some(Rgba([r, g, b, 255])),
            _ => None,
        }
    } else {
        None
    }
}

/// The number of bytes of the UTF-8 encoding of `c`.
pub open spec fn utf8_width(c: char) -> nat {
    let u = c as u32;
    if u < 0x80 {
        1
    } else if u < 0x800 {
        2
    } else if u < 0x10000 {
        3
    } else {
        4
    }
}

/// The number of bytes of the UTF-8 encoding of `s`.
pub open spec fn utf8_len(s: Seq<char>) -> nat
    decreases s.len(),
{
    if s.len() == 0 {
        0
    } else {
        utf8_width(s[0]) + utf8_len(s.drop_first())
    }
}

/// Whether byte offset `k` of the UTF-8 encoding of `s` starts a character.
pub open spec fn is_char_boundary(s: Seq<char>, k: nat) -> bool {
    exists|i: int| 0 <= i <= s.len() && #[trigger] utf8_len(s.take(i)) == k
}

/// Whether `parse_color` can slice `s` without cutting a character in two: its
/// byte-based slicing cuts a character only when the text after the `#` signs is six
/// bytes long with a multi-byte character across offset 2 or 4.
pub open spec fn color_text_sliceable(s: Seq<char>) -> bool {
    let t = trim_hashes(s);
    utf8_len(t) == 6 ==> is_char_boundary(t, 2) && is_char_boundary(t, 4)
}

proof fn lemma_utf8_len_push(s: Seq<char>, c: char)
    ensures
        utf8_len(s.push(c)) == utf8_len(s) + utf8_width(c),
    decreases s.len(),
{
    if s.len() == 0 {
        assert(s.push(c).drop_first() =~= Seq::<char>::empty());
        assert(s.push(c)[0] == c);
        assert(utf8_len(Seq::<char>::empty()) == 0);
    } else {
        assert(s.push(c).drop_first() =~= s.drop_first().push(c));
        assert(s.push(c)[0] == s[0]);
        lemma_utf8_len_push(s.drop_first(), c);
    }
}

proof fn lemma_utf8_len_mono(s: Seq<char>, i: int, j: int)
    requires
        0 <= i <= j <= s.len(),
    ensures
        utf8_len(s.take(i)) + (j - i) <= utf8_len(s.take(j)),
    decreases j - i,
{
    if i < j {
        lemma_utf8_len_mono(s, i, j - 1);
        assert(s.take(j) =~= s.take(j - 1).push(s[j - 1]));
        lemma_utf8_len_push(s.take(j - 1), s[j - 1]);
    }
}

fn utf8_width_exec(c: char) -> (w: usize)
    ensures
        w == utf8_width(c),
{
    let u = c as u32;
    if u < 0x80 {
        1
    } else if u < 0x800 {
        2
    } else if u < 0x10000 {
        3
    } else {
        4
    }
}

/// Whether `parse_color` can read `hex` without cutting a character in two.
pub fn is_color_text_sliceable(hex: &str) -> (r: bool)
    ensures
        r == color_text_sliceable(hex@),
{
    let cs = str_to_chars(hex);
    let mut i: usize = 0;
    while i < cs.len() && cs[i] == '#'
        invariant
            i <= cs.len(),
            forall|j: int| 0 <= j < i ==> #[trigger] cs@[j] == '#',
        decreases cs.len() - i,
    {
        i = i + 1;
    }
    proof {
        lemma_trim_hashes_skip(cs@, i as int);
    }
    let ghost t = cs@.skip(i as int);
    assert(trim_hashes(t) == t);
    let mut k: usize = 0;
    let mut sum: usize = 0;
    let mut at2 = false;
    let mut at4 = false;
    assert(t.take(0) =~= Seq::<char>::empty());
    while i + k < cs.len()
        invariant
            i <= cs.len(),
            t == cs@.skip(i as int),
            trim_hashes(hex@) == t,
            i + k <= cs.len(),
            sum == utf8_len(t.take(k as int)),
            sum <= 6,
            at2 == (exists|m: int| 0 <= m <= k && #[trigger] utf8_len(t.take(m)) == 2),
            at4 == (exists|m: int| 0 <= m <= k && #[trigger] utf8_len(t.take(m)) == 4),
        decreases cs.len() - i - k,
    {
        let w = utf8_width_exec(cs[i + k]);
        proof {
            assert(t.take(k + 1) =~= t.take(k as int).push(t[k as int]));
            lemma_utf8_len_push(t.take(k as int), t[k as int]);
        }
        if sum + w > 6 {
            proof {
                lemma_utf8_len_mono(t, k + 1, t.len() as int);
                assert(t.take(t.len() as int) =~= t);
                assert(utf8_len(t) > 6);
            }
            return true;
        }
        sum = sum + w;
        k = k + 1;
        if sum == 2 {
            at2 = true;
        }
        if sum == 4 {
            at4 = true;
        }
        proof {
            assert forall|m: int| 0 <= m <= k - 1 implies #[trigger] utf8_len(t.take(m)) < sum by {
                lemma_utf8_len_mono(t, m, k as int);
            }
        }
    }
    assert(t.take(k as int) =~= t);
    if sum != 6 {
        return true;
    }
    at2 && at4
}

/// A text of single-byte characters can always be read by `parse_color`.
pub proof fn lemma_ascii_text_sliceable(s: Seq<char>)
    requires
        forall|i: int| 0 <= i < s.len() ==> (#[trigger] s[i] as u32) < 0x80,
    ensures
        color_text_sliceable(s),
{
    let t = trim_hashes(s);
    lemma_trim_hashes_suffix(s);
    if utf8_len(t) == 6 {
        lemma_ascii_utf8_len(t, t.len() as int);
        assert(t.take(t.len() as int) =~= t);
        lemma_ascii_utf8_len(t, 2);
        lemma_ascii_utf8_len(t, 4);
    }
}

proof fn lemma_trim_hashes_suffix(s: Seq<char>)
    ensures
        exists|k: int| 0 <= k <= s.len() && trim_hashes(s) == s.skip(k),
    decreases s.len(),
{
    if s.len() > 0 && s[0] == '#' {
        lemma_trim_hashes_suffix(s.drop_first());
        let k = choose|k: int| 0 <= k <= s.drop_first().len() && trim_hashes(s.drop_first()) == s.drop_first().skip(k);
        assert(s.drop_first().skip(k) =~= s.skip(k + 1));
    } else {
        assert(s.skip(0) =~= s);
    }
}

proof fn lemma_ascii_utf8_len(t: Seq<char>, n: int)
    requires
        0 <= n <= t.len(),
        forall|i: int| 0 <= i < t.len() ==> (#[trigger] t[i] as u32) < 0x80,
    ensures
        utf8_len(t.take(n)) == n,
    decreases n,
{
    if n == 0 {
        assert(t.take(0) =~= Seq::<char>::empty());
    } else {
        lemma_ascii_utf8_len(t, n - 1);
        assert(t.take(n) =~= t.take(n - 1).push(t[n - 1]));
        lemma_utf8_len_push(t.take(n - 1), t[n - 1]);
    }
}

/// The uppercase hexadecimal digit for `d`.
pub open spec fn hex_digit(d: nat) -> char {
    if d < 10 {
        (0x30 + d) as char
    } else {
        (0x41 + d - 10) as char
    }
}

/// The text `#RRGGBB` for a color, in uppercase hexadecimal.
pub open spec fn hex_text(c: Rgba) -> Seq<char> {
    seq![
        '#',
        hex_digit(c.red() as nat / 16),
        hex_digit(c.red() as nat % 16),
        hex_digit(c.green() as nat / 16),
        hex_digit(c.green() as nat % 16),
        hex_digit(c.blue() as nat / 16),
        hex_digit(c.blue() as nat % 16),
    ]
}

fn hex_value_exec(c: char) -> (r: Option<u8>)
    ensures
        r == hex_value(c),
{
    let u = c as u32;
    if 0x30 <= u && u <= 0x39 {
        Some((u - 0x30) as u8)
    } else if 0x41 <= u && u <= 0x46 {
        Some((u - 0x41 + 10) as u8)
    } else if 0x61 <= u && u <= 0x66 {
        Some((u - 0x61 + 10) as u8)
    } else {
        None
    }
}

fn pair_value_exec(c0: char, c1: char) -> (r: Option<u8>)
    ensures
        r == pair_value(c0, c1),
{
    if c0 == '+' {
        hex_value_exec(c1)
    } else {
        match (hex_value_exec(c0), hex_value_exec(c1)) {
            (Some(h), Some(l)) => Some(h * 16 + l),
            _ => None,
        }
    }
}

proof fn lemma_trim_hashes_skip(s: Seq<char>, k: int)
    requires
        0 <= k <= s.len(),
        forall|i: int| 0 <= i < k ==> #[trigger] s[i] == '#',
    ensures
        trim_hashes(s) == trim_hashes(s.skip(k)),
    decreases k,
{
    if k == 0 {
        assert(s.skip(0) =~= s);
    } else {
        assert(s.drop_first().skip(k - 1) =~= s.skip(k));
        assert forall|i: int| 0 <= i < k - 1 implies #[trigger] s.drop_first()[i] == '#' by {
            assert(s.drop_first()[i] == s[i + 1]);
        }
        lemma_trim_hashes_skip(s.drop_first(), k - 1);
    }
}

/// Parses a color written as six hexadecimal digits, with or without leading `#`,
/// such as `#FF0000` or `00FF00`; the color is fully opaque.
pub fn parse_color(hex: &str) -> (r: Option<Rgba>)
    requires
        color_text_sliceable(hex@),
    ensures
        r == color_of_text(hex@),
{
    let cs = str_to_chars(hex);
    let mut i: usize = 0;
    while i < cs.len() && cs[i] == '#'
        invariant
            i <= cs.len(),
            forall|j: int| 0 <= j < i ==> #[trigger] cs@[j] == '#',
        decreases cs.len() - i,
    {
        i = i + 1;
    }
    proof {
        lemma_trim_hashes_skip(cs@, i as int);
    }
    let ghost t = cs@.skip(i as int);
    assert(trim_hashes(t) == t);
    if cs.len() - i != 6 {
        return None;
    }
    let r = pair_value_exec(cs[i], cs[i + 1]);
    let g = pair_value_exec(cs[i + 2], cs[i + 3]);
    let b = pair_value_exec(cs[i + 4], cs[i + 5]);
    assert(t[0] == cs@[i as int] && t[1] == cs@[i + 1] && t[2] == cs@[i + 2]);
    assert(t[3] == cs@[i + 3] && t[4] == cs@[i + 4] && t[5] == cs@[i + 5]);
    match (r, g, b) {
        (Some(r), Some(g), Some(b)) => Some(Rgba([r, g, b, 255])),
        _ => None,
    }
}

fn hex_digit_exec(d: u8) -> (c: char)
    requires
        d < 16,
    ensures
        c == hex_digit(d as nat),
{
    if d < 10 {
        ((0x30 + d) as u8) as char
    } else {
        ((0x41 + d - 10) as u8) as char
    }
}

/// The color as `#RRGGBB`, in uppercase hexadecimal; alpha is not written.
pub fn color_to_hex(color: &Rgba) -> (s: String)
    ensures
        s@ == hex_text(*color),
{
    let r = color.0[0];
    let g = color.0[1];
    let b = color.0[2];
    let cs = [
        '#',
        hex_digit_exec(r / 16),
        hex_digit_exec(r % 16),
        hex_digit_exec(g / 16),
        hex_digit_exec(g % 16),
        hex_digit_exec(b / 16),
        hex_digit_exec(b % 16),
    ];
    let s = chars_to_string(&cs);
    assert(s@ =~= hex_text(*color));
    s
}

proof fn lemma_hex_digit_value(d: nat)
    requires
        d < 16,
    ensures
        hex_value(hex_digit(d)) == Some(d as u8),
        hex_digit(d) != '#',
        hex_digit(d) != '+',
        utf8_width(hex_digit(d)) == 1,
{
}

proof fn lemma_pair_roundtrip(v: u8)
    ensures
        pair_value(hex_digit(v as nat / 16), hex_digit(v as nat % 16)) == Some(v),
{
    lemma_hex_digit_value(v as nat / 16);
    lemma_hex_digit_value(v as nat % 16);
}

/// The text that `color_to_hex` writes is read back by `parse_color` as the same
/// color with full alpha.
pub proof fn lemma_color_hex_roundtrip(c: Rgba)
    ensures
        color_text_sliceable(hex_text(c)),
        color_of_text(hex_text(c)) == Some(c.opaque()),
{
    let s = hex_text(c);
    let t = s.drop_first();
    lemma_hex_digit_value(c.red() as nat / 16);
    lemma_hex_digit_value(c.red() as nat % 16);
    lemma_hex_digit_value(c.green() as nat / 16);
    lemma_hex_digit_value(c.green() as nat % 16);
    lemma_hex_digit_value(c.blue() as nat / 16);
    lemma_hex_digit_value(c.blue() as nat % 16);
    assert(trim_hashes(t) == t);
    assert(trim_hashes(s) == trim_hashes(s.drop_first()));
    lemma_pair_roundtrip(c.red());
    lemma_pair_roundtrip(c.green());
    lemma_pair_roundtrip(c.blue());
    assert(t[0] == s[1] && t[1] == s[2] && t[2] == s[3] && t[3] == s[4] && t[4] == s[5] && t[5] == s[6]);
    assert(Rgba([c.red(), c.green(), c.blue(), 255]) == c.opaque());
    // Every character is a single byte, so offsets 2 and 4 start characters.
    assert(utf8_len(t.take(2)) == 2) by {
        reveal_with_fuel(utf8_len, 3);
        assert(t.take(2).drop_first().drop_first() =~= Seq::<char>::empty());
    }
    assert(utf8_len(t.take(4)) == 4) by {
        reveal_with_fuel(utf8_len, 5);
        assert(t.take(4).drop_first().drop_first().drop_first().drop_first() =~= Seq::<char>::empty());
    }
    assert(t.take(2).len() == 2);
    assert(is_char_boundary(t, 2));
    assert(is_char_boundary(t, 4));
}

} // verus!
