//! Colours written in hexadecimal: `#RGB`, `#RGBA`, `#RRGGBB` or `#RRGGBBAA`.

use vstd::prelude::*;
use vstd::string::{StrSliceExecFns, StringSliceAdditionalSpecFns};
use vstd::utf8::{encode_utf8, is_char_boundary};

use crate::text::{is_white_space, str_chars, trim_bounds, trim_end_spec, trim_spec, trim_start_spec};

verus! {

broadcast use vstd::string::group_string_axioms;

/// A colour with 8-bit channels; `a` is the opacity, 255 for opaque.
#[derive(Debug, Clone, Copy, PartialEq, Eq, Structural)]
pub struct Rgba8 {
    pub r: u8,
    pub g: u8,
    pub b: u8,
    pub a: u8,
}

/// The value of a hexadecimal digit byte.
pub open spec fn hex_digit_spec(b: u8) -> Option<u8> {
    if 0x30 <= b <= 0x39 {
        Some((b - 0x30) as u8)
    } else if 0x61 <= b <= 0x66 {
        Some((b - 0x61 + 10) as u8)
    } else if 0x41 <= b <= 0x46 {
        Some((b - 0x41 + 10) as u8)
    } else {
        None
    }
}

/// `u8::from_str_radix(s, 16)` on a string of the two bytes `b0 b1`: an
/// optional leading `+` then hexadecimal digits.
pub open spec fn radix16_pair_spec(b0: u8, b1: u8) -> Option<u8> {
    if b0 == 0x2b {
        hex_digit_spec(b1)
    } else {
        match (hex_digit_spec(b0), hex_digit_spec(b1)) {
            (Some(h), Some(l)) => Some((h * 16 + l) as u8),
            _ => None,
        }
    }
}

/// `s` without its leading `#` characters.
pub open spec fn strip_hashes(s: Seq<char>) -> Seq<char>
    decreases s.len(),
{
    if s.len() > 0 && s[0] == '#' {
        strip_hashes(s.drop_first())
    } else {
        s
    }
}

/// The digits of a colour: the input trimmed, without leading `#`, as bytes.
pub open spec fn color_digits(hex: Seq<char>) -> Seq<u8> {
    encode_utf8(strip_hashes(trim_spec(hex)))
}

/// Channel `k` of a digit string: `None` where the byte slice for it does not
/// end on a character boundary (slicing the string there panics), else the
/// parsed value of its digits (each digit doubled in the short forms).
pub open spec fn channel_spec(b: Seq<u8>, short: bool, k: int) -> Option<Option<u8>> {
    if short {
        if !is_char_boundary(b, k + 1) {
            None
        } else {
            Some(radix16_pair_spec(b[k], b[k]))
        }
    } else {
        if !is_char_boundary(b, 2 * k + 2) {
            None
        } else {
            Some(radix16_pair_spec(b[2 * k], b[2 * k + 1]))
        }
    }
}

/// Reading channels `k..n` in order: `None` when all parse, `Some(true)` when
/// slicing panics first, `Some(false)` when a channel's digits fail first.
pub open spec fn scan_channels(b: Seq<u8>, short: bool, k: int, n: int) -> Option<bool>
    decreases n - k,
{
    if k >= n {
        None
    } else {
        match channel_spec(b, short, k) {
            None => Some(true),
            Some(None) => Some(false),
            Some(Some(_)) => scan_channels(b, short, k + 1, n),
        }
    }
}

/// What parsing a colour comes to.
pub enum HexOutcome {
    /// The input makes the parse slice a string off a character boundary.
    Panics,
    /// The parse fails with this message.
    Fails(Seq<char>),
    /// The parse gives this colour.
    Parsed(Rgba8),
}

/// The message for digits that are not hexadecimal.
pub open spec fn invalid_digit_message() -> Seq<char> {
    "invalid digit found in string"@
}

/// The message for an input of the wrong length.
pub open spec fn invalid_format_message(hex: Seq<char>) -> Seq<char> {
    "Invalid hex color format: \""@ + hex + "\""@
}

/// The colour read from `n` channels (3 or 4) of a digit string.
pub open spec fn channels_outcome(b: Seq<u8>, short: bool, n: int) -> HexOutcome {
    match scan_channels(b, short, 0, n) {
        Some(true) => HexOutcome::Panics,
        Some(false) => HexOutcome::Fails(invalid_digit_message()),
        None => HexOutcome::Parsed(
            Rgba8 {
                r: channel_spec(b, short, 0)->0->0,
                g: channel_spec(b, short, 1)->0->0,
                b: channel_spec(b, short, 2)->0->0,
                a: if n == 4 {
                    channel_spec(b, short, 3)->0->0
                } else {
                    255
                },
            },
        ),
    }
}

/// What parsing `hex` as a colour comes to: by the byte length of its digits,
/// 3 for `RGB`, 4 for `RGBA`, 6 for `RRGGBB`, 8 for `RRGGBBAA`.
pub open spec fn hex_outcome(hex: Seq<char>) -> HexOutcome {
    let b = color_digits(hex);
    if b.len() == 3 {
        channels_outcome(b, true, 3)
    } else if b.len() == 4 {
        channels_outcome(b, true, 4)
    } else if b.len() == 6 {
        channels_outcome(b, false, 3)
    } else if b.len() == 8 {
        channels_outcome(b, false, 4)
    } else {
        HexOutcome::Fails(invalid_format_message(hex))
    }
}

fn hex_digit(b: u8) -> (v: Option<u8>)
    ensures
        v == hex_digit_spec(b),
{
    if 0x30 <= b && b <= 0x39 {
        Some(b - 0x30)
    } else if 0x61 <= b && b <= 0x66 {
        Some(b - 0x61 + 10)
    } else if 0x41 <= b && b <= 0x46 {
        Some(b - 0x41 + 10)
    } else {
        None
    }
}

fn radix16_pair(b0: u8, b1: u8) -> (v: Option<u8>)
    ensures
        v == radix16_pair_spec(b0, b1),
{
    if b0 == 0x2b {
        hex_digit(b1)
    } else {
        match (hex_digit(b0), hex_digit(b1)) {
            (Some(h), Some(l)) => Some(h * 16 + l),
            _ => None,
        }
    }
}

/// Reads channel `k` of the digits `s`.
fn channel(s: &str, short: bool, k: usize) -> (v: Option<Option<u8>>)
    requires
        k < 4,
        if short {
            k + 1 <= s.spec_bytes().len()
        } else {
            2 * k + 2 <= s.spec_bytes().len()
        },
    ensures
        v == channel_spec(s.spec_bytes(), short, k as int),
{
    let bytes = s.as_bytes();
    if short {
        if !s.is_char_boundary(k + 1) {
            None
        } else {
            Some(radix16_pair(bytes[k], bytes[k]))
        }
    } else {
        if !s.is_char_boundary(2 * k + 2) {
            None
        } else {
            Some(radix16_pair(bytes[2 * k], bytes[2 * k + 1]))
        }
    }
}

/// The digits of a colour: `hex` trimmed, without its leading `#`s.
fn digits_of(hex: &str) -> (d: &str)
    ensures
        d.spec_bytes() == color_digits(hex@),
{
    let cs = str_chars(hex);
    let (a0, b) = trim_bounds(cs.as_slice());
    let mut a = a0;
    while a < b && cs[a] == '#'
        invariant
            a0 <= a <= b <= cs@.len(),
            cs@ == hex@,
            strip_hashes(trim_spec(hex@)) == strip_hashes(cs@.subrange(a as int, b as int)),
        decreases b - a,
    {
        assert(cs@.subrange(a as int, b as int).drop_first() =~= cs@.subrange(a + 1, b as int));
        a = a + 1;
    }
    let digits = hex.substring_char(a, b);
    assert(strip_hashes(digits@) == digits@);
    digits
}

/// Whether parsing `hex` as a colour slices it off a character boundary,
/// where `str` slicing panics.
pub fn hex_color_panics(hex: &str) -> (b: bool)
    ensures
        b == (hex_outcome(hex@) is Panics),
{
    let digits = digits_of(hex);
    let n = digits.as_bytes().len();
    let ghost bs = digits.spec_bytes();
    if !(n == 3 || n == 4 || n == 6 || n == 8) {
        return false;
    }
    let short = n == 3 || n == 4;
    let count: usize = if n == 4 || n == 8 {
        4
    } else {
        3
    };
    assert(hex_outcome(hex@) == channels_outcome(bs, short, count as int));
    let mut k: usize = 0;
    while k < count
        invariant
            bs == digits.spec_bytes(),
            bs == color_digits(hex@),
            hex_outcome(hex@) == channels_outcome(bs, short, count as int),
            n == bs.len(),
            n == 3 || n == 4 || n == 6 || n == 8,
            short == (n == 3 || n == 4),
            count == (if n == 4 || n == 8 {
                4usize
            } else {
                3usize
            }),
            k <= count,
            scan_channels(bs, short, 0, count as int) == scan_channels(bs, short, k as int, count as int),
        decreases count - k,
    {
        match channel(digits, short, k) {
            None => {
                return true;
            },
            Some(None) => {
                return false;
            },
            Some(Some(_)) => {},
        }
        k = k + 1;
    }
    false
}

/// What `parse_hex_color` returns for `hex`, its error message as text (for an
/// input on which the parse panics, no result).
pub open spec fn parse_hex_spec(hex: Seq<char>) -> Option<Result<Rgba8, Seq<char>>> {
    match hex_outcome(hex) {
        HexOutcome::Parsed(c) => Some(Ok(c)),
        HexOutcome::Fails(m) => Some(Err(m)),
        HexOutcome::Panics => None,
    }
}

/// A parse result, its error message as text.
pub open spec fn color_result_view(r: Result<Rgba8, String>) -> Result<Rgba8, Seq<char>> {
    match r {
        Ok(c) => Ok(c),
        Err(e) => Err(e@),
    }
}

/// Parses a colour written `#RGB`, `#RGBA`, `#RRGGBB` or `#RRGGBBAA`: leading
/// and trailing whitespace and leading `#`s are ignored, the short forms
/// double each digit, and a colour without alpha is opaque.
pub fn parse_hex_color(hex: &str) -> (r: Result<Rgba8, String>)
    requires
        !(hex_outcome(hex@) is Panics),
    ensures
        match r {
            Ok(c) => hex_outcome(hex@) == HexOutcome::Parsed(c),
            Err(e) => hex_outcome(hex@) == HexOutcome::Fails(e@),
        },
        parse_hex_spec(hex@) == Some(color_result_view(r)),
{
    let digits = digits_of(hex);
    let n = digits.as_bytes().len();
    let ghost bs = digits.spec_bytes();
    if n == 3 || n == 4 || n == 6 || n == 8 {
        let short = n == 3 || n == 4;
        let count: usize = if n == 4 || n == 8 {
            4
        } else {
            3
        };
        assert(hex_outcome(hex@) == channels_outcome(bs, short, count as int));
        let mut vals: Vec<u8> = Vec::new();
        let mut k: usize = 0;
        while k < count
            invariant
                bs == digits.spec_bytes(),
                bs == color_digits(hex@),
                !(hex_outcome(hex@) is Panics),
                hex_outcome(hex@) == channels_outcome(bs, short, count as int),
                n == bs.len(),
                n == 3 || n == 4 || n == 6 || n == 8,
                short == (n == 3 || n == 4),
                count == (if n == 4 || n == 8 {
                    4usize
                } else {
                    3usize
                }),
                k <= count,
                vals@.len() == k,
                scan_channels(bs, short, 0, count as int) == scan_channels(bs, short, k as int, count as int),
                forall|j: int| 0 <= j < k ==> channel_spec(bs, short, j) == Some(Some(#[trigger] vals@[j])),
            decreases count - k,
        {
            match channel(digits, short, k) {
                None => {
                    assert(scan_channels(bs, short, k as int, count as int) == Some(true));
                    assert(false);
                    return Err(String::new());
                },
                Some(None) => {
                    return Err(String::from_str("invalid digit found in string"));
                },
                Some(Some(v)) => {
                    vals.push(v);
                },
            }
            k = k + 1;
        }
        let alpha = if count == 4 {
            vals[3]
        } else {
            255
        };
        Ok(Rgba8 { r: vals[0], g: vals[1], b: vals[2], a: alpha })
    } else {
        let mut msg = String::from_str("Invalid hex color format: \"");
        msg.append(hex);
        msg.append("\"");
        Err(msg)
    }
}

/// A hexadecimal digit character.
pub open spec fn is_hex_char(c: char) -> bool {
    ('0' <= c <= '9') || ('a' <= c <= 'f') || ('A' <= c <= 'F')
}

/// The value of a hexadecimal digit character.
pub open spec fn hex_value(c: char) -> u8 {
    hex_digit_spec(c as u8)->0
}

/// The digits of a string of hexadecimal digits are its characters as bytes,
/// each ending on a character boundary.
proof fn lemma_hex_digits(s: Seq<char>)
    requires
        s.len() > 0,
        forall|i: int| 0 <= i < s.len() ==> is_hex_char(#[trigger] s[i]),
    ensures
        color_digits(s).len() == s.len(),
        forall|i: int| 0 <= i < s.len() ==> #[trigger] color_digits(s)[i] == s[i] as u8,
        forall|k: int| 0 <= k <= s.len() ==> is_char_boundary(#[trigger] color_digits(s), k),
{
    broadcast use vstd::utf8::group_utf8_lib, vstd::utf8::is_ascii_chars_encode_utf8;

    assert(trim_start_spec(s) == s);
    assert(s.len() > 0 && !is_white_space(s.last()));
    assert(trim_end_spec(s) == s);
    assert(trim_spec(s) == s);
    assert(strip_hashes(s) == s);
    assert(vstd::utf8::is_ascii_chars(s));
    let b = color_digits(s);
    assert forall|k: int| 0 <= k <= s.len() implies is_char_boundary(#[trigger] color_digits(s), k) by {
        if k < s.len() {
            assert(b[k] == s[k] as u8);
            assert(vstd::utf8::is_leading_byte_width_1(b[k]));
        }
    }
}

/// `#RRGGBB`: each pair of hexadecimal digits is a channel, and the colour is
/// opaque.
pub proof fn lemma_long_form(c1: char, c2: char, c3: char, c4: char, c5: char, c6: char)
    requires
        is_hex_char(c1),
        is_hex_char(c2),
        is_hex_char(c3),
        is_hex_char(c4),
        is_hex_char(c5),
        is_hex_char(c6),
    ensures
        hex_outcome(seq![c1, c2, c3, c4, c5, c6]) == HexOutcome::Parsed(
            Rgba8 {
                r: (hex_value(c1) * 16 + hex_value(c2)) as u8,
                g: (hex_value(c3) * 16 + hex_value(c4)) as u8,
                b: (hex_value(c5) * 16 + hex_value(c6)) as u8,
                a: 255,
            },
        ),
{
    let s = seq![c1, c2, c3, c4, c5, c6];
    lemma_hex_digits(s);
    reveal_with_fuel(scan_channels, 4);
}

/// `#RGB`: each digit, doubled, is a channel, and the colour is opaque; so
/// `#RGB` is the colour `#RRGGBB`.
pub proof fn lemma_short_form(c1: char, c2: char, c3: char)
    requires
        is_hex_char(c1),
        is_hex_char(c2),
        is_hex_char(c3),
    ensures
        hex_outcome(seq![c1, c2, c3]) == HexOutcome::Parsed(
            Rgba8 {
                r: (hex_value(c1) * 16 + hex_value(c1)) as u8,
                g: (hex_value(c2) * 16 + hex_value(c2)) as u8,
                b: (hex_value(c3) * 16 + hex_value(c3)) as u8,
                a: 255,
            },
        ),
        hex_outcome(seq![c1, c2, c3]) == hex_outcome(seq![c1, c1, c2, c2, c3, c3]),
{
    let s = seq![c1, c2, c3];
    lemma_hex_digits(s);
    reveal_with_fuel(scan_channels, 4);
    lemma_long_form(c1, c1, c2, c2, c3, c3);
}

/// `#RRGGBBAA`: the fourth pair of digits is the opacity.
pub proof fn lemma_long_form_alpha(
    c1: char,
    c2: char,
    c3: char,
    c4: char,
    c5: char,
    c6: char,
    c7: char,
    c8: char,
)
    requires
        is_hex_char(c1),
        is_hex_char(c2),
        is_hex_char(c3),
        is_hex_char(c4),
        is_hex_char(c5),
        is_hex_char(c6),
        is_hex_char(c7),
        is_hex_char(c8),
    ensures
        hex_outcome(seq![c1, c2, c3, c4, c5, c6, c7, c8]) == HexOutcome::Parsed(
            Rgba8 {
                r: (hex_value(c1) * 16 + hex_value(c2)) as u8,
                g: (hex_value(c3) * 16 + hex_value(c4)) as u8,
                b: (hex_value(c5) * 16 + hex_value(c6)) as u8,
                a: (hex_value(c7) * 16 + hex_value(c8)) as u8,
            },
        ),
{
    let s = seq![c1, c2, c3, c4, c5, c6, c7, c8];
    lemma_hex_digits(s);
    reveal_with_fuel(scan_channels, 5);
}

/// `#RGBA` is the colour `#RRGGBBAA`.
pub proof fn lemma_short_form_alpha(c1: char, c2: char, c3: char, c4: char)
    requires
        is_hex_char(c1),
        is_hex_char(c2),
        is_hex_char(c3),
        is_hex_char(c4),
    ensures
        hex_outcome(seq![c1, c2, c3, c4]) == hex_outcome(seq![c1, c1, c2, c2, c3, c3, c4, c4]),
{
    let s = seq![c1, c2, c3, c4];
    lemma_hex_digits(s);
    reveal_with_fuel(scan_channels, 5);
    lemma_long_form_alpha(c1, c1, c2, c2, c3, c3, c4, c4);
}

/// Surrounding whitespace and leading `#`s do not change the colour: inputs
/// with the same digits parse to the same colour.
pub proof fn lemma_same_digits(x: Seq<char>, y: Seq<char>)
    requires
        color_digits(x) == color_digits(y),
        hex_outcome(x) is Parsed,
    ensures
        hex_outcome(y) == hex_outcome(x),
{
}


/// A leading `#` does not change the digits of a string of hexadecimal
/// digits.
proof fn lemma_hash_prefix(s: Seq<char>)
    requires
        s.len() > 0,
        forall|i: int| 0 <= i < s.len() ==> is_hex_char(#[trigger] s[i]),
    ensures
        color_digits(seq!['#'] + s) == color_digits(s),
{
    let h = seq!['#'] + s;
    assert(h[0] == '#');
    assert(h.last() == s.last());
    assert(is_hex_char(s[s.len() - 1]));
    assert(trim_start_spec(h) == h);
    assert(trim_end_spec(h) == h);
    assert(trim_spec(h) == h);
    assert(h.drop_first() =~= s);
    assert(is_hex_char(s[0]));
    assert(strip_hashes(s) == s);
    assert(strip_hashes(h) == s);
    assert(trim_start_spec(s) == s);
    assert(!is_white_space(s.last()));
    assert(trim_end_spec(s) == s);
    assert(trim_spec(s) == s);
}

/// `#RGB` is the colour `#RRGGBB`, written with their `#`.
pub proof fn lemma_short_form_hash(x: char, y: char, z: char)
    requires
        is_hex_char(x),
        is_hex_char(y),
        is_hex_char(z),
    ensures
        hex_outcome(seq!['#', x, y, z]) == hex_outcome(seq!['#', x, x, y, y, z, z]),
        hex_outcome(seq!['#', x, y, z]) is Parsed,
{
    let short = seq![x, y, z];
    let long = seq![x, x, y, y, z, z];
    assert(seq!['#'] + short =~= seq!['#', x, y, z]);
    assert(seq!['#'] + long =~= seq!['#', x, x, y, y, z, z]);
    lemma_hash_prefix(short);
    lemma_hash_prefix(long);
    lemma_short_form(x, y, z);
    lemma_long_form(x, x, y, y, z, z);
    lemma_same_digits(short, seq!['#', x, y, z]);
    lemma_same_digits(long, seq!['#', x, x, y, y, z, z]);
}

/// A leading `#` does not change the colour read from hexadecimal digits.
proof fn lemma_hash_same(s: Seq<char>)
    requires
        s.len() > 0,
        forall|i: int| 0 <= i < s.len() ==> is_hex_char(#[trigger] s[i]),
        hex_outcome(s) is Parsed,
    ensures
        hex_outcome(seq!['#'] + s) == hex_outcome(s),
{
    lemma_hash_prefix(s);
    lemma_same_digits(s, seq!['#'] + s);
}

/// `#RGBA` is the colour `#RRGGBBAA`, written with their `#`.
#[verifier::rlimit(40)]
pub proof fn lemma_short_form_alpha_hash(x: char, y: char, z: char, w: char)
    requires
        is_hex_char(x),
        is_hex_char(y),
        is_hex_char(z),
        is_hex_char(w),
    ensures
        hex_outcome(seq!['#', x, y, z, w]) == hex_outcome(seq!['#', x, x, y, y, z, z, w, w]),
        hex_outcome(seq!['#', x, y, z, w]) is Parsed,
{
    let short = seq![x, y, z, w];
    let long = seq![x, x, y, y, z, z, w, w];
    lemma_long_form_alpha(x, x, y, y, z, z, w, w);
    lemma_short_form_alpha(x, y, z, w);
    lemma_hash_same(long);
    lemma_hash_same(short);
    assert(seq!['#'] + long =~= seq!['#', x, x, y, y, z, z, w, w]);
    assert(seq!['#'] + short =~= seq!['#', x, y, z, w]);
}

/// `#RRGGBBff` is the colour `#RRGGBB`: full opacity is the default.
pub proof fn lemma_opaque_alpha_hash(x: char, y: char, z: char)
    requires
        is_hex_char(x),
        is_hex_char(y),
        is_hex_char(z),
    ensures
        hex_outcome(seq!['#', x, x, y, y, z, z, 'f', 'f']) == hex_outcome(seq!['#', x, x, y, y, z, z]),
        hex_outcome(seq!['#', x, x, y, y, z, z]) is Parsed,
{
    let with_alpha = seq![x, x, y, y, z, z, 'f', 'f'];
    let without = seq![x, x, y, y, z, z];
    assert(seq!['#'] + with_alpha =~= seq!['#', x, x, y, y, z, z, 'f', 'f']);
    assert(seq!['#'] + without =~= seq!['#', x, x, y, y, z, z]);
    assert(is_hex_char('f'));
    assert(hex_value('f') == 15);
    lemma_hash_prefix(with_alpha);
    lemma_hash_prefix(without);
    lemma_long_form_alpha(x, x, y, y, z, z, 'f', 'f');
    lemma_long_form(x, x, y, y, z, z);
    lemma_same_digits(with_alpha, seq!['#', x, x, y, y, z, z, 'f', 'f']);
    lemma_same_digits(without, seq!['#', x, x, y, y, z, z]);
}

/// The short forms are the long forms with each digit doubled, and an
/// opacity of `ff` is the same as none, whatever the hexadecimal digits:
/// `parse_hex_color` accepts each of these inputs and gives equal results.
pub proof fn lemma_hex_forms(x: char, y: char, z: char, w: char)
    requires
        is_hex_char(x),
        is_hex_char(y),
        is_hex_char(z),
        is_hex_char(w),
    ensures
        parse_hex_spec(seq!['#', x, y, z]) == parse_hex_spec(seq!['#', x, x, y, y, z, z]),
        parse_hex_spec(seq!['#', x, y, z, w]) == parse_hex_spec(seq!['#', x, x, y, y, z, z, w, w]),
        parse_hex_spec(seq!['#', x, x, y, y, z, z, 'f', 'f']) == parse_hex_spec(seq!['#', x, x, y, y, z, z]),
        parse_hex_spec(seq!['#', x, y, z]) is Some && parse_hex_spec(seq!['#', x, y, z])->0 is Ok,
        parse_hex_spec(seq!['#', x, y, z, w]) is Some && parse_hex_spec(seq!['#', x, y, z, w])->0 is Ok,
        parse_hex_spec(seq!['#', x, x, y, y, z, z]) is Some && parse_hex_spec(seq!['#', x, x, y, y, z, z])->0 is Ok,
{
    lemma_short_form_hash(x, y, z);
    lemma_short_form_alpha_hash(x, y, z, w);
    lemma_opaque_alpha_hash(x, y, z);
}

/// The hexadecimal digits in lowercase, in order of value.
pub open spec fn lower_hex_digits() -> Seq<char> {
    seq!['0', '1', '2', '3', '4', '5', '6', '7', '8', '9', 'a', 'b', 'c', 'd', 'e', 'f']
}

/// The hexadecimal digits in uppercase, in order of value.
pub open spec fn upper_hex_digits() -> Seq<char> {
    seq!['0', '1', '2', '3', '4', '5', '6', '7', '8', '9', 'A', 'B', 'C', 'D', 'E', 'F']
}

/// Each hexadecimal digit has the value of its place in `0123456789abcdef`,
/// in either case.
pub proof fn lemma_hex_digit_values()
    ensures
        forall|i: int| 0 <= i < 16 ==> hex_value(#[trigger] lower_hex_digits()[i]) == i,
        forall|i: int| 0 <= i < 16 ==> hex_value(#[trigger] upper_hex_digits()[i]) == i,
        forall|i: int| 0 <= i < 16 ==> is_hex_char(#[trigger] lower_hex_digits()[i]),
        forall|i: int| 0 <= i < 16 ==> is_hex_char(#[trigger] upper_hex_digits()[i]),
{
    let lower = lower_hex_digits();
    let upper = upper_hex_digits();
    assert forall|i: int| 0 <= i < 16 implies hex_value(#[trigger] lower[i]) == i && is_hex_char(lower[i]) by {
        assert(lower[i] as int == if i < 10 { 0x30 + i } else { 0x61 + i - 10 });
    }
    assert forall|i: int| 0 <= i < 16 implies hex_value(#[trigger] upper[i]) == i && is_hex_char(upper[i]) by {
        assert(upper[i] as int == if i < 10 { 0x30 + i } else { 0x41 + i - 10 });
    }
}

} // verus!
