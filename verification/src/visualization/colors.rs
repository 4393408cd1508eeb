//! The color an effort is painted with: a fixed forty-step gradient over a
//! reference wattage, two neighbouring entries averaged together.
use crate::workout_data::effort::Effort;
use vstd::prelude::*;

verus! {

/// The reference wattage (in hundredths) that the last gradient entry
/// stands for.
pub const MAX_WATTAGE_HUNDREDTHS: u64 = 50_000;

/// Index of the last gradient entry.
pub const LAST_GRADIENT_INDEX: u64 = 39;

/// A display color with one byte per channel.
#[derive(Debug, Clone, Copy, PartialEq, Eq, Structural)]
pub struct Rgb {
    pub r: u8,
    pub g: u8,
    pub b: u8,
}

impl Rgb {
    /// A color from its three byte channels.
    pub fn from_rgb8(r: u8, g: u8, b: u8) -> (c: Rgb)
        ensures
            c == (Rgb { r, g, b }),
    {
        Rgb { r, g, b }
    }
}

/// The average of two colors, kept exact: each channel counts half units,
/// so `r2 == 510` is full red.
#[derive(Debug, Clone, Copy, PartialEq, Eq, Structural)]
pub struct BlendedColor {
    pub r2: u16,
    pub g2: u16,
    pub b2: u16,
}

/// The hex text of gradient entry `i` (the last entry for anything above).
pub open spec fn gradient_entry_spec(i: int) -> Seq<char> {
    if i == 0 {
        "#0c0af0"@
    } else if i == 1 {
        "#0d12e7"@
    } else if i == 2 {
        "#0e1adf"@
    } else if i == 3 {
        "#0f23d7"@
    } else if i == 4 {
        "#102bce"@
    } else if i == 5 {
        "#1134c6"@
    } else if i == 6 {
        "#123cbe"@
    } else if i == 7 {
        "#1344b6"@
    } else if i == 8 {
        "#154dad"@
    } else if i == 9 {
        "#1655a5"@
    } else if i == 10 {
        "#175e9d"@
    } else if i == 11 {
        "#186694"@
    } else if i == 12 {
        "#196e8c"@
    } else if i == 13 {
        "#1a7784"@
    } else if i == 14 {
        "#1b7f7c"@
    } else if i == 15 {
        "#1d8873"@
    } else if i == 16 {
        "#1e906b"@
    } else if i == 17 {
        "#1f9963"@
    } else if i == 18 {
        "#20a15b"@
    } else if i == 19 {
        "#21a952"@
    } else if i == 20 {
        "#22b24a"@
    } else if i == 21 {
        "#23ba42"@
    } else if i == 22 {
        "#25c339"@
    } else if i == 23 {
        "#26cb31"@
    } else if i == 24 {
        "#27d329"@
    } else if i == 25 {
        "#28dc21"@
    } else if i == 26 {
        "#29e418"@
    } else if i == 27 {
        "#2aed10"@
    } else if i == 28 {
        "#2bf508"@
    } else if i == 29 {
        "#2dfe00"@
    } else if i == 30 {
        "#41e400"@
    } else if i == 31 {
        "#56cb00"@
    } else if i == 32 {
        "#6bb100"@
    } else if i == 33 {
        "#809800"@
    } else if i == 34 {
        "#957f00"@
    } else if i == 35 {
        "#aa6500"@
    } else if i == 36 {
        "#bf4c00"@
    } else if i == 37 {
        "#d43200"@
    } else if i == 38 {
        "#e91900"@
    } else {
        "#fe0000"@
    }
}

/// The hex text of gradient entry `i`.
pub fn gradient_entry(i: u64) -> (r: &'static str)
    ensures
        r@ == gradient_entry_spec(i as int),
{
    if i == 0 {
        "#0c0af0"
    } else if i == 1 {
        "#0d12e7"
    } else if i == 2 {
        "#0e1adf"
    } else if i == 3 {
        "#0f23d7"
    } else if i == 4 {
        "#102bce"
    } else if i == 5 {
        "#1134c6"
    } else if i == 6 {
        "#123cbe"
    } else if i == 7 {
        "#1344b6"
    } else if i == 8 {
        "#154dad"
    } else if i == 9 {
        "#1655a5"
    } else if i == 10 {
        "#175e9d"
    } else if i == 11 {
        "#186694"
    } else if i == 12 {
        "#196e8c"
    } else if i == 13 {
        "#1a7784"
    } else if i == 14 {
        "#1b7f7c"
    } else if i == 15 {
        "#1d8873"
    } else if i == 16 {
        "#1e906b"
    } else if i == 17 {
        "#1f9963"
    } else if i == 18 {
        "#20a15b"
    } else if i == 19 {
        "#21a952"
    } else if i == 20 {
        "#22b24a"
    } else if i == 21 {
        "#23ba42"
    } else if i == 22 {
        "#25c339"
    } else if i == 23 {
        "#26cb31"
    } else if i == 24 {
        "#27d329"
    } else if i == 25 {
        "#28dc21"
    } else if i == 26 {
        "#29e418"
    } else if i == 27 {
        "#2aed10"
    } else if i == 28 {
        "#2bf508"
    } else if i == 29 {
        "#2dfe00"
    } else if i == 30 {
        "#41e400"
    } else if i == 31 {
        "#56cb00"
    } else if i == 32 {
        "#6bb100"
    } else if i == 33 {
        "#809800"
    } else if i == 34 {
        "#957f00"
    } else if i == 35 {
        "#aa6500"
    } else if i == 36 {
        "#bf4c00"
    } else if i == 37 {
        "#d43200"
    } else if i == 38 {
        "#e91900"
    } else {
        "#fe0000"
    }
}

/// Is `c` a hexadecimal digit?
pub open spec fn is_hex_digit(c: char) -> bool {
    ('0' <= c && c <= '9') || ('a' <= c && c <= 'f') || ('A' <= c && c <= 'F')
}

/// Value of a hexadecimal digit.
pub open spec fn hex_digit_val(c: char) -> nat {
    if '0' <= c && c <= '9' {
        (c as nat - 48) as nat
    } else if 'a' <= c && c <= 'f' {
        (c as nat - 87) as nat
    } else {
        (c as nat - 55) as nat
    }
}

/// The byte the two hex digits at `i` denote.
pub open spec fn hex_byte(s: Seq<char>, i: int) -> nat {
    hex_digit_val(s[i]) * 16 + hex_digit_val(s[i + 1])
}

/// The color a `#rrggbb` text denotes, if it is well-formed.
pub open spec fn parse_hex_color(s: Seq<char>) -> Option<Rgb> {
    if s.len() == 7 && s[0] == '#' && (forall|j: int| 1 <= j < 7 ==> is_hex_digit(#[trigger] s[j])) {
        Some(
            Rgb {
                r: hex_byte(s, 1) as u8,
                g: hex_byte(s, 3) as u8,
                b: hex_byte(s, 5) as u8,
            },
        )
    } else {
        None
    }
}

/// Hex digit test and value, as executable code.
fn hex_digit_exec(c: char) -> (r: Option<u8>)
    ensures
        match r {
            Some(v) => is_hex_digit(c) && v == hex_digit_val(c) && v < 16,
            None => !is_hex_digit(c),
        },
{
    if '0' <= c && c <= '9' {
        Some((c as u32 - 48) as u8)
    } else if 'a' <= c && c <= 'f' {
        Some((c as u32 - 87) as u8)
    } else if 'A' <= c && c <= 'F' {
        Some((c as u32 - 55) as u8)
    } else {
        None
    }
}

/// Read a `#rrggbb` text into a color.
pub fn color_from_hex(hex: &str) -> (r: Option<Rgb>)
    ensures
        r == parse_hex_color(hex@),
{
    let chars = crate::text::str_to_chars(hex);
    if chars.len() != 7 {
        return None;
    }
    if chars[0] != '#' {
        return None;
    }
    let mut bytes: [u8; 6] = [0, 0, 0, 0, 0, 0];
    let mut j: usize = 1;
    while j < 7
        invariant
            chars@ == hex@,
            1 <= j <= 7,
            chars@.len() == 7,
            forall|q: int| 1 <= q < j ==> is_hex_digit(#[trigger] chars@[q]),
            forall|q: int| 1 <= q < j ==> bytes@[q - 1] == hex_digit_val(chars@[q]),
        decreases 7 - j,
    {
        match hex_digit_exec(chars[j]) {
            Some(v) => {
                bytes[j - 1] = v;
            },
            None => {
                return None;
            },
        }
        j = j + 1;
    }
    proof {
        assert(hex_byte(chars@, 1) < 256);
        assert(hex_byte(chars@, 3) < 256);
        assert(hex_byte(chars@, 5) < 256);
    }
    Some(
        Rgb {
            r: bytes[0] * 16 + bytes[1],
            g: bytes[2] * 16 + bytes[3],
            b: bytes[4] * 16 + bytes[5],
        },
    )
}

/// The average of two colors, in exact half units per channel.
pub fn interpolate_colors(first: Rgb, second: Rgb) -> (r: BlendedColor)
    ensures
        r.r2 == first.r + second.r,
        r.g2 == first.g + second.g,
        r.b2 == first.b + second.b,
{
    BlendedColor {
        r2: first.r as u16 + second.r as u16,
        g2: first.g as u16 + second.g as u16,
        b2: first.b as u16 + second.b as u16,
    }
}

/// The gradient index just below the scaled wattage, clamped to the
/// palette.
pub open spec fn floor_index(wattage: nat) -> nat {
    if wattage >= MAX_WATTAGE_HUNDREDTHS {
        LAST_GRADIENT_INDEX as nat
    } else {
        (LAST_GRADIENT_INDEX * wattage) as nat / (MAX_WATTAGE_HUNDREDTHS as nat)
    }
}

/// The gradient index just above the scaled wattage, clamped to the
/// palette.
pub open spec fn ceil_index(wattage: nat) -> nat {
    if wattage >= MAX_WATTAGE_HUNDREDTHS {
        LAST_GRADIENT_INDEX as nat
    } else {
        ((LAST_GRADIENT_INDEX * wattage + MAX_WATTAGE_HUNDREDTHS - 1) as nat) / (
        MAX_WATTAGE_HUNDREDTHS as nat)
    }
}

/// The smaller of two numbers.
pub fn min(a: u64, b: u64) -> (r: u64)
    ensures
        r == if a > b {
            b as int
        } else {
            a as int
        },
{
    if a > b {
        b
    } else {
        a
    }
}

/// The two gradient entries bracketing a wattage, as hex text.
pub fn select_color_string_from_gradients(wattage: u64) -> (r: (&'static str, &'static str))
    ensures
        r.0@ == gradient_entry_spec(floor_index(wattage as nat) as int),
        r.1@ == gradient_entry_spec(ceil_index(wattage as nat) as int),
{
    let clamped = min(wattage, MAX_WATTAGE_HUNDREDTHS);
    let lo: u64;
    let hi: u64;
    if clamped >= MAX_WATTAGE_HUNDREDTHS {
        lo = LAST_GRADIENT_INDEX;
        hi = LAST_GRADIENT_INDEX;
    } else {
        lo = LAST_GRADIENT_INDEX * clamped / MAX_WATTAGE_HUNDREDTHS;
        hi = (LAST_GRADIENT_INDEX * clamped + MAX_WATTAGE_HUNDREDTHS - 1) / MAX_WATTAGE_HUNDREDTHS;
        proof {
            assert(lo == floor_index(wattage as nat));
            assert(hi == ceil_index(wattage as nat));
        }
    }
    (gradient_entry(lo), gradient_entry(hi))
}

/// The color of gradient entry `i`, black where its text would not parse.
pub open spec fn entry_color(i: int) -> Rgb {
    match parse_hex_color(gradient_entry_spec(i)) {
        Some(c) => c,
        None => Rgb { r: 0, g: 0, b: 0 },
    }
}

/// The two gradient colors bracketing a wattage.
pub fn select_colors_from_gradients(wattage: u64) -> (r: (Rgb, Rgb))
    ensures
        r.0 == entry_color(floor_index(wattage as nat) as int),
        r.1 == entry_color(ceil_index(wattage as nat) as int),
{
    let (color_before, color_after) = select_color_string_from_gradients(wattage);
    let first = match color_from_hex(color_before) {
        Some(c) => c,
        None => Rgb { r: 0, g: 0, b: 0 },
    };
    let second = match color_from_hex(color_after) {
        Some(c) => c,
        None => Rgb { r: 0, g: 0, b: 0 },
    };
    (first, second)
}

/// The color a wattage is painted with: the average of the two gradient
/// entries bracketing it.
pub open spec fn color_for_spec(wattage: nat) -> BlendedColor {
    let c1 = entry_color(floor_index(wattage) as int);
    let c2 = entry_color(ceil_index(wattage) as int);
    BlendedColor {
        r2: (c1.r + c2.r) as u16,
        g2: (c1.g + c2.g) as u16,
        b2: (c1.b + c2.b) as u16,
    }
}

impl Effort {
    /// The effort's mean wattage, in hundredths.
    pub fn average_wattage(&self) -> (r: u64)
        ensures
            r == (self.start() + self.end()) / 2,
    {
        proof {
            use_type_invariant(&self.starting_value);
            use_type_invariant(&self.ending_value);
        }
        (self.starting_value.to_hundredths() + self.ending_value.to_hundredths()) / 2
    }

    /// The color this effort is painted with.
    pub fn to_color(&self) -> (r: BlendedColor)
        ensures
            r == color_for_spec((self.start() + self.end()) / 2),
    {
        let (color_before, color_after) = select_colors_from_gradients(self.average_wattage());
        interpolate_colors(color_before, color_after)
    }
}

/// Law: the gradient clamps. Every wattage at or above the reference
/// maximum is painted like the maximum itself, and wattage zero is painted
/// with the first palette entry alone.
pub proof fn lemma_color_clamp(wattage: nat)
    ensures
        wattage >= MAX_WATTAGE_HUNDREDTHS ==> color_for_spec(wattage) == color_for_spec(
            MAX_WATTAGE_HUNDREDTHS as nat,
        ),
        color_for_spec(0) == (BlendedColor {
            r2: (entry_color(0).r + entry_color(0).r) as u16,
            g2: (entry_color(0).g + entry_color(0).g) as u16,
            b2: (entry_color(0).b + entry_color(0).b) as u16,
        }),
{
    assert(floor_index(0) == 0);
    assert(ceil_index(0) == 0);
}

} // verus!
