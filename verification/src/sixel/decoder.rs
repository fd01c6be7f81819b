//! A decoder of SIXEL payloads.
//!
//! A payload is a list of commands to a pen that draws six pixels at a time,
//! one below the other, on a canvas that grows as needed: `#` picks or defines
//! a colour, `!` repeats the next column, `"` declares the size of the
//! picture, `$` returns to the left edge, `-` goes to the next band of six
//! rows, and `?` to `~` draw a column.
use vstd::prelude::*;

use crate::chars::{decimal, law_decimals_read_back};
use crate::sixel::single::{
    divided, lemma_product, lemma_quotient, lemma_single, product, quotient, rounded, single, times,
    ONE,
};

verus! {

pub const MAX_SIXEL_DIMENSION: usize = 8192;

pub const MAX_SIXEL_PIXELS: usize = 32 * 1024 * 1024;

#[derive(Clone, Copy, Debug, PartialEq, Eq, Structural)]
pub struct Rgba {
    pub r: u8,
    pub g: u8,
    pub b: u8,
    pub a: u8,
}

/// A decoded picture, anchored at a cell.
#[derive(Debug)]
pub struct SixelImage {
    pub row: usize,
    pub col: usize,
    pub width: usize,
    pub height: usize,
    /// RGBA pixels in row-major order.
    pub rgba: Vec<u8>,
}

// ---------------------------------------------------------------------------
// Colours
// ---------------------------------------------------------------------------

pub open spec fn opaque_rgb(r: int, g: int, b: int) -> Rgba {
    Rgba { r: r as u8, g: g as u8, b: b as u8, a: 0xff }
}

pub open spec fn transparent() -> Rgba {
    Rgba { r: 0, g: 0, b: 0, a: 0 }
}

/// One step of the colour cube.
pub open spec fn cube_level(value: int) -> int {
    if value == 0 {
        0
    } else {
        55 + value * 40
    }
}

/// The colour that an index has before the payload defines it: sixteen fixed
/// colours, a cube of six by six by six, and a ramp of grays.
pub open spec fn default_color(index: int) -> Rgba {
    if index == 0 {
        opaque_rgb(0x00, 0x00, 0x00)
    } else if index == 1 {
        opaque_rgb(0xcd, 0x00, 0x00)
    } else if index == 2 {
        opaque_rgb(0x00, 0xcd, 0x00)
    } else if index == 3 {
        opaque_rgb(0xcd, 0xcd, 0x00)
    } else if index == 4 {
        opaque_rgb(0x00, 0x00, 0xee)
    } else if index == 5 {
        opaque_rgb(0xcd, 0x00, 0xcd)
    } else if index == 6 {
        opaque_rgb(0x00, 0xcd, 0xcd)
    } else if index == 7 {
        opaque_rgb(0xe5, 0xe5, 0xe5)
    } else if index == 8 {
        opaque_rgb(0x7f, 0x7f, 0x7f)
    } else if index == 9 {
        opaque_rgb(0xff, 0x00, 0x00)
    } else if index == 10 {
        opaque_rgb(0x00, 0xff, 0x00)
    } else if index == 11 {
        opaque_rgb(0xff, 0xff, 0x00)
    } else if index == 12 {
        opaque_rgb(0x5c, 0x5c, 0xff)
    } else if index == 13 {
        opaque_rgb(0xff, 0x00, 0xff)
    } else if index == 14 {
        opaque_rgb(0x00, 0xff, 0xff)
    } else if index == 15 {
        opaque_rgb(0xff, 0xff, 0xff)
    } else if index < 232 {
        opaque_rgb(
            cube_level((index - 16) / 36),
            cube_level(((index - 16) / 6) % 6),
            cube_level((index - 16) % 6),
        )
    } else {
        opaque_rgb(8 + (index - 232) * 10, 8 + (index - 232) * 10, 8 + (index - 232) * 10)
    }
}

pub open spec fn default_colors() -> Seq<Rgba> {
    Seq::new(256, |index: int| default_color(index))
}

pub fn cube_component(value: usize) -> (r: u8)
    requires
        value <= 5,
    ensures
        r == cube_level(value as int),
{
    if value == 0 {
        0
    } else {
        (55 + value * 40) as u8
    }
}

fn opaque(r: u8, g: u8, b: u8) -> (color: Rgba)
    ensures
        color == opaque_rgb(r as int, g as int, b as int),
{
    Rgba { r, g, b, a: 0xff }
}

fn default_palette_entry(index: usize) -> (color: Rgba)
    requires
        index < 256,
    ensures
        color == default_color(index as int),
{
    if index < 16 {
        match index {
            0 => opaque(0x00, 0x00, 0x00),
            1 => opaque(0xcd, 0x00, 0x00),
            2 => opaque(0x00, 0xcd, 0x00),
            3 => opaque(0xcd, 0xcd, 0x00),
            4 => opaque(0x00, 0x00, 0xee),
            5 => opaque(0xcd, 0x00, 0xcd),
            6 => opaque(0x00, 0xcd, 0xcd),
            7 => opaque(0xe5, 0xe5, 0xe5),
            8 => opaque(0x7f, 0x7f, 0x7f),
            9 => opaque(0xff, 0x00, 0x00),
            10 => opaque(0x00, 0xff, 0x00),
            11 => opaque(0xff, 0xff, 0x00),
            12 => opaque(0x5c, 0x5c, 0xff),
            13 => opaque(0xff, 0x00, 0xff),
            14 => opaque(0x00, 0xff, 0xff),
            _ => opaque(0xff, 0xff, 0xff),
        }
    } else if index < 232 {
        let value: usize = index - 16;
        opaque(
            cube_component(value / 36),
            cube_component((value / 6) % 6),
            cube_component(value % 6),
        )
    } else {
        let gray: u8 = (8 + (index - 232) * 10) as u8;
        opaque(gray, gray, gray)
    }
}

pub fn default_palette() -> (palette: Vec<Rgba>)
    ensures
        palette@ == default_colors(),
{
    let mut palette: Vec<Rgba> = Vec::new();
    let mut index: usize = 0;
    while index < 256
        invariant
            index <= 256,
            palette@.len() == index,
            forall|k: int| 0 <= k < index ==> palette@[k] == default_color(k),
        decreases 256 - index,
    {
        palette.push(default_palette_entry(index));
        index += 1;
    }
    assert(palette@ =~= default_colors());
    palette
}

pub open spec fn capped(value: int, limit: int) -> int {
    if value < limit {
        value
    } else {
        limit
    }
}

/// A percentage as a byte, rounded to the nearest.
pub open spec fn percent_byte(value: int) -> int {
    (capped(value, 100) * 255 + 50) / 100
}

pub fn percent_to_byte(value: usize) -> (r: u8)
    ensures
        r == percent_byte(value as int),
{
    let percent: usize = if value < 100 {
        value
    } else {
        100
    };
    ((percent * 255 + 50) / 100) as u8
}

/// The brighter of the two levels between which the channels of a colour lie.
/// Here and below, every step rounds to single precision.
pub open spec fn hls_high(l: int, s: int) -> int {
    if l < ONE / 2 {
        product(l, single(ONE + s))
    } else {
        single(single(l + s) - product(l, s))
    }
}

/// The darker one.
pub open spec fn hls_low(l: int, s: int) -> int {
    single(2 * l - hls_high(l, s))
}

/// The level of a channel at a part of the colour circle: full for a third of the
/// circle, none for another third, and rising or falling over a sixth between
/// them.
pub open spec fn hue_level(low: int, high: int, part: int) -> int {
    let t = if part < 0 {
        single(part + ONE)
    } else if part > ONE {
        single(part - ONE)
    } else {
        part
    };
    if t < quotient(1, 6) {
        single(low + product(single(single(high - low) * 6), t))
    } else if t < ONE / 2 {
        high
    } else if t < quotient(2, 3) {
        single(low + single(product(single(high - low), single(quotient(2, 3) - t)) * 6))
    } else {
        low
    }
}

/// A level as a byte, rounded to the nearest.
pub open spec fn level_byte(level: int) -> int {
    let clamped = if level < 0 {
        0
    } else {
        capped(level, ONE as int)
    };
    (2 * single(clamped * 255) + ONE) / (2 * ONE)
}

/// The colour with a hue in degrees and a lightness and saturation in percent.
pub open spec fn hls_color(hue: int, lightness: int, saturation: int) -> Rgba {
    let h = quotient(hue % 360, 360);
    let l = quotient(capped(lightness, 100), 100);
    let s = quotient(capped(saturation, 100), 100);
    if s == 0 {
        opaque_rgb(level_byte(l), level_byte(l), level_byte(l))
    } else {
        let low = hls_low(l, s);
        let high = hls_high(l, s);
        opaque_rgb(
            level_byte(hue_level(low, high, single(h + quotient(1, 3)))),
            level_byte(hue_level(low, high, h)),
            level_byte(hue_level(low, high, single(h - quotient(1, 3)))),
        )
    }
}

/// Levels that are small enough to be computed with, as those of every colour
/// are.
pub open spec fn are_levels(low: int, high: int) -> bool {
    &&& -4 * ONE <= low <= 4 * ONE
    &&& -4 * ONE <= high <= 4 * ONE
    &&& -5 * ONE <= high - low <= 5 * ONE
}

fn hls_levels(l: i128, s: i128) -> (r: (i128, i128))
    requires
        0 <= l <= ONE + 0x100_0000_0000,
        0 <= s <= ONE + 0x100_0000_0000,
    ensures
        r.0 == hls_low(l as int, s as int),
        r.1 == hls_high(l as int, s as int),
        are_levels(r.0 as int, r.1 as int),
{
    let ghost limit = ONE + 0x1000_0000_0000;
    let high: i128 = if l < ONE / 2 {
        proof {
            lemma_single(ONE + s, 2 * ONE + 0x100_0000_0000);
            assert(0 <= l * single(ONE + s) <= limit * ONE) by (nonlinear_arith)
                requires
                    limit == 0x4000_0000_0000_0000 + 0x1000_0000_0000,
                    ONE == 0x4000_0000_0000_0000,
                    0 <= l < 0x2000_0000_0000_0000,
                    0 <= single(ONE + s) <= 0x8000_0000_0000_0000 + 0x800_0000_0000,
            ;
            lemma_product(l as int, single(ONE + s), limit);
        }
        times(l, rounded(ONE + s))
    } else {
        proof {
            assert(0 <= l * s <= limit * ONE) by (nonlinear_arith)
                requires
                    limit == 0x4000_0000_0000_0000 + 0x1000_0000_0000,
                    ONE == 0x4000_0000_0000_0000,
                    0 <= l <= 0x4000_0000_0000_0000 + 0x100_0000_0000,
                    0 <= s <= 0x4000_0000_0000_0000 + 0x100_0000_0000,
            ;
            lemma_product(l as int, s as int, limit);
            lemma_single(l + s, 2 * limit);
            let left = single(l + s) - product(l as int, s as int);
            if left < 0 {
                lemma_single(left, limit + limit / 1000);
            } else {
                lemma_single(left, 2 * limit + limit / 1000);
            }
        }
        rounded(rounded(l + s) - times(l, s))
    };
    proof {
        lemma_single(2 * l - high, 4 * ONE - ONE / 10);
    }
    let low: i128 = rounded(2 * l - high);
    (low, high)
}

pub fn hue_to_unit(low: i128, high: i128, part: i128) -> (level: i128)
    requires
        are_levels(low as int, high as int),
        -ONE <= part <= 2 * ONE,
    ensures
        level == hue_level(low as int, high as int, part as int),
{
    proof {
        lemma_single(part + ONE, 3 * ONE);
        lemma_single(part - ONE, 2 * ONE);
        lemma_single(high - low, 5 * ONE);
        lemma_single(single(high - low) * 6, 31 * ONE);
        lemma_quotient(1, 6);
        lemma_quotient(2, 3);
    }
    let t: i128 = if part < 0 {
        rounded(part + ONE)
    } else if part > ONE {
        rounded(part - ONE)
    } else {
        part
    };
    let spread: i128 = rounded(high - low);
    let sixth: i128 = divided(1, 6);
    let two_thirds: i128 = divided(2, 3);
    if t < sixth {
        let rising: i128 = rounded(spread * 6);
        proof {
            assert(-6 * ONE * ONE <= rising * t <= 6 * ONE * ONE) by (nonlinear_arith)
                requires
                    ONE == 0x4000_0000_0000_0000,
                    0 <= t <= 0xb00_0000_0000_0000,
                    -32 * 0x4000_0000_0000_0000 <= rising <= 32 * 0x4000_0000_0000_0000,
            ;
            lemma_product(rising as int, t as int, 6 * ONE);
            lemma_single(low + product(rising as int, t as int), 20 * ONE);
        }
        rounded(low + times(rising, t))
    } else if t < ONE / 2 {
        high
    } else if t < two_thirds {
        let left: i128 = rounded(two_thirds - t);
        proof {
            lemma_single(two_thirds - t, ONE as int);
            assert(-7 * ONE * ONE <= spread * left <= 7 * ONE * ONE) by (nonlinear_arith)
                requires
                    ONE == 0x4000_0000_0000_0000,
                    0 <= left <= 0x4800_0000_0000_0000,
                    -6 * 0x4000_0000_0000_0000 <= spread <= 6 * 0x4000_0000_0000_0000,
            ;
            lemma_product(spread as int, left as int, 7 * ONE);
            lemma_single(product(spread as int, left as int) * 6, 60 * ONE);
            lemma_single(low + single(product(spread as int, left as int) * 6), 80 * ONE);
        }
        rounded(low + rounded(times(spread, left) * 6))
    } else {
        low
    }
}

pub fn unit_to_byte(level: i128) -> (r: u8)
    ensures
        r == level_byte(level as int),
        0 <= level_byte(level as int) <= 255,
{
    let clamped: i128 = if level < 0 {
        0
    } else if level < ONE {
        level
    } else {
        ONE
    };
    proof {
        lemma_single(clamped * 255, 255 * ONE);
    }
    let scaled: i128 = rounded(clamped * 255);
    proof {
        assert(2 * ONE == 0x8000_0000_0000_0000);
        assert(0 <= 2 * scaled + ONE < 512 * ONE);
    }
    ((2 * scaled + ONE) as u128 / 0x8000_0000_0000_0000) as u8
}

pub fn hls_to_rgba(hue: usize, lightness: usize, saturation: usize) -> (color: Rgba)
    ensures
        color == hls_color(hue as int, lightness as int, saturation as int),
{
    let degrees: u16 = (hue % 360) as u16;
    let light: u16 = if lightness < 100 {
        lightness as u16
    } else {
        100
    };
    let full: u16 = if saturation < 100 {
        saturation as u16
    } else {
        100
    };
    proof {
        lemma_quotient(degrees as int, 360);
        lemma_quotient(light as int, 100);
        lemma_quotient(full as int, 100);
        lemma_quotient(1, 3);
    }
    let h: i128 = divided(degrees, 360);
    let l: i128 = divided(light, 100);
    let s: i128 = divided(full, 100);
    if s == 0 {
        let gray: u8 = unit_to_byte(l);
        return opaque(gray, gray, gray);
    }
    let (low, high) = hls_levels(l, s);
    let third: i128 = divided(1, 3);
    proof {
        lemma_single(h + third, 2 * ONE - ONE / 10);
        lemma_single(h - third, ONE - ONE / 10);
    }
    opaque(
        unit_to_byte(hue_to_unit(low, high, rounded(h + third))),
        unit_to_byte(hue_to_unit(low, high, h)),
        unit_to_byte(hue_to_unit(low, high, rounded(h - third))),
    )
}

// ---------------------------------------------------------------------------
// Numbers in a payload
// ---------------------------------------------------------------------------

pub open spec fn is_digit(byte: u8) -> bool {
    0x30 <= byte <= 0x39
}

pub open spec fn is_param_byte(byte: u8) -> bool {
    is_digit(byte) || byte == 0x3b
}

/// A number with one more digit; numbers stop growing at the largest dimension.
pub open spec fn with_digit(value: int, digit: u8) -> int {
    capped(value * 10 + (digit - 0x30), MAX_SIXEL_DIMENSION as int)
}

/// How many bytes at the front of `bytes` are digits.
pub open spec fn digit_count(bytes: Seq<u8>) -> nat
    decreases bytes.len(),
{
    if bytes.len() > 0 && is_digit(bytes[0]) {
        1 + digit_count(bytes.skip(1))
    } else {
        0
    }
}

/// How many bytes at the front of `bytes` belong to a list of parameters.
pub open spec fn param_byte_count(bytes: Seq<u8>) -> nat
    decreases bytes.len(),
{
    if bytes.len() > 0 && is_param_byte(bytes[0]) {
        1 + param_byte_count(bytes.skip(1))
    } else {
        0
    }
}

/// The number that digits write; none where there are no digits.
pub open spec fn number_of(digits: Seq<u8>) -> Option<int>
    decreases digits.len(),
{
    if digits.len() == 0 {
        None
    } else {
        let front = match number_of(digits.drop_last()) {
            Some(value) => value,
            None => 0,
        };
        Some(with_digit(front, digits.last()))
    }
}

/// The numbers between semicolons; one left out is zero.
pub open spec fn fields_of(text: Seq<u8>) -> Seq<int>
    decreases text.len(),
{
    if text.len() == 0 {
        seq![0]
    } else {
        let front = fields_of(text.drop_last());
        if text.last() == 0x3b {
            front.push(0)
        } else {
            front.drop_last().push(with_digit(front.last(), text.last()))
        }
    }
}

pub open spec fn params_of(text: Seq<u8>) -> Seq<int> {
    if text.len() == 0 {
        Seq::empty()
    } else {
        fields_of(text)
    }
}

pub open spec fn as_ints(values: Seq<usize>) -> Seq<int> {
    values.map_values(|value: usize| value as int)
}

proof fn lemma_fields_nonempty(text: Seq<u8>)
    ensures
        fields_of(text).len() >= 1,
    decreases text.len(),
{
    if text.len() > 0 {
        lemma_fields_nonempty(text.drop_last());
    }
}

proof fn lemma_param_byte_count(bytes: Seq<u8>, n: int)
    requires
        0 <= n <= bytes.len(),
        forall|k: int| 0 <= k < n ==> is_param_byte(#[trigger] bytes[k]),
        n == bytes.len() || !is_param_byte(bytes[n]),
    ensures
        param_byte_count(bytes) == n,
    decreases n,
{
    if n > 0 {
        assert(is_param_byte(bytes[0]));
        let rest = bytes.skip(1);
        assert forall|k: int| 0 <= k < n - 1 implies is_param_byte(#[trigger] rest[k]) by {
            assert(rest[k] == bytes[k + 1]);
        }
        lemma_param_byte_count(rest, n - 1);
    }
}

proof fn lemma_digit_count(bytes: Seq<u8>, n: int)
    requires
        0 <= n <= bytes.len(),
        forall|k: int| 0 <= k < n ==> is_digit(#[trigger] bytes[k]),
        n == bytes.len() || !is_digit(bytes[n]),
    ensures
        digit_count(bytes) == n,
    decreases n,
{
    if n > 0 {
        assert(is_digit(bytes[0]));
        let rest = bytes.skip(1);
        assert forall|k: int| 0 <= k < n - 1 implies is_digit(#[trigger] rest[k]) by {
            assert(rest[k] == bytes[k + 1]);
        }
        lemma_digit_count(rest, n - 1);
    }
}

/// A number or a list of parameters at the front of a text lies within it.
pub proof fn lemma_counts_fit(bytes: Seq<u8>)
    ensures
        digit_count(bytes) <= bytes.len(),
        param_byte_count(bytes) <= bytes.len(),
    decreases bytes.len(),
{
    if bytes.len() > 0 {
        lemma_counts_fit(bytes.skip(1));
    }
}

/// The value of a number with one more digit.
fn push_digit(value: usize, byte: u8) -> (r: usize)
    requires
        value <= MAX_SIXEL_DIMENSION,
        is_digit(byte),
    ensures
        r == with_digit(value as int, byte),
        r <= MAX_SIXEL_DIMENSION,
{
    let next: usize = value * 10 + (byte - 0x30) as usize;
    if next < MAX_SIXEL_DIMENSION {
        next
    } else {
        MAX_SIXEL_DIMENSION
    }
}

/// Reads a list of parameters that starts at `index`; also gives where it ends.
pub fn parse_params(bytes: &[u8], index: usize) -> (r: (Vec<usize>, usize))
    requires
        index <= bytes@.len(),
    ensures
        ({
            let count = param_byte_count(bytes@.skip(index as int));
            &&& r.1 == index + count
            &&& r.1 <= bytes@.len()
            &&& as_ints(r.0@) == params_of(bytes@.subrange(index as int, index + count))
        }),
        forall|k: int| 0 <= k < r.0@.len() ==> r.0@[k] <= MAX_SIXEL_DIMENSION,
{
    let mut params: Vec<usize> = Vec::new();
    let mut value: usize = 0;
    let mut i: usize = index;
    assert(bytes@.subrange(index as int, index as int) =~= Seq::<u8>::empty());
    assert(as_ints(params@.push(value)) =~= seq![0int]);
    while i < bytes.len() && ((0x30 <= bytes[i] && bytes[i] <= 0x39) || bytes[i] == 0x3b)
        invariant
            index <= i <= bytes@.len(),
            value <= MAX_SIXEL_DIMENSION,
            forall|k: int| 0 <= k < params@.len() ==> params@[k] <= MAX_SIXEL_DIMENSION,
            forall|k: int| index <= k < i ==> is_param_byte(#[trigger] bytes@[k]),
            as_ints(params@.push(value)) == fields_of(bytes@.subrange(index as int, i as int)),
        decreases bytes@.len() - i,
    {
        let ghost text = bytes@.subrange(index as int, i + 1);
        let ghost front = fields_of(bytes@.subrange(index as int, i as int));
        assert(text.drop_last() =~= bytes@.subrange(index as int, i as int));
        assert(front.last() == value);
        assert(front.drop_last() =~= as_ints(params@));
        if bytes[i] == 0x3b {
            params.push(value);
            value = 0;
            assert(as_ints(params@.push(value)) =~= front.push(0));
        } else {
            value = push_digit(value, bytes[i]);
            assert(as_ints(params@.push(value)) =~= front.drop_last().push(value as int));
        }
        i += 1;
    }
    proof {
        let rest = bytes@.skip(index as int);
        assert forall|k: int| 0 <= k < i - index implies is_param_byte(#[trigger] rest[k]) by {
            assert(rest[k] == bytes@[index + k]);
        }
        lemma_param_byte_count(rest, i - index);
    }
    if i > index {
        params.push(value);
    } else {
        assert(params@.len() == 0) by {
            assert(fields_of(bytes@.subrange(index as int, i as int)).len() == 1);
            assert(as_ints(params@.push(value)).len() == params@.len() + 1);
        }
        assert(as_ints(params@) =~= Seq::<int>::empty());
    }
    (params, i)
}

/// Reads a number that starts at `index`; also gives where it ends.
pub fn parse_number(bytes: &[u8], index: usize) -> (r: (Option<usize>, usize))
    requires
        index <= bytes@.len(),
    ensures
        ({
            let count = digit_count(bytes@.skip(index as int));
            let number = number_of(bytes@.subrange(index as int, index + count));
            &&& r.1 == index + count
            &&& r.1 <= bytes@.len()
            &&& match r.0 {
                None => number is None,
                Some(value) => number == Some(value as int) && value <= MAX_SIXEL_DIMENSION,
            }
        }),
{
    let mut value: Option<usize> = None;
    let mut i: usize = index;
    assert(bytes@.subrange(index as int, index as int) =~= Seq::<u8>::empty());
    while i < bytes.len() && 0x30 <= bytes[i] && bytes[i] <= 0x39
        invariant
            index <= i <= bytes@.len(),
            forall|k: int| index <= k < i ==> is_digit(#[trigger] bytes@[k]),
            ({
                let number = number_of(bytes@.subrange(index as int, i as int));
                match value {
                    None => number is None,
                    Some(v) => number == Some(v as int) && v <= MAX_SIXEL_DIMENSION,
                }
            }),
        decreases bytes@.len() - i,
    {
        assert(bytes@.subrange(index as int, i + 1).drop_last() =~= bytes@.subrange(
            index as int,
            i as int,
        ));
        let before: usize = match value {
            Some(v) => v,
            None => 0,
        };
        value = Some(push_digit(before, bytes[i]));
        i += 1;
    }
    proof {
        let rest = bytes@.skip(index as int);
        assert forall|k: int| 0 <= k < i - index implies is_digit(#[trigger] rest[k]) by {
            assert(rest[k] == bytes@[index + k]);
        }
        lemma_digit_count(rest, i - index);
    }
    (value, i)
}

// ---------------------------------------------------------------------------
// The canvas and the pen
// ---------------------------------------------------------------------------

/// The state of the decoder: the pen, the colours, and the canvas with its
/// rows of pixels.
pub ghost struct Drawing {
    pub x: int,
    pub y: int,
    pub width: int,
    pub height: int,
    pub max_x: int,
    pub max_y: int,
    /// How far the columns without a pixel go.
    pub marked_x: int,
    pub declared_width: Option<int>,
    pub declared_height: Option<int>,
    pub color_index: int,
    pub palette: Seq<Rgba>,
    pub rows: Seq<Seq<Rgba>>,
}

pub open spec fn blank_drawing() -> Drawing {
    Drawing {
        x: 0,
        y: 0,
        width: 0,
        height: 0,
        max_x: 0,
        max_y: 0,
        marked_x: 0,
        declared_width: None,
        declared_height: None,
        color_index: 0,
        palette: default_colors(),
        rows: Seq::empty(),
    }
}

pub open spec fn larger(a: int, b: int) -> int {
    if a < b {
        b
    } else {
        a
    }
}

pub open spec fn saturated(value: int) -> int {
    capped(value, usize::MAX as int)
}

/// The size to which a dimension of the canvas grows: at least what is needed
/// and what was declared, and twice as large as before.
pub open spec fn grown_dimension(current: int, needed: int, declared: Option<int>) -> int {
    let declared_or_zero = match declared {
        Some(value) => value,
        None => 0,
    };
    capped(
        larger(larger(needed, declared_or_zero), larger(2 * current, 64)),
        MAX_SIXEL_DIMENSION as int,
    )
}

impl Drawing {
    pub open spec fn wf(self) -> bool {
        &&& 0 <= self.x <= usize::MAX
        &&& 0 <= self.y <= usize::MAX
        &&& 0 <= self.width <= MAX_SIXEL_DIMENSION
        &&& 0 <= self.height <= MAX_SIXEL_DIMENSION
        &&& self.width * self.height <= MAX_SIXEL_PIXELS
        &&& 0 <= self.max_x <= self.width
        &&& 0 <= self.max_y <= self.height
        &&& 0 <= self.marked_x <= MAX_SIXEL_DIMENSION
        &&& (self.declared_width matches Some(w) ==> 0 < w <= MAX_SIXEL_DIMENSION)
        &&& (self.declared_height matches Some(h) ==> 0 < h <= MAX_SIXEL_DIMENSION)
        &&& 0 <= self.color_index < 256
        &&& self.palette.len() == 256
        &&& self.rows.len() == self.height
        &&& forall|j: int| 0 <= j < self.height ==> (#[trigger] self.rows[j]).len() == self.width
    }

    /// The canvas with room for a picture of the given size, where the limit
    /// on the number of pixels allows it. What was drawn stays where it is.
    pub open spec fn with_room(self, min_width: int, min_height: int) -> Drawing {
        let width = grown_dimension(self.width, min_width, self.declared_width);
        let height = grown_dimension(self.height, min_height, self.declared_height);
        if (min_width <= self.width && min_height <= self.height) || width * height
            > MAX_SIXEL_PIXELS {
            self
        } else {
            Drawing {
                width,
                height,
                rows: Seq::new(
                    height as nat,
                    |j: int|
                        Seq::new(
                            width as nat,
                            |i: int|
                                if j < self.height && i < self.width {
                                    self.rows[j][i]
                                } else {
                                    transparent()
                                },
                        ),
                ),
                ..self
            }
        }
    }

    /// Whether a place lies within the limits of a picture.
    pub open spec fn drawable(x: int, y: int) -> bool {
        x < MAX_SIXEL_DIMENSION && y < MAX_SIXEL_DIMENSION && (x + 1) * (y + 1) <= MAX_SIXEL_PIXELS
    }

    /// A pixel in the current colour.
    pub open spec fn with_pixel(self, x: int, y: int) -> Drawing {
        if !Drawing::drawable(x, y) {
            self
        } else {
            let roomy = self.with_room(x + 1, y + 1);
            if x >= roomy.width || y >= roomy.height {
                roomy
            } else {
                Drawing {
                    rows: roomy.rows.update(
                        y,
                        roomy.rows[y].update(x, roomy.palette[roomy.color_index]),
                    ),
                    max_x: larger(roomy.max_x, x + 1),
                    max_y: larger(roomy.max_y, y + 1),
                    ..roomy
                }
            }
        }
    }

    /// A column without a pixel counts towards the width of the picture. It
    /// takes no room on the canvas.
    pub open spec fn with_column(self, x: int) -> Drawing {
        if !Drawing::drawable(x, self.y) {
            self
        } else {
            Drawing { marked_x: larger(self.marked_x, x + 1), ..self }
        }
    }

    /// The first `count` pixels of a column at the pen.
    pub open spec fn with_bits(self, bits: u8, count: nat) -> Drawing
        decreases count,
    {
        if count == 0 {
            self
        } else {
            let front = self.with_bits(bits, (count - 1) as nat);
            if bit_is_set(bits, (count - 1) as u8) {
                front.with_pixel(self.x, saturated(self.y + count - 1))
            } else {
                front
            }
        }
    }

    /// One column, after which the pen moves to the right.
    pub open spec fn after_column(self, bits: u8) -> Drawing {
        let drawn = if bits == 0 {
            self.with_column(self.x)
        } else {
            self.with_bits(bits, 6)
        };
        Drawing { x: saturated(self.x + 1), ..drawn }
    }

    pub open spec fn after_columns(self, bits: u8, repeat: nat) -> Drawing
        decreases repeat,
    {
        if repeat == 0 {
            self
        } else {
            self.after_columns(bits, (repeat - 1) as nat).after_column(bits)
        }
    }

    /// `#`: picks a colour, and with five parameters defines it.
    pub open spec fn after_color(self, params: Seq<int>) -> Drawing {
        if params.len() == 0 {
            self
        } else {
            let index = capped(params[0], 255);
            let palette = if params.len() >= 5 && params[1] == 1 {
                self.palette.update(index, hls_color(params[2], params[3], params[4]))
            } else if params.len() >= 5 && params[1] == 2 {
                self.palette.update(
                    index,
                    opaque_rgb(
                        percent_byte(params[2]),
                        percent_byte(params[3]),
                        percent_byte(params[4]),
                    ),
                )
            } else {
                self.palette
            };
            Drawing { color_index: index, palette, ..self }
        }
    }

    /// `"`: declares the size of the picture.
    pub open spec fn after_raster(self, params: Seq<int>) -> Drawing {
        if params.len() < 4 {
            self
        } else {
            let width = capped(params[2], MAX_SIXEL_DIMENSION as int);
            let height = capped(params[3], MAX_SIXEL_DIMENSION as int);
            if width > 0 && height > 0 && width * height <= MAX_SIXEL_PIXELS {
                (Drawing {
                    declared_width: Some(width),
                    declared_height: Some(height),
                    ..self
                }).with_room(width, height)
            } else {
                self
            }
        }
    }

    /// The drawing after all commands of a payload, the next column being
    /// repeated `repeat` times.
    pub open spec fn after_payload(self, repeat: nat, bytes: Seq<u8>) -> Drawing
        decreases bytes.len(),
    {
        if bytes.len() == 0 {
            self
        } else {
            let rest = bytes.skip(1);
            let byte = bytes[0];
            proof {
                lemma_counts_fit(rest);
            }
            if byte == 0x23 {
                let count = param_byte_count(rest);
                self.after_color(params_of(rest.take(count as int))).after_payload(
                    repeat,
                    rest.skip(count as int),
                )
            } else if byte == 0x21 {
                let count = digit_count(rest);
                self.after_payload(
                    repeat_count(number_of(rest.take(count as int))),
                    rest.skip(count as int),
                )
            } else if byte == 0x22 {
                let count = param_byte_count(rest);
                self.after_raster(params_of(rest.take(count as int))).after_payload(
                    repeat,
                    rest.skip(count as int),
                )
            } else if byte == 0x24 {
                (Drawing { x: 0, ..self }).after_payload(repeat, rest)
            } else if byte == 0x2d {
                (Drawing { x: 0, y: saturated(self.y + 6), ..self }).after_payload(repeat, rest)
            } else if 0x3f <= byte <= 0x7e {
                self.after_columns((byte - 0x3f) as u8, repeat).after_payload(1, rest)
            } else {
                self.after_payload(repeat, rest)
            }
        }
    }

    /// How wide the picture is at least: what was declared, or drawn beyond it.
    pub open spec fn drawn_width(self) -> int {
        match self.declared_width {
            Some(width) => larger(width, self.max_x),
            None => self.max_x,
        }
    }

    /// The width of the finished picture. Columns without a pixel widen it,
    /// unless that made it larger than a picture may be.
    pub open spec fn picture_width(self) -> int {
        let padded = larger(self.drawn_width(), self.marked_x);
        if padded * self.picture_height() <= MAX_SIXEL_PIXELS {
            padded
        } else {
            self.drawn_width()
        }
    }

    /// The height of the finished picture: what was declared, or drawn beyond
    /// it.
    pub open spec fn picture_height(self) -> int {
        match self.declared_height {
            Some(height) => larger(height, self.max_y),
            None => self.max_y,
        }
    }

    /// Whether there is a picture: it has an area, and the canvas holds what was
    /// declared and drawn.
    pub open spec fn has_picture(self) -> bool {
        &&& 0 < self.drawn_width() <= self.width
        &&& 0 < self.picture_height() <= self.height
    }
}

pub open spec fn bit_is_set(bits: u8, bit: u8) -> bool {
    bits & (1u8 << bit) != 0
}

/// A repeat count of zero, or none, is one.
pub open spec fn repeat_count(number: Option<int>) -> nat {
    match number {
        Some(value) => larger(value, 1) as nat,
        None => 1,
    }
}

pub open spec fn pixel_bytes(pixel: Rgba) -> Seq<u8> {
    seq![pixel.r, pixel.g, pixel.b, pixel.a]
}

/// The pixel at a place of a row: transparent beyond its end.
pub open spec fn pixel_at(row: Seq<Rgba>, i: int) -> Rgba {
    if i < row.len() {
        row[i]
    } else {
        transparent()
    }
}

/// The bytes of the first `width` pixels of a row.
pub open spec fn row_bytes(row: Seq<Rgba>, width: nat) -> Seq<u8>
    decreases width,
{
    if width == 0 {
        Seq::empty()
    } else {
        row_bytes(row, (width - 1) as nat) + pixel_bytes(pixel_at(row, width - 1))
    }
}

/// The bytes of the upper left part of a canvas, row by row.
pub open spec fn picture_bytes(rows: Seq<Seq<Rgba>>, width: nat, height: nat) -> Seq<u8>
    decreases height,
{
    if height == 0 {
        Seq::empty()
    } else {
        picture_bytes(rows, width, (height - 1) as nat) + row_bytes(rows[height - 1], width)
    }
}

/// What a payload decodes to.
pub open spec fn drawing_of(payload: Seq<u8>) -> Drawing {
    blank_drawing().after_payload(1, payload)
}

/// The image that a finished drawing gives.
pub open spec fn is_image_of(
    image: Option<SixelImage>,
    drawing: Drawing,
    row: usize,
    col: usize,
) -> bool {
    match image {
        None => !drawing.has_picture(),
        Some(image) => {
            &&& drawing.has_picture()
            &&& image.row == row
            &&& image.col == col
            &&& image.width == drawing.picture_width()
            &&& image.height == drawing.picture_height()
            &&& image.rgba@ == picture_bytes(
                drawing.rows,
                image.width as nat,
                image.height as nat,
            )
        },
    }
}

pub open spec fn row_views(rows: Seq<Vec<Rgba>>) -> Seq<Seq<Rgba>> {
    rows.map_values(|row: Vec<Rgba>| row@)
}

proof fn lemma_area(width: int, height: int)
    requires
        0 <= width <= MAX_SIXEL_DIMENSION,
        0 <= height <= MAX_SIXEL_DIMENSION,
    ensures
        0 <= width * height <= 0x400_0000,
{
    assert(0 <= width * height <= 8192 * 8192) by (nonlinear_arith)
        requires
            0 <= width <= 8192,
            0 <= height <= 8192,
    ;
}

proof fn lemma_smaller_area(width: int, height: int, max_width: int, max_height: int)
    requires
        0 <= width <= max_width,
        0 <= height <= max_height,
    ensures
        width * height <= max_width * max_height,
{
    assert(width * height <= max_width * max_height) by (nonlinear_arith)
        requires
            0 <= width <= max_width,
            0 <= height <= max_height,
    ;
}

proof fn lemma_with_room(d: Drawing, min_width: int, min_height: int)
    requires
        d.wf(),
        min_width <= MAX_SIXEL_DIMENSION,
        min_height <= MAX_SIXEL_DIMENSION,
    ensures
        d.with_room(min_width, min_height).wf(),
        d.width <= d.with_room(min_width, min_height).width,
        d.height <= d.with_room(min_width, min_height).height,
{
}

proof fn lemma_with_pixel(d: Drawing, x: int, y: int)
    requires
        d.wf(),
        0 <= x,
        0 <= y,
    ensures
        d.with_pixel(x, y).wf(),
        d.with_pixel(x, y).x == d.x,
        d.with_pixel(x, y).y == d.y,
{
    if Drawing::drawable(x, y) {
        lemma_with_room(d, x + 1, y + 1);
    }
}

proof fn lemma_with_column(d: Drawing, x: int)
    requires
        d.wf(),
        0 <= x,
    ensures
        d.with_column(x).wf(),
        d.with_column(x).x == d.x,
        d.with_column(x).y == d.y,
{
}

/// The decoder's pen, colours and canvas.
pub struct SixelDecoder {
    row: usize,
    col: usize,
    x: usize,
    y: usize,
    width: usize,
    height: usize,
    max_x: usize,
    max_y: usize,
    marked_x: usize,
    declared_width: Option<usize>,
    declared_height: Option<usize>,
    color_index: usize,
    palette: Vec<Rgba>,
    rows: Vec<Vec<Rgba>>,
}

pub open spec fn as_int_option(value: Option<usize>) -> Option<int> {
    match value {
        Some(v) => Some(v as int),
        None => None,
    }
}

impl View for SixelDecoder {
    type V = Drawing;

    closed spec fn view(&self) -> Drawing {
        Drawing {
            x: self.x as int,
            y: self.y as int,
            width: self.width as int,
            height: self.height as int,
            max_x: self.max_x as int,
            max_y: self.max_y as int,
            marked_x: self.marked_x as int,
            declared_width: as_int_option(self.declared_width),
            declared_height: as_int_option(self.declared_height),
            color_index: self.color_index as int,
            palette: self.palette@,
            rows: row_views(self.rows@),
        }
    }
}

pub fn grow_dimension(current: usize, needed: usize, declared: Option<usize>) -> (r: usize)
    ensures
        r == grown_dimension(current as int, needed as int, as_int_option(declared)),
{
    let mut size: usize = needed;
    if let Some(value) = declared {
        if size < value {
            size = value;
        }
    }
    let doubled: usize = if current < 32 {
        64
    } else if current < MAX_SIXEL_DIMENSION {
        2 * current
    } else {
        MAX_SIXEL_DIMENSION
    };
    if size < doubled {
        size = doubled;
    }
    if size < MAX_SIXEL_DIMENSION {
        size
    } else {
        MAX_SIXEL_DIMENSION
    }
}

impl SixelDecoder {
    /// The cell at which the picture is anchored.
    pub closed spec fn anchor(&self) -> (usize, usize) {
        (self.row, self.col)
    }

    pub fn new(row: usize, col: usize) -> (decoder: Self)
        ensures
            decoder@ == blank_drawing(),
            decoder@.wf(),
            decoder.anchor() == (row, col),
    {
        let decoder = SixelDecoder {
            row,
            col,
            x: 0,
            y: 0,
            width: 0,
            height: 0,
            max_x: 0,
            max_y: 0,
            marked_x: 0,
            declared_width: None,
            declared_height: None,
            color_index: 0,
            palette: default_palette(),
            rows: Vec::new(),
        };
        assert(decoder@.rows =~= Seq::<Seq<Rgba>>::empty());
        decoder
    }

    /// `$`: the pen goes back to the left edge.
    fn return_pen(&mut self)
        requires
            old(self)@.wf(),
        ensures
            final(self)@ == (Drawing { x: 0, ..old(self)@ }),
            final(self)@.wf(),
            final(self).anchor() == old(self).anchor(),
    {
        self.x = 0;
    }

    /// `-`: the pen goes to the left edge of the next band of six rows.
    fn start_band(&mut self)
        requires
            old(self)@.wf(),
        ensures
            final(self)@ == (Drawing { x: 0, y: saturated(old(self)@.y + 6), ..old(self)@ }),
            final(self)@.wf(),
            final(self).anchor() == old(self).anchor(),
    {
        self.x = 0;
        self.y = if self.y < usize::MAX - 6 {
            self.y + 6
        } else {
            usize::MAX
        };
    }

    /// Runs the commands of a payload and gives the picture.
    #[verifier::rlimit(60)]
    #[verifier::spinoff_prover]
    pub fn decode(&mut self, bytes: &[u8]) -> (image: Option<SixelImage>)
        requires
            old(self)@.wf(),
        ensures
            final(self)@ == old(self)@.after_payload(1, bytes@),
            final(self)@.wf(),
            final(self).anchor() == old(self).anchor(),
            is_image_of(image, final(self)@, final(self).anchor().0, final(self).anchor().1),
    {
        let mut i: usize = 0;
        let mut repeat: usize = 1;
        assert(bytes@.skip(0) =~= bytes@);
        while i < bytes.len()
            invariant
                i <= bytes@.len(),
                1 <= repeat,
                self@.wf(),
                self.anchor() == old(self).anchor(),
                self@.after_payload(repeat as nat, bytes@.skip(i as int)) == old(
                    self,
                )@.after_payload(1, bytes@),
            decreases bytes@.len() - i,
        {
            let byte: u8 = bytes[i];
            let ghost rest = bytes@.skip(i + 1);
            assert(bytes@.skip(i as int).skip(1) =~= rest);
            assert(bytes@.skip(i as int)[0] == byte);
            if byte == 0x23 {
                let (params, next) = parse_params(bytes, i + 1);
                proof {
                    assert(bytes@.subrange(i + 1, next as int) =~= rest.take(next - (i + 1)));
                    assert(bytes@.skip(next as int) =~= rest.skip(next - (i + 1)));
                }
                self.apply_color_params(params.as_slice());
                i = next;
            } else if byte == 0x21 {
                let (count, next) = parse_number(bytes, i + 1);
                proof {
                    assert(bytes@.subrange(i + 1, next as int) =~= rest.take(next - (i + 1)));
                    assert(bytes@.skip(next as int) =~= rest.skip(next - (i + 1)));
                }
                repeat = match count {
                    Some(value) => if value > 1 {
                        value
                    } else {
                        1
                    },
                    None => 1,
                };
                i = next;
            } else if byte == 0x22 {
                let (params, next) = parse_params(bytes, i + 1);
                proof {
                    assert(bytes@.subrange(i + 1, next as int) =~= rest.take(next - (i + 1)));
                    assert(bytes@.skip(next as int) =~= rest.skip(next - (i + 1)));
                }
                self.apply_raster_attributes(params.as_slice());
                i = next;
            } else if byte == 0x24 {
                self.return_pen();
                i += 1;
            } else if byte == 0x2d {
                self.start_band();
                i += 1;
            } else if 0x3f <= byte && byte <= 0x7e {
                self.draw_sixel(byte - 0x3f, repeat);
                repeat = 1;
                i += 1;
            } else {
                i += 1;
            }
        }
        assert(bytes@.skip(i as int) =~= Seq::<u8>::empty());
        self.finish()
    }

    pub fn apply_color_params(&mut self, params: &[usize])
        requires
            old(self)@.wf(),
        ensures
            final(self)@ == old(self)@.after_color(as_ints(params@)),
            final(self)@.wf(),
            final(self).anchor() == old(self).anchor(),
    {
        if params.len() == 0 {
            return;
        }
        let index: usize = if params[0] < 255 {
            params[0]
        } else {
            255
        };
        self.color_index = index;
        if params.len() >= 5 {
            if params[1] == 1 {
                let color = hls_to_rgba(params[2], params[3], params[4]);
                self.palette.set(index, color);
            } else if params[1] == 2 {
                let color = opaque(
                    percent_to_byte(params[2]),
                    percent_to_byte(params[3]),
                    percent_to_byte(params[4]),
                );
                self.palette.set(index, color);
            }
        }
    }

    pub fn apply_raster_attributes(&mut self, params: &[usize])
        requires
            old(self)@.wf(),
        ensures
            final(self)@ == old(self)@.after_raster(as_ints(params@)),
            final(self)@.wf(),
            final(self).anchor() == old(self).anchor(),
    {
        if params.len() < 4 {
            return;
        }
        let width: usize = if params[2] < MAX_SIXEL_DIMENSION {
            params[2]
        } else {
            MAX_SIXEL_DIMENSION
        };
        let height: usize = if params[3] < MAX_SIXEL_DIMENSION {
            params[3]
        } else {
            MAX_SIXEL_DIMENSION
        };
        proof {
            lemma_area(width as int, height as int);
        }
        if width > 0 && height > 0 && width * height <= MAX_SIXEL_PIXELS {
            self.declared_width = Some(width);
            self.declared_height = Some(height);
            self.ensure_canvas(width, height);
        }
    }

    /// Draws a column `repeat` times.
    pub fn draw_sixel(&mut self, bits: u8, repeat: usize)
        requires
            old(self)@.wf(),
        ensures
            final(self)@ == old(self)@.after_columns(bits, repeat as nat),
            final(self)@.wf(),
            final(self).anchor() == old(self).anchor(),
    {
        let mut n: usize = 0;
        while n < repeat
            invariant
                n <= repeat,
                self@.wf(),
                self.anchor() == old(self).anchor(),
                self@ == old(self)@.after_columns(bits, n as nat),
            decreases repeat - n,
        {
            let ghost before = self@;
            if bits == 0 {
                self.mark_column(self.x);
            } else {
                self.draw_column(bits);
            }
            self.x = if self.x < usize::MAX {
                self.x + 1
            } else {
                usize::MAX
            };
            assert(self@ == before.after_column(bits));
            n += 1;
        }
    }

    /// Draws the pixels of a column at the pen.
    fn draw_column(&mut self, bits: u8)
        requires
            old(self)@.wf(),
        ensures
            final(self)@ == old(self)@.with_bits(bits, 6),
            final(self)@.wf(),
            final(self)@.x == old(self)@.x,
            final(self).anchor() == old(self).anchor(),
    {
        let mut bit: u8 = 0;
        while bit < 6
            invariant
                bit <= 6,
                self@.wf(),
                self.anchor() == old(self).anchor(),
                self@.x == old(self)@.x,
                self@.y == old(self)@.y,
                old(self)@.wf(),
                self@ == old(self)@.with_bits(bits, bit as nat),
            decreases 6 - bit,
        {
            if bits & (1u8 << bit) != 0 {
                let y: usize = if self.y < usize::MAX - bit as usize {
                    self.y + bit as usize
                } else {
                    usize::MAX
                };
                self.set_pixel(self.x, y);
            }
            bit += 1;
        }
    }

    /// Counts a column without a pixel.
    pub fn mark_column(&mut self, x: usize)
        requires
            old(self)@.wf(),
        ensures
            final(self)@ == old(self)@.with_column(x as int),
            final(self)@.wf(),
            final(self)@.x == old(self)@.x,
            final(self)@.y == old(self)@.y,
            final(self).anchor() == old(self).anchor(),
    {
        proof {
            lemma_with_column(self@, x as int);
        }
        if x >= MAX_SIXEL_DIMENSION || self.y >= MAX_SIXEL_DIMENSION {
            return;
        }
        proof {
            lemma_area(x + 1, self.y + 1);
        }
        if (x + 1) * (self.y + 1) > MAX_SIXEL_PIXELS {
            return;
        }
        if self.marked_x < x + 1 {
            self.marked_x = x + 1;
        }
    }

    pub fn set_pixel(&mut self, x: usize, y: usize)
        requires
            old(self)@.wf(),
        ensures
            final(self)@ == old(self)@.with_pixel(x as int, y as int),
            final(self)@.wf(),
            final(self)@.x == old(self)@.x,
            final(self)@.y == old(self)@.y,
            final(self).anchor() == old(self).anchor(),
    {
        proof {
            lemma_with_pixel(self@, x as int, y as int);
        }
        if x >= MAX_SIXEL_DIMENSION || y >= MAX_SIXEL_DIMENSION {
            return;
        }
        proof {
            lemma_area(x + 1, y + 1);
        }
        if (x + 1) * (y + 1) > MAX_SIXEL_PIXELS {
            return;
        }
        self.ensure_canvas(x + 1, y + 1);
        if x >= self.width || y >= self.height {
            return;
        }
        let ghost roomy = self@;
        let ghost rows = self.rows@;
        assert(roomy.rows[y as int] == rows[y as int]@);
        let color: Rgba = self.palette[self.color_index];
        let row: &mut Vec<Rgba> = &mut self.rows[y];
        row.set(x, color);
        assert(row_views(self.rows@) =~= roomy.rows.update(
            y as int,
            roomy.rows[y as int].update(x as int, color),
        ));
        if self.max_x < x + 1 {
            self.max_x = x + 1;
        }
        if self.max_y < y + 1 {
            self.max_y = y + 1;
        }
    }

    /// Makes room for a picture of the given size.
    pub fn ensure_canvas(&mut self, min_width: usize, min_height: usize)
        requires
            old(self)@.wf(),
            min_width <= MAX_SIXEL_DIMENSION,
            min_height <= MAX_SIXEL_DIMENSION,
        ensures
            final(self)@ == old(self)@.with_room(min_width as int, min_height as int),
            final(self)@.wf(),
            final(self).anchor() == old(self).anchor(),
    {
        proof {
            lemma_with_room(self@, min_width as int, min_height as int);
        }
        if min_width <= self.width && min_height <= self.height {
            return;
        }
        let width: usize = grow_dimension(self.width, min_width, self.declared_width);
        let height: usize = grow_dimension(self.height, min_height, self.declared_height);
        proof {
            lemma_area(width as int, height as int);
        }
        if width * height > MAX_SIXEL_PIXELS {
            return;
        }
        let ghost before = self@;
        let ghost target = before.with_room(min_width as int, min_height as int);
        let mut rows: Vec<Vec<Rgba>> = Vec::new();
        let mut j: usize = 0;
        while j < height
            invariant
                j <= height,
                rows@.len() == j,
                self@ == before,
                before.wf(),
                target.width == width,
                target.height == height,
                target.rows == Seq::new(
                    height as nat,
                    |j: int|
                        Seq::new(
                            width as nat,
                            |i: int|
                                if j < before.height && i < before.width {
                                    before.rows[j][i]
                                } else {
                                    transparent()
                                },
                        ),
                ),
                forall|k: int| 0 <= k < j ==> (#[trigger] rows@[k])@ == target.rows[k],
            decreases height - j,
        {
            let mut row: Vec<Rgba> = Vec::new();
            let mut i: usize = 0;
            while i < width
                invariant
                    i <= width,
                    j < height,
                    row@.len() == i,
                    self@ == before,
                    before.wf(),
                    forall|k: int|
                        0 <= k < i ==> #[trigger] row@[k] == if j < before.height && k
                            < before.width {
                            before.rows[j as int][k]
                        } else {
                            transparent()
                        },
                decreases width - i,
            {
                if j < self.height && i < self.width {
                    assert(before.rows[j as int] == self.rows@[j as int]@);
                    row.push(self.rows[j][i]);
                } else {
                    row.push(Rgba { r: 0, g: 0, b: 0, a: 0 });
                }
                i += 1;
            }
            assert(row@ =~= target.rows[j as int]);
            rows.push(row);
            j += 1;
        }
        self.width = width;
        self.height = height;
        self.rows = rows;
        assert(self@.rows =~= target.rows);
        assert(self@ == target);
    }

    /// The picture drawn so far.
    pub fn finish(&self) -> (image: Option<SixelImage>)
        requires
            self@.wf(),
        ensures
            is_image_of(image, self@, self.anchor().0, self.anchor().1),
    {
        let mut width: usize = self.max_x;
        if let Some(declared) = self.declared_width {
            if width < declared {
                width = declared;
            }
        }
        let mut height: usize = self.max_y;
        if let Some(declared) = self.declared_height {
            if height < declared {
                height = declared;
            }
        }
        assert(width == self@.drawn_width());
        assert(height == self@.picture_height());
        if width == 0 || height == 0 || width > self.width || height > self.height {
            return None;
        }
        if width < self.marked_x {
            proof {
                lemma_area(self.marked_x as int, height as int);
            }
            if self.marked_x * height <= MAX_SIXEL_PIXELS {
                width = self.marked_x;
            }
        } else {
            proof {
                lemma_smaller_area(
                    width as int,
                    height as int,
                    self.width as int,
                    self.height as int,
                );
            }
        }
        assert(width == self@.picture_width());
        let mut rgba: Vec<u8> = Vec::new();
        let mut j: usize = 0;
        while j < height
            invariant
                j <= height <= self.height,
                self@.wf(),
                rgba@ == picture_bytes(self@.rows, width as nat, j as nat),
            decreases height - j,
        {
            let ghost upper = rgba@;
            let row: &Vec<Rgba> = &self.rows[j];
            assert(row@ == self@.rows[j as int]);
            let mut i: usize = 0;
            assert(upper + Seq::<u8>::empty() =~= upper);
            while i < width
                invariant
                    i <= width,
                    rgba@ == upper + row_bytes(row@, i as nat),
                decreases width - i,
            {
                let pixel: Rgba = if i < row.len() {
                    row[i]
                } else {
                    Rgba { r: 0, g: 0, b: 0, a: 0 }
                };
                let ghost front = rgba@;
                rgba.push(pixel.r);
                rgba.push(pixel.g);
                rgba.push(pixel.b);
                rgba.push(pixel.a);
                assert(rgba@ =~= front + pixel_bytes(pixel));
                assert(front + pixel_bytes(pixel) =~= upper + (row_bytes(row@, i as nat)
                    + pixel_bytes(pixel)));
                i += 1;
            }
            j += 1;
        }
        Some(SixelImage { row: self.row, col: self.col, width, height, rgba })
    }
}

/// Decodes a SIXEL payload, anchored at a cell.
pub fn decode_sixel_payload(row: usize, col: usize, bytes: &[u8]) -> (image: Option<SixelImage>)
    ensures
        is_image_of(image, drawing_of(bytes@), row, col),
{
    let mut decoder = SixelDecoder::new(row, col);
    decoder.decode(bytes)
}

// ---------------------------------------------------------------------------
// Pictures inside a tmux passthrough
// ---------------------------------------------------------------------------

pub const ESC: u8 = 0x1b;

/// The text that starts the payload of a tmux passthrough; the `t` before it
/// ends the introducer of the DCS.
pub open spec fn tmux_prefix() -> Seq<u8> {
    seq![0x6du8, 0x75u8, 0x78u8, 0x3bu8]
}

/// The text with every doubled escape made single.
pub open spec fn unescape_tmux(text: Seq<u8>) -> Seq<u8>
    decreases text.len(),
{
    if text.len() == 0 {
        Seq::empty()
    } else if text.len() >= 2 && text[0] == ESC && text[1] == ESC {
        seq![ESC] + unescape_tmux(text.skip(2))
    } else {
        seq![text[0]] + unescape_tmux(text.skip(1))
    }
}

/// The text with every escape doubled.
pub open spec fn escape_tmux(text: Seq<u8>) -> Seq<u8>
    decreases text.len(),
{
    if text.len() == 0 {
        Seq::empty()
    } else if text[0] == ESC {
        seq![ESC, ESC] + escape_tmux(text.skip(1))
    } else {
        seq![text[0]] + escape_tmux(text.skip(1))
    }
}

/// The first place, from `from` on, where `a` is followed by `b`.
pub open spec fn first_pair(text: Seq<u8>, from: int, a: u8, b: u8) -> Option<int>
    decreases text.len() - from,
{
    if from + 2 > text.len() {
        None
    } else if text[from] == a && text[from + 1] == b {
        Some(from)
    } else {
        first_pair(text, from + 1, a, b)
    }
}

/// The first place, from `from` on, that holds `byte`.
pub open spec fn first_byte(text: Seq<u8>, from: int, byte: u8) -> Option<int>
    decreases text.len() - from,
{
    if from >= text.len() {
        None
    } else if text[from] == byte {
        Some(from)
    } else {
        first_byte(text, from + 1, byte)
    }
}

/// The SIXEL payload inside a tmux passthrough: what follows the first `q` of
/// its first DCS, up to the terminator of that DCS, or to the end.
pub open spec fn tmux_sixel_payload(text: Seq<u8>) -> Option<Seq<u8>> {
    if !tmux_prefix().is_prefix_of(text) {
        None
    } else {
        let inner = unescape_tmux(text.skip(4));
        match first_pair(inner, 0, ESC, 0x50) {
            None => None,
            Some(introducer) => {
                let start = introducer + 2;
                let end = match first_pair(inner, start, ESC, 0x5c) {
                    Some(terminator) => terminator,
                    None => inner.len() as int,
                };
                let dcs = inner.subrange(start, end);
                match first_byte(dcs, 0, 0x71) {
                    None => None,
                    Some(q) => Some(dcs.skip(q + 1)),
                }
            },
        }
    }
}

fn find_pair(text: &[u8], from: usize, a: u8, b: u8) -> (r: Option<usize>)
    requires
        from <= text@.len(),
    ensures
        as_int_option(r) == first_pair(text@, from as int, a, b),
        r matches Some(i) ==> from <= i && i + 2 <= text@.len(),
{
    let count: usize = text.len();
    let mut i: usize = from;
    while count - i >= 2
        invariant
            from <= i <= count,
            count == text@.len(),
            first_pair(text@, i as int, a, b) == first_pair(text@, from as int, a, b),
        decreases text@.len() - i,
    {
        if text[i] == a && text[i + 1] == b {
            return Some(i);
        }
        i += 1;
    }
    None
}

fn find_byte(text: &[u8], byte: u8) -> (r: Option<usize>)
    ensures
        as_int_option(r) == first_byte(text@, 0, byte),
        r matches Some(i) ==> i < text@.len(),
{
    let mut i: usize = 0;
    while i < text.len()
        invariant
            i <= text@.len(),
            first_byte(text@, i as int, byte) == first_byte(text@, 0, byte),
        decreases text@.len() - i,
    {
        if text[i] == byte {
            return Some(i);
        }
        i += 1;
    }
    None
}

/// Decodes the SIXEL picture inside a tmux passthrough, if there is one.
pub fn decode_tmux_passthrough_sixel(row: usize, col: usize, bytes: &[u8]) -> (image: Option<
    SixelImage,
>)
    ensures
        match tmux_sixel_payload(bytes@) {
            None => image is None,
            Some(payload) => is_image_of(image, drawing_of(payload), row, col),
        },
{
    if bytes.len() < 4 || bytes[0] != 0x6d || bytes[1] != 0x75 || bytes[2] != 0x78 || bytes[3]
        != 0x3b {
        assert(!tmux_prefix().is_prefix_of(bytes@)) by {
            if tmux_prefix().is_prefix_of(bytes@) {
                let head = bytes@.subrange(0, 4);
                assert(head[0] == tmux_prefix()[0]);
                assert(head[1] == tmux_prefix()[1]);
                assert(head[2] == tmux_prefix()[2]);
                assert(head[3] == tmux_prefix()[3]);
            }
        }
        return None;
    }
    assert(bytes@.subrange(0, 4) =~= tmux_prefix());
    let ghost payload = bytes@.skip(4);
    let mut inner: Vec<u8> = Vec::new();
    let mut i: usize = 4;
    assert(inner@ + unescape_tmux(payload) =~= unescape_tmux(payload));
    while i < bytes.len()
        invariant
            4 <= i <= bytes@.len(),
            payload == bytes@.skip(4),
            inner@ + unescape_tmux(bytes@.skip(i as int)) == unescape_tmux(payload),
        decreases bytes@.len() - i,
    {
        let ghost rest = bytes@.skip(i as int);
        let ghost done = inner@;
        if bytes[i] == ESC && i + 1 < bytes.len() && bytes[i + 1] == ESC {
            inner.push(ESC);
            assert(rest.skip(2) =~= bytes@.skip(i + 2));
            assert(inner@ + unescape_tmux(rest.skip(2)) =~= done + (seq![ESC] + unescape_tmux(
                rest.skip(2),
            )));
            i += 2;
        } else {
            inner.push(bytes[i]);
            assert(rest.skip(1) =~= bytes@.skip(i + 1));
            assert(inner@ + unescape_tmux(rest.skip(1)) =~= done + (seq![rest[0]] + unescape_tmux(
                rest.skip(1),
            )));
            i += 1;
        }
    }
    assert(bytes@.skip(i as int) =~= Seq::<u8>::empty());
    assert(inner@ =~= unescape_tmux(payload));
    let inner_len: usize = inner.len();
    let introducer: usize = match find_pair(inner.as_slice(), 0, ESC, 0x50) {
        Some(at) => at,
        None => return None,
    };
    let start: usize = introducer + 2;
    let end: usize = match find_pair(inner.as_slice(), start, ESC, 0x5c) {
        Some(at) => at,
        None => inner_len,
    };
    let dcs: &[u8] = vstd::slice::slice_subrange(inner.as_slice(), start, end);
    match find_byte(dcs, 0x71) {
        Some(q) => {
            let sixels: &[u8] = vstd::slice::slice_subrange(dcs, q + 1, dcs.len());
            assert(sixels@ =~= dcs@.skip(q + 1));
            decode_sixel_payload(row, col, sixels)
        },
        None => None,
    }
}

// ---------------------------------------------------------------------------
// Laws
// ---------------------------------------------------------------------------

proof fn lemma_with_bits(d: Drawing, bits: u8, count: nat)
    requires
        d.wf(),
        count <= 6,
    ensures
        d.with_bits(bits, count).wf(),
        d.with_bits(bits, count).x == d.x,
        d.with_bits(bits, count).y == d.y,
    decreases count,
{
    if count > 0 {
        lemma_with_bits(d, bits, (count - 1) as nat);
        lemma_with_pixel(
            d.with_bits(bits, (count - 1) as nat),
            d.x,
            saturated(d.y + count - 1),
        );
    }
}

proof fn lemma_after_columns(d: Drawing, bits: u8, repeat: nat)
    requires
        d.wf(),
    ensures
        d.after_columns(bits, repeat).wf(),
    decreases repeat,
{
    if repeat > 0 {
        lemma_after_columns(d, bits, (repeat - 1) as nat);
        let front = d.after_columns(bits, (repeat - 1) as nat);
        lemma_with_column(front, front.x);
        lemma_with_bits(front, bits, 6);
    }
}

proof fn lemma_fields_are_natural(text: Seq<u8>)
    requires
        forall|k: int| 0 <= k < text.len() ==> is_param_byte(#[trigger] text[k]),
    ensures
        fields_of(text).len() >= 1,
        forall|k: int| 0 <= k < fields_of(text).len() ==> 0 <= #[trigger] fields_of(text)[k],
    decreases text.len(),
{
    if text.len() > 0 {
        let front = text.drop_last();
        assert forall|k: int| 0 <= k < front.len() implies is_param_byte(#[trigger] front[k]) by {
            assert(front[k] == text[k]);
        }
        lemma_fields_are_natural(front);
        assert(is_param_byte(text[text.len() - 1]));
    }
}

proof fn lemma_params_are_natural(bytes: Seq<u8>)
    ensures
        ({
            let params = params_of(bytes.take(param_byte_count(bytes) as int));
            forall|k: int| 0 <= k < params.len() ==> 0 <= #[trigger] params[k]
        }),
{
    lemma_counts_fit(bytes);
    let text = bytes.take(param_byte_count(bytes) as int);
    assert forall|k: int| 0 <= k < text.len() implies is_param_byte(#[trigger] text[k]) by {
        lemma_param_bytes(bytes, k);
    }
    lemma_fields_are_natural(text);
}

proof fn lemma_param_bytes(bytes: Seq<u8>, k: int)
    requires
        0 <= k < param_byte_count(bytes),
    ensures
        k < bytes.len(),
        is_param_byte(bytes[k]),
    decreases bytes.len(),
{
    if k > 0 {
        lemma_param_bytes(bytes.skip(1), k - 1);
    }
}

proof fn lemma_after_payload(d: Drawing, repeat: nat, bytes: Seq<u8>)
    requires
        d.wf(),
    ensures
        d.after_payload(repeat, bytes).wf(),
    decreases bytes.len(),
{
    if bytes.len() > 0 {
        let rest = bytes.skip(1);
        let byte = bytes[0];
        lemma_counts_fit(rest);
        lemma_params_are_natural(rest);
        let params = params_of(rest.take(param_byte_count(rest) as int));
        if byte == 0x23 {
            lemma_after_payload(
                d.after_color(params),
                repeat,
                rest.skip(param_byte_count(rest) as int),
            );
        } else if byte == 0x21 {
            lemma_after_payload(
                d,
                repeat_count(number_of(rest.take(digit_count(rest) as int))),
                rest.skip(digit_count(rest) as int),
            );
        } else if byte == 0x22 {
            let declared = Drawing {
                declared_width: Some(capped(params[2], MAX_SIXEL_DIMENSION as int)),
                declared_height: Some(capped(params[3], MAX_SIXEL_DIMENSION as int)),
                ..d
            };
            let after = d.after_raster(params);
            if after != d {
                lemma_with_room(
                    declared,
                    capped(params[2], MAX_SIXEL_DIMENSION as int),
                    capped(params[3], MAX_SIXEL_DIMENSION as int),
                );
            }
            lemma_after_payload(after, repeat, rest.skip(param_byte_count(rest) as int));
        } else if byte == 0x24 {
            lemma_after_payload(Drawing { x: 0, ..d }, repeat, rest);
        } else if byte == 0x2d {
            lemma_after_payload(Drawing { x: 0, y: saturated(d.y + 6), ..d }, repeat, rest);
        } else if 0x3f <= byte <= 0x7e {
            lemma_after_columns(d, (byte - 0x3f) as u8, repeat);
            lemma_after_payload(d.after_columns((byte - 0x3f) as u8, repeat), 1, rest);
        } else {
            lemma_after_payload(d, repeat, rest);
        }
    }
}

/// Law: whatever a payload holds, the canvas stays within the limits on the
/// dimensions and on the number of pixels.
pub proof fn law_canvas_is_bounded(payload: Seq<u8>)
    ensures
        drawing_of(payload).wf(),
        drawing_of(payload).width <= MAX_SIXEL_DIMENSION,
        drawing_of(payload).height <= MAX_SIXEL_DIMENSION,
        drawing_of(payload).width * drawing_of(payload).height <= MAX_SIXEL_PIXELS,
{
    lemma_after_payload(blank_drawing(), 1, payload);
}

/// Law: a picture is never larger than the limits allow, columns without a pixel
/// counted in; and these take nothing away from it.
pub proof fn law_pictures_are_bounded(payload: Seq<u8>)
    ensures
        ({
            let d = drawing_of(payload);
            d.has_picture() ==> {
                &&& 0 < d.drawn_width() <= d.picture_width() <= MAX_SIXEL_DIMENSION
                &&& 0 < d.picture_height() <= MAX_SIXEL_DIMENSION
                &&& d.picture_width() * d.picture_height() <= MAX_SIXEL_PIXELS
            }
        }),
{
    law_canvas_is_bounded(payload);
    let d = drawing_of(payload);
    if d.has_picture() {
        lemma_smaller_area(d.drawn_width(), d.picture_height(), d.width, d.height);
    }
}

/// Law: columns without a pixel change nothing of what is drawn, neither the
/// pixels nor the room for others; they move the pen and may widen the picture.
pub proof fn law_blank_columns_only_widen(d: Drawing, repeat: nat)
    requires
        d.wf(),
    ensures
        ({
            let after = d.after_columns(0, repeat);
            &&& after == (Drawing { x: after.x, marked_x: after.marked_x, ..d })
            &&& after.x == saturated(d.x + repeat)
            &&& after.marked_x >= d.marked_x
        }),
    decreases repeat,
{
    if repeat > 0 {
        law_blank_columns_only_widen(d, (repeat - 1) as nat);
    }
}

/// Law: when the canvas grows, what was drawn stays where it is, and what is new
/// is transparent.
pub proof fn law_growing_keeps_the_drawing(
    d: Drawing,
    min_width: int,
    min_height: int,
    i: int,
    j: int,
)
    requires
        d.wf(),
        min_width <= MAX_SIXEL_DIMENSION,
        min_height <= MAX_SIXEL_DIMENSION,
    ensures
        ({
            let grown = d.with_room(min_width, min_height);
            &&& 0 <= i < d.width && 0 <= j < d.height ==> grown.rows[j][i] == d.rows[j][i]
            &&& (0 <= i < grown.width && 0 <= j < grown.height && !(i < d.width && j < d.height))
                ==> grown.rows[j][i] == transparent()
            &&& grown.picture_width() == d.picture_width()
            &&& grown.picture_height() == d.picture_height()
        }),
{
    lemma_with_room(d, min_width, min_height);
}

proof fn lemma_row_bytes(row: Seq<Rgba>, width: nat, i: int)
    requires
        0 <= i < width,
    ensures
        row_bytes(row, width).len() == 4 * width,
        row_bytes(row, width).subrange(4 * i, 4 * i + 4) == pixel_bytes(pixel_at(row, i)),
    decreases width,
{
    let front = row_bytes(row, (width - 1) as nat);
    if width > 1 {
        lemma_row_bytes(
            row,
            (width - 1) as nat,
            if i < width - 1 {
                i
            } else {
                0
            },
        );
    }
    assert(front.len() == 4 * (width - 1));
    let whole = row_bytes(row, width);
    if i < width - 1 {
        assert(whole.subrange(4 * i, 4 * i + 4) =~= front.subrange(4 * i, 4 * i + 4));
    } else {
        assert(whole.subrange(4 * i, 4 * i + 4) =~= pixel_bytes(pixel_at(row, i)));
    }
}

/// Law: the bytes of a picture are its pixels in row-major order, four bytes
/// each; where the canvas ends they are transparent.
pub proof fn law_pixels_are_row_major(
    rows: Seq<Seq<Rgba>>,
    width: nat,
    height: nat,
    i: int,
    j: int,
)
    requires
        0 <= i < width,
        0 <= j < height,
    ensures
        picture_bytes(rows, width, height).len() == 4 * (height * width),
        0 <= j * width + i < height * width,
        picture_bytes(rows, width, height).subrange(
            4 * (j * width + i),
            4 * (j * width + i) + 4,
        ) == pixel_bytes(pixel_at(rows[j], i)),
    decreases height,
{
    let upper = picture_bytes(rows, width, (height - 1) as nat);
    let whole = picture_bytes(rows, width, height);
    if height > 1 {
        law_pixels_are_row_major(
            rows,
            width,
            (height - 1) as nat,
            i,
            if j < height - 1 {
                j
            } else {
                0
            },
        );
    } else {
        assert(0 * width == 0);
    }
    assert(upper.len() == 4 * ((height - 1) * width));
    lemma_row_bytes(rows[height - 1], width, i);
    assert((height - 1) * width + width == height * width) by (nonlinear_arith);
    assert(0 <= j * width) by (nonlinear_arith)
        requires
            0 <= j,
            0 <= width,
    ;
    let at = 4 * (j * width + i);
    if j < height - 1 {
        assert(whole.subrange(at, at + 4) =~= upper.subrange(at, at + 4));
    } else {
        assert(whole.subrange(at, at + 4) =~= row_bytes(rows[j], width).subrange(
            4 * i,
            4 * i + 4,
        ));
    }
}

/// Law: doubling the escapes of a text and making them single again gives the
/// text back.
pub proof fn law_unescape_undoes_escape(text: Seq<u8>)
    ensures
        unescape_tmux(escape_tmux(text)) == text,
    decreases text.len(),
{
    if text.len() > 0 {
        let rest = text.skip(1);
        law_unescape_undoes_escape(rest);
        let escaped = escape_tmux(text);
        if text[0] == ESC {
            assert(escaped.skip(2) =~= escape_tmux(rest));
        } else {
            assert(escaped.skip(1) =~= escape_tmux(rest));
        }
        assert(seq![text[0]] + rest =~= text);
    } else {
        assert(text =~= Seq::<u8>::empty());
    }
}

/// The bytes of a SIXEL picture as a program sends them.
pub open spec fn sixel_frame(payload: Seq<u8>) -> Seq<u8> {
    seq![ESC, 0x50u8, 0x71u8] + payload + seq![ESC, 0x5cu8]
}

proof fn lemma_first_pair_after_plain(text: Seq<u8>, from: int, at: int, a: u8, b: u8)
    requires
        0 <= from <= at,
        at + 2 <= text.len(),
        forall|k: int| from <= k < at ==> #[trigger] text[k] != a,
        text[at] == a,
        text[at + 1] == b,
    ensures
        first_pair(text, from, a, b) == Some(at),
    decreases at - from,
{
    if from < at {
        assert(text[from] != a);
        lemma_first_pair_after_plain(text, from + 1, at, a, b);
    }
}

/// Law: a picture that is wrapped for tmux, with its escapes doubled, decodes
/// to what it decodes to unwrapped.
pub proof fn law_tmux_wrapping_keeps_the_picture(payload: Seq<u8>)
    requires
        !payload.contains(ESC),
    ensures
        tmux_sixel_payload(tmux_prefix() + escape_tmux(sixel_frame(payload))) == Some(payload),
{
    let frame = sixel_frame(payload);
    let text = tmux_prefix() + escape_tmux(frame);
    assert(text.subrange(0, 4) =~= tmux_prefix());
    assert(text.skip(4) =~= escape_tmux(frame));
    law_unescape_undoes_escape(frame);
    assert(first_pair(frame, 0, ESC, 0x50) == Some(0int));
    let end = 3 + payload.len();
    assert forall|k: int| 2 <= k < end implies #[trigger] frame[k] != ESC by {
        if k >= 3 {
            assert(frame[k] == payload[k - 3]);
            assert(payload.contains(payload[k - 3]));
        }
    }
    lemma_first_pair_after_plain(frame, 2, end as int, ESC, 0x5c);
    let dcs = frame.subrange(2, end as int);
    assert(dcs[0] == 0x71);
    assert(first_byte(dcs, 0, 0x71) == Some(0int));
    assert(dcs.skip(1) =~= payload);
}

// ---------------------------------------------------------------------------
// What the commands of a payload do
// ---------------------------------------------------------------------------

/// Numbers as a payload lists them: in decimal, with semicolons between them.
pub open spec fn listed(numbers: Seq<nat>) -> Seq<u8>
    decreases numbers.len(),
{
    if numbers.len() == 0 {
        Seq::empty()
    } else if numbers.len() == 1 {
        decimal(numbers[0])
    } else {
        listed(numbers.drop_last()) + seq![0x3bu8] + decimal(numbers.last())
    }
}

/// Whether a payload that goes on with these bytes has no more of a list.
pub open spec fn ends_a_list(rest: Seq<u8>) -> bool {
    rest.len() > 0 ==> !(0x30 <= rest[0] <= 0x39) && rest[0] != 0x3b
}

pub open spec fn are_small(numbers: Seq<nat>) -> bool {
    forall|k: int| 0 <= k < numbers.len() ==> #[trigger] numbers[k] <= 8192
}

proof fn lemma_fields_of_digits(text: Seq<u8>, n: nat)
    requires
        n <= 8192,
        fields_of(text).len() >= 1,
        fields_of(text).last() == 0,
    ensures
        fields_of(text + decimal(n)) == fields_of(text).drop_last().push(n as int),
    decreases n,
{
    let all = text + decimal(n);
    law_decimals_read_back(n);
    let digit = decimal(n).last();
    assert(decimal(n)[decimal(n).len() - 1] == digit);
    assert(all.last() == digit);
    assert(digit == (0x30 + n % 10) as u8);
    if n < 10 {
        assert(all.drop_last() =~= text);
        assert(fields_of(all) =~= fields_of(text).drop_last().push(n as int));
    } else {
        lemma_fields_of_digits(text, n / 10);
        assert(decimal(n).drop_last() =~= decimal(n / 10));
        assert(all.drop_last() =~= text + decimal(n / 10));
        let front = fields_of(text + decimal(n / 10));
        assert(front.last() == n / 10);
        assert(front.drop_last() =~= fields_of(text).drop_last());
        assert(with_digit((n / 10) as int, digit) == n);
    }
}

proof fn lemma_listed(numbers: Seq<nat>)
    requires
        numbers.len() >= 1,
        are_small(numbers),
    ensures
        params_of(listed(numbers)) == numbers.map_values(|n: nat| n as int),
        listed(numbers).len() > 0,
        forall|i: int| 0 <= i < listed(numbers).len() ==> is_param_byte(#[trigger] listed(numbers)[i]),
    decreases numbers.len(),
{
    let last = numbers.last();
    assert(numbers[numbers.len() - 1] <= 8192);
    law_decimals_read_back(last);
    let text = listed(numbers);
    if numbers.len() == 1 {
        let none = Seq::<u8>::empty();
        assert(fields_of(none) =~= seq![0int]);
        lemma_fields_of_digits(none, last);
        assert(none + decimal(last) =~= text);
        assert(fields_of(text) =~= numbers.map_values(|n: nat| n as int));
    } else {
        let front = numbers.drop_last();
        assert forall|k: int| 0 <= k < front.len() implies #[trigger] front[k] <= 8192 by {
            assert(front[k] == numbers[k]);
        }
        lemma_listed(front);
        let head = listed(front) + seq![0x3bu8];
        assert(head.drop_last() =~= listed(front));
        assert(fields_of(head) =~= fields_of(listed(front)).push(0));
        lemma_fields_of_digits(head, last);
        assert(text == head + decimal(last));
        assert(fields_of(head).drop_last() =~= fields_of(listed(front)));
        assert(fields_of(text) =~= numbers.map_values(|n: nat| n as int));
        assert forall|i: int| 0 <= i < text.len() implies is_param_byte(#[trigger] text[i]) by {
            if i < listed(front).len() {
                assert(text[i] == listed(front)[i]);
            } else if i > listed(front).len() {
                assert(text[i] == decimal(last)[i - head.len()]);
            }
        }
    }
}

/// Law: numbers that a payload lists read back as they were written.
pub proof fn law_listed_numbers_read_back(numbers: Seq<nat>)
    requires
        numbers.len() >= 1,
        are_small(numbers),
    ensures
        params_of(listed(numbers)) == numbers.map_values(|n: nat| n as int),
{
    lemma_listed(numbers);
}

proof fn lemma_list_in_payload(numbers: Seq<nat>, rest: Seq<u8>)
    requires
        numbers.len() >= 1,
        are_small(numbers),
        ends_a_list(rest),
    ensures
        ({
            let bytes = listed(numbers) + rest;
            let count = param_byte_count(bytes) as int;
            &&& count == listed(numbers).len()
            &&& bytes.take(count) == listed(numbers)
            &&& bytes.skip(count) == rest
        }),
{
    lemma_listed(numbers);
    let list = listed(numbers);
    let bytes = list + rest;
    assert forall|k: int| 0 <= k < list.len() implies is_param_byte(#[trigger] bytes[k]) by {
        assert(bytes[k] == list[k]);
    }
    if rest.len() > 0 {
        assert(bytes[list.len() as int] == rest[0]);
    }
    lemma_param_byte_count(bytes, list.len() as int);
    assert(bytes.take(list.len() as int) =~= list);
    assert(bytes.skip(list.len() as int) =~= rest);
}

/// The colour command with some numbers.
pub open spec fn color_command(numbers: Seq<nat>) -> Seq<u8> {
    seq![0x23u8] + listed(numbers)
}

/// Law: a colour command picks the colour of its first number, 255 at most,
/// however many numbers follow. With fewer than five it defines nothing; with
/// five, the second of which is 2, it gives the colour the red, green and blue of
/// the last three, in percent; and it draws nothing.
pub proof fn law_color_commands(d: Drawing, repeat: nat, numbers: Seq<nat>, rest: Seq<u8>)
    requires
        numbers.len() >= 1,
        are_small(numbers),
        ends_a_list(rest),
    ensures
        ({
            let index = if numbers[0] < 255 {
                numbers[0] as int
            } else {
                255
            };
            let picked = Drawing { color_index: index, ..d };
            let after = d.after_payload(repeat, color_command(numbers) + rest);
            &&& numbers.len() < 5 ==> after == picked.after_payload(repeat, rest)
            &&& numbers.len() >= 5 && numbers[1] == 2 ==> after == (Drawing {
                palette: d.palette.update(
                    index,
                    Rgba {
                        r: percent_byte(numbers[2] as int) as u8,
                        g: percent_byte(numbers[3] as int) as u8,
                        b: percent_byte(numbers[4] as int) as u8,
                        a: 255,
                    },
                ),
                ..picked
            }).after_payload(repeat, rest)
            &&& numbers.len() >= 5 && numbers[1] == 1 ==> after == (Drawing {
                palette: d.palette.update(
                    index,
                    hls_color(numbers[2] as int, numbers[3] as int, numbers[4] as int),
                ),
                ..picked
            }).after_payload(repeat, rest)
        }),
{
    let bytes = color_command(numbers) + rest;
    lemma_listed(numbers);
    lemma_list_in_payload(numbers, rest);
    assert(bytes.skip(1) =~= listed(numbers) + rest);
    let params = numbers.map_values(|n: nat| n as int);
    assert(params[0] == numbers[0]);
    assert(d.after_payload(repeat, bytes) == d.after_color(params).after_payload(repeat, rest));
}

/// Law: a percentage becomes the nearest of the levels from 0 to 255.
pub proof fn law_percentages(value: int)
    requires
        0 <= value,
    ensures
        0 <= percent_byte(value) <= 255,
        value <= 100 ==> -50 <= 100 * percent_byte(value) - 255 * value <= 50,
        value >= 100 ==> percent_byte(value) == 255,
        percent_byte(0) == 0,
{
}

/// Law: a colour without saturation is a gray, whose levels are the nearest to its
/// lightness; and every colour is opaque.
pub proof fn law_colors_without_saturation(hue: int, lightness: int, saturation: int)
    requires
        0 <= hue,
        0 <= lightness,
        0 <= saturation,
    ensures
        ({
            let color = hls_color(hue, lightness, saturation);
            &&& color.a == 255
            &&& saturation == 0 ==> color.r == color.g && color.g == color.b
            &&& saturation == 0 && lightness <= 100 ==> -51 <= 100 * color.r - 255 * lightness <= 51
            &&& saturation == 0 && lightness >= 100 ==> color.r == 255
        }),
{
    let percent = capped(lightness, 100);
    let l = quotient(percent, 100);
    lemma_quotient(percent, 100);
    assert(quotient(0, 100) == 0) by {
        assert(0 * ONE / 100 == 0);
        crate::sixel::single::lemma_nearest(0);
    }
    let clamped = if l < 0 {
        0
    } else {
        capped(l, ONE as int)
    };
    lemma_single(clamped * 255, 255 * ONE);
    assert(2 * ONE == 0x8000_0000_0000_0000);
    let byte = level_byte(l);
    assert(byte == (2 * single(clamped * 255) + ONE) / 0x8000_0000_0000_0000);
    assert(percent * ONE / 100 == percent * 0x4000_0000_0000_0000 / 100);
    assert(0 <= byte <= 255);
}

proof fn lemma_more_columns(d: Drawing, bits: u8, first: nat, second: nat)
    ensures
        d.after_columns(bits, first).after_columns(bits, second) == d.after_columns(
            bits,
            first + second,
        ),
    decreases second,
{
    if second > 0 {
        lemma_more_columns(d, bits, first, (second - 1) as nat);
    }
}

proof fn lemma_repeated_column(d: Drawing, count: nat, column: u8, rest: Seq<u8>)
    requires
        0x3f <= column <= 0x7e,
    ensures
        d.after_payload(1, Seq::new(count, |i: int| column) + rest) == d.after_columns(
            (column - 0x3f) as u8,
            count,
        ).after_payload(1, rest),
    decreases count,
{
    let bits = (column - 0x3f) as u8;
    let bytes = Seq::new(count, |i: int| column) + rest;
    if count == 0 {
        assert(bytes =~= rest);
    } else {
        let fewer = Seq::new((count - 1) as nat, |i: int| column) + rest;
        assert(bytes.skip(1) =~= fewer);
        assert(bytes[0] == column);
        let one = d.after_columns(bits, 1);
        lemma_repeated_column(one, (count - 1) as nat, column, rest);
        lemma_more_columns(d, bits, 1, (count - 1) as nat);
    }
}

proof fn lemma_number_of_decimal(n: nat)
    requires
        n <= 8192,
    ensures
        number_of(decimal(n)) == Some(n as int),
    decreases n,
{
    law_decimals_read_back(n);
    assert(decimal(n).last() == (0x30 + n % 10) as u8);
    if n < 10 {
        assert(decimal(n).drop_last() =~= Seq::<u8>::empty());
        assert(number_of(decimal(n).drop_last()) is None);
    } else {
        lemma_number_of_decimal(n / 10);
        assert(decimal(n).drop_last() =~= decimal(n / 10));
    }
}

/// Law: a column that is repeated is drawn as if it were written so often: `!3~`
/// is `~~~`. Zero times is once.
pub proof fn law_repeated_columns(
    d: Drawing,
    repeat: nat,
    count: nat,
    column: u8,
    rest: Seq<u8>,
)
    requires
        count <= 8192,
        0x3f <= column <= 0x7e,
    ensures
        d.after_payload(repeat, seq![0x21u8] + decimal(count) + seq![column] + rest)
            == d.after_payload(
            1,
            Seq::new(
                if count == 0 {
                    1
                } else {
                    count
                },
                |i: int| column,
            ) + rest,
        ),
{
    let times = if count == 0 {
        1nat
    } else {
        count
    };
    let digits = decimal(count);
    let bytes = seq![0x21u8] + digits + seq![column] + rest;
    let behind = digits + seq![column] + rest;
    law_decimals_read_back(count);
    lemma_number_of_decimal(count);
    assert(bytes.skip(1) =~= behind);
    assert forall|k: int| 0 <= k < digits.len() implies is_digit(#[trigger] behind[k]) by {
        assert(behind[k] == digits[k]);
    }
    assert(behind[digits.len() as int] == column);
    lemma_digit_count(behind, digits.len() as int);
    assert(behind.take(digits.len() as int) =~= digits);
    let tail = seq![column] + rest;
    assert(behind.skip(digits.len() as int) =~= tail);
    assert(d.after_payload(repeat, bytes) == d.after_payload(times, tail));
    assert(tail.skip(1) =~= rest);
    assert(tail[0] == column);
    lemma_repeated_column(d, times, column, rest);
}

/// Law: `$` takes the pen to the left edge, `-` to the left edge six rows further
/// down; neither draws anything. Bytes that are no commands are passed over.
pub proof fn law_moves_of_the_pen(d: Drawing, repeat: nat, byte: u8, rest: Seq<u8>)
    requires
        d.wf(),
        d.y + 6 <= usize::MAX,
    ensures
        d.after_payload(repeat, seq![0x24u8] + rest) == (Drawing { x: 0, ..d }).after_payload(
            repeat,
            rest,
        ),
        d.after_payload(repeat, seq![0x2du8] + rest) == (Drawing {
            x: 0,
            y: d.y + 6,
            ..d
        }).after_payload(repeat, rest),
        byte < 0x21 || 0x25 <= byte <= 0x2c || 0x2e <= byte < 0x3f || byte > 0x7e
            ==> d.after_payload(repeat, seq![byte] + rest) == d.after_payload(repeat, rest),
{
    assert((seq![0x24u8] + rest).skip(1) =~= rest);
    assert((seq![0x2du8] + rest).skip(1) =~= rest);
    assert((seq![byte] + rest).skip(1) =~= rest);
}

/// The value of a bit of a column, counted from the top.
pub open spec fn bit_value(k: int) -> int {
    if k == 0 {
        1
    } else if k == 1 {
        2
    } else if k == 2 {
        4
    } else if k == 3 {
        8
    } else if k == 4 {
        16
    } else {
        32
    }
}

proof fn lemma_bits(bits: u8, k: int)
    requires
        0 <= k < 6,
    ensures
        bit_is_set(bits, k as u8) <==> (bits as int / bit_value(k)) % 2 == 1,
{
    assert(bits & (1u8 << 0u8) != 0 <==> (bits / 1) % 2 == 1) by (bit_vector);
    assert(bits & (1u8 << 1u8) != 0 <==> (bits / 2) % 2 == 1) by (bit_vector);
    assert(bits & (1u8 << 2u8) != 0 <==> (bits / 4) % 2 == 1) by (bit_vector);
    assert(bits & (1u8 << 3u8) != 0 <==> (bits / 8) % 2 == 1) by (bit_vector);
    assert(bits & (1u8 << 4u8) != 0 <==> (bits / 16) % 2 == 1) by (bit_vector);
    assert(bits & (1u8 << 5u8) != 0 <==> (bits / 32) % 2 == 1) by (bit_vector);
}

proof fn lemma_bits_on_canvas(d: Drawing, bits: u8, count: nat)
    requires
        d.wf(),
        count <= 6,
        d.x < d.width,
        d.y + 6 <= d.height,
    ensures
        ({
            let after = d.with_bits(bits, count);
            &&& after == (Drawing { rows: after.rows, max_x: after.max_x, max_y: after.max_y, ..d })
            &&& after.rows.len() == d.rows.len()
            &&& forall|j: int|
                0 <= j < d.height ==> (#[trigger] after.rows[j]).len() == d.rows[j].len()
            &&& forall|j: int, i: int|
                0 <= j < d.height && 0 <= i < d.width ==> #[trigger] after.rows[j][i] == if i == d.x
                    && d.y <= j < d.y + count && bit_is_set(bits, (j - d.y) as u8) {
                    d.palette[d.color_index]
                } else {
                    d.rows[j][i]
                }
            &&& d.max_x <= after.max_x <= larger(d.max_x, d.x + 1)
            &&& d.max_y <= after.max_y <= larger(d.max_y, d.y + count)
            &&& forall|k: int|
                0 <= k < count && #[trigger] bit_is_set(bits, k as u8) ==> after.max_x >= d.x + 1
                    && d.y + k + 1 <= after.max_y
        }),
    decreases count,
{
    if count > 0 {
        let front = d.with_bits(bits, (count - 1) as nat);
        lemma_bits_on_canvas(d, bits, (count - 1) as nat);
        lemma_with_bits(d, bits, (count - 1) as nat);
        let k = count - 1;
        let y = d.y + k;
        assert(saturated(y) == y);
        assert((d.x + 1) * (y + 1) <= d.width * d.height) by (nonlinear_arith)
            requires
                0 <= d.x + 1 <= d.width,
                0 <= y + 1 <= d.height,
        ;
        if bit_is_set(bits, k as u8) {
            assert(front.with_room(d.x + 1, y + 1) == front);
            let after = front.with_pixel(d.x, y);
            assert(after == d.with_bits(bits, count));
            assert(front.rows[y].len() == d.rows[y].len());
            assert(d.rows[y].len() == d.width);
            assert forall|j: int| 0 <= j < d.height implies (#[trigger] after.rows[j]).len()
                == d.rows[j].len() by {
                assert(front.rows[j].len() == d.rows[j].len());
            }
            assert(after.max_x == larger(front.max_x, d.x + 1));
            assert(after.max_y == larger(front.max_y, y + 1));
            assert forall|j: int, i: int| 0 <= j < d.height && 0 <= i < d.width implies
                #[trigger] after.rows[j][i] == if i == d.x && d.y <= j < d.y + count && bit_is_set(
                bits,
                (j - d.y) as u8,
            ) {
                d.palette[d.color_index]
            } else {
                d.rows[j][i]
            } by {
                assert(front.rows[j].len() == d.rows[j].len());
                if j == y && i == d.x {
                } else {
                    assert(after.rows[j][i] == front.rows[j][i]);
                }
            }
        }
    }
}

/// Law: a column draws six pixels below each other, the lowest bit on top: those
/// whose bit is set get the colour that was picked, all other pixels stay. Then the
/// pen moves one pixel to the right, and the picture reaches as far as was drawn.
/// (Here the canvas has room for the column.)
pub proof fn law_columns_draw_their_bits(d: Drawing, column: u8, i: int, j: int)
    requires
        d.wf(),
        0x3f <= column <= 0x7e,
        d.x < d.width,
        d.y + 6 <= d.height,
        0 <= i < d.width,
        0 <= j < d.height,
    ensures
        ({
            let after = d.after_payload(1, seq![column]);
            let bits = column - 0x3f;
            &&& after.rows[j][i] == if i == d.x && d.y <= j < d.y + 6 && (bits / bit_value(j - d.y))
                % 2 == 1 {
                d.palette[d.color_index]
            } else {
                d.rows[j][i]
            }
            &&& after.x == d.x + 1
            &&& after.y == d.y
            &&& after.palette == d.palette
            &&& after.color_index == d.color_index
            &&& after.width == d.width && after.height == d.height
            &&& i == d.x && d.y <= j < d.y + 6 && (bits / bit_value(j - d.y)) % 2 == 1
                ==> after.max_x > i && after.max_y > j
            &&& after.max_x <= larger(d.max_x, d.x + 1)
            &&& after.max_y <= larger(d.max_y, d.y + 6)
            &&& bits == 0 ==> after.marked_x == larger(d.marked_x, d.x + 1)
        }),
{
    let bits = (column - 0x3f) as u8;
    let bytes = seq![column];
    assert(bytes.skip(1) =~= Seq::<u8>::empty());
    let after = d.after_payload(1, bytes);
    assert(d.after_columns(bits, 0) == d);
    assert(d.after_columns(bits, 1) == d.after_column(bits));
    let drawn = d.after_columns(bits, 1);
    assert(drawn.after_payload(1, Seq::empty()) == drawn);
    assert(after == d.after_column(bits));
    lemma_bits_on_canvas(d, bits, 6);
    if d.y <= j < d.y + 6 {
        lemma_bits(bits, j - d.y);
        let k = j - d.y;
        assert(bit_is_set(bits, k as u8) ==> d.y + k + 1 <= d.with_bits(bits, 6).max_y);
    }
    if bits == 0 {
        assert((d.x + 1) * (d.y + 1) <= d.width * d.height) by (nonlinear_arith)
            requires
                0 <= d.x + 1 <= d.width,
                0 <= d.y + 1 <= d.height,
        ;
    }
}

/// Law: the size that a payload declares is one that the picture has at least,
/// where it is within the limits.
pub proof fn law_declared_sizes(d: Drawing, repeat: nat, numbers: Seq<nat>, rest: Seq<u8>)
    requires
        d.wf(),
        numbers.len() >= 4,
        are_small(numbers),
        0 < numbers[2],
        0 < numbers[3],
        numbers[2] * numbers[3] <= 33554432,
        ends_a_list(rest),
    ensures
        ({
            let declared = d.after_raster(numbers.map_values(|n: nat| n as int));
            &&& d.after_payload(repeat, seq![0x22u8] + listed(numbers) + rest)
                == declared.after_payload(repeat, rest)
            &&& declared.picture_height() >= numbers[3]
            &&& declared.drawn_width() >= numbers[2]
            &&& declared.declared_width == Some(numbers[2] as int)
            &&& declared.declared_height == Some(numbers[3] as int)
            &&& declared.x == d.x && declared.y == d.y && declared.color_index == d.color_index
                && declared.palette == d.palette
        }),
{
    let bytes = seq![0x22u8] + listed(numbers) + rest;
    lemma_listed(numbers);
    lemma_list_in_payload(numbers, rest);
    assert(bytes.skip(1) =~= listed(numbers) + rest);
    let params = numbers.map_values(|n: nat| n as int);
    assert(params[2] == numbers[2] && params[3] == numbers[3]);
}

/// Law: without a declaration a picture is as wide and as high as what was drawn,
/// with the columns that were left blank.
pub proof fn law_undeclared_sizes(d: Drawing)
    requires
        d.wf(),
        d.declared_width is None,
        d.declared_height is None,
        larger(d.max_x, d.marked_x) * d.max_y <= 33554432,
    ensures
        d.picture_height() == d.max_y,
        d.picture_width() == if d.max_x < d.marked_x {
            d.marked_x
        } else {
            d.max_x
        },
        d.has_picture() <==> d.max_x > 0 && d.max_y > 0,
{
}

/// Law: a pixel is its red, green, blue and opacity, one byte each, in this order.
pub proof fn law_bytes_of_a_pixel(pixel: Rgba)
    ensures
        pixel_bytes(pixel).len() == 4,
        pixel_bytes(pixel)[0] == pixel.r,
        pixel_bytes(pixel)[1] == pixel.g,
        pixel_bytes(pixel)[2] == pixel.b,
        pixel_bytes(pixel)[3] == pixel.a,
{
}

/// Law: before a payload defines colours, those from 16 on are a cube of six
/// levels of red, green and blue, and those from 232 on grays in steps of ten; the
/// first sixteen are opaque, black first and white last.
pub proof fn law_colors_at_the_start(r: int, g: int, b: int, k: int)
    requires
        0 <= r < 6,
        0 <= g < 6,
        0 <= b < 6,
        0 <= k < 24,
    ensures
        ({
            let levels = seq![0u8, 95, 135, 175, 215, 255];
            let gray = (8 + 10 * k) as u8;
            &&& blank_drawing().palette.len() == 256
            &&& blank_drawing().color_index == 0
            &&& blank_drawing().palette[16 + 36 * r + 6 * g + b] == (Rgba {
                r: levels[r],
                g: levels[g],
                b: levels[b],
                a: 255,
            })
            &&& blank_drawing().palette[232 + k] == (Rgba { r: gray, g: gray, b: gray, a: 255 })
            &&& blank_drawing().palette[0] == (Rgba { r: 0, g: 0, b: 0, a: 255 })
            &&& blank_drawing().palette[1] == (Rgba { r: 205, g: 0, b: 0, a: 255 })
            &&& blank_drawing().palette[2] == (Rgba { r: 0, g: 205, b: 0, a: 255 })
            &&& blank_drawing().palette[3] == (Rgba { r: 205, g: 205, b: 0, a: 255 })
            &&& blank_drawing().palette[4] == (Rgba { r: 0, g: 0, b: 238, a: 255 })
            &&& blank_drawing().palette[5] == (Rgba { r: 205, g: 0, b: 205, a: 255 })
            &&& blank_drawing().palette[6] == (Rgba { r: 0, g: 205, b: 205, a: 255 })
            &&& blank_drawing().palette[7] == (Rgba { r: 229, g: 229, b: 229, a: 255 })
            &&& blank_drawing().palette[8] == (Rgba { r: 127, g: 127, b: 127, a: 255 })
            &&& blank_drawing().palette[9] == (Rgba { r: 255, g: 0, b: 0, a: 255 })
            &&& blank_drawing().palette[10] == (Rgba { r: 0, g: 255, b: 0, a: 255 })
            &&& blank_drawing().palette[11] == (Rgba { r: 255, g: 255, b: 0, a: 255 })
            &&& blank_drawing().palette[12] == (Rgba { r: 92, g: 92, b: 255, a: 255 })
            &&& blank_drawing().palette[13] == (Rgba { r: 255, g: 0, b: 255, a: 255 })
            &&& blank_drawing().palette[14] == (Rgba { r: 0, g: 255, b: 255, a: 255 })
            &&& blank_drawing().palette[15] == (Rgba { r: 255, g: 255, b: 255, a: 255 })
        }),
{
    let index = 16 + 36 * r + 6 * g + b;
    assert((index - 16) / 36 == r);
    assert(((index - 16) / 6) % 6 == g);
    assert((index - 16) % 6 == b);
}

/// Law: a column behind a command that picks a colour is drawn in this colour, as
/// it was defined last.
pub proof fn law_a_picked_color_is_painted(
    d: Drawing,
    numbers: Seq<nat>,
    column: u8,
    i: int,
    j: int,
)
    requires
        d.wf(),
        1 <= numbers.len() < 5,
        are_small(numbers),
        0x3f < column <= 0x7e,
        d.x < d.width,
        d.y + 6 <= d.height,
        i == d.x,
        d.y <= j < d.y + 6,
        ((column - 0x3f) / bit_value(j - d.y)) % 2 == 1,
    ensures
        ({
            let index = if numbers[0] < 255 {
                numbers[0] as int
            } else {
                255
            };
            d.after_payload(1, color_command(numbers) + seq![column]).rows[j][i] == d.palette[index]
        }),
{
    let rest = seq![column];
    law_color_commands(d, 1, numbers, rest);
    let index = if numbers[0] < 255 {
        numbers[0] as int
    } else {
        255
    };
    law_columns_draw_their_bits(Drawing { color_index: index, ..d }, column, i, j);
}

/// Law: the canvas makes room for what is drawn, far beyond the size of a screen.
pub proof fn law_the_canvas_makes_room(d: Drawing, min_width: int, min_height: int)
    requires
        d.wf(),
        d.width <= 2048,
        d.height <= 2048,
        0 <= min_width <= 4096,
        0 <= min_height <= 4096,
        d.declared_width matches Some(w) ==> w <= 4096,
        d.declared_height matches Some(h) ==> h <= 4096,
    ensures
        d.with_room(min_width, min_height).width >= min_width,
        d.with_room(min_width, min_height).height >= min_height,
{
    let width = grown_dimension(d.width, min_width, d.declared_width);
    let height = grown_dimension(d.height, min_height, d.declared_height);
    assert(width * height <= 4096 * 4096) by (nonlinear_arith)
        requires
            0 <= width <= 4096,
            0 <= height <= 4096,
    ;
}

proof fn lemma_escaping_parts(a: Seq<u8>, b: Seq<u8>)
    ensures
        escape_tmux(a + b) == escape_tmux(a) + escape_tmux(b),
    decreases a.len(),
{
    if a.len() == 0 {
        assert(a + b =~= b);
        assert(escape_tmux(a) + escape_tmux(b) =~= escape_tmux(b));
    } else {
        lemma_escaping_parts(a.skip(1), b);
        assert((a + b).skip(1) =~= a.skip(1) + b);
        assert(escape_tmux(a + b) =~= escape_tmux(a) + escape_tmux(b));
    }
}

proof fn lemma_nothing_to_escape(text: Seq<u8>)
    requires
        forall|i: int| 0 <= i < text.len() ==> #[trigger] text[i] != 0x1b,
    ensures
        escape_tmux(text) == text,
    decreases text.len(),
{
    if text.len() > 0 {
        assert(text[0] != 0x1b);
        lemma_nothing_to_escape(text.skip(1));
        assert(escape_tmux(text) =~= text);
    } else {
        assert(escape_tmux(text) =~= text);
    }
}

/// Law: behind the letter t, which opened it, a passthrough of tmux starts with
/// the rest of its name and a semicolon; in what follows every escape is doubled.
/// Without this start there is no picture in it.
pub proof fn law_passthroughs_name_tmux(payload: Seq<u8>, other: Seq<u8>)
    requires
        forall|i: int| 0 <= i < payload.len() ==> #[trigger] payload[i] != 0x1b,
    ensures
        tmux_sixel_payload(
            seq![0x6du8, 0x75, 0x78, 0x3b, 0x1b, 0x1b, 0x50, 0x71] + payload + seq![
                0x1bu8,
                0x1b,
                0x5c,
            ],
        ) == Some(payload),
        other.len() < 4 || other[0] != 0x6d || other[1] != 0x75 || other[2] != 0x78 || other[3]
            != 0x3b ==> tmux_sixel_payload(other) is None,
{
    let head = seq![0x1bu8, 0x50, 0x71];
    let tail = seq![0x1bu8, 0x5c];
    lemma_escaping_parts(head + payload, tail);
    lemma_escaping_parts(head, payload);
    lemma_nothing_to_escape(payload);
    lemma_nothing_to_escape(seq![0x50u8, 0x71]);
    lemma_nothing_to_escape(seq![0x5cu8]);
    assert(head.skip(1) =~= seq![0x50u8, 0x71]);
    assert(tail.skip(1) =~= seq![0x5cu8]);
    assert(escape_tmux(head) =~= seq![0x1bu8, 0x1b, 0x50, 0x71]);
    assert(escape_tmux(tail) =~= seq![0x1bu8, 0x1b, 0x5c]);
    assert(sixel_frame(payload) =~= head + payload + tail);
    assert(!payload.contains(ESC));
    law_tmux_wrapping_keeps_the_picture(payload);
    assert(tmux_prefix() + escape_tmux(sixel_frame(payload)) =~= seq![
        0x6du8,
        0x75,
        0x78,
        0x3b,
        0x1b,
        0x1b,
        0x50,
        0x71,
    ] + payload + seq![0x1bu8, 0x1b, 0x5c]);
    if tmux_prefix().is_prefix_of(other) {
        let start = tmux_prefix();
        assert(start.len() == 4);
        assert(other.len() >= 4);
        assert(other[0] == start[0] && other[1] == start[1] && other[2] == start[2] && other[3]
            == start[3]);
    }
}

/// Law: a pixel that was drawn is shown, and nothing is seen of one that was not.
pub proof fn law_undrawn_pixels_are_transparent(row: Seq<Rgba>, i: int)
    requires
        0 <= i,
    ensures
        i < row.len() ==> pixel_at(row, i) == row[i],
        i >= row.len() ==> pixel_bytes(pixel_at(row, i)) == seq![0u8, 0, 0, 0],
        pixel_bytes(transparent()) == seq![0u8, 0, 0, 0],
{
}

/// Law: hues go round, once in 360 degrees; a saturation and a lightness end at
/// 100 percent; and without light every colour is black.
pub proof fn law_hues_go_round(hue: int, lightness: int, saturation: int)
    requires
        0 <= hue,
        0 <= lightness,
        0 <= saturation,
    ensures
        hls_color(hue + 360, lightness, saturation) == hls_color(hue, lightness, saturation),
        lightness >= 100 ==> hls_color(hue, lightness, saturation) == hls_color(
            hue,
            100,
            saturation,
        ),
        saturation >= 100 ==> hls_color(hue, lightness, saturation) == hls_color(
            hue,
            lightness,
            100,
        ),
        hls_color(hue, 0, saturation) == (Rgba { r: 0, g: 0, b: 0, a: 255 }),
{
    assert((hue + 360) % 360 == hue % 360);
    assert(0 * ONE / 100 == 0);
    assert(single(0) == 0) by {
        lemma_single(0, 0);
    }
    assert(quotient(0, 100) == 0) by {
        crate::sixel::single::lemma_nearest(0);
    }
    let s = quotient(capped(saturation, 100), 100);
    let h = quotient(hue % 360, 360);
    lemma_nothing_times(single(ONE + s));
    assert(hls_high(0, s) == 0);
    assert(hls_low(0, s) == 0);
    lemma_level_of_nothing(single(h + quotient(1, 3)));
    lemma_level_of_nothing(h);
    lemma_level_of_nothing(single(h - quotient(1, 3)));
    assert(level_byte(0) == 0) by {
        assert((2 * single(0) + ONE) / (2 * ONE) == 0);
    }
}

proof fn lemma_nothing_times(b: int)
    ensures
        product(0, b) == 0,
{
    assert(0 * b == 0);
    crate::sixel::single::lemma_nearest(0);
    assert(0int / ONE as int == 0);
}

proof fn lemma_level_of_nothing(part: int)
    ensures
        hue_level(0, 0, part) == 0,
{
    lemma_single(0, 0);
    assert(single(0) == 0);
    let t = if part < 0 {
        single(part + ONE)
    } else if part > ONE {
        single(part - ONE)
    } else {
        part
    };
    lemma_nothing_times(t);
    lemma_nothing_times(single(quotient(2, 3) - t));
}

/// Law: over a third of the colour circle a channel is full, and over another
/// third it is empty.
pub proof fn law_channels_over_the_circle(low: int, high: int, part: int)
    requires
        0 <= part <= ONE,
    ensures
        quotient(1, 6) <= part < ONE / 2 ==> hue_level(low, high, part) == high,
        quotient(2, 3) <= part ==> hue_level(low, high, part) == low,
{
    assert(quotient(1, 6) <= ONE / 2) by {
        lemma_quotient(1, 6);
    }
    assert(quotient(2, 3) >= ONE / 2) by {
        lemma_quotient(2, 3);
    }
}

/// Law: a drawing starts empty in the upper left corner, with no size and no
/// picture; the picture that comes of a drawing stands where it was started and
/// has its size, and none comes of a drawing without a picture.
pub proof fn law_pictures_stand_where_they_started(
    image: Option<SixelImage>,
    drawing: Drawing,
    row: usize,
    col: usize,
)
    requires
        is_image_of(image, drawing, row, col),
    ensures
        image is Some <==> drawing.has_picture(),
        image is Some ==> (image->0).row == row && (image->0).col == col,
        image is Some ==> (image->0).width == drawing.picture_width() && (image->0).height
            == drawing.picture_height(),
        image is Some ==> (image->0).rgba@ == picture_bytes(
            drawing.rows,
            drawing.picture_width() as nat,
            drawing.picture_height() as nat,
        ),
        blank_drawing().x == 0 && blank_drawing().y == 0,
        blank_drawing().rows.len() == 0,
        !blank_drawing().has_picture(),
        drawing_of(Seq::empty()) == blank_drawing(),
{
}

/// Law: a repeat without a number is no repeat: what follows is drawn once.
pub proof fn law_repeats_without_a_number(d: Drawing, repeat: nat, rest: Seq<u8>)
    requires
        rest.len() > 0 ==> !(0x30 <= rest[0] <= 0x39),
    ensures
        d.after_payload(repeat, seq![0x21u8] + rest) == d.after_payload(1, rest),
{
    let bytes = seq![0x21u8] + rest;
    assert(bytes.skip(1) =~= rest);
    assert(digit_count(rest) == 0);
    assert(rest.take(0) =~= Seq::<u8>::empty());
    assert(rest.skip(0) =~= rest);
    assert(number_of(Seq::<u8>::empty()) is None);
}

} // verus!
