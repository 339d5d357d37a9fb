//! Packed colors as the daemon expects them: blue, green and red bytes in
//! one `u32`, with an extra bit that switches a key color on.

use vstd::prelude::*;
use vstd::string::*;

verus! {

/// Bit that marks a [`KeyColor`] as enabled.
pub const KEY_COLOR_MASK: u32 = 0x0100_0000;

/// The red byte of a packed color.
pub open spec fn red_of(v: u32) -> u32 {
    v % 256
}

/// The green byte of a packed color.
pub open spec fn green_of(v: u32) -> u32 {
    (v / 256) % 256
}

/// The blue byte of a packed color.
pub open spec fn blue_of(v: u32) -> u32 {
    (v / 65536) % 256
}

/// The upper-case hexadecimal digit of `d`, below sixteen.
pub open spec fn hex_char(d: nat) -> char {
    if d == 0 { '0' } else if d == 1 { '1' } else if d == 2 { '2' } else if d == 3 { '3' }
    else if d == 4 { '4' } else if d == 5 { '5' } else if d == 6 { '6' } else if d == 7 { '7' }
    else if d == 8 { '8' } else if d == 9 { '9' } else if d == 10 { 'A' } else if d == 11 { 'B' }
    else if d == 12 { 'C' } else if d == 13 { 'D' } else if d == 14 { 'E' } else { 'F' }
}

/// The upper-case hexadecimal digits of `v`, most significant first, with
/// no leading zero (`0` for zero).
pub open spec fn hex_digits(v: nat) -> Seq<char>
    decreases v,
{
    if v < 16 {
        seq![hex_char(v)]
    } else {
        hex_digits(v / 16).push(hex_char(v % 16))
    }
}

/// `v` as `{:#06X}` writes it: `0x`, then its digits, padded with zeros to
/// at least four.
pub open spec fn alt_hex6(v: nat) -> Seq<char> {
    let d = hex_digits(v);
    "0x"@ + Seq::new(if d.len() < 4 { (4 - d.len()) as nat } else { 0 }, |i: int| '0') + d
}

/// Relies on std's formatting with `{:#06X}`: the alternate upper-case
/// hexadecimal form, zero-padded to a width of six.
#[verifier::external_body]
fn hex_text(v: u32) -> (s: String)
    ensures
        s@ == alt_hex6(v as nat),
{
    format!("{v:#06X}")
}

/// A color as `0x00BBGGRR`.
#[derive(Clone, Copy, Debug, PartialEq, Eq, Structural, PartialOrd, Ord, Hash)]
pub struct BGRColor(pub u32);

impl BGRColor {
    /// The color whose packed value is `value`.
    pub fn from_u32(value: u32) -> (r: BGRColor)
        ensures
            r.0 == value,
    {
        BGRColor(value)
    }

    /// Packs three channel values as `(b << 16) | (g << 8) | r`; each shift
    /// drops the bits that leave the 32-bit word.
    pub fn from_channels(r: u32, g: u32, b: u32) -> (c: BGRColor)
        ensures
            c.0 == (b << 16u32) | (g << 8u32) | r,
            r < 256 && g < 256 && b < 256 ==> {
                &&& red_of(c.0) == r
                &&& green_of(c.0) == g
                &&& blue_of(c.0) == b
            },
    {
        let c = BGRColor((b << 16u32) | (g << 8u32) | r);
        proof {
            if r < 256 && g < 256 && b < 256 {
                lemma_pack_bytes(r, g, b);
            }
        }
        c
    }

    pub fn as_u32(&self) -> (v: u32)
        ensures
            v == self.0,
    {
        self.0
    }

    /// Debug text: `BGRColor(0x563412)`.
    pub fn debug_text(&self) -> (s: String)
        ensures
            s@ == "BGRColor("@ + alt_hex6(self.0 as nat) + ")"@,
    {
        let hex = hex_text(self.0);
        String::from_str("BGRColor(").concat(hex.as_str()).concat(")")
    }

    /// The blue channel.
    pub fn b(&self) -> (v: u32)
        ensures
            v == blue_of(self.0),
            v < 256,
    {
        proof { lemma_byte_masks(self.0); }
        (self.0 & 0xff0000) >> 16u32
    }

    /// The green channel.
    pub fn g(&self) -> (v: u32)
        ensures
            v == green_of(self.0),
            v < 256,
    {
        proof { lemma_byte_masks(self.0); }
        (self.0 & 0x00ff00) >> 8u32
    }

    /// The red channel.
    pub fn r(&self) -> (v: u32)
        ensures
            v == red_of(self.0),
            v < 256,
    {
        proof { lemma_byte_masks(self.0); }
        self.0 & 0x0000ff
    }
}

impl Default for BGRColor {
    fn default() -> (c: BGRColor)
        ensures
            c.0 == 0,
    {
        BGRColor(0)
    }
}

/// The masks and shifts that pick a byte compute the byte's arithmetic value.
pub proof fn lemma_byte_masks(v: u32)
    ensures
        v & 0x0000ff == red_of(v),
        (v & 0x00ff00) >> 8u32 == green_of(v),
        (v & 0xff0000) >> 16u32 == blue_of(v),
        red_of(v) < 256,
        green_of(v) < 256,
        blue_of(v) < 256,
{
    assert(v & 0x0000ff == v % 256) by (bit_vector);
    assert((v & 0x00ff00) >> 8u32 == (v / 256) % 256) by (bit_vector);
    assert((v & 0xff0000) >> 16u32 == (v / 65536) % 256) by (bit_vector);
}

proof fn lemma_pack_bytes(r: u32, g: u32, b: u32)
    requires
        r < 256,
        g < 256,
        b < 256,
    ensures
        red_of((b << 16u32) | (g << 8u32) | r) == r,
        green_of((b << 16u32) | (g << 8u32) | r) == g,
        blue_of((b << 16u32) | (g << 8u32) | r) == b,
{
    let v = (b << 16u32) | (g << 8u32) | r;
    lemma_byte_masks(v);
    assert(v & 0x0000ff == r) by (bit_vector)
        requires
            v == (b << 16u32) | (g << 8u32) | r,
            r < 256,
            g < 256,
            b < 256,
    ;
    assert((v & 0x00ff00) >> 8u32 == g) by (bit_vector)
        requires
            v == (b << 16u32) | (g << 8u32) | r,
            r < 256,
            g < 256,
            b < 256,
    ;
    assert((v & 0xff0000) >> 16u32 == b) by (bit_vector)
        requires
            v == (b << 16u32) | (g << 8u32) | r,
            r < 256,
            g < 256,
            b < 256,
    ;
}

/// A key color as `0x0EBBGGRR`, where `E` is the enabled bit.
#[derive(Clone, Copy, Debug, PartialEq, Eq, Structural, PartialOrd, Ord, Hash)]
pub struct KeyColor(pub u32);

impl KeyColor {
    pub open spec fn enabled(self) -> bool {
        (self.0 / 0x0100_0000) % 2 == 1
    }

    pub fn as_u32(&self) -> (v: u32)
        ensures
            v == self.0,
    {
        self.0
    }

    /// Debug text: the color without the enabled bit, then that bit, as in
    /// `KeyColor(0x563412|1)`.
    pub fn debug_text(&self) -> (s: String)
        ensures
            s@ == "KeyColor("@ + alt_hex6((self.0 & !KEY_COLOR_MASK) as nat) + "|"@ + (if self.enabled() {
                "1"@
            } else {
                "0"@
            }) + ")"@,
    {
        let hex = hex_text(self.0 & !KEY_COLOR_MASK);
        let bit = if self.is_enabled() {
            "1"
        } else {
            "0"
        };
        String::from_str("KeyColor(").concat(hex.as_str()).concat("|").concat(bit).concat(")")
    }

    /// Whether the key is lit with this color rather than left to the
    /// underlying color grid.
    pub fn is_enabled(&self) -> (e: bool)
        ensures
            e == self.enabled(),
    {
        let v = self.0;
        assert((v & 0x0100_0000 != 0) == ((v / 0x0100_0000) % 2 == 1)) by (bit_vector);
        v & KEY_COLOR_MASK != 0
    }

    /// The blue channel.
    pub fn b(&self) -> (v: u32)
        ensures
            v == blue_of(self.0),
            v < 256,
    {
        proof { lemma_byte_masks(self.0); }
        (self.0 & 0xff0000) >> 16u32
    }

    /// The green channel.
    pub fn g(&self) -> (v: u32)
        ensures
            v == green_of(self.0),
            v < 256,
    {
        proof { lemma_byte_masks(self.0); }
        (self.0 & 0x00ff00) >> 8u32
    }

    /// The red channel.
    pub fn r(&self) -> (v: u32)
        ensures
            v == red_of(self.0),
            v < 256,
    {
        proof { lemma_byte_masks(self.0); }
        self.0 & 0x0000ff
    }
}

impl Default for KeyColor {
    fn default() -> (k: KeyColor)
        ensures
            k.0 == 0,
    {
        KeyColor(0)
    }
}

impl From<BGRColor> for KeyColor {
    /// The same color with the enabled bit set.
    fn from(color: BGRColor) -> (k: KeyColor) {
        KeyColor(KEY_COLOR_MASK | color.as_u32())
    }
}

impl vstd::std_specs::convert::FromSpecImpl<BGRColor> for KeyColor {
    open spec fn obeys_from_spec() -> bool {
        true
    }

    open spec fn from_spec(color: BGRColor) -> KeyColor {
        KeyColor(KEY_COLOR_MASK | color.0)
    }
}

impl From<Option<BGRColor>> for KeyColor {
    /// An enabled key of the given color, or a disabled key for `None`.
    fn from(maybe_color: Option<BGRColor>) -> (k: KeyColor) {
        match maybe_color {
            Some(color) => KeyColor::from(color),
            None => KeyColor(0),
        }
    }
}

impl vstd::std_specs::convert::FromSpecImpl<Option<BGRColor>> for KeyColor {
    open spec fn obeys_from_spec() -> bool {
        true
    }

    open spec fn from_spec(maybe_color: Option<BGRColor>) -> KeyColor {
        match maybe_color {
            Some(color) => KeyColor(KEY_COLOR_MASK | color.0),
            None => KeyColor(0),
        }
    }
}

} // verus!
