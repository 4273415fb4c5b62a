//! A colour of four 8-bit channels, the kind of small aggregate that a
//! callee takes by value and that a hex literal spells.

use vstd::prelude::*;

verus! {

/// Red, green, blue and alpha, one byte each and in this order in memory.
#[derive(Clone, Copy, Debug, PartialEq, Eq, Structural)]
pub struct Color {
    r: u8,
    g: u8,
    b: u8,
    a: u8,
}

impl Color {
    /// The channels as red, green, blue, alpha.
    pub closed spec fn channels(self) -> (u8, u8, u8, u8) {
        (self.r, self.g, self.b, self.a)
    }

    /// The 32-bit word whose bytes, least significant first, are the
    /// channels.
    pub open spec fn spec_packed(self) -> int {
        self.channels().0 + 0x100 * self.channels().1 + 0x1_0000 * self.channels().2 + 0x100_0000
            * self.channels().3
    }

    pub fn new(r: u8, g: u8, b: u8, a: u8) -> (c: Color)
        ensures
            c.channels() == (r, g, b, a),
    {
        Color { r, g, b, a }
    }

    /// Reads a colour out of the 32-bit word that holds it, red in the
    /// least significant byte.
    pub fn from_packed(word: u32) -> (c: Color)
        ensures
            c.spec_packed() == word,
    {
        let upper: u32 = word / 0x100;
        let top: u32 = upper / 0x100;
        Color {
            r: (word % 0x100) as u8,
            g: (upper % 0x100) as u8,
            b: (top % 0x100) as u8,
            a: (top / 0x100) as u8,
        }
    }

    /// The 32-bit word that holds this colour.
    pub fn packed(self) -> (word: u32)
        ensures
            word == self.spec_packed(),
    {
        let low: u32 = self.r as u32 + 0x100 * (self.g as u32);
        let high: u32 = self.b as u32 + 0x100 * (self.a as u32);
        low + 0x1_0000 * high
    }

    pub fn red(self) -> (v: u8)
        ensures
            v == self.channels().0,
    {
        self.r
    }

    pub fn green(self) -> (v: u8)
        ensures
            v == self.channels().1,
    {
        self.g
    }

    pub fn blue(self) -> (v: u8)
        ensures
            v == self.channels().2,
    {
        self.b
    }

    pub fn alpha(self) -> (v: u8)
        ensures
            v == self.channels().3,
    {
        self.a
    }
}

/// Two colours that pack to one word are one colour.
pub proof fn lemma_packed_is_injective(x: Color, y: Color)
    requires
        x.spec_packed() == y.spec_packed(),
    ensures
        x == y,
{
    let (xr, xg, xb, xa) = x.channels();
    let (yr, yg, yb, ya) = y.channels();
    let x_top = xb + 0x100 * xa;
    let y_top = yb + 0x100 * ya;
    let x_upper = xg + 0x100 * x_top;
    let y_upper = yg + 0x100 * y_top;
    assert(xr + 0x100 * x_upper == yr + 0x100 * y_upper);
    assert(xr == yr && x_upper == y_upper);
    assert(xg == yg && x_top == y_top);
    assert(xb == yb && xa == ya);
}

} // verus!
