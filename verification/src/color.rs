//! Fixed-point RGBA colors, 8 bits per channel.

use vstd::prelude::*;
use vstd::arithmetic::div_mod::lemma_fundamental_div_mod_converse;

verus! {

/// An RGBA color with 8-bit channels. Equality is component-wise.
#[derive(Copy, Clone, PartialEq, Eq, Debug, Structural)]
pub struct Color {
    pub r: u8,
    pub g: u8,
    pub b: u8,
    pub a: u8,
}

impl Color {
    /// The four channels as one 32-bit word, red in the lowest byte and
    /// alpha in the highest.
    pub open spec fn packed(self) -> int {
        self.r + 0x100 * self.g + 0x1_0000 * self.b + 0x100_0000 * self.a
    }

    pub fn new(r: u8, g: u8, b: u8, a: u8) -> (c: Color)
        ensures
            c == (Color { r, g, b, a }),
    {
        Color { r, g, b, a }
    }

    pub fn red() -> (c: Color)
        ensures
            c == (Color { r: 255, g: 0, b: 0, a: 255 }),
    {
        Color::new(255, 0, 0, 255)
    }

    pub fn green() -> (c: Color)
        ensures
            c == (Color { r: 0, g: 255, b: 0, a: 255 }),
    {
        Color::new(0, 255, 0, 255)
    }

    pub fn blue() -> (c: Color)
        ensures
            c == (Color { r: 0, g: 0, b: 255, a: 255 }),
    {
        Color::new(0, 0, 255, 255)
    }

    pub fn white() -> (c: Color)
        ensures
            c == (Color { r: 255, g: 255, b: 255, a: 255 }),
    {
        Color::new(255, 255, 255, 255)
    }

    pub fn black() -> (c: Color)
        ensures
            c == (Color { r: 0, g: 0, b: 0, a: 255 }),
    {
        Color::new(0, 0, 0, 255)
    }

    pub fn transparent() -> (c: Color)
        ensures
            c == (Color { r: 0, g: 0, b: 0, a: 0 }),
    {
        Color::new(0, 0, 0, 0)
    }

    /// Packs the color into a 32-bit word.
    pub fn to_u32(self) -> (w: u32)
        ensures
            w == self.packed(),
    {
        let r: u32 = self.r as u32;
        let g: u32 = self.g as u32;
        let b: u32 = self.b as u32;
        let a: u32 = self.a as u32;
        r + 0x100 * g + 0x1_0000 * b + 0x100_0000 * a
    }
}

/// Channel `k` of a color in storage order: 0 is red, 1 green, 2 blue and
/// 3 alpha.
pub open spec fn channel(c: Color, k: int) -> u8 {
    if k == 0 {
        c.r
    } else if k == 1 {
        c.g
    } else if k == 2 {
        c.b
    } else {
        c.a
    }
}

/// A pixel grid as bytes: four bytes per pixel, in RGBA order.
pub open spec fn bytes_of(colors: Seq<Color>) -> Seq<u8> {
    Seq::new(4 * colors.len(), |i: int| channel(colors[i / 4], i % 4))
}

/// A pixel grid as packed 32-bit words, one word per pixel.
pub open spec fn words_of(colors: Seq<Color>) -> Seq<u32> {
    Seq::new(colors.len(), |i: int| colors[i].packed() as u32)
}

/// Copies a pixel grid into a byte buffer, four bytes per pixel.
pub fn pack_bytes(colors: &Vec<Color>) -> (bytes: Vec<u8>)
    ensures
        bytes@ == bytes_of(colors@),
{
    let mut bytes: Vec<u8> = Vec::new();
    let mut i: usize = 0;
    while i < colors.len()
        invariant
            i <= colors.len(),
            bytes@.len() == 4 * i,
            forall|j: int| 0 <= j < 4 * i ==> bytes@[j] == channel(colors@[j / 4], j % 4),
        decreases colors.len() - i,
    {
        let c: Color = colors[i];
        bytes.push(c.r);
        bytes.push(c.g);
        bytes.push(c.b);
        bytes.push(c.a);
        i += 1;
    }
    assert(bytes@ =~= bytes_of(colors@));
    bytes
}

/// Copies a pixel grid into packed 32-bit words.
pub fn pack_words(colors: &Vec<Color>) -> (words: Vec<u32>)
    ensures
        words@ == words_of(colors@),
{
    let mut words: Vec<u32> = Vec::new();
    let mut i: usize = 0;
    while i < colors.len()
        invariant
            i <= colors.len(),
            words@.len() == i,
            forall|j: int| 0 <= j < i ==> words@[j] == colors@[j].packed(),
        decreases colors.len() - i,
    {
        words.push(colors[i].to_u32());
        i += 1;
    }
    assert(words@ =~= words_of(colors@));
    words
}

/// A packed pixel with its red and blue bytes exchanged: the lowest and
/// the third byte change places, the second and the highest stay.
pub open spec fn swap_red_blue(word: u32) -> int {
    let red = word % 0x100;
    let green = (word / 0x100) % 0x100;
    let blue = (word / 0x1_0000) % 0x100;
    let alpha = word / 0x100_0000;
    blue + 0x100 * green + 0x1_0000 * red + 0x100_0000 * alpha
}

/// Exchanging red and blue in a packed color packs the color with its red
/// and blue channels exchanged.
pub proof fn lemma_swap_red_blue_of_packed(c: Color)
    ensures
        swap_red_blue(c.packed() as u32) == (Color { r: c.b, g: c.g, b: c.r, a: c.a }).packed(),
{
    let word = c.packed();
    let upper = c.b + 0x100 * c.a;
    let middle = c.g + 0x100 * upper;
    lemma_fundamental_div_mod_converse(word, 0x100, middle, c.r as int);
    lemma_fundamental_div_mod_converse(middle, 0x100, upper, c.g as int);
    lemma_fundamental_div_mod_converse(upper, 0x100, c.a as int, c.b as int);
    lemma_fundamental_div_mod_converse(word, 0x1_0000, upper, c.r + 0x100 * c.g);
    lemma_fundamental_div_mod_converse(word, 0x100_0000, c.a as int, c.r + 0x100 * c.g + 0x1_0000 * c.b);
}

/// Converts packed RGBA pixels to packed BGRA pixels. The first
/// `src.len()` words of `dst` are overwritten; the rest is left alone.
pub fn rgba_to_bgra(dst: &mut Vec<u32>, src: &Vec<u32>)
    requires
        old(dst).len() >= src.len(),
    ensures
        final(dst).len() == old(dst).len(),
        forall|i: int| 0 <= i < src.len() ==> final(dst)@[i] == swap_red_blue(src@[i]),
        forall|i: int| src.len() <= i < old(dst).len() ==> final(dst)@[i] == old(dst)@[i],
{
    let mut i: usize = 0;
    while i < src.len()
        invariant
            i <= src.len(),
            dst.len() == old(dst).len(),
            dst.len() >= src.len(),
            forall|j: int| 0 <= j < i ==> dst@[j] == swap_red_blue(src@[j]),
            forall|j: int| src.len() <= j < dst.len() ==> dst@[j] == old(dst)@[j],
        decreases src.len() - i,
    {
        let word: u32 = src[i];
        let red: u32 = word % 0x100;
        let green: u32 = (word / 0x100) % 0x100;
        let blue: u32 = (word / 0x1_0000) % 0x100;
        let alpha: u32 = word / 0x100_0000;
        dst[i] = blue + 0x100 * green + 0x1_0000 * red + 0x100_0000 * alpha;
        i += 1;
    }
}

impl Default for Color {
    fn default() -> (c: Color)
        ensures
            c == (Color { r: 0, g: 0, b: 0, a: 0 }),
    {
        Color { r: 0, g: 0, b: 0, a: 0 }
    }
}

} // verus!
