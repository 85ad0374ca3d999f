//! 24-bit RGB colours and their channel-wise mean.

use vstd::prelude::*;

verus! {

/// An RGB colour: red, green and blue, one byte each.
#[derive(Clone, Copy, Debug, PartialEq, Eq, Structural)]
pub struct Color(pub u8, pub u8, pub u8);

/// One channel of a colour: 0 is red, 1 is green, anything else is blue.
pub open spec fn channel(c: Color, k: int) -> u8 {
    if k == 0 {
        c.0
    } else if k == 1 {
        c.1
    } else {
        c.2
    }
}

/// The sum of one channel over a sequence of colours.
pub open spec fn channel_sum(s: Seq<Color>, k: int) -> nat
    decreases s.len(),
{
    if s.len() == 0 {
        0
    } else {
        channel_sum(s.drop_last(), k) + channel(s.last(), k) as nat
    }
}

/// The channel-wise mean of a sequence of colours, each channel rounded
/// towards zero; nothing for the empty sequence.
pub open spec fn mean_color(s: Seq<Color>) -> Option<Color> {
    if s.len() == 0 {
        None
    } else {
        Some(
            Color(
                (channel_sum(s, 0) / s.len()) as u8,
                (channel_sum(s, 1) / s.len()) as u8,
                (channel_sum(s, 2) / s.len()) as u8,
            ),
        )
    }
}

/// The colour that a 24-bit hexadecimal number names; the top byte is ignored.
pub open spec fn color_of_hex(hex: u32) -> Color {
    Color(((hex / 0x10000) % 0x100) as u8, ((hex / 0x100) % 0x100) as u8, (hex % 0x100) as u8)
}

/// A channel sum is at most 255 times the number of colours.
pub proof fn lemma_channel_sum_bound(s: Seq<Color>, k: int)
    ensures
        channel_sum(s, k) <= 255 * s.len(),
    decreases s.len(),
{
    if s.len() > 0 {
        lemma_channel_sum_bound(s.drop_last(), k);
    }
}

/// The mean of a channel is a byte.
pub proof fn lemma_mean_is_byte(sum: nat, len: nat)
    requires
        len > 0,
        sum <= 255 * len,
    ensures
        sum / len <= 255,
{
    assert(sum / len <= 255) by (nonlinear_arith)
        requires
            len > 0,
            sum <= 255 * len,
    ;
}

impl Color {
    /// Builds a colour from a number such as `0xFF8000`.
    pub fn from_hex(hex: u32) -> (c: Color)
        ensures
            c == color_of_hex(hex),
    {
        let r: u32 = (hex >> 16) & 0xFF;
        let g: u32 = (hex >> 8) & 0xFF;
        let b: u32 = hex & 0xFF;
        assert((hex >> 16) & 0xFF == (hex / 0x10000) % 0x100) by (bit_vector);
        assert((hex >> 8) & 0xFF == (hex / 0x100) % 0x100) by (bit_vector);
        assert(hex & 0xFF == hex % 0x100) by (bit_vector);
        Color(r as u8, g as u8, b as u8)
    }

    /// The red channel.
    pub fn r(&self) -> (v: u8)
        ensures
            v == self.0,
    {
        self.0
    }

    /// The green channel.
    pub fn g(&self) -> (v: u8)
        ensures
            v == self.1,
    {
        self.1
    }

    /// The blue channel.
    pub fn b(&self) -> (v: u8)
        ensures
            v == self.2,
    {
        self.2
    }
}

/// Whether two optional colours are the same.
pub fn same_color(a: Option<Color>, b: Option<Color>) -> (r: bool)
    ensures
        r == (a == b),
{
    match (a, b) {
        (None, None) => true,
        (Some(p), Some(q)) => p.0 == q.0 && p.1 == q.1 && p.2 == q.2,
        _ => false,
    }
}

/// The mean of a list of colours, channel by channel.
pub fn mean_of(colors: &Vec<Color>) -> (r: Option<Color>)
    ensures
        r == mean_color(colors@),
{
    let n: usize = colors.len();
    if n == 0 {
        return None;
    }
    let mut sr: u128 = 0;
    let mut sg: u128 = 0;
    let mut sb: u128 = 0;
    let mut i: usize = 0;
    while i < n
        invariant
            n == colors@.len(),
            i <= n,
            sr == channel_sum(colors@.take(i as int), 0),
            sg == channel_sum(colors@.take(i as int), 1),
            sb == channel_sum(colors@.take(i as int), 2),
        decreases n - i,
    {
        proof {
            let t = colors@.take(i + 1);
            assert(t.drop_last() =~= colors@.take(i as int));
            assert(t.last() == colors@[i as int]);
            lemma_channel_sum_bound(t, 0);
            lemma_channel_sum_bound(t, 1);
            lemma_channel_sum_bound(t, 2);
        }
        let c: Color = colors[i];
        sr = sr + c.0 as u128;
        sg = sg + c.1 as u128;
        sb = sb + c.2 as u128;
        i = i + 1;
    }
    proof {
        assert(colors@.take(n as int) =~= colors@);
        lemma_channel_sum_bound(colors@, 0);
        lemma_channel_sum_bound(colors@, 1);
        lemma_channel_sum_bound(colors@, 2);
        lemma_mean_is_byte(sr as nat, n as nat);
        lemma_mean_is_byte(sg as nat, n as nat);
        lemma_mean_is_byte(sb as nat, n as nat);
    }
    let len: u128 = n as u128;
    Some(Color((sr / len) as u8, (sg / len) as u8, (sb / len) as u8))
}

} // verus!
