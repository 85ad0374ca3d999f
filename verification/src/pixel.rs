//! One character cell: its content, its accumulated colours and its text.

use vstd::prelude::*;
use crate::color::{mean_color, mean_of, same_color, Color};

verus! {

/// What a cell shows.
#[derive(Clone, Copy, Debug, PartialEq, Eq)]
pub enum Content {
    /// Nothing: rendered as a space.
    Empty,
    /// A set of dots, one bit each, rendered as a Braille pattern.
    Line(u8),
    /// A single character that replaces the dots.
    Char(char),
}

/// One cell of the canvas.
#[derive(Clone, Debug, PartialEq, Eq)]
pub struct Pixel {
    content: Content,
    colors: Vec<Color>,
}

/// The mathematical value of a cell.
pub struct PixelView {
    pub content: Content,
    pub colors: Seq<Color>,
}

/// The character that stands for a decimal digit.
pub open spec fn digit_char(d: int) -> char {
    if d == 0 {
        '0'
    } else if d == 1 {
        '1'
    } else if d == 2 {
        '2'
    } else if d == 3 {
        '3'
    } else if d == 4 {
        '4'
    } else if d == 5 {
        '5'
    } else if d == 6 {
        '6'
    } else if d == 7 {
        '7'
    } else if d == 8 {
        '8'
    } else {
        '9'
    }
}

/// A byte in decimal, without leading zeros.
pub open spec fn decimal(n: u8) -> Seq<char> {
    if n >= 100 {
        seq![digit_char(n as int / 100), digit_char((n as int / 10) % 10), digit_char(n as int % 10)]
    } else if n >= 10 {
        seq![digit_char(n as int / 10), digit_char(n as int % 10)]
    } else {
        seq![digit_char(n as int)]
    }
}

/// The escape sequence that switches the foreground to a colour.
pub open spec fn color_escape(c: Color) -> Seq<char> {
    seq!['\x1B', '[', '3', '8', ';', '2', ';'] + decimal(c.0) + seq![';'] + decimal(c.1) + seq![
        ';',
    ] + decimal(c.2) + seq!['m']
}

/// The escape sequence that switches back to the terminal's own colour.
pub open spec fn reset_escape() -> Seq<char> {
    seq!['\x1B', '[', '0', 'm']
}

/// An optional colour escape, an optional character and an optional reset,
/// in that order.
pub open spec fn colorized(color: Option<Color>, c: Option<char>, append_end: bool) -> Seq<char> {
    (match color {
        Some(col) => color_escape(col),
        None => Seq::empty(),
    }) + (match c {
        Some(ch) => seq![ch],
        None => Seq::empty(),
    }) + (if append_end {
        reset_escape()
    } else {
        Seq::empty()
    })
}

/// The code point of the Braille pattern whose dots are the bits of `d`.
pub open spec fn braille_code(d: u8) -> u32 {
    (0x2800 + d) as u32
}

/// The Braille pattern whose dots are the bits of `d`.
pub open spec fn braille_glyph(d: u8) -> char {
    braille_code(d) as char
}

impl PixelView {
    /// The cell that a coordinate holds before anything is drawn there.
    pub open spec fn empty() -> PixelView {
        PixelView { content: Content::Empty, colors: Seq::empty() }
    }

    /// The effective colour: the mean of the accumulated colours.
    pub open spec fn color(self) -> Option<Color> {
        mean_color(self.colors)
    }

    /// Replaces the accumulated colours by at most one.
    pub open spec fn set_color(self, color: Option<Color>) -> PixelView {
        PixelView {
            colors: match color {
                Some(c) => seq![c],
                None => Seq::empty(),
            },
            ..self
        }
    }

    /// Accumulates one more colour, if there is one.
    pub open spec fn add_color(self, color: Option<Color>) -> PixelView {
        PixelView {
            colors: match color {
                Some(c) => self.colors.push(c),
                None => self.colors,
            },
            ..self
        }
    }

    /// Makes the cell show a character.
    pub open spec fn set_char(self, c: char) -> PixelView {
        PixelView { content: Content::Char(c), ..self }
    }

    /// Empties a cell that shows a character, colours included.
    pub open spec fn unset_char(self) -> PixelView {
        if self.content is Char {
            PixelView::empty()
        } else {
            self
        }
    }

    /// The dots of the cell: none unless it holds dots.
    pub open spec fn dots(self) -> u8 {
        match self.content {
            Content::Line(d) => d,
            _ => 0u8,
        }
    }

    /// Adds the dots of `mask`; a character or an empty cell gives way.
    pub open spec fn set_line(self, mask: u8) -> PixelView {
        PixelView { content: Content::Line(self.dots() | mask), ..self }
    }

    /// Removes the dots of `mask` from a cell of dots.
    pub open spec fn unset_line(self, mask: u8) -> PixelView {
        match self.content {
            Content::Line(d) => PixelView { content: Content::Line(d & !mask), ..self },
            _ => self,
        }
    }

    /// Flips the dots of `mask` in a cell of dots.
    pub open spec fn toggle_line(self, mask: u8) -> PixelView {
        match self.content {
            Content::Line(d) => PixelView { content: Content::Line(d ^ mask), ..self },
            _ => self,
        }
    }

    /// Whether a cell of dots has one of the dots of `mask`.
    pub open spec fn get_line(self, mask: u8) -> bool {
        match self.content {
            Content::Line(d) => d & mask != 0,
            _ => false,
        }
    }

    /// The character that the cell shows.
    pub open spec fn glyph(self) -> char {
        match self.content {
            Content::Empty => ' ',
            Content::Char(c) => c,
            Content::Line(d) => braille_glyph(d),
        }
    }

    /// The text of the cell when the cell before it left `prev` active: a
    /// reset if a colour was active and this cell's differs, this cell's
    /// colour escape if it differs, and the glyph.
    pub open spec fn text_after(self, prev: Option<Color>) -> Seq<char> {
        if prev == self.color() {
            seq![self.glyph()]
        } else {
            colorized(None, None, prev is Some) + colorized(self.color(), Some(self.glyph()), false)
        }
    }
}

impl View for Pixel {
    type V = PixelView;

    closed spec fn view(&self) -> PixelView {
        PixelView { content: self.content, colors: self.colors@ }
    }
}

/// `String::push`: the string grows by the one character, at its end.
#[verifier::external_body]
pub(crate) fn push_char(s: &mut String, c: char)
    ensures
        final(s)@ == old(s)@.push(c),
{
    s.push(c);
}

/// `char::from_u32`: the character with the given code point, where the
/// number is one; none where it is a surrogate or lies above `0x10FFFF`.
#[verifier::external_body]
fn char_of_code(code: u32) -> (r: Option<char>)
    ensures
        match r {
            Some(c) => c as u32 == code,
            None => 0xD800 <= code <= 0xDFFF || code > 0x10FFFF,
        },
{
    char::from_u32(code)
}

fn digit(d: u8) -> (c: char)
    requires
        d < 10,
    ensures
        c == digit_char(d as int),
{
    match d {
        0 => '0',
        1 => '1',
        2 => '2',
        3 => '3',
        4 => '4',
        5 => '5',
        6 => '6',
        7 => '7',
        8 => '8',
        _ => '9',
    }
}

fn push_decimal(s: &mut String, n: u8)
    ensures
        final(s)@ == old(s)@ + decimal(n),
{
    if n >= 100 {
        push_char(s, digit(n / 100));
    }
    if n >= 10 {
        push_char(s, digit((n / 10) % 10));
    }
    push_char(s, digit(n % 10));
    assert(s@ =~= old(s)@ + decimal(n));
}

fn push_color_escape(s: &mut String, c: Color)
    ensures
        final(s)@ == old(s)@ + color_escape(c),
{
    push_char(s, '\x1B');
    push_char(s, '[');
    push_char(s, '3');
    push_char(s, '8');
    push_char(s, ';');
    push_char(s, '2');
    push_char(s, ';');
    push_decimal(s, c.r());
    push_char(s, ';');
    push_decimal(s, c.g());
    push_char(s, ';');
    push_decimal(s, c.b());
    push_char(s, 'm');
    assert(s@ =~= old(s)@ + color_escape(c));
}

/// Appends to `s` what `colorized` describes.
pub fn push_colorized(s: &mut String, color: Option<Color>, c: Option<char>, append_end: bool)
    ensures
        final(s)@ == old(s)@ + colorized(color, c, append_end),
{
    if let Some(col) = color {
        push_color_escape(s, col);
    }
    if let Some(ch) = c {
        push_char(s, ch);
    }
    if append_end {
        push_char(s, '\x1B');
        push_char(s, '[');
        push_char(s, '0');
        push_char(s, 'm');
    }
    assert(s@ =~= old(s)@ + colorized(color, c, append_end));
}

/// The text for one character in a colour: the colour's escape sequence if
/// there is a colour, the character if there is one, and a reset if
/// `append_end` asks for it.
pub fn colorize_char(color: Option<Color>, c: Option<char>, append_end: bool) -> (s: String)
    ensures
        s@ == colorized(color, c, append_end),
{
    let mut s = String::new();
    push_colorized(&mut s, color, c, append_end);
    assert(s@ =~= colorized(color, c, append_end));
    s
}

/// The Braille pattern for a set of dots.
pub fn braille(d: u8) -> (c: char)
    ensures
        c == braille_glyph(d),
{
    let code: u32 = 0x2800 + d as u32;
    match char_of_code(code) {
        Some(c) => {
            proof {
                vstd::utf8::char_u32_cast(c, code);
            }
            c
        },
        None => ' ',
    }
}

impl Default for Pixel {
    /// An empty cell without colours.
    fn default() -> (p: Pixel)
        ensures
            p@ == PixelView::empty(),
    {
        Pixel { content: Content::Empty, colors: Vec::new() }
    }
}

impl Pixel {
    /// The effective colour of the cell: the channel-wise mean of the colours
    /// accumulated on it, or none if there are none.
    pub fn color(&self) -> (r: Option<Color>)
        ensures
            r == self@.color(),
    {
        mean_of(&self.colors)
    }

    /// Gives the cell the one colour, or none, in place of what it had.
    pub fn set_color(&mut self, color: Option<Color>)
        ensures
            final(self)@ == old(self)@.set_color(color),
    {
        let mut colors: Vec<Color> = Vec::new();
        if let Some(c) = color {
            colors.push(c);
        }
        self.colors = colors;
        assert(self@.colors =~= old(self)@.set_color(color).colors);
    }

    /// Accumulates a colour on the cell; without a colour nothing changes.
    pub fn add_color(&mut self, color: Option<Color>)
        ensures
            final(self)@ == old(self)@.add_color(color),
    {
        if let Some(c) = color {
            self.colors.push(c);
        }
    }

    /// Makes the cell show `c`; its dots are lost, its colours stay.
    pub fn set_char(&mut self, c: char)
        ensures
            final(self)@ == old(self)@.set_char(c),
    {
        self.content = Content::Char(c);
    }

    /// Empties the cell and drops its colours if it shows a character;
    /// leaves any other cell as it is.
    pub fn unset_char(&mut self)
        ensures
            final(self)@ == old(self)@.unset_char(),
    {
        if let Content::Char(_) = self.content {
            self.content = Content::Empty;
            self.colors = Vec::new();
        }
    }

    /// Sets the dots of `new`, keeping the dots that the cell has.
    pub fn set_line(&mut self, new: u8)
        ensures
            final(self)@ == old(self)@.set_line(new),
    {
        let old_dots: u8 = match self.content {
            Content::Line(d) => d,
            _ => 0,
        };
        self.content = Content::Line(old_dots | new);
    }

    /// Clears the dots of `new` if the cell holds dots.
    pub fn unset_line(&mut self, new: u8)
        ensures
            final(self)@ == old(self)@.unset_line(new),
    {
        if let Content::Line(d) = self.content {
            self.content = Content::Line(d & !new);
        }
    }

    /// Flips the dots of `new` if the cell holds dots.
    pub fn toggle_line(&mut self, new: u8)
        ensures
            final(self)@ == old(self)@.toggle_line(new),
    {
        if let Content::Line(d) = self.content {
            self.content = Content::Line(d ^ new);
        }
    }

    /// Whether the cell holds dots and one of the dots of `dot` is among them.
    pub fn get_line(&self, dot: u8) -> (r: bool)
        ensures
            r == self@.get_line(dot),
    {
        match self.content {
            Content::Line(d) => d & dot > 0,
            _ => false,
        }
    }

    /// The text of the cell and its effective colour. `prev_color` is the
    /// colour that the cell before it left active: the text carries an
    /// escape sequence only where this cell's colour differs from it.
    pub fn get_char(&self, prev_color: Option<Color>) -> (r: (String, Option<Color>))
        ensures
            r.0@ == self@.text_after(prev_color),
            r.1 == self@.color(),
    {
        let c: char = match self.content {
            Content::Empty => ' ',
            Content::Char(c) => c,
            Content::Line(d) => braille(d),
        };
        let own_color = self.color();
        let mut s = String::new();
        if same_color(prev_color, own_color) {
            push_colorized(&mut s, None, Some(c), false);
        } else {
            push_colorized(&mut s, None, None, prev_color.is_some());
            push_colorized(&mut s, own_color, Some(c), false);
        }
        assert(s@ =~= self@.text_after(prev_color));
        (s, own_color)
    }
}

} // verus!
