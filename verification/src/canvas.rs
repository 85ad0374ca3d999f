//! The canvas: a sparse grid of cells addressed by dot coordinates.

use vstd::prelude::*;
use vstd::string::{StrSliceExecFns, StringExecFns};
use fnv::FnvHashMap;
use crate::color::{color_of_hex, Color};
use crate::laws::{
    lemma_line_keeps_well_formed, lemma_steps_keep_well_formed, lemma_text_keeps_well_formed,
};
use crate::grid::{cell_at, cell_keys, clear_cells, empty_cells, put_cell, take_cell};
use crate::pixel::{colorized, push_char, push_colorized, Pixel, PixelView};

verus! {

/// The cell that holds the dot `(x, y)`: two dots across and four down make
/// one cell. The cell coordinates are kept to sixteen bits.
pub open spec fn cell_key(x: u32, y: u32) -> (u16, u16) {
    (((x / 2) % 0x10000) as u16, ((y / 4) % 0x10000) as u16)
}

/// The bit of the dot `(x, y)` within its cell, in Braille order.
pub open spec fn dot_mask(x: u32, y: u32) -> u8 {
    if y % 4 == 0 {
        if x % 2 == 0 {
            0x01
        } else {
            0x08
        }
    } else if y % 4 == 1 {
        if x % 2 == 0 {
            0x02
        } else {
            0x10
        }
    } else if y % 4 == 2 {
        if x % 2 == 0 {
            0x04
        } else {
            0x20
        }
    } else {
        if x % 2 == 0 {
            0x40
        } else {
            0x80
        }
    }
}

/// The mathematical value of a canvas.
pub struct CanvasView {
    /// The cells that were touched, by cell coordinates.
    pub cells: Map<(u16, u16), PixelView>,
    /// The least number of the last column that is rendered.
    pub width: u16,
    /// The least number of the last row that is rendered.
    pub height: u16,
    /// The colour given to what is drawn next.
    pub color: Option<Color>,
}

impl CanvasView {
    /// The canvas of `width + 1` by `height + 1` cells on which nothing was
    /// drawn, without a drawing colour.
    pub open spec fn blank(width: u16, height: u16) -> CanvasView {
        CanvasView { cells: Map::empty(), width, height, color: None }
    }

    /// Whether the canvas is well formed: every cell that shows a character
    /// holds at most one colour.
    pub open spec fn wf(self) -> bool {
        forall|k: (u16, u16)| #[trigger]
            self.cells.contains_key(k) && self.cells[k].content is Char ==> self.cells[k].colors.len()
                <= 1
    }

    /// The cell at `key`; an untouched coordinate reads as an empty cell.
    pub open spec fn cell(self, key: (u16, u16)) -> PixelView {
        if self.cells.contains_key(key) {
            self.cells[key]
        } else {
            PixelView::empty()
        }
    }

    /// The canvas with the cell at `key` replaced.
    pub open spec fn with_cell(self, key: (u16, u16), cell: PixelView) -> CanvasView {
        CanvasView { cells: self.cells.insert(key, cell), ..self }
    }

    /// The canvas without any cell.
    pub open spec fn clear(self) -> CanvasView {
        CanvasView { cells: Map::empty(), ..self }
    }

    /// Sets the dot `(x, y)` and accumulates the drawing colour on its cell.
    pub open spec fn set(self, x: u32, y: u32) -> CanvasView {
        let key = cell_key(x, y);
        self.with_cell(key, self.cell(key).set_line(dot_mask(x, y)).add_color(self.color))
    }

    /// The canvas after each of `points` was set, in their order.
    pub open spec fn set_all(self, points: Seq<(u32, u32)>) -> CanvasView
        decreases points.len(),
    {
        if points.len() == 0 {
            self
        } else {
            self.set_all(points.drop_last()).set(points.last().0, points.last().1)
        }
    }

    /// Puts a character on the cell of `(x, y)`, in the drawing colour.
    pub open spec fn set_char(self, x: u32, y: u32, c: char) -> CanvasView {
        let key = cell_key(x, y);
        self.with_cell(key, self.cell(key).set_char(c).set_color(self.color))
    }

    /// Empties the cell of `(x, y)` if it was touched and shows a character.
    pub open spec fn unset_char(self, x: u32, y: u32) -> CanvasView {
        let key = cell_key(x, y);
        if self.cells.contains_key(key) {
            self.with_cell(key, self.cells[key].unset_char())
        } else {
            self
        }
    }

    /// Clears the dot `(x, y)` if its cell was touched.
    pub open spec fn unset(self, x: u32, y: u32) -> CanvasView {
        let key = cell_key(x, y);
        if self.cells.contains_key(key) {
            self.with_cell(key, self.cells[key].unset_line(dot_mask(x, y)))
        } else {
            self
        }
    }

    /// Flips the dot `(x, y)` if its cell was touched.
    pub open spec fn toggle(self, x: u32, y: u32) -> CanvasView {
        let key = cell_key(x, y);
        if self.cells.contains_key(key) {
            self.with_cell(key, self.cells[key].toggle_line(dot_mask(x, y)))
        } else {
            self
        }
    }

    /// Whether the dot `(x, y)` is set.
    pub open spec fn get(self, x: u32, y: u32) -> bool {
        let key = cell_key(x, y);
        self.cells.contains_key(key) && self.cells[key].get_line(dot_mask(x, y))
    }

    /// How many characters of a text of `len` characters are placed within
    /// `max_width`: the character at offset `2 * i` is placed as long as
    /// the offset does not exceed `max_width`.
    pub open spec fn placed(max_width: u32, len: nat) -> nat {
        if len <= max_width / 2 + 1 {
            len
        } else {
            (max_width / 2 + 1) as nat
        }
    }

    /// Whether the last character that is placed, of a text of `len`
    /// characters written from column `x`, has a column that a `u32` holds.
    pub open spec fn text_fits(x: u32, max_width: u32, len: nat) -> bool {
        Self::placed(max_width, len) > 0 ==> x + 2 * (Self::placed(max_width, len) - 1) <= u32::MAX
    }

    /// The canvas after the first `n` characters of `chars` were put down
    /// from `(x, y)` rightwards, one cell apart.
    pub open spec fn text_n(self, x: u32, y: u32, chars: Seq<char>, n: nat) -> CanvasView
        decreases n,
    {
        if n == 0 {
            self
        } else {
            self.text_n(x, y, chars, (n - 1) as nat).set_char(
                (x + 2 * (n - 1)) as u32,
                y,
                chars[n - 1],
            )
        }
    }

    /// The canvas after a text was written at `(x, y)` within `max_width`.
    pub open spec fn text(self, x: u32, y: u32, max_width: u32, chars: Seq<char>) -> CanvasView {
        self.text_n(x, y, chars, Self::placed(max_width, chars.len()))
    }

    /// The canvas after the first `n` points of the line from `(x1, y1)` to
    /// `(x2, y2)` were set.
    pub open spec fn line_n(self, x1: u32, y1: u32, x2: u32, y2: u32, n: nat) -> CanvasView
        decreases n,
    {
        if n == 0 {
            self
        } else {
            let steps = line_steps(x1, y1, x2, y2);
            self.line_n(x1, y1, x2, y2, (n - 1) as nat).set(
                line_coord(x1, x2, n - 1, steps),
                line_coord(y1, y2, n - 1, steps),
            )
        }
    }

    /// The canvas after the line from `(x1, y1)` to `(x2, y2)` was drawn:
    /// one point for each step, both ends included.
    pub open spec fn line(self, x1: u32, y1: u32, x2: u32, y2: u32) -> CanvasView {
        self.line_n(x1, y1, x2, y2, (line_steps(x1, y1, x2, y2) + 1) as nat)
    }

    /// Whether column `m` is at least the nominal width and reaches every
    /// touched cell.
    pub open spec fn covers_columns(self, m: int) -> bool {
        m >= self.width && forall|k: (u16, u16)| #[trigger] self.cells.contains_key(k) ==> k.0 <= m
    }

    /// Whether row `m` is at least the nominal height and reaches every
    /// touched cell.
    pub open spec fn covers_rows(self, m: int) -> bool {
        m >= self.height && forall|k: (u16, u16)| #[trigger] self.cells.contains_key(k) ==> k.1 <= m
    }

    /// The last column that is rendered: the least that covers the canvas.
    pub open spec fn last_column(self) -> int {
        choose|m: int| self.is_last_column(m)
    }

    /// Whether `m` is the least column that covers the canvas.
    pub open spec fn is_last_column(self, m: int) -> bool {
        self.covers_columns(m) && forall|n: int| #[trigger] self.covers_columns(n) ==> m <= n
    }

    /// The last row that is rendered: the least that covers the canvas.
    pub open spec fn last_row(self) -> int {
        choose|m: int| self.is_last_row(m)
    }

    /// Whether `m` is the least row that covers the canvas.
    pub open spec fn is_last_row(self, m: int) -> bool {
        self.covers_rows(m) && forall|n: int| #[trigger] self.covers_rows(n) ==> m <= n
    }

    /// The colour that is active after the first `n` cells of row `y`.
    pub open spec fn row_color(self, y: int, n: int) -> Option<Color> {
        if n <= 0 {
            None
        } else {
            self.cell(((n - 1) as u16, y as u16)).color()
        }
    }

    /// The text of the first `n` cells of row `y`.
    pub open spec fn row_cells(self, y: int, n: int) -> Seq<char>
        decreases n,
    {
        if n <= 0 {
            Seq::empty()
        } else {
            self.row_cells(y, n - 1) + self.cell(((n - 1) as u16, y as u16)).text_after(
                self.row_color(y, n - 1),
            )
        }
    }

    /// The text of row `y`: its cells up to the last column, and a reset if
    /// a colour is still active at the end.
    pub open spec fn row(self, y: int) -> Seq<char> {
        let n = self.last_column() + 1;
        self.row_cells(y, n) + colorized(None, None, self.row_color(y, n) is Some)
    }

    /// The first `n` rows, with a line feed between each two.
    pub open spec fn joined_rows(self, n: int) -> Seq<char>
        decreases n,
    {
        if n <= 0 {
            Seq::empty()
        } else if n == 1 {
            self.row(0)
        } else {
            self.joined_rows(n - 1) + seq!['\n'] + self.row(n - 1)
        }
    }

    /// The whole picture: every row up to the last, joined by line feeds.
    pub open spec fn frame(self) -> Seq<char> {
        self.joined_rows(self.last_row() + 1)
    }
}

/// The distance between two coordinates.
pub open spec fn distance(a: u32, b: u32) -> int {
    if a <= b {
        b - a
    } else {
        a - b
    }
}

/// The number of steps of a line: the greater of its two extents.
pub open spec fn line_steps(x1: u32, y1: u32, x2: u32, y2: u32) -> int {
    if distance(x1, x2) >= distance(y1, y2) {
        distance(x1, x2)
    } else {
        distance(y1, y2)
    }
}

/// One coordinate of the point at step `i` of `steps` on the way from `a`
/// to `b`: `a` moved towards `b` by `i * |b - a| / steps`, rounded down.
pub open spec fn line_coord(a: u32, b: u32, i: int, steps: int) -> u32 {
    if a == b {
        a
    } else if a < b {
        (a + (i * distance(a, b)) / steps) as u32
    } else {
        (a - (i * distance(a, b)) / steps) as u32
    }
}

/// A canvas of Braille cells to draw on.
#[derive(Clone, Debug, PartialEq, Eq)]
pub struct Canvas {
    pixels: FnvHashMap<(u16, u16), Pixel>,
    width: u16,
    height: u16,
    color: Option<Color>,
}

impl View for Canvas {
    type V = CanvasView;

    closed spec fn view(&self) -> CanvasView {
        CanvasView {
            cells: Map::new(|k: (u16, u16)| self.pixels@.contains_key(k), |k: (u16, u16)| self.pixels@[k]@),
            width: self.width,
            height: self.height,
            color: self.color,
        }
    }
}

fn key_of(x: u32, y: u32) -> (k: (u16, u16))
    ensures
        k == cell_key(x, y),
{
    (((x / 2) % 0x10000) as u16, ((y / 4) % 0x10000) as u16)
}

fn mask_of(x: u32, y: u32) -> (m: u8)
    ensures
        m == dot_mask(x, y),
{
    let left: bool = x % 2 == 0;
    match y % 4 {
        0 => if left { 0x01 } else { 0x08 },
        1 => if left { 0x02 } else { 0x10 },
        2 => if left { 0x04 } else { 0x20 },
        _ => if left { 0x40 } else { 0x80 },
    }
}

fn distance_of(a: u32, b: u32) -> (d: u32)
    ensures
        d == distance(a, b),
{
    if a <= b {
        b - a
    } else {
        a - b
    }
}

fn step_coord(a: u32, b: u32, i: u64, steps: u32) -> (c: u32)
    requires
        i <= steps,
        distance(a, b) <= steps,
    ensures
        c == line_coord(a, b, i as int, steps as int),
{
    if a == b {
        a
    } else {
        let d: u64 = distance_of(a, b) as u64;
        let n: u64 = steps as u64;
        assert(i * d <= n * d && n * d <= 0xFFFF_FFFF * 0xFFFF_FFFF) by (nonlinear_arith)
            requires
                i <= n,
                0 < d <= n,
                n <= 0xFFFF_FFFF,
        ;
        let off: u64 = (i * d) / n;
        assert(off <= d) by (nonlinear_arith)
            requires
                i <= n,
                0 < d <= n,
                off == (i * d) / (n as int),
        ;
        if a < b {
            a + off as u32
        } else {
            a - off as u32
        }
    }
}

/// The dot coordinate for a signed position: zero for a negative one.
pub open spec fn clamped(v: i32) -> u32 {
    if v < 0 {
        0
    } else {
        v as u32
    }
}

/// The dot coordinate for a signed position: positions left of or above
/// the canvas are moved to its edge.
pub fn clamp_coordinate(v: i32) -> (r: u32)
    ensures
        r == clamped(v),
{
    if v < 0 {
        0
    } else {
        v as u32
    }
}

/// The one value that is the least covering column is the last column.
pub proof fn lemma_last_column_is(c: CanvasView, m: int)
    requires
        c.is_last_column(m),
    ensures
        c.last_column() == m,
{
    let n = c.last_column();
    assert(c.is_last_column(n));
    assert(c.covers_columns(m));
    assert(c.covers_columns(n));
}

/// The one value that is the least covering row is the last row.
pub proof fn lemma_last_row_is(c: CanvasView, m: int)
    requires
        c.is_last_row(m),
    ensures
        c.last_row() == m,
{
    let n = c.last_row();
    assert(c.is_last_row(n));
    assert(c.covers_rows(m));
    assert(c.covers_rows(n));
}

impl Canvas {
    /// Creates a canvas of the given size in dots. The size is a minimum:
    /// drawing beyond it makes the picture larger.
    pub fn new(width: u32, height: u32) -> (c: Canvas)
        ensures
            c@ == CanvasView::blank(((width / 2) % 0x10000) as u16, ((height / 4) % 0x10000) as u16),
            c@.wf(),
    {
        let c = Canvas {
            pixels: empty_cells(),
            width: ((width / 2) % 0x10000) as u16,
            height: ((height / 4) % 0x10000) as u16,
            color: None,
        };
        assert(c@.cells =~= CanvasView::blank(c.width, c.height).cells);
        c
    }

    /// Clears the canvas: no cell is left; size and colour stay.
    pub fn clear(&mut self)
        ensures
            final(self)@ == old(self)@.clear(),
            old(self)@.wf() ==> final(self)@.wf(),
    {
        proof {
            if old(self)@.wf() {
                lemma_steps_keep_well_formed(old(self)@, 0, 0, ' ');
            }
        }
        clear_cells(&mut self.pixels);
        assert(self@.cells =~= old(self)@.clear().cells);
    }

    /// Sets the colour of what is drawn from now on.
    pub fn set_color(&mut self, color: u32)
        ensures
            final(self)@ == (CanvasView { color: Some(color_of_hex(color)), ..old(self)@ }),
    {
        self.color = Some(Color::from_hex(color));
    }

    /// What is drawn from now on has no colour.
    pub fn reset_color(&mut self)
        ensures
            final(self)@ == (CanvasView { color: None, ..old(self)@ }),
    {
        self.color = None;
    }

    /// Sets the dot at `(x, y)`.
    pub fn set(&mut self, x: u32, y: u32)
        ensures
            final(self)@ == old(self)@.set(x, y),
            old(self)@.wf() ==> final(self)@.wf(),
    {
        proof {
            if old(self)@.wf() {
                lemma_steps_keep_well_formed(old(self)@, x, y, ' ');
            }
        }
        let key = key_of(x, y);
        let mut pixel = match take_cell(&mut self.pixels, key) {
            Some(p) => p,
            None => Pixel::default(),
        };
        pixel.set_line(mask_of(x, y));
        pixel.add_color(self.color);
        put_cell(&mut self.pixels, key, pixel);
        assert(self@.cells =~= old(self)@.set(x, y).cells);
    }

    /// Whether the dot at `(x, y)` is set.
    pub fn get(&self, x: u32, y: u32) -> (r: bool)
        ensures
            r == self@.get(x, y),
    {
        match cell_at(&self.pixels, key_of(x, y)) {
            Some(p) => p.get_line(mask_of(x, y)),
            None => false,
        }
    }

    /// Puts the character `c` on the cell of the dot `(x, y)`.
    pub fn set_char(&mut self, x: u32, y: u32, c: char)
        ensures
            final(self)@ == old(self)@.set_char(x, y, c),
            old(self)@.wf() ==> final(self)@.wf(),
    {
        proof {
            if old(self)@.wf() {
                lemma_steps_keep_well_formed(old(self)@, x, y, c);
            }
        }
        let key = key_of(x, y);
        let mut pixel = match take_cell(&mut self.pixels, key) {
            Some(p) => p,
            None => Pixel::default(),
        };
        pixel.set_char(c);
        pixel.set_color(self.color);
        put_cell(&mut self.pixels, key, pixel);
        assert(self@.cells =~= old(self)@.set_char(x, y, c).cells);
    }

    /// Removes the character on the cell of the dot `(x, y)`, if there is
    /// one.
    pub fn unset_char(&mut self, x: u32, y: u32)
        ensures
            final(self)@ == old(self)@.unset_char(x, y),
            old(self)@.wf() ==> final(self)@.wf(),
    {
        proof {
            if old(self)@.wf() {
                lemma_steps_keep_well_formed(old(self)@, x, y, ' ');
            }
        }
        let key = key_of(x, y);
        match take_cell(&mut self.pixels, key) {
            Some(p) => {
                let mut pixel = p;
                pixel.unset_char();
                put_cell(&mut self.pixels, key, pixel);
            },
            None => {},
        }
        assert(self@.cells =~= old(self)@.unset_char(x, y).cells);
    }

    /// Writes `text` from `(x, y)` rightwards, one character a cell, as far
    /// as `max_width` dots reach: the character at offset `max_width` is
    /// still written. The columns written to must not pass the greatest
    /// `u32`.
    pub fn text(&mut self, x: u32, y: u32, max_width: u32, text: &str)
        requires
            CanvasView::text_fits(x, max_width, text@.len()),
        ensures
            final(self)@ == old(self)@.text(x, y, max_width, text@),
            old(self)@.wf() ==> final(self)@.wf(),
    {
        proof {
            if old(self)@.wf() {
                lemma_text_keeps_well_formed(
                    old(self)@,
                    x,
                    y,
                    text@,
                    CanvasView::placed(max_width, text@.len()),
                );
            }
        }
        let n: usize = text.unicode_len();
        let limit: usize = (max_width / 2) as usize;
        let mut i: usize = 0;
        while i < n && i <= limit
            invariant
                n == text@.len(),
                limit == max_width / 2,
                i <= n,
                i <= limit + 1,
                self@ == old(self)@.text_n(x, y, text@, i as nat),
                CanvasView::text_fits(x, max_width, text@.len()),
            decreases n - i,
        {
            let w: u32 = (i as u32) * 2;
            let c: char = text.get_char(i);
            self.set_char(x + w, y, c);
            i = i + 1;
        }
    }

    /// Clears the dot at `(x, y)`.
    pub fn unset(&mut self, x: u32, y: u32)
        ensures
            final(self)@ == old(self)@.unset(x, y),
            old(self)@.wf() ==> final(self)@.wf(),
    {
        proof {
            if old(self)@.wf() {
                lemma_steps_keep_well_formed(old(self)@, x, y, ' ');
            }
        }
        let key = key_of(x, y);
        match take_cell(&mut self.pixels, key) {
            Some(p) => {
                let mut pixel = p;
                pixel.unset_line(mask_of(x, y));
                put_cell(&mut self.pixels, key, pixel);
            },
            None => {},
        }
        assert(self@.cells =~= old(self)@.unset(x, y).cells);
    }

    /// Flips the dot at `(x, y)`.
    pub fn toggle(&mut self, x: u32, y: u32)
        ensures
            final(self)@ == old(self)@.toggle(x, y),
            old(self)@.wf() ==> final(self)@.wf(),
    {
        proof {
            if old(self)@.wf() {
                lemma_steps_keep_well_formed(old(self)@, x, y, ' ');
            }
        }
        let key = key_of(x, y);
        match take_cell(&mut self.pixels, key) {
            Some(p) => {
                let mut pixel = p;
                pixel.toggle_line(mask_of(x, y));
                put_cell(&mut self.pixels, key, pixel);
            },
            None => {},
        }
        assert(self@.cells =~= old(self)@.toggle(x, y).cells);
    }

    /// The rows of the picture, top to bottom. A row is one cell, that is
    /// four dots, high.
    pub fn rows(&self) -> (result: Vec<String>)
        ensures
            result@.len() == self@.last_row() + 1,
            forall|y: int| 0 <= y < result@.len() ==> (#[trigger] result@[y])@ == self@.row(y),
    {
        let keys = cell_keys(&self.pixels);
        let mut maxrow: u16 = self.width;
        let mut maxcol: u16 = self.height;
        let mut i: usize = 0;
        while i < keys.len()
            invariant
                i <= keys@.len(),
                maxrow >= self.width,
                maxcol >= self.height,
                forall|j: int| 0 <= j < i ==> (#[trigger] keys@[j]).0 <= maxrow && keys@[j].1 <= maxcol,
                maxrow == self.width || exists|j: int| 0 <= j < i && (#[trigger] keys@[j]).0 == maxrow,
                maxcol == self.height || exists|j: int| 0 <= j < i && (#[trigger] keys@[j]).1 == maxcol,
            decreases keys@.len() - i,
        {
            let k: (u16, u16) = keys[i];
            if k.0 > maxrow {
                maxrow = k.0;
            }
            if k.1 > maxcol {
                maxcol = k.1;
            }
            i = i + 1;
        }
        proof {
            let v = self@;
            assert forall|k: (u16, u16)| #[trigger] v.cells.contains_key(k) implies k.0 <= maxrow
                && k.1 <= maxcol by {
                assert(self.pixels@.contains_key(k));
                assert(keys@.contains(k));
                let j = choose|j: int| 0 <= j < keys@.len() && keys@[j] == k;
                assert(keys@[j] == k);
            }
            assert(v.covers_columns(maxrow as int));
            assert(v.covers_rows(maxcol as int));
            assert forall|n: int| #[trigger] v.covers_columns(n) implies maxrow <= n by {
                if maxrow != self.width {
                    let j = choose|j: int| 0 <= j < keys@.len() && (#[trigger] keys@[j]).0 == maxrow;
                    assert(keys@.contains(keys@[j]));
                    assert(self.pixels@.contains_key(keys@[j]));
                    assert(v.cells.contains_key(keys@[j]));
                }
            }
            assert forall|n: int| #[trigger] v.covers_rows(n) implies maxcol <= n by {
                if maxcol != self.height {
                    let j = choose|j: int| 0 <= j < keys@.len() && (#[trigger] keys@[j]).1 == maxcol;
                    assert(keys@.contains(keys@[j]));
                    assert(self.pixels@.contains_key(keys@[j]));
                    assert(v.cells.contains_key(keys@[j]));
                }
            }
            lemma_last_column_is(v, maxrow as int);
            lemma_last_row_is(v, maxcol as int);
        }
        let mut result: Vec<String> = Vec::new();
        let mut y: u32 = 0;
        while y <= maxcol as u32
            invariant
                y <= maxcol + 1,
                result@.len() == y,
                self@.last_column() == maxrow,
                forall|j: int| 0 <= j < result@.len() ==> (#[trigger] result@[j])@ == self@.row(j),
            decreases maxcol + 1 - y,
        {
            let mut row = String::new();
            let mut prev_color: Option<Color> = None;
            let mut x: u32 = 0;
            while x <= maxrow as u32
                invariant
                    x <= maxrow + 1,
                    y <= maxcol,
                    row@ == self@.row_cells(y as int, x as int),
                    prev_color == self@.row_color(y as int, x as int),
                decreases maxrow + 1 - x,
            {
                let key: (u16, u16) = (x as u16, y as u16);
                let ghost before = row@;
                let cell_text = match cell_at(&self.pixels, key) {
                    Some(p) => p.get_char(prev_color),
                    None => Pixel::default().get_char(prev_color),
                };
                row.append(cell_text.0.as_str());
                prev_color = cell_text.1;
                x = x + 1;
                assert(row@ == before + self@.cell(key).text_after(self@.row_color(y as int, x - 1)));
            }
            if prev_color.is_some() {
                push_colorized(&mut row, None, None, true);
            }
            assert(row@ =~= self@.row(y as int));
            result.push(row);
            y = y + 1;
        }
        result
    }

    /// The whole picture as one string, its rows separated by line feeds.
    pub fn frame(&self) -> (s: String)
        ensures
            s@ == self@.frame(),
    {
        let rows = self.rows();
        let mut s = String::new();
        let mut i: usize = 0;
        while i < rows.len()
            invariant
                i <= rows@.len(),
                rows@.len() == self@.last_row() + 1,
                forall|y: int| 0 <= y < rows@.len() ==> (#[trigger] rows@[y])@ == self@.row(y),
                s@ == self@.joined_rows(i as int),
            decreases rows@.len() - i,
        {
            if i > 0 {
                push_char(&mut s, '\n');
            }
            s.append(rows[i].as_str());
            i = i + 1;
            assert(s@ =~= self@.joined_rows(i as int));
        }
        s
    }

    /// Draws a line from `(x1, y1)` to `(x2, y2)`.
    pub fn line(&mut self, x1: u32, y1: u32, x2: u32, y2: u32)
        ensures
            final(self)@ == old(self)@.line(x1, y1, x2, y2),
            old(self)@.wf() ==> final(self)@.wf(),
    {
        proof {
            if old(self)@.wf() {
                lemma_line_keeps_well_formed(
                    old(self)@,
                    x1,
                    y1,
                    x2,
                    y2,
                    (line_steps(x1, y1, x2, y2) + 1) as nat,
                );
            }
        }
        let xdiff: u32 = distance_of(x1, x2);
        let ydiff: u32 = distance_of(y1, y2);
        let r: u32 = if xdiff >= ydiff {
            xdiff
        } else {
            ydiff
        };
        let mut i: u64 = 0;
        while i <= r as u64
            invariant
                i <= r + 1,
                r == line_steps(x1, y1, x2, y2),
                self@ == old(self)@.line_n(x1, y1, x2, y2, i as nat),
            decreases r + 1 - i,
        {
            let x: u32 = step_coord(x1, x2, i, r);
            let y: u32 = step_coord(y1, y2, i, r);
            self.set(x, y);
            i = i + 1;
        }
    }

    /// Draws a line between two signed positions, each coordinate moved to
    /// the canvas's edge where it is negative.
    pub fn line_clamped(&mut self, x1: i32, y1: i32, x2: i32, y2: i32)
        ensures
            final(self)@ == old(self)@.line(
                clamped(x1),
                clamped(y1),
                clamped(x2),
                clamped(y2),
            ),
            old(self)@.wf() ==> final(self)@.wf(),
    {
        self.line(
            clamp_coordinate(x1),
            clamp_coordinate(y1),
            clamp_coordinate(x2),
            clamp_coordinate(y2),
        );
    }

    /// Sets the least width of the picture, in cells less one.
    pub fn set_width(&mut self, width: u32)
        ensures
            final(self)@ == (CanvasView { width: (width % 0x10000) as u16, ..old(self)@ }),
    {
        self.width = (width % 0x10000) as u16;
    }

    /// Sets the least height of the picture, in cells less one.
    pub fn set_height(&mut self, height: u32)
        ensures
            final(self)@ == (CanvasView { height: (height % 0x10000) as u16, ..old(self)@ }),
    {
        self.height = (height % 0x10000) as u16;
    }
}

} // verus!
