//! Laws that relate the operations of the canvas to each other.

use vstd::prelude::*;
use crate::canvas::{cell_key, distance, dot_mask, line_coord, line_steps, CanvasView};
use crate::color::Color;
use crate::pixel::{Content, PixelView};

verus! {

/// The bit of a dot is one of the eight bits of a cell, and never zero.
pub proof fn lemma_dot_mask_is_one_bit(x: u32, y: u32)
    ensures
        dot_mask(x, y) != 0,
        dot_mask(x, y) == 0x01 || dot_mask(x, y) == 0x02 || dot_mask(x, y) == 0x04 || dot_mask(x, y)
            == 0x08 || dot_mask(x, y) == 0x10 || dot_mask(x, y) == 0x20 || dot_mask(x, y) == 0x40
            || dot_mask(x, y) == 0x80,
{
}

/// Two different dots whose cells lie within the sixteen-bit range differ
/// in their cell or in their bit.
pub proof fn lemma_distinct_dots(x1: u32, y1: u32, x2: u32, y2: u32)
    requires
        x1 < 0x20000,
        x2 < 0x20000,
        y1 < 0x40000,
        y2 < 0x40000,
        x1 != x2 || y1 != y2,
    ensures
        cell_key(x1, y1) != cell_key(x2, y2) || dot_mask(x1, y1) != dot_mask(x2, y2),
{
}

/// Two different bits of a cell share no dot.
proof fn lemma_masks_disjoint(a: u8, b: u8)
    requires
        a == 0x01 || a == 0x02 || a == 0x04 || a == 0x08 || a == 0x10 || a == 0x20 || a == 0x40 || a
            == 0x80,
        b == 0x01 || b == 0x02 || b == 0x04 || b == 0x08 || b == 0x10 || b == 0x20 || b == 0x40 || b
            == 0x80,
        a != b,
    ensures
        a & b == 0,
        forall|d: u8| ((#[trigger] (d | a)) & b != 0) == (d & b != 0),
        forall|d: u8| ((#[trigger] (d & !a)) & b != 0) == (d & b != 0),
        forall|d: u8| ((#[trigger] (d ^ a)) & b != 0) == (d & b != 0),
{
    assert(a & b == 0) by (bit_vector)
        requires
            a == 0x01 || a == 0x02 || a == 0x04 || a == 0x08 || a == 0x10 || a == 0x20 || a == 0x40
                || a == 0x80,
            b == 0x01 || b == 0x02 || b == 0x04 || b == 0x08 || b == 0x10 || b == 0x20 || b == 0x40
                || b == 0x80,
            a != b,
    ;
    assert forall|d: u8| ((#[trigger] (d | a)) & b != 0) == (d & b != 0) by {
        assert(((d | a) & b != 0) == (d & b != 0)) by (bit_vector)
            requires
                a & b == 0,
        ;
    }
    assert forall|d: u8| ((#[trigger] (d & !a)) & b != 0) == (d & b != 0) by {
        assert(((d & !a) & b != 0) == (d & b != 0)) by (bit_vector)
            requires
                a & b == 0,
        ;
    }
    assert forall|d: u8| ((#[trigger] (d ^ a)) & b != 0) == (d & b != 0) by {
        assert(((d ^ a) & b != 0) == (d & b != 0)) by (bit_vector)
            requires
                a & b == 0,
        ;
    }
}

/// On a canvas without cells no dot is set.
pub proof fn lemma_blank_has_no_dot(width: u16, height: u16, x: u32, y: u32)
    ensures
        !CanvasView::blank(width, height).get(x, y),
{
}

/// After a clear no dot is set.
pub proof fn lemma_clear_has_no_dot(c: CanvasView, x: u32, y: u32)
    ensures
        !c.clear().get(x, y),
{
}

/// A dot that was set reads as set.
pub proof fn lemma_set_then_get(c: CanvasView, x: u32, y: u32)
    ensures
        c.set(x, y).get(x, y),
{
    let m = dot_mask(x, y);
    let d = c.cell(cell_key(x, y)).dots();
    lemma_dot_mask_is_one_bit(x, y);
    assert((d | m) & m != 0) by (bit_vector)
        requires
            m != 0,
    ;
}

/// Setting a dot changes no other dot: a dot in another cell, or at
/// another place in the same cell, reads as before.
pub proof fn lemma_set_keeps_other_dots(c: CanvasView, x: u32, y: u32, x2: u32, y2: u32)
    requires
        cell_key(x, y) != cell_key(x2, y2) || dot_mask(x, y) != dot_mask(x2, y2),
    ensures
        c.set(x, y).get(x2, y2) == c.get(x2, y2),
{
    if cell_key(x, y) == cell_key(x2, y2) {
        let a = dot_mask(x, y);
        let b = dot_mask(x2, y2);
        lemma_dot_mask_is_one_bit(x, y);
        lemma_dot_mask_is_one_bit(x2, y2);
        lemma_masks_disjoint(a, b);
        let d = c.cell(cell_key(x, y)).dots();
        assert(((d | a) & b != 0) == (d & b != 0));
        assert(0u8 & b == 0) by (bit_vector);
    }
}

/// A dot that was cleared reads as not set.
pub proof fn lemma_unset_then_get(c: CanvasView, x: u32, y: u32)
    ensures
        !c.unset(x, y).get(x, y),
{
    let m = dot_mask(x, y);
    let key = cell_key(x, y);
    if c.cells.contains_key(key) {
        match c.cells[key].content {
            Content::Line(d) => {
                assert((d & !m) & m == 0) by (bit_vector);
            },
            _ => {},
        }
    }
}

/// Clearing a dot changes no other dot.
pub proof fn lemma_unset_keeps_other_dots(c: CanvasView, x: u32, y: u32, x2: u32, y2: u32)
    requires
        cell_key(x, y) != cell_key(x2, y2) || dot_mask(x, y) != dot_mask(x2, y2),
    ensures
        c.unset(x, y).get(x2, y2) == c.get(x2, y2),
{
    if cell_key(x, y) == cell_key(x2, y2) {
        let a = dot_mask(x, y);
        let b = dot_mask(x2, y2);
        lemma_dot_mask_is_one_bit(x, y);
        lemma_dot_mask_is_one_bit(x2, y2);
        lemma_masks_disjoint(a, b);
        let d = c.cell(cell_key(x, y)).dots();
        assert(((d & !a) & b != 0) == (d & b != 0));
    }
}

/// Flipping a dot of a cell that holds dots inverts what it reads as.
pub proof fn lemma_toggle_inverts(c: CanvasView, x: u32, y: u32)
    requires
        c.cells.contains_key(cell_key(x, y)),
        c.cells[cell_key(x, y)].content is Line,
    ensures
        c.toggle(x, y).get(x, y) == !c.get(x, y),
{
    let m = dot_mask(x, y);
    let d = c.cells[cell_key(x, y)].dots();
    lemma_dot_mask_is_one_bit(x, y);
    assert(((d ^ m) & m != 0) == !(d & m != 0)) by (bit_vector)
        requires
            m == 0x01 || m == 0x02 || m == 0x04 || m == 0x08 || m == 0x10 || m == 0x20 || m == 0x40
                || m == 0x80,
    ;
}

/// Flipping a dot twice gives back the canvas as it was; so the dot reads
/// as it did before.
pub proof fn lemma_toggle_twice(c: CanvasView, x: u32, y: u32)
    ensures
        c.toggle(x, y).toggle(x, y) == c,
        c.toggle(x, y).toggle(x, y).get(x, y) == c.get(x, y),
{
    let m = dot_mask(x, y);
    let key = cell_key(x, y);
    if c.cells.contains_key(key) {
        match c.cells[key].content {
            Content::Line(d) => {
                assert((d ^ m) ^ m == d) by (bit_vector);
            },
            _ => {},
        }
        assert(c.toggle(x, y).toggle(x, y).cells =~= c.cells);
    }
}

/// On a cell that shows a character no dot reads as set.
pub proof fn lemma_set_char_then_get(c: CanvasView, x: u32, y: u32, ch: char)
    ensures
        !c.set_char(x, y, ch).get(x, y),
        c.set_char(x, y, ch).cell(cell_key(x, y)).glyph() == ch,
{
}

/// Removing the character of a cell leaves a space there, whatever the
/// cell held, unless it held dots, which stay.
pub proof fn lemma_unset_char_leaves_no_char(c: CanvasView, x: u32, y: u32)
    ensures
        !(c.unset_char(x, y).cell(cell_key(x, y)).content is Char),
        c.cell(cell_key(x, y)).content is Char ==> c.unset_char(x, y).cell(cell_key(x, y))
            == PixelView::empty(),
        c.cell(cell_key(x, y)).content is Char ==> c.unset_char(x, y).cell(cell_key(x, y)).glyph()
            == ' ',
        !(c.cell(cell_key(x, y)).content is Char) ==> c.unset_char(x, y).cell(cell_key(x, y))
            == c.cell(cell_key(x, y)),
{
}

/// A character that was put down and removed again leaves an empty cell.
pub proof fn lemma_set_char_then_unset_char(c: CanvasView, x: u32, y: u32, ch: char)
    ensures
        c.set_char(x, y, ch).unset_char(x, y).cell(cell_key(x, y)) == PixelView::empty(),
{
}

/// Removing a character changes no other cell, and no dot anywhere.
pub proof fn lemma_unset_char_keeps_the_rest(
    c: CanvasView,
    x: u32,
    y: u32,
    key: (u16, u16),
    x2: u32,
    y2: u32,
)
    requires
        key != cell_key(x, y),
    ensures
        c.unset_char(x, y).cell(key) == c.cell(key),
        c.unset_char(x, y).get(x2, y2) == c.get(x2, y2),
{
}

/// The picture is a function of the canvas's value: as long as nothing
/// changes the canvas, every rendering gives the same text.
pub proof fn lemma_frame_repeats(a: CanvasView, b: CanvasView)
    requires
        a == b,
    ensures
        a.frame() == b.frame(),
        forall|y: int| a.row(y) == b.row(y),
{
}

/// A cell whose colour is the one that is active is rendered as its glyph
/// alone, without any escape sequence.
pub proof fn lemma_same_color_emits_glyph_only(p: PixelView, prev: Option<Color>)
    requires
        prev == p.color(),
    ensures
        p.text_after(prev) == seq![p.glyph()],
{
}

/// Within a row, a cell with the same effective colour as the cell before
/// it adds its glyph and nothing else: a run of one colour has one escape
/// sequence, at its start.
pub proof fn lemma_color_run_adds_glyph_only(c: CanvasView, y: int, n: int)
    requires
        n >= 1,
        c.cell(((n - 1) as u16, y as u16)).color() == c.cell((n as u16, y as u16)).color(),
    ensures
        c.row_cells(y, n + 1) == c.row_cells(y, n).push(c.cell((n as u16, y as u16)).glyph()),
{
    assert(c.row_cells(y, n + 1) =~= c.row_cells(y, n).push(c.cell((n as u16, y as u16)).glyph()));
}

/// A canvas on which nothing was drawn is well formed.
pub proof fn lemma_blank_is_well_formed(width: u16, height: u16)
    ensures
        CanvasView::blank(width, height).wf(),
{
}

/// Each single operation keeps a well-formed canvas well formed: no
/// character cell comes to hold more than one colour.
pub proof fn lemma_steps_keep_well_formed(c: CanvasView, x: u32, y: u32, ch: char)
    requires
        c.wf(),
    ensures
        c.clear().wf(),
        c.set(x, y).wf(),
        c.set_char(x, y, ch).wf(),
        c.unset_char(x, y).wf(),
        c.unset(x, y).wf(),
        c.toggle(x, y).wf(),
{
}

/// Writing a text keeps a well-formed canvas well formed.
pub proof fn lemma_text_keeps_well_formed(c: CanvasView, x: u32, y: u32, chars: Seq<char>, n: nat)
    requires
        c.wf(),
    ensures
        c.text_n(x, y, chars, n).wf(),
    decreases n,
{
    if n > 0 {
        lemma_text_keeps_well_formed(c, x, y, chars, (n - 1) as nat);
        lemma_steps_keep_well_formed(
            c.text_n(x, y, chars, (n - 1) as nat),
            (x + 2 * (n - 1)) as u32,
            y,
            chars[n - 1],
        );
    }
}

/// Drawing a line keeps a well-formed canvas well formed.
pub proof fn lemma_line_keeps_well_formed(
    c: CanvasView,
    x1: u32,
    y1: u32,
    x2: u32,
    y2: u32,
    n: nat,
)
    requires
        c.wf(),
    ensures
        c.line_n(x1, y1, x2, y2, n).wf(),
    decreases n,
{
    if n > 0 {
        let before = c.line_n(x1, y1, x2, y2, (n - 1) as nat);
        lemma_line_keeps_well_formed(c, x1, y1, x2, y2, (n - 1) as nat);
        let steps = line_steps(x1, y1, x2, y2);
        lemma_steps_keep_well_formed(
            before,
            line_coord(x1, x2, n - 1, steps),
            line_coord(y1, y2, n - 1, steps),
            ' ',
        );
    }
}

/// Setting a dot clears none: a dot that read as set still does.
pub proof fn lemma_set_keeps_set_dots(c: CanvasView, x: u32, y: u32, x2: u32, y2: u32)
    requires
        c.get(x2, y2),
    ensures
        c.set(x, y).get(x2, y2),
{
    if cell_key(x, y) == cell_key(x2, y2) {
        let a = dot_mask(x, y);
        let b = dot_mask(x2, y2);
        let d = c.cell(cell_key(x, y)).dots();
        assert((d | a) & b != 0) by (bit_vector)
            requires
                d & b != 0,
        ;
    }
}

/// Every dot that was set reads as set, whatever was set after it.
pub proof fn lemma_every_set_dot_is_set(c: CanvasView, points: Seq<(u32, u32)>, i: int)
    requires
        0 <= i < points.len(),
    ensures
        c.set_all(points).get(points[i].0, points[i].1),
    decreases points.len(),
{
    let before = c.set_all(points.drop_last());
    let p = points.last();
    if i == points.len() - 1 {
        lemma_set_then_get(before, p.0, p.1);
    } else {
        lemma_every_set_dot_is_set(c, points.drop_last(), i);
        lemma_set_keeps_set_dots(before, p.0, p.1, points[i].0, points[i].1);
    }
}

/// A dot that was never set reads as not set: on a canvas that started
/// without cells, after any number of dots were set, a dot that differs
/// from each of them in its cell or in its bit is not set, also where its
/// cell holds other dots.
pub proof fn lemma_never_set_dot_is_not_set(
    width: u16,
    height: u16,
    points: Seq<(u32, u32)>,
    x: u32,
    y: u32,
)
    requires
        forall|i: int|
            0 <= i < points.len() ==> cell_key(#[trigger] points[i].0, points[i].1) != cell_key(x, y)
                || dot_mask(points[i].0, points[i].1) != dot_mask(x, y),
    ensures
        !CanvasView::blank(width, height).set_all(points).get(x, y),
    decreases points.len(),
{
    if points.len() > 0 {
        let rest = points.drop_last();
        let p = points.last();
        assert forall|i: int| 0 <= i < rest.len() implies cell_key(
            #[trigger] rest[i].0,
            rest[i].1,
        ) != cell_key(x, y) || dot_mask(rest[i].0, rest[i].1) != dot_mask(x, y) by {
            assert(rest[i] == points[i]);
        }
        lemma_never_set_dot_is_not_set(width, height, rest, x, y);
        assert(p == points[points.len() - 1]);
        lemma_set_keeps_other_dots(
            CanvasView::blank(width, height).set_all(rest),
            p.0,
            p.1,
            x,
            y,
        );
    }
}

/// Every point of a line that was drawn reads as set.
pub proof fn lemma_line_sets_its_points(
    c: CanvasView,
    x1: u32,
    y1: u32,
    x2: u32,
    y2: u32,
    n: nat,
    i: int,
)
    requires
        0 <= i < n,
    ensures
        c.line_n(x1, y1, x2, y2, n).get(
            line_coord(x1, x2, i, line_steps(x1, y1, x2, y2)),
            line_coord(y1, y2, i, line_steps(x1, y1, x2, y2)),
        ),
    decreases n,
{
    let steps = line_steps(x1, y1, x2, y2);
    let before = c.line_n(x1, y1, x2, y2, (n - 1) as nat);
    let px = line_coord(x1, x2, n - 1, steps);
    let py = line_coord(y1, y2, n - 1, steps);
    if i == n - 1 {
        lemma_set_then_get(before, px, py);
    } else {
        lemma_line_sets_its_points(c, x1, y1, x2, y2, (n - 1) as nat, i);
        lemma_set_keeps_set_dots(
            before,
            px,
            py,
            line_coord(x1, x2, i, steps),
            line_coord(y1, y2, i, steps),
        );
    }
}

/// A line starts at its first point and ends at its second.
pub proof fn lemma_line_reaches_both_ends(x1: u32, y1: u32, x2: u32, y2: u32)
    ensures
        line_coord(x1, x2, 0, line_steps(x1, y1, x2, y2)) == x1,
        line_coord(y1, y2, 0, line_steps(x1, y1, x2, y2)) == y1,
        line_coord(x1, x2, line_steps(x1, y1, x2, y2), line_steps(x1, y1, x2, y2)) == x2,
        line_coord(y1, y2, line_steps(x1, y1, x2, y2), line_steps(x1, y1, x2, y2)) == y2,
{
    let steps = line_steps(x1, y1, x2, y2);
    let dx = distance(x1, x2);
    let dy = distance(y1, y2);
    if steps > 0 {
        assert((0 * dx) / steps == 0 && (steps * dx) / steps == dx) by (nonlinear_arith)
            requires
                steps > 0,
        ;
        assert((0 * dy) / steps == 0 && (steps * dy) / steps == dy) by (nonlinear_arith)
            requires
                steps > 0,
        ;
    }
}

/// After a line was drawn both of its ends read as set.
pub proof fn lemma_line_sets_both_ends(c: CanvasView, x1: u32, y1: u32, x2: u32, y2: u32)
    ensures
        c.line(x1, y1, x2, y2).get(x1, y1),
        c.line(x1, y1, x2, y2).get(x2, y2),
{
    let steps = line_steps(x1, y1, x2, y2);
    lemma_line_reaches_both_ends(x1, y1, x2, y2);
    lemma_line_sets_its_points(c, x1, y1, x2, y2, (steps + 1) as nat, 0);
    lemma_line_sets_its_points(c, x1, y1, x2, y2, (steps + 1) as nat, steps);
}

/// The characters of a text that are placed are those whose offset, two
/// dots a character, does not exceed the width: the one at the width
/// itself is placed, the next one is not.
pub proof fn lemma_placed_is_within_width(max_width: u32, len: nat, i: int)
    requires
        0 <= i,
    ensures
        i < CanvasView::placed(max_width, len) <==> i < len && 2 * i <= max_width,
{
}

proof fn lemma_least_column_below(c: CanvasView, m: int)
    requires
        c.covers_columns(m),
    ensures
        exists|l: int| c.is_last_column(l),
    decreases m - c.width,
{
    if c.covers_columns(m - 1) {
        lemma_least_column_below(c, m - 1);
    } else {
        assert forall|n: int| #[trigger] c.covers_columns(n) implies m <= n by {
            if n < m {
                assert forall|k: (u16, u16)| #[trigger] c.cells.contains_key(k) implies k.0 <= m
                    - 1 by {}
            }
        }
        assert(c.is_last_column(m));
    }
}

proof fn lemma_least_row_below(c: CanvasView, m: int)
    requires
        c.covers_rows(m),
    ensures
        exists|l: int| c.is_last_row(l),
    decreases m - c.height,
{
    if c.covers_rows(m - 1) {
        lemma_least_row_below(c, m - 1);
    } else {
        assert forall|n: int| #[trigger] c.covers_rows(n) implies m <= n by {
            if n < m {
                assert forall|k: (u16, u16)| #[trigger] c.cells.contains_key(k) implies k.1 <= m
                    - 1 by {}
            }
        }
        assert(c.is_last_row(m));
    }
}

/// The last column is the greater of the nominal width and the greatest
/// column of a touched cell: it is at least both, and it is one of them.
pub proof fn lemma_last_column_is_the_maximum(c: CanvasView)
    ensures
        c.width <= c.last_column() <= 0xFFFF,
        forall|k: (u16, u16)| #[trigger] c.cells.contains_key(k) ==> k.0 <= c.last_column(),
        c.last_column() == c.width || exists|k: (u16, u16)|
            #[trigger] c.cells.contains_key(k) && k.0 == c.last_column(),
{
    assert(c.covers_columns(0xFFFF));
    lemma_least_column_below(c, 0xFFFF);
    let l = c.last_column();
    assert(c.is_last_column(l));
    if l != c.width && !(exists|k: (u16, u16)| #[trigger] c.cells.contains_key(k) && k.0 == l) {
        assert(c.covers_columns(l - 1));
    }
}

/// The last row is the greater of the nominal height and the greatest row
/// of a touched cell: it is at least both, and it is one of them.
pub proof fn lemma_last_row_is_the_maximum(c: CanvasView)
    ensures
        c.height <= c.last_row() <= 0xFFFF,
        forall|k: (u16, u16)| #[trigger] c.cells.contains_key(k) ==> k.1 <= c.last_row(),
        c.last_row() == c.height || exists|k: (u16, u16)|
            #[trigger] c.cells.contains_key(k) && k.1 == c.last_row(),
{
    assert(c.covers_rows(0xFFFF));
    lemma_least_row_below(c, 0xFFFF);
    let l = c.last_row();
    assert(c.is_last_row(l));
    if l != c.height && !(exists|k: (u16, u16)| #[trigger] c.cells.contains_key(k) && k.1 == l) {
        assert(c.covers_rows(l - 1));
    }
}

} // verus!
