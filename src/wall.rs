//! The description of a wall: rows of physical screens, stacked top to bottom,
//! and the mathematical model of its extents.
use vstd::prelude::*;

verus! {

/// One physical display. Sizes are in wall units, the same for every screen.
#[derive(Debug, Clone, PartialEq, Eq)]
pub struct Screen {
    pub id: String,
    pub bezel: i64,
    pub height: i64,
    pub width: i64,
}

/// Screens laid out left to right.
#[derive(Debug, Clone, PartialEq, Eq)]
pub struct Row {
    pub screens: Vec<Screen>,
}

/// A whole wall: its name and its rows, top row first.
#[derive(Debug, Clone, PartialEq, Eq)]
pub struct Config {
    pub name: String,
    pub rows: Vec<Row>,
}

/// The screens of a row, in order.
pub open spec fn screens_of(row: Row) -> Seq<Screen> {
    row.screens@
}

/// Sum of the widths of the screens; bezels do not count.
pub open spec fn row_width(s: Seq<Screen>) -> int
    decreases s.len(),
{
    if s.len() == 0 {
        0
    } else {
        row_width(s.drop_last()) + s.last().width
    }
}

/// Height of the tallest screen, or zero for no screens.
pub open spec fn row_height(s: Seq<Screen>) -> int
    decreases s.len(),
{
    if s.len() == 0 {
        0
    } else {
        let h = row_height(s.drop_last());
        if s.last().height > h {
            s.last().height as int
        } else {
            h
        }
    }
}

/// Widest row, or zero for no rows.
pub open spec fn wall_width(rows: Seq<Row>) -> int
    decreases rows.len(),
{
    if rows.len() == 0 {
        0
    } else {
        let w = wall_width(rows.drop_last());
        let r = row_width(screens_of(rows.last()));
        if r > w {
            r
        } else {
            w
        }
    }
}

/// Sum of the row heights: rows stack with no gap.
pub open spec fn wall_height(rows: Seq<Row>) -> int
    decreases rows.len(),
{
    if rows.len() == 0 {
        0
    } else {
        wall_height(rows.drop_last()) + row_height(screens_of(rows.last()))
    }
}

/// The running offset after the screens `s` were placed. Each screen moves it
/// on by its own `x`, its width and its bezel.
pub open spec fn row_offset(s: Seq<Screen>) -> int
    decreases s.len(),
{
    if s.len() == 0 {
        0
    } else {
        let p = s.drop_last();
        let o = row_offset(p);
        let x = if p.len() == 0 {
            0
        } else {
            o + s.last().bezel
        };
        o + x + s.last().width + s.last().bezel
    }
}

/// Left edge of screen `k` of a row: zero for the first screen, else the
/// running offset of the screens before it plus its own bezel.
pub open spec fn screen_x(s: Seq<Screen>, k: int) -> int {
    if k == 0 {
        0
    } else {
        row_offset(s.take(k)) + s[k].bezel
    }
}

/// Number of screens on the wall.
pub open spec fn screen_count(rows: Seq<Row>) -> nat
    decreases rows.len(),
{
    if rows.len() == 0 {
        0
    } else {
        screen_count(rows.drop_last()) + screens_of(rows.last()).len()
    }
}

/// Ids of all screens in row-major order: top row first, left to right.
pub open spec fn screen_ids(rows: Seq<Row>) -> Seq<Seq<char>>
    decreases rows.len(),
{
    if rows.len() == 0 {
        Seq::empty()
    } else {
        screen_ids(rows.drop_last()) + screens_of(rows.last()).map_values(|sc: Screen| sc.id@)
    }
}

} // verus!
