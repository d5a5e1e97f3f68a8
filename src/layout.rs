//! The layout engine: validation, the wall's bounding box, each screen's
//! placement, and the tile numbering, assembled into one checked result.
use vstd::prelude::*;
use crate::wall::{Config, Row, Screen, screens_of, row_width, row_height, wall_width, wall_height, row_offset, screen_x, screen_count, screen_ids};

verus! {

/// What is wrong with a wall description. Screen faults name the row by its
/// index and the screen by its id.
#[derive(Debug, Clone, PartialEq, Eq)]
pub enum InputError {
    NoRows,
    EmptyRow { row: usize },
    NonPositiveWidth { row: usize, screen_id: String },
    NonPositiveHeight { row: usize, screen_id: String },
    NegativeBezel { row: usize, screen_id: String },
    /// A coordinate or an extent of the layout does not fit in an `i64`.
    TooLarge,
}

/// Why no layout was produced.
#[derive(Debug, Clone, PartialEq, Eq)]
pub enum LayoutError {
    InvalidLayoutInput(InputError),
    /// The placements and the tile numbering disagree: a defect, not a user error.
    LayoutResultInconsistency { screens: usize, tiles: usize },
}

/// The fault of one screen of row `row`, if any: width first, then height,
/// then bezel.
pub open spec fn screen_fault(sc: Screen, row: int) -> Option<InputError> {
    if sc.width <= 0 {
        Some(InputError::NonPositiveWidth { row: row as usize, screen_id: sc.id })
    } else if sc.height <= 0 {
        Some(InputError::NonPositiveHeight { row: row as usize, screen_id: sc.id })
    } else if sc.bezel < 0 {
        Some(InputError::NegativeBezel { row: row as usize, screen_id: sc.id })
    } else {
        None
    }
}

/// The fault of the leftmost faulty screen of `s`.
pub open spec fn first_screen_fault(s: Seq<Screen>, row: int) -> Option<InputError>
    decreases s.len(),
{
    if s.len() == 0 {
        None
    } else {
        match first_screen_fault(s.drop_last(), row) {
            Some(e) => Some(e),
            None => screen_fault(s.last(), row),
        }
    }
}

/// The fault of row `row`: empty, or its first faulty screen.
pub open spec fn row_fault(s: Seq<Screen>, row: int) -> Option<InputError> {
    if s.len() == 0 {
        Some(InputError::EmptyRow { row: row as usize })
    } else {
        first_screen_fault(s, row)
    }
}

/// The fault of the topmost faulty row.
pub open spec fn first_row_fault(rows: Seq<Row>) -> Option<InputError>
    decreases rows.len(),
{
    if rows.len() == 0 {
        None
    } else {
        match first_row_fault(rows.drop_last()) {
            Some(e) => Some(e),
            None => row_fault(screens_of(rows.last()), rows.len() - 1),
        }
    }
}

/// The first fault of a wall in row-major order, or `None` for a valid wall.
pub open spec fn wall_fault(rows: Seq<Row>) -> Option<InputError> {
    if rows.len() == 0 {
        Some(InputError::NoRows)
    } else {
        first_row_fault(rows)
    }
}


/// A fault found among the first `k` screens of a row is the row's first fault.
proof fn lemma_screen_fault_prefix(s: Seq<Screen>, row: int, k: int)
    requires
        0 <= k <= s.len(),
        first_screen_fault(s.take(k), row) is Some,
    ensures
        first_screen_fault(s, row) == first_screen_fault(s.take(k), row),
    decreases s.len() - k,
{
    if k < s.len() {
        assert(s.drop_last().take(k) =~= s.take(k));
        lemma_screen_fault_prefix(s.drop_last(), row, k);
    } else {
        assert(s.take(k) =~= s);
    }
}

/// A fault found among the first `k` rows is the wall's first fault.
proof fn lemma_row_fault_prefix(rows: Seq<Row>, k: int)
    requires
        0 <= k <= rows.len(),
        first_row_fault(rows.take(k)) is Some,
    ensures
        first_row_fault(rows) == first_row_fault(rows.take(k)),
    decreases rows.len() - k,
{
    if k < rows.len() {
        assert(rows.drop_last().take(k) =~= rows.take(k));
        lemma_row_fault_prefix(rows.drop_last(), k);
    } else {
        assert(rows.take(k) =~= rows);
    }
}

fn check_screen(sc: &Screen, row: usize) -> (r: Result<(), InputError>)
    ensures
        match screen_fault(*sc, row as int) {
            None => r is Ok,
            Some(e) => r == Err::<(), InputError>(e),
        },
{
    if sc.width <= 0 {
        Err(InputError::NonPositiveWidth { row, screen_id: sc.id.clone() })
    } else if sc.height <= 0 {
        Err(InputError::NonPositiveHeight { row, screen_id: sc.id.clone() })
    } else if sc.bezel < 0 {
        Err(InputError::NegativeBezel { row, screen_id: sc.id.clone() })
    } else {
        Ok(())
    }
}

fn check_row(s: &Vec<Screen>, row: usize) -> (r: Result<(), InputError>)
    ensures
        match row_fault(s@, row as int) {
            None => r is Ok,
            Some(e) => r == Err::<(), InputError>(e),
        },
{
    let n = s.len();
    if n == 0 {
        return Err(InputError::EmptyRow { row });
    }
    let mut k: usize = 0;
    while k < n
        invariant
            n == s@.len(),
            0 <= k <= n,
            first_screen_fault(s@.take(k as int), row as int) is None,
        decreases n - k,
    {
        proof {
            assert(s@.take(k + 1).drop_last() =~= s@.take(k as int));
        }
        match check_screen(&s[k], row) {
            Ok(()) => {},
            Err(e) => {
                proof {
                    lemma_screen_fault_prefix(s@, row as int, k + 1);
                }
                return Err(e);
            },
        }
        k += 1;
    }
    proof {
        assert(s@.take(n as int) =~= s@);
    }
    Ok(())
}

/// Checks a wall description; on a fault, reports the first one in
/// row-major order.
pub fn validate(wall: &Config) -> (r: Result<(), InputError>)
    ensures
        match wall_fault(wall.rows@) {
            None => r is Ok,
            Some(e) => r == Err::<(), InputError>(e),
        },
{
    let n = wall.rows.len();
    if n == 0 {
        return Err(InputError::NoRows);
    }
    let mut i: usize = 0;
    while i < n
        invariant
            n == wall.rows@.len(),
            0 <= i <= n,
            first_row_fault(wall.rows@.take(i as int)) is None,
        decreases n - i,
    {
        proof {
            assert(wall.rows@.take(i + 1).drop_last() =~= wall.rows@.take(i as int));
        }
        match check_row(&wall.rows[i].screens, i) {
            Ok(()) => {},
            Err(e) => {
                proof {
                    lemma_row_fault_prefix(wall.rows@, i + 1);
                }
                return Err(e);
            },
        }
        i += 1;
    }
    proof {
        assert(wall.rows@.take(n as int) =~= wall.rows@);
    }
    Ok(())
}


/// Every screen of `s` has a positive size and a non-negative bezel.
pub open spec fn valid_screens(s: Seq<Screen>) -> bool {
    forall|k: int|
        0 <= k < s.len() ==> (#[trigger] s[k]).width > 0 && s[k].height > 0 && s[k].bezel >= 0
}

/// Every row of a wall with no fault holds screens, and each of them is valid.
pub proof fn lemma_valid_wall(rows: Seq<Row>)
    requires
        wall_fault(rows) is None,
    ensures
        rows.len() > 0,
        forall|i: int|
            0 <= i < rows.len() ==> screens_of(#[trigger] rows[i]).len() > 0 && valid_screens(
                screens_of(rows[i]),
            ),
{
    lemma_rows_valid(rows);
}

proof fn lemma_screens_valid(s: Seq<Screen>, row: int)
    requires
        first_screen_fault(s, row) is None,
    ensures
        valid_screens(s),
    decreases s.len(),
{
    if s.len() > 0 {
        lemma_screens_valid(s.drop_last(), row);
        assert forall|k: int| 0 <= k < s.len() implies (#[trigger] s[k]).width > 0
            && s[k].height > 0 && s[k].bezel >= 0 by {
            if k < s.len() - 1 {
                assert(s[k] == s.drop_last()[k]);
            }
        }
    }
}

proof fn lemma_rows_valid(rows: Seq<Row>)
    requires
        first_row_fault(rows) is None,
    ensures
        forall|i: int|
            0 <= i < rows.len() ==> screens_of(#[trigger] rows[i]).len() > 0 && valid_screens(
                screens_of(rows[i]),
            ),
    decreases rows.len(),
{
    if rows.len() > 0 {
        lemma_rows_valid(rows.drop_last());
        lemma_screens_valid(screens_of(rows.last()), rows.len() - 1);
        assert forall|i: int| 0 <= i < rows.len() implies screens_of(#[trigger] rows[i]).len()
            > 0 && valid_screens(screens_of(rows[i])) by {
            if i < rows.len() - 1 {
                assert(rows[i] == rows.drop_last()[i]);
            }
        }
    }
}

/// The wall's bounding box.
#[derive(Debug, Clone, PartialEq, Eq)]
pub struct WallGeometry {
    pub wall_id: String,
    pub x: i64,
    pub y: i64,
    pub width: i64,
    pub height: i64,
}

/// Where one screen sits on its wall.
#[derive(Debug, Clone, PartialEq, Eq)]
pub struct ScreenGeometry {
    pub screen_id: String,
    pub wall_id: String,
    pub x: i64,
    pub y: i64,
    pub width: i64,
    pub height: i64,
}

/// One entry of the tile numbering: a tile index, from 1, and its screen.
#[derive(Debug, Clone, PartialEq, Eq)]
pub struct TileIndex {
    pub index: usize,
    pub screen_id: String,
}

/// A box on the wall, as mathematical values.
pub struct Placement {
    pub id: Seq<char>,
    pub wall_id: Seq<char>,
    pub x: int,
    pub y: int,
    pub width: int,
    pub height: int,
}

impl View for WallGeometry {
    type V = Placement;

    open spec fn view(&self) -> Placement {
        Placement {
            id: self.wall_id@,
            wall_id: self.wall_id@,
            x: self.x as int,
            y: self.y as int,
            width: self.width as int,
            height: self.height as int,
        }
    }
}

impl View for ScreenGeometry {
    type V = Placement;

    open spec fn view(&self) -> Placement {
        Placement {
            id: self.screen_id@,
            wall_id: self.wall_id@,
            x: self.x as int,
            y: self.y as int,
            width: self.width as int,
            height: self.height as int,
        }
    }
}

impl View for TileIndex {
    type V = (int, Seq<char>);

    open spec fn view(&self) -> (int, Seq<char>) {
        (self.index as int, self.screen_id@)
    }
}

/// The wall's bounding box: at the origin, as wide as its widest row and as
/// tall as its rows together.
pub open spec fn wall_box(name: Seq<char>, rows: Seq<Row>) -> Placement {
    Placement { id: name, wall_id: name, x: 0, y: 0, width: wall_width(rows), height: wall_height(rows) }
}

/// The placements of the screens of one row whose top edge is `y`.
pub open spec fn row_placements(s: Seq<Screen>, wall_id: Seq<char>, y: int) -> Seq<Placement> {
    Seq::new(
        s.len(),
        |k: int|
            Placement {
                id: s[k].id@,
                wall_id,
                x: screen_x(s, k),
                y,
                width: s[k].width as int,
                height: s[k].height as int,
            },
    )
}

/// The placements of all screens in row-major order.
pub open spec fn wall_placements(rows: Seq<Row>, wall_id: Seq<char>) -> Seq<Placement>
    decreases rows.len(),
{
    if rows.len() == 0 {
        Seq::empty()
    } else {
        wall_placements(rows.drop_last(), wall_id) + row_placements(
            screens_of(rows.last()),
            wall_id,
            wall_height(rows.drop_last()),
        )
    }
}

/// The tile numbering: index `j + 1` for the `j`-th screen in row-major order.
pub open spec fn tile_map(rows: Seq<Row>) -> Seq<(int, Seq<char>)> {
    Seq::new(screen_ids(rows).len(), |j: int| (j + 1, screen_ids(rows)[j]))
}

/// Every extent and left edge of a row fits in an `i64`.
pub open spec fn row_fits(s: Seq<Screen>) -> bool {
    &&& row_width(s) <= i64::MAX
    &&& forall|k: int| 0 <= k < s.len() ==> #[trigger] screen_x(s, k) <= i64::MAX
}

/// Every extent and coordinate of the wall's layout fits in an `i64`.
pub open spec fn wall_fits(rows: Seq<Row>) -> bool {
    &&& wall_height(rows) <= i64::MAX
    &&& forall|i: int| 0 <= i < rows.len() ==> row_fits(screens_of(#[trigger] rows[i]))
}

/// The sum of the widths of a prefix of a row is at most the row's width.
proof fn lemma_row_width_prefix(s: Seq<Screen>, k: int)
    requires
        0 <= k <= s.len(),
        valid_screens(s),
    ensures
        0 <= row_width(s.take(k)) <= row_width(s),
    decreases s.len() - k,
{
    if k < s.len() {
        assert(s.drop_last().take(k) =~= s.take(k));
        assert(s.last() == s[s.len() - 1]);
        lemma_row_width_prefix(s.drop_last(), k);
    } else {
        assert(s.take(k) =~= s);
        lemma_row_width_nonneg(s);
    }
}

proof fn lemma_row_width_nonneg(s: Seq<Screen>)
    requires
        valid_screens(s),
    ensures
        row_width(s) >= 0,
    decreases s.len(),
{
    if s.len() > 0 {
        assert(s.last() == s[s.len() - 1]);
        lemma_row_width_nonneg(s.drop_last());
    }
}

/// Width and height of a row of valid screens, or `None` where the width does
/// not fit in an `i64`.
fn row_extent(s: &Vec<Screen>) -> (r: Option<(i64, i64)>)
    requires
        valid_screens(s@),
    ensures
        match r {
            Some((w, h)) => w == row_width(s@) && h == row_height(s@),
            None => row_width(s@) > i64::MAX,
        },
{
    let n = s.len();
    let mut width: i64 = 0;
    let mut height: i64 = 0;
    let mut k: usize = 0;
    while k < n
        invariant
            n == s@.len(),
            0 <= k <= n,
            valid_screens(s@),
            width == row_width(s@.take(k as int)),
            height == row_height(s@.take(k as int)),
        decreases n - k,
    {
        let sc = &s[k];
        proof {
            assert(s@.take(k + 1).drop_last() =~= s@.take(k as int));
            assert(s@.take(k + 1).last() == s@[k as int]);
        }
        match width.checked_add(sc.width) {
            Some(w) => {
                width = w;
            },
            None => {
                proof {
                    lemma_row_width_prefix(s@, k + 1);
                }
                return None;
            },
        }
        if sc.height > height {
            height = sc.height;
        }
        k += 1;
    }
    proof {
        assert(s@.take(n as int) =~= s@);
    }
    Some((width, height))
}


/// The placements that a list of screen geometries stands for.
pub open spec fn placements_of(v: Seq<ScreenGeometry>) -> Seq<Placement> {
    v.map_values(|g: ScreenGeometry| g@)
}

/// Appends the placements of one row, whose top edge is `y`, to `out`.
/// Returns `false`, leaving `out` in an unspecified state, where a left edge
/// does not fit in an `i64`.
fn place_row(s: &Vec<Screen>, wall_id: &String, y: i64, out: &mut Vec<ScreenGeometry>) -> (ok:
    bool)
    requires
        valid_screens(s@),
    ensures
        ok ==> placements_of(final(out)@) == placements_of(old(out)@) + row_placements(
            s@,
            wall_id@,
            y as int,
        ),
        ok ==> forall|k: int| 0 <= k < s@.len() ==> #[trigger] screen_x(s@, k) <= i64::MAX,
        !ok ==> !row_fits(s@),
{
    let ghost before = placements_of(out@);
    let ghost target = row_placements(s@, wall_id@, y as int);
    let n = s.len();
    let mut offset: i64 = 0;
    let mut k: usize = 0;
    proof {
        assert(target.take(0) =~= Seq::<Placement>::empty());
        assert(before + target.take(0) =~= before);
    }
    while k < n
        invariant
            n == s@.len(),
            0 <= k <= n,
            valid_screens(s@),
            target == row_placements(s@, wall_id@, y as int),
            placements_of(out@) == before + target.take(k as int),
            offset >= 0,
            k < n ==> offset == row_offset(s@.take(k as int)),
            forall|j: int| 0 <= j < k ==> #[trigger] screen_x(s@, j) <= i64::MAX,
        decreases n - k,
    {
        let sc = &s[k];
        let x: i64 = if k == 0 {
            0
        } else {
            match offset.checked_add(sc.bezel) {
                Some(v) => v,
                None => {
                    assert(screen_x(s@, k as int) > i64::MAX);
                    return false;
                },
            }
        };
        assert(x == screen_x(s@, k as int));
        let g = ScreenGeometry {
            screen_id: sc.id.clone(),
            wall_id: wall_id.clone(),
            x,
            y,
            width: sc.width,
            height: sc.height,
        };
        let ghost prev = out@;
        out.push(g);
        proof {
            assert(placements_of(out@) =~= placements_of(prev).push(g@));
            assert(target.take(k + 1) =~= target.take(k as int).push(target[k as int]));
            assert(g@ == target[k as int]);
            assert(placements_of(out@) =~= before + target.take(k + 1));
        }
        if k + 1 < n {
            proof {
                assert(s@.take(k + 1).drop_last() =~= s@.take(k as int));
                assert(s@.take(k + 1).last() == s@[k as int]);
            }
            let next = match offset.checked_add(x) {
                Some(a) => match a.checked_add(sc.width) {
                    Some(b) => b.checked_add(sc.bezel),
                    None => None,
                },
                None => None,
            };
            match next {
                Some(v) => {
                    offset = v;
                },
                None => {
                    assert(s@[k + 1].bezel >= 0);
                    assert(screen_x(s@, k + 1) > i64::MAX);
                    return false;
                },
            }
        }
        k += 1;
    }
    proof {
        assert(target.take(n as int) =~= target);
    }
    true
}


proof fn lemma_row_height_nonneg(s: Seq<Screen>)
    ensures
        row_height(s) >= 0,
    decreases s.len(),
{
    if s.len() > 0 {
        lemma_row_height_nonneg(s.drop_last());
    }
}

/// The rows above row `k` are together at most as tall as the wall.
proof fn lemma_wall_height_prefix(rows: Seq<Row>, k: int)
    requires
        0 <= k <= rows.len(),
    ensures
        0 <= wall_height(rows.take(k)) <= wall_height(rows),
    decreases rows.len() - k,
{
    if k < rows.len() {
        assert(rows.drop_last().take(k) =~= rows.take(k));
        lemma_row_height_nonneg(screens_of(rows.last()));
        lemma_wall_height_prefix(rows.drop_last(), k);
    } else {
        assert(rows.take(k) =~= rows);
        lemma_wall_height_nonneg(rows);
    }
}

proof fn lemma_wall_height_nonneg(rows: Seq<Row>)
    ensures
        wall_height(rows) >= 0,
    decreases rows.len(),
{
    if rows.len() > 0 {
        lemma_row_height_nonneg(screens_of(rows.last()));
        lemma_wall_height_nonneg(rows.drop_last());
    }
}

/// Width and height of the wall and the height of each row, or `None` where
/// a row's width or the wall's height does not fit in an `i64`.
fn wall_extent(rows: &Vec<Row>) -> (r: Option<(i64, i64, Vec<i64>)>)
    requires
        forall|i: int| 0 <= i < rows@.len() ==> valid_screens(screens_of(#[trigger] rows@[i])),
    ensures
        match r {
            Some((w, h, hs)) => {
                &&& w == wall_width(rows@)
                &&& h == wall_height(rows@)
                &&& hs@.len() == rows@.len()
                &&& forall|i: int|
                    0 <= i < rows@.len() ==> row_width(screens_of(#[trigger] rows@[i])) <= i64::MAX
                &&& forall|i: int|
                    0 <= i < rows@.len() ==> hs@[i] == row_height(screens_of(#[trigger] rows@[i]))
            },
            None => !wall_fits(rows@),
        },
{
    let n = rows.len();
    let mut width: i64 = 0;
    let mut height: i64 = 0;
    let mut heights: Vec<i64> = Vec::new();
    let mut i: usize = 0;
    while i < n
        invariant
            n == rows@.len(),
            0 <= i <= n,
            forall|j: int| 0 <= j < rows@.len() ==> valid_screens(screens_of(#[trigger] rows@[j])),
            width == wall_width(rows@.take(i as int)),
            height == wall_height(rows@.take(i as int)),
            heights@.len() == i,
            forall|j: int|
                0 <= j < i ==> heights@[j] == row_height(screens_of(#[trigger] rows@[j])),
            forall|j: int| 0 <= j < i ==> row_width(screens_of(#[trigger] rows@[j])) <= i64::MAX,
        decreases n - i,
    {
        proof {
            assert(rows@.take(i + 1).drop_last() =~= rows@.take(i as int));
            assert(rows@.take(i + 1).last() == rows@[i as int]);
        }
        let (w, h) = match row_extent(&rows[i].screens) {
            Some(e) => e,
            None => {
                return None;
            },
        };
        if w > width {
            width = w;
        }
        match height.checked_add(h) {
            Some(v) => {
                height = v;
            },
            None => {
                proof {
                    lemma_row_height_nonneg(screens_of(rows@[i as int]));
                    lemma_wall_height_prefix(rows@, i + 1);
                }
                return None;
            },
        }
        heights.push(h);
        i += 1;
    }
    proof {
        assert(rows@.take(n as int) =~= rows@);
    }
    Some((width, height, heights))
}

/// Appends the placements of all screens, or returns `false` where a left
/// edge does not fit in an `i64`.
fn place_rows(wall: &Config, heights: &Vec<i64>, out: &mut Vec<ScreenGeometry>) -> (ok: bool)
    requires
        old(out)@.len() == 0,
        forall|i: int|
            0 <= i < wall.rows@.len() ==> valid_screens(screens_of(#[trigger] wall.rows@[i])),
        heights@.len() == wall.rows@.len(),
        forall|i: int|
            0 <= i < wall.rows@.len() ==> heights@[i] == row_height(
                screens_of(#[trigger] wall.rows@[i]),
            ),
        wall_height(wall.rows@) <= i64::MAX,
    ensures
        ok ==> placements_of(final(out)@) == wall_placements(wall.rows@, wall.name@),
        ok ==> forall|i: int, k: int|
            0 <= i < wall.rows@.len() && 0 <= k < screens_of(wall.rows@[i]).len()
                ==> #[trigger] screen_x(screens_of(wall.rows@[i]), k) <= i64::MAX,
        !ok ==> !wall_fits(wall.rows@),
{
    let ghost rows = wall.rows@;
    let n = wall.rows.len();
    let mut y: i64 = 0;
    let mut i: usize = 0;
    proof {
        assert(rows.take(0) =~= Seq::<Row>::empty());
        assert(placements_of(out@) =~= Seq::<Placement>::empty());
    }
    while i < n
        invariant
            rows == wall.rows@,
            n == rows.len(),
            0 <= i <= n,
            forall|j: int| 0 <= j < rows.len() ==> valid_screens(screens_of(#[trigger] rows[j])),
            heights@.len() == rows.len(),
            forall|j: int|
                0 <= j < rows.len() ==> heights@[j] == row_height(screens_of(#[trigger] rows[j])),
            wall_height(rows) <= i64::MAX,
            y == wall_height(rows.take(i as int)),
            placements_of(out@) == wall_placements(rows.take(i as int), wall.name@),
            forall|j: int, k: int|
                0 <= j < i && 0 <= k < screens_of(rows[j]).len() ==> #[trigger] screen_x(
                    screens_of(rows[j]),
                    k,
                ) <= i64::MAX,
        decreases n - i,
    {
        proof {
            assert(rows.take(i + 1).drop_last() =~= rows.take(i as int));
            assert(rows.take(i + 1).last() == rows[i as int]);
            lemma_wall_height_prefix(rows, i + 1);
        }
        if !place_row(&wall.rows[i].screens, &wall.name, y, out) {
            return false;
        }
        y = y + heights[i];
        i += 1;
    }
    proof {
        assert(rows.take(n as int) =~= rows);
    }
    true
}

/// The ids of all screens in row-major order: top row first, each row left
/// to right.
pub fn client_ids(wall: &Config) -> (r: Vec<String>)
    ensures
        r@.map_values(|s: String| s@) == screen_ids(wall.rows@),
{
    let ghost rows = wall.rows@;
    let mut ids: Vec<String> = Vec::new();
    let n = wall.rows.len();
    let mut i: usize = 0;
    proof {
        assert(ids@.map_values(|s: String| s@) =~= screen_ids(rows.take(0)));
    }
    while i < n
        invariant
            rows == wall.rows@,
            n == rows.len(),
            0 <= i <= n,
            ids@.map_values(|s: String| s@) == screen_ids(rows.take(i as int)),
        decreases n - i,
    {
        let screens = &wall.rows[i].screens;
        let ghost base = ids@.map_values(|s: String| s@);
        let ghost row_ids = screens@.map_values(|sc: Screen| sc.id@);
        let m = screens.len();
        let mut k: usize = 0;
        proof {
            assert(base + row_ids.take(0) =~= base);
        }
        while k < m
            invariant
                m == screens@.len(),
                0 <= k <= m,
                row_ids == screens@.map_values(|sc: Screen| sc.id@),
                ids@.map_values(|s: String| s@) == base + row_ids.take(k as int),
            decreases m - k,
        {
            let ghost prev = ids@;
            ids.push(screens[k].id.clone());
            proof {
                assert(ids@.map_values(|s: String| s@) =~= prev.map_values(|s: String| s@).push(
                    screens@[k as int].id@,
                ));
                assert(row_ids.take(k + 1) =~= row_ids.take(k as int).push(row_ids[k as int]));
            }
            k += 1;
        }
        proof {
            assert(row_ids.take(m as int) =~= row_ids);
            assert(rows.take(i + 1).drop_last() =~= rows.take(i as int));
            assert(rows.take(i + 1).last() == rows[i as int]);
        }
        i += 1;
    }
    proof {
        assert(rows.take(n as int) =~= rows);
    }
    ids
}

/// The tile entries that a list stands for.
pub open spec fn tiles_of(v: Seq<TileIndex>) -> Seq<(int, Seq<char>)> {
    v.map_values(|t: TileIndex| t@)
}

/// Numbers the screens 1, 2, 3, ... in row-major order, as given: nothing is
/// sorted.
pub fn assign(wall: &Config) -> (r: Vec<TileIndex>)
    ensures
        tiles_of(r@) == tile_map(wall.rows@),
{
    let ids = client_ids(wall);
    let ghost want = tile_map(wall.rows@);
    let n = ids.len();
    let mut tiles: Vec<TileIndex> = Vec::new();
    let mut j: usize = 0;
    while j < n
        invariant
            n == ids@.len(),
            0 <= j <= n,
            ids@.map_values(|s: String| s@) == screen_ids(wall.rows@),
            want == tile_map(wall.rows@),
            tiles_of(tiles@) == want.take(j as int),
        decreases n - j,
    {
        let ghost prev = tiles@;
        let t = TileIndex { index: j + 1, screen_id: ids[j].clone() };
        tiles.push(t);
        proof {
            assert(ids@.map_values(|s: String| s@)[j as int] == ids@[j as int]@);
            assert(tiles_of(tiles@) =~= tiles_of(prev).push(t@));
            assert(want.take(j + 1) =~= want.take(j as int).push(want[j as int]));
        }
        j += 1;
    }
    proof {
        assert(want.take(n as int) =~= want);
    }
    tiles
}


/// The placements and the ids of a wall both have one entry per screen.
pub proof fn lemma_layout_lengths(rows: Seq<Row>, wall_id: Seq<char>)
    ensures
        wall_placements(rows, wall_id).len() == screen_count(rows),
        screen_ids(rows).len() == screen_count(rows),
    decreases rows.len(),
{
    if rows.len() > 0 {
        lemma_layout_lengths(rows.drop_last(), wall_id);
    }
}

/// A complete layout: the wall's box, one placement per screen in row-major
/// order, and the tile numbering.
#[derive(Debug, Clone, PartialEq, Eq)]
pub struct LayoutResult {
    pub wall: WallGeometry,
    pub screens: Vec<ScreenGeometry>,
    pub tiles: Vec<TileIndex>,
}

/// A layout as mathematical values.
pub struct LayoutView {
    pub wall: Placement,
    pub screens: Seq<Placement>,
    pub tiles: Seq<(int, Seq<char>)>,
}

impl View for LayoutResult {
    type V = LayoutView;

    open spec fn view(&self) -> LayoutView {
        LayoutView {
            wall: self.wall@,
            screens: placements_of(self.screens@),
            tiles: tiles_of(self.tiles@),
        }
    }
}

/// One tile per placement, numbered 1, 2, 3, ... in order.
pub open spec fn consistent(screens: Seq<ScreenGeometry>, tiles: Seq<TileIndex>) -> bool {
    &&& screens.len() == tiles.len()
    &&& forall|j: int| 0 <= j < tiles.len() ==> (#[trigger] tiles[j]).index == j + 1
}

impl LayoutResult {
    /// The result's own invariant, which `build` establishes.
    pub open spec fn wf(&self) -> bool {
        consistent(self.screens@, self.tiles@)
    }
}

/// Assembles a layout, refusing parts that disagree on the number of screens
/// or a tile numbering that is not 1, 2, 3, ...
pub fn build(wall: WallGeometry, screens: Vec<ScreenGeometry>, tiles: Vec<TileIndex>) -> (r: Result<
    LayoutResult,
    LayoutError,
>)
    ensures
        consistent(screens@, tiles@) ==> r == Ok::<LayoutResult, LayoutError>(
            LayoutResult { wall, screens, tiles },
        ),
        !consistent(screens@, tiles@) ==> r == Err::<LayoutResult, LayoutError>(
            LayoutError::LayoutResultInconsistency {
                screens: screens.len(),
                tiles: tiles.len(),
            },
        ),
{
    let n = screens.len();
    let m = tiles.len();
    if n != m {
        return Err(LayoutError::LayoutResultInconsistency { screens: n, tiles: m });
    }
    let mut j: usize = 0;
    while j < m
        invariant
            m == tiles@.len(),
            n == screens@.len(),
            0 <= j <= m,
            forall|k: int| 0 <= k < j ==> (#[trigger] tiles@[k]).index == k + 1,
        decreases m - j,
    {
        if tiles[j].index != j + 1 {
            assert(!consistent(screens@, tiles@)) by {
                assert(tiles@[j as int].index != j + 1);
            }
            return Err(LayoutError::LayoutResultInconsistency { screens: n, tiles: m });
        }
        j += 1;
    }
    Ok(LayoutResult { wall, screens, tiles })
}

/// What `compute` returns for a wall: the first fault in row-major order; else
/// `TooLarge` where a value of the layout does not fit in an `i64`; else the
/// layout.
pub open spec fn expected_layout(wall: Config) -> Result<LayoutView, InputError> {
    let rows = wall.rows@;
    match wall_fault(rows) {
        Some(e) => Err(e),
        None => if wall_fits(rows) {
            Ok(
                LayoutView {
                    wall: wall_box(wall.name@, rows),
                    screens: wall_placements(rows, wall.name@),
                    tiles: tile_map(rows),
                },
            )
        } else {
            Err(InputError::TooLarge)
        },
    }
}

/// Whether `r` is what `compute` returns for `wall`.
pub open spec fn computes(wall: Config, r: Result<LayoutResult, LayoutError>) -> bool {
    match expected_layout(wall) {
        Ok(v) => r is Ok && r->Ok_0@ == v && r->Ok_0.wf(),
        Err(e) => r == Err::<LayoutResult, LayoutError>(LayoutError::InvalidLayoutInput(e)),
    }
}

/// Lays out a wall: its bounding box, every screen's placement and the tile
/// numbering, all or nothing.
pub fn compute(wall: &Config) -> (r: Result<LayoutResult, LayoutError>)
    ensures
        computes(*wall, r),
{
    match validate(wall) {
        Ok(()) => {},
        Err(e) => {
            return Err(LayoutError::InvalidLayoutInput(e));
        },
    }
    proof {
        lemma_valid_wall(wall.rows@);
    }
    let (width, height, heights) = match wall_extent(&wall.rows) {
        Some(e) => e,
        None => {
            return Err(LayoutError::InvalidLayoutInput(InputError::TooLarge));
        },
    };
    let mut screens: Vec<ScreenGeometry> = Vec::new();
    if !place_rows(wall, &heights, &mut screens) {
        return Err(LayoutError::InvalidLayoutInput(InputError::TooLarge));
    }
    let tiles = assign(wall);
    proof {
        assert(wall_fits(wall.rows@));
        lemma_layout_lengths(wall.rows@, wall.name@);
        assert(screens@.len() == placements_of(screens@).len());
        assert(tiles@.len() == tiles_of(tiles@).len());
        assert forall|j: int| 0 <= j < tiles@.len() implies (#[trigger] tiles@[j]).index == j
            + 1 by {
            assert(tiles_of(tiles@)[j] == tiles@[j]@);
        }
    }
    let wall_geometry = WallGeometry { wall_id: wall.name.clone(), x: 0, y: 0, width, height };
    build(wall_geometry, screens, tiles)
}

} // verus!
