//! Properties that hold of every layout.
use vstd::prelude::*;
use crate::wall::{Config, Row, Screen, screens_of, screen_count, screen_ids, row_offset, screen_x};
use crate::layout::{
    LayoutResult,
    LayoutError,
    computes,
    tile_map,
    wall_fault,
    wall_fits,
    lemma_layout_lengths,
};

verus! {

/// For every valid wall whose layout fits, `compute` succeeds with one
/// placement per screen, and the tile numbering holds each index of
/// `1..=N` exactly once, where `N` is the number of screens.
pub proof fn lemma_one_entry_per_screen(wall: Config, r: Result<LayoutResult, LayoutError>)
    requires
        wall_fault(wall.rows@) is None,
        wall_fits(wall.rows@),
        computes(wall, r),
    ensures
        r is Ok,
        r->Ok_0.screens@.len() == screen_count(wall.rows@),
        r->Ok_0.tiles@.len() == screen_count(wall.rows@),
        r->Ok_0.tiles@.map_values(|t: crate::layout::TileIndex| t.index as int).no_duplicates(),
        r->Ok_0.tiles@.map_values(|t: crate::layout::TileIndex| t.index as int).to_set() == Set::new(
            |n: int| 1 <= n <= screen_count(wall.rows@),
        ),
{
    let res = r->Ok_0;
    lemma_layout_lengths(wall.rows@, wall.name@);
    assert(res.screens@.len() == res@.screens.len());
    assert(res.tiles@.len() == res@.tiles.len());
    let keys = res.tiles@.map_values(|t: crate::layout::TileIndex| t.index as int);
    assert forall|j: int| 0 <= j < keys.len() implies #[trigger] keys[j] == j + 1 by {
        assert(res@.tiles[j] == res.tiles@[j]@);
    }
    assert(keys.to_set() =~= Set::new(|n: int| 1 <= n <= screen_count(wall.rows@))) by {
        assert forall|n: int| 1 <= n <= screen_count(wall.rows@) implies keys.to_set().contains(
            n,
        ) by {
            assert(keys[n - 1] == n);
        }
    }
}

/// Two runs of `compute` on equal walls give the same outcome: the same
/// error, or layouts with the same ids and the same numbers everywhere.
pub proof fn lemma_compute_deterministic(
    a: Config,
    b: Config,
    ra: Result<LayoutResult, LayoutError>,
    rb: Result<LayoutResult, LayoutError>,
)
    requires
        a == b,
        computes(a, ra),
        computes(b, rb),
    ensures
        ra is Ok <==> rb is Ok,
        ra is Ok ==> ra->Ok_0@ == rb->Ok_0@,
        ra is Err ==> ra == rb,
{
}

/// The screen ids of rows `a` stacked above rows `b` are those of `a`
/// followed by those of `b`.
pub proof fn lemma_screen_ids_stack(a: Seq<Row>, b: Seq<Row>)
    ensures
        screen_ids(a + b) == screen_ids(a) + screen_ids(b),
    decreases b.len(),
{
    if b.len() == 0 {
        assert(a + b =~= a);
        assert(screen_ids(a) + screen_ids(b) =~= screen_ids(a));
    } else {
        assert((a + b).drop_last() =~= a + b.drop_last());
        assert((a + b).last() == b.last());
        lemma_screen_ids_stack(a, b.drop_last());
        let tail = screens_of(b.last()).map_values(|sc: Screen| sc.id@);
        assert(screen_ids(a) + screen_ids(b.drop_last()) + tail =~= screen_ids(a) + (screen_ids(
            b.drop_last(),
        ) + tail));
    }
}

/// The tile numbering follows the order of the rows as given and nothing
/// else: for rows `a` stacked above rows `b`, the tiles of `a` keep their
/// numbers and those of `b` follow, shifted by the number of screens in `a`.
pub proof fn lemma_tiles_follow_row_order(a: Seq<Row>, b: Seq<Row>)
    ensures
        tile_map(a + b) == tile_map(a) + tile_map(b).map_values(
            |t: (int, Seq<char>)| (t.0 + screen_count(a), t.1),
        ),
{
    lemma_screen_ids_stack(a, b);
    lemma_layout_lengths(a, Seq::empty());
    assert(tile_map(a + b) =~= tile_map(a) + tile_map(b).map_values(
        |t: (int, Seq<char>)| (t.0 + screen_count(a), t.1),
    ));
}


/// Placement within a row follows one recurrence. The first screen sits at
/// `x = 0` and the running offset starts at zero. Every later screen sits at
/// the running offset plus its own bezel. After each screen the offset
/// grows by that screen's `x`, its width and its bezel, so a bezel is counted
/// both in the screen's `x` and again in the offset.
pub proof fn lemma_bezel_offset_recurrence(s: Seq<Screen>, j: int)
    requires
        0 <= j < s.len(),
    ensures
        screen_x(s, 0) == 0,
        row_offset(s.take(0)) == 0,
        j > 0 ==> screen_x(s, j) == row_offset(s.take(j)) + s[j].bezel,
        row_offset(s.take(j + 1)) == row_offset(s.take(j)) + screen_x(s, j) + s[j].width
            + s[j].bezel,
{
    assert(s.take(j + 1).drop_last() =~= s.take(j));
    assert(s.take(j + 1).last() == s[j]);
    assert(s.take(0).len() == 0);
}

} // verus!
