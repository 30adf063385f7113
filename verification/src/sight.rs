use vstd::prelude::*;
use rltk::Point;
use crate::map::{TileMap, MAX_SIGHT};

verus! {

/// Lets `rltk` ask the level which tiles stop the sight: the walls, and
/// whatever index lies outside the grid.
impl rltk::BaseMap for TileMap {
    fn is_opaque(&self, idx: usize) -> (opaque: bool)
        ensures
            opaque == (idx >= self@.tiles.len() || self@.walls()[idx as int]),
    {
        self.blocks_sight(idx)
    }
}

/// Lets `rltk` ask the level for its size: `x` is the width and `y` the
/// height. Everything else that `rltk` needs to know of a grid it derives from
/// the size.
impl rltk::Algorithm2D for TileMap {
    fn dimensions(&self) -> (size: Point)
        ensures
            size.x == self@.width,
            size.y == self@.height,
    {
        Point { x: self.width, y: self.height }
    }
}

/// The set of tiles that a viewer at `(cx, cy)` sees within `range` on a grid
/// of `width` by `height` tiles, of which `walls` says which stop the sight, as
/// `rltk::field_of_view` computes it.
pub uninterp spec fn visible_from(
    cx: int,
    cy: int,
    range: int,
    width: int,
    height: int,
    walls: Seq<bool>,
) -> Set<(int, int)>;

/// The coordinates of each point of `tiles`, as a set.
pub open spec fn tile_set(tiles: Seq<Point>) -> Set<(int, int)> {
    tiles.map_values(|p: Point| (p.x as int, p.y as int)).to_set()
}

/// Calls `rltk::field_of_view`, which walks the grid through the `BaseMap`
/// and `Algorithm2D` impls above. It collects the tiles it saw in a hash set,
/// so each comes once and in no particular order, and it drops those outside the
/// grid before returning. Which tiles those are is not proved here: the
/// contract only gives the set a name, which depends on nothing but the viewer,
/// the range, the size of the grid and its walls. The centre must be a tile of
/// the grid and the range moderate, because `rltk` indexes and allocates by
/// them.
#[verifier::external_body]
pub(crate) fn field_of_view(start: Point, range: i32, map: &TileMap) -> (tiles: Vec<Point>)
    requires
        map@.wf(),
        map@.in_bounds(start),
        -MAX_SIGHT <= range <= MAX_SIGHT,
    ensures
        tiles@.no_duplicates(),
        forall|i: int| 0 <= i < tiles@.len() ==> map@.in_bounds(#[trigger] tiles@[i]),
        tile_set(tiles@) == visible_from(
            start.x as int,
            start.y as int,
            range as int,
            map@.width,
            map@.height,
            map@.walls(),
        ),
{
    rltk::field_of_view(start, range, map)
}

} // verus!

