use vstd::prelude::*;
use crate::geometry::Rect;
use rltk::Point;
use crate::storage::Entity;

verus! {

/// Width of the standard dungeon level, in tiles.
pub const MAPWIDTH: usize = 80;

/// Height of the standard dungeon level, in tiles.
pub const MAPHEIGHT: usize = 50;

/// Number of tiles of the standard dungeon level.
pub const MAPCOUNT: usize = 4000;

/// Largest number of tiles a map may have.
pub const MAX_TILES: usize = 0x100_0000;

/// Largest radius, in either sign, for which a field of view is computed.
pub const MAX_SIGHT: i32 = 1000;

/// What a tile is made of.
#[derive(Clone, Copy, Debug, PartialEq, Eq, Structural)]
pub enum TileType {
    Wall,
    Floor,
}

/// The dungeon level: a grid of tiles in row-major order and, per tile, whether
/// it blocks movement and which entities stand on it.
///
/// `tile_content` is the occupant index. It is rebuilt from outside once per
/// turn; the turn logic only reads it.
#[derive(Debug, PartialEq, Eq)]
pub struct TileMap {
    pub tiles: Vec<TileType>,
    pub rooms: Vec<Rect>,
    pub width: i32,
    pub height: i32,
    pub revealed_tiles: Vec<bool>,
    pub visible_tiles: Vec<bool>,
    pub blocked_tiles: Vec<bool>,
    pub tile_content: Vec<Vec<Entity>>,
}

/// Mathematical content of a [`TileMap`].
pub ghost struct TileMapView {
    pub tiles: Seq<TileType>,
    pub rooms: Seq<Rect>,
    pub width: int,
    pub height: int,
    pub revealed_tiles: Seq<bool>,
    pub visible_tiles: Seq<bool>,
    pub blocked_tiles: Seq<bool>,
    pub tile_content: Seq<Seq<Entity>>,
}

impl TileMapView {
    /// The grid has `width * height` tiles, and every per-tile list has one
    /// entry per tile.
    pub open spec fn wf(self) -> bool {
        &&& 0 <= self.width
        &&& 0 <= self.height
        &&& self.width * self.height <= MAX_TILES
        &&& self.tiles.len() == self.width * self.height
        &&& self.revealed_tiles.len() == self.tiles.len()
        &&& self.visible_tiles.len() == self.tiles.len()
        &&& self.blocked_tiles.len() == self.tiles.len()
        &&& self.tile_content.len() == self.tiles.len()
    }

    /// Whether `p` is a tile of the grid.
    pub open spec fn in_bounds(self, p: Point) -> bool {
        0 <= p.x < self.width && 0 <= p.y < self.height
    }

    /// Whether `p` is a tile of the grid that does not lie on its outermost
    /// ring.
    pub open spec fn is_interior(self, p: Point) -> bool {
        0 < p.x < self.width - 1 && 0 < p.y < self.height - 1
    }

    /// Row-major index of the tile `(x, y)`.
    pub open spec fn xy_idx(self, x: int, y: int) -> int {
        y * self.width + x
    }

    /// The entities standing on `p`.
    pub open spec fn occupants(self, p: Point) -> Seq<Entity> {
        self.tile_content[self.xy_idx(p.x as int, p.y as int)]
    }

    /// Per tile, whether it stops the line of sight.
    pub open spec fn walls(self) -> Seq<bool> {
        Seq::new(self.tiles.len(), |i: int| self.tiles[i] == TileType::Wall)
    }

    /// The same level with nobody standing anywhere.
    pub open spec fn vacated(self) -> TileMapView {
        TileMapView {
            tile_content: Seq::new(self.tiles.len(), |i: int| Seq::<Entity>::empty()),
            ..self
        }
    }
}

impl View for TileMap {
    type V = TileMapView;

    open spec fn view(&self) -> TileMapView {
        TileMapView {
            tiles: self.tiles@,
            rooms: self.rooms@,
            width: self.width as int,
            height: self.height as int,
            revealed_tiles: self.revealed_tiles@,
            visible_tiles: self.visible_tiles@,
            blocked_tiles: self.blocked_tiles@,
            tile_content: Seq::new(self.tile_content@.len(), |i: int| self.tile_content@[i]@),
        }
    }
}

/// In a well-formed grid every tile in bounds has a row-major index below the
/// number of tiles.
pub proof fn lemma_xy_idx_in_range(m: TileMapView, p: Point)
    requires
        m.wf(),
        m.in_bounds(p),
    ensures
        0 <= m.xy_idx(p.x as int, p.y as int) < m.tiles.len(),
        m.xy_idx(p.x as int, p.y as int) <= MAX_TILES,
{
    let w = m.width;
    let h = m.height;
    let x = p.x as int;
    let y = p.y as int;
    assert(y * w >= 0) by (nonlinear_arith)
        requires
            y >= 0,
            w >= 0,
    ;
    assert(y * w + w <= h * w) by (nonlinear_arith)
        requires
            y + 1 <= h,
            w >= 0,
    ;
    assert(h * w == w * h) by (nonlinear_arith);
}

impl TileMap {
    /// A level of `width` by `height` tiles, all of them `tile`, with no rooms,
    /// nothing seen, nothing blocked and nobody on it.
    pub fn new(width: i32, height: i32, tile: TileType) -> (m: TileMap)
        requires
            0 <= width,
            0 <= height,
            width * height <= MAX_TILES,
        ensures
            m@.wf(),
            m@.width == width,
            m@.height == height,
            m@.rooms.len() == 0,
            forall|i: int|
                0 <= i < width * height ==> m@.tiles[i] == tile && !m@.revealed_tiles[i]
                    && !m@.visible_tiles[i] && !m@.blocked_tiles[i] && m@.tile_content[i].len()
                    == 0,
    {
        assert(width * height >= 0) by (nonlinear_arith)
            requires
                width >= 0,
                height >= 0,
        ;
        let n: usize = (width as usize) * (height as usize);
        let mut tiles: Vec<TileType> = Vec::new();
        let mut revealed_tiles: Vec<bool> = Vec::new();
        let mut visible_tiles: Vec<bool> = Vec::new();
        let mut blocked_tiles: Vec<bool> = Vec::new();
        let mut tile_content: Vec<Vec<Entity>> = Vec::new();
        let mut i: usize = 0;
        while i < n
            invariant
                i <= n,
                tiles@.len() == i,
                revealed_tiles@.len() == i,
                visible_tiles@.len() == i,
                blocked_tiles@.len() == i,
                tile_content@.len() == i,
                forall|k: int|
                    0 <= k < i ==> tiles@[k] == tile && !revealed_tiles@[k] && !visible_tiles@[k]
                        && !blocked_tiles@[k] && tile_content@[k]@.len() == 0,
            decreases n - i,
        {
            tiles.push(tile);
            revealed_tiles.push(false);
            visible_tiles.push(false);
            blocked_tiles.push(false);
            tile_content.push(Vec::new());
            i += 1;
        }
        TileMap {
            tiles,
            rooms: Vec::new(),
            width,
            height,
            revealed_tiles,
            visible_tiles,
            blocked_tiles,
            tile_content,
        }
    }

    /// Whether the grid and its per-tile lists have matching sizes.
    pub fn is_well_formed(&self) -> (b: bool)
        ensures
            b == self@.wf(),
    {
        if self.width < 0 || self.height < 0 {
            return false;
        }
        assert((self.width as u64) * (self.height as u64) <= 0x7fff_ffff * 0x7fff_ffff)
            by (nonlinear_arith)
            requires
                0 <= self.width <= 0x7fff_ffff,
                0 <= self.height <= 0x7fff_ffff,
        ;
        let n: u64 = (self.width as u64) * (self.height as u64);
        n <= MAX_TILES as u64 && self.tiles.len() as u64 == n && self.revealed_tiles.len()
            == self.tiles.len() && self.visible_tiles.len() == self.tiles.len()
            && self.blocked_tiles.len() == self.tiles.len() && self.tile_content.len()
            == self.tiles.len()
    }

    /// Whether `p` is a tile of the grid.
    pub fn in_bounds(&self, p: Point) -> (b: bool)
        ensures
            b == self@.in_bounds(p),
    {
        0 <= p.x && p.x < self.width && 0 <= p.y && p.y < self.height
    }

    /// Whether `p` is a tile of the grid off its outermost ring.
    pub fn is_interior(&self, p: Point) -> (b: bool)
        ensures
            b == self@.is_interior(p),
    {
        p.x > 0 && (p.x as i64) < self.width as i64 - 1 && p.y > 0 && (p.y as i64)
            < self.height as i64 - 1
    }

    /// Row-major index of the tile `(x, y)`.
    pub fn xy_idx(&self, x: i32, y: i32) -> (idx: usize)
        requires
            self@.wf(),
            self@.in_bounds(Point { x, y }),
        ensures
            idx == self@.xy_idx(x as int, y as int),
            idx < self@.tiles.len(),
    {
        proof {
            lemma_xy_idx_in_range(self@, Point { x, y });
            assert(y * self.width >= 0) by (nonlinear_arith)
                requires
                    y >= 0,
                    self.width >= 0,
            ;
        }
        (y as usize) * (self.width as usize) + (x as usize)
    }

    /// Whether sight stops at the tile of index `idx`. Everything outside the
    /// grid does.
    pub fn blocks_sight(&self, idx: usize) -> (b: bool)
        ensures
            b == (idx >= self@.tiles.len() || self@.tiles[idx as int] == TileType::Wall),
    {
        idx >= self.tiles.len() || self.tiles[idx] == TileType::Wall
    }

    /// Empties the occupant index: afterwards nobody stands on any tile.
    pub fn clear_content(&mut self)
        ensures
            final(self)@ == old(self)@.vacated(),
    {
        let n = self.tiles.len();
        let mut content: Vec<Vec<Entity>> = Vec::new();
        let mut i: usize = 0;
        while i < n
            invariant
                i <= n,
                content@.len() == i,
                forall|k: int| 0 <= k < i ==> content@[k]@ == Seq::<Entity>::empty(),
            decreases n - i,
        {
            content.push(Vec::new());
            i += 1;
        }
        self.tile_content = content;
        assert(self@.tile_content =~= old(self)@.vacated().tile_content);
    }

    /// A copy of the level.
    pub fn duplicate(&self) -> (m: TileMap)
        ensures
            m@ == self@,
    {
        let mut content: Vec<Vec<Entity>> = Vec::new();
        let mut i: usize = 0;
        while i < self.tile_content.len()
            invariant
                i <= self.tile_content@.len(),
                content@.len() == i,
                forall|k: int| 0 <= k < i ==> content@[k]@ == self.tile_content@[k]@,
            decreases self.tile_content@.len() - i,
        {
            let row = self.tile_content[i].clone();
            assert(row@ =~= self.tile_content@[i as int]@);
            content.push(row);
            i += 1;
        }
        let m = TileMap {
            tiles: self.tiles.clone(),
            rooms: self.rooms.clone(),
            width: self.width,
            height: self.height,
            revealed_tiles: self.revealed_tiles.clone(),
            visible_tiles: self.visible_tiles.clone(),
            blocked_tiles: self.blocked_tiles.clone(),
            tile_content: content,
        };
        assert(m@.tiles =~= self@.tiles);
        assert(m@.rooms =~= self@.rooms);
        assert(m@.revealed_tiles =~= self@.revealed_tiles);
        assert(m@.visible_tiles =~= self@.visible_tiles);
        assert(m@.blocked_tiles =~= self@.blocked_tiles);
        assert(m@.tile_content =~= self@.tile_content);
        m
    }
}

} // verus!
