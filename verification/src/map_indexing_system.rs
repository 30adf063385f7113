use vstd::prelude::*;
use rltk::Point;
use crate::map::{lemma_xy_idx_in_range, TileMapView, TileType};
use crate::storage::Entity;
use crate::world::{World, WorldView};

verus! {

/// Whether the entity of id `e` stands on the tile of index `t`.
pub open spec fn stands_on(w: WorldView, e: int, t: int) -> bool {
    &&& w.positions.dom().contains(e)
    &&& w.map.in_bounds(Point { x: w.positions[e].x, y: w.positions[e].y })
    &&& w.map.xy_idx(w.positions[e].x as int, w.positions[e].y as int) == t
}

/// The entities with an id below `n` that stand on the tile of index `t`, by
/// id.
pub open spec fn standing(w: WorldView, t: int, n: nat) -> Seq<Entity>
    decreases n,
{
    if n == 0 {
        Seq::empty()
    } else if stands_on(w, n - 1, t) {
        standing(w, t, (n - 1) as nat).push(Entity { id: (n - 1) as usize })
    } else {
        standing(w, t, (n - 1) as nat)
    }
}

/// Whether the tile of index `t` is a wall, or one of the entities with an id
/// below `n` stands on it and blocks it.
pub open spec fn barred(w: WorldView, t: int, n: nat) -> bool
    decreases n,
{
    if n == 0 {
        w.map.tiles[t] == TileType::Wall
    } else {
        barred(w, t, (n - 1) as nat) || (stands_on(w, n - 1, t) && w.blockers.dom().contains(
            n - 1,
        ))
    }
}

/// The level after the entities with an id below `n` were entered into the
/// occupant index and the blocking flags.
pub open spec fn indexed_below(w: WorldView, n: nat) -> TileMapView {
    TileMapView {
        blocked_tiles: Seq::new(w.map.tiles.len(), |t: int| barred(w, t, n)),
        tile_content: Seq::new(w.map.tiles.len(), |t: int| standing(w, t, n)),
        ..w.map
    }
}

/// The world after the spatial re-index: every tile lists who stands on it, by
/// id, and is blocked if it is a wall or somebody on it blocks it.
pub open spec fn indexed(w: WorldView) -> WorldView {
    WorldView { map: indexed_below(w, w.alive.len()), ..w }
}

/// The system that rebuilds the occupant index.
pub struct MapIndexingSystem {}

impl MapIndexingSystem {
    /// Rebuilds the occupant index and the blocking flags from the positions.
    /// Whoever stands outside the grid is not listed.
    pub fn run(&mut self, world: &mut World)
        requires
            old(world)@.wf(),
        ensures
            final(world)@ == indexed(old(world)@),
            final(world)@.wf(),
    {
        let ghost w0 = world@;
        let tiles = world.map.tiles.len();
        let mut blocked: Vec<bool> = Vec::new();
        let mut content: Vec<Vec<Entity>> = Vec::new();
        let mut t: usize = 0;
        while t < tiles
            invariant
                t <= tiles,
                tiles == w0.map.tiles.len(),
                world@ == w0,
                blocked@.len() == t,
                content@.len() == t,
                forall|s: int| 0 <= s < t ==> blocked@[s] == barred(w0, s, 0),
                forall|s: int| 0 <= s < t ==> (#[trigger] content@[s])@ == standing(w0, s, 0),
            decreases tiles - t,
        {
            blocked.push(world.map.tiles[t] == TileType::Wall);
            content.push(Vec::new());
            t += 1;
        }
        world.map.blocked_tiles = blocked;
        world.map.tile_content = content;
        assert(world@.map =~= indexed_below(w0, 0)) by {
            assert(world@.map.tile_content =~= indexed_below(w0, 0).tile_content);
            assert(world@.map.blocked_tiles =~= indexed_below(w0, 0).blocked_tiles);
        }
        let n = world.alive.len();
        let mut i: usize = 0;
        while i < n
            invariant
                i <= n,
                n == w0.alive.len(),
                w0.wf(),
                world@ == (WorldView { map: indexed_below(w0, i as nat), ..w0 }),
            decreases n - i,
        {
            let entity = Entity { id: i };
            let ghost before = world@.map;
            let spot = match world.positions.get(entity) {
                Some(p) => Some(Point { x: p.x, y: p.y }),
                None => None,
            };
            if let Some(p) = spot {
                if world.map.in_bounds(Point { x: p.x, y: p.y }) {
                    proof {
                        lemma_xy_idx_in_range(w0.map, p);
                    }
                    let idx = world.map.xy_idx(p.x, p.y);
                    assert(world.map.tile_content@.len() == world@.map.tile_content.len());
                    assert(world.map.blocked_tiles@.len() == w0.map.tiles.len());
                    if world.blockers.contains(entity) {
                        world.map.blocked_tiles[idx] = true;
                    }
                    world.map.tile_content[idx].push(entity);
                    assert(world@.map.tile_content[idx as int] == before.tile_content[idx as int].push(
                        entity,
                    ));
                }
            }
            assert(world@.map =~= indexed_below(w0, (i + 1) as nat)) by {
                assert forall|t: int| 0 <= t < w0.map.tiles.len() implies world@.map.tile_content[t]
                    == standing(w0, t, (i + 1) as nat) by {
                    assert(before.tile_content[t] == standing(w0, t, i as nat));
                    if !stands_on(w0, i as int, t) {
                        assert(world@.map.tile_content[t] == before.tile_content[t]);
                    }
                }
                assert(world@.map.tile_content =~= indexed_below(w0, (i + 1) as nat).tile_content);
                assert(world@.map.blocked_tiles =~= indexed_below(
                    w0,
                    (i + 1) as nat,
                ).blocked_tiles);
            }
            i += 1;
        }
    }
}

} // verus!
