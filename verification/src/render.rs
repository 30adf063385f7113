use vstd::prelude::*;
use rltk::Point;
use crate::components::{Position, Renderable};
use crate::storage::Entity;
use crate::world::{World, WorldView};

verus! {

/// Whether the entity of id `e` is drawn: it has a position and a look, and
/// its tile is a tile of the grid that is visible right now.
pub open spec fn shown(w: WorldView, e: int) -> bool {
    &&& w.positions.dom().contains(e)
    &&& w.renderables.dom().contains(e)
    &&& w.map.in_bounds(Point { x: w.positions[e].x, y: w.positions[e].y })
    &&& w.map.visible_tiles[w.map.xy_idx(w.positions[e].x as int, w.positions[e].y as int)]
}

/// Where something of layer `layer` goes into `list`: behind everything of
/// its own layer and of higher ones.
pub open spec fn slot(list: Seq<(Position, Renderable)>, layer: i32) -> int
    decreases list.len(),
{
    if list.len() == 0 || list[0].1.render_order < layer {
        0
    } else {
        1 + slot(list.drop_first(), layer)
    }
}

/// What is drawn of the entities with an id below `n`, in drawing order: higher
/// layers first, and within a layer by id.
pub open spec fn draw_list(w: WorldView, n: nat) -> Seq<(Position, Renderable)>
    decreases n,
{
    if n == 0 {
        Seq::empty()
    } else {
        let before = draw_list(w, (n - 1) as nat);
        if shown(w, n - 1) {
            let item = (w.positions[n - 1], w.renderables[n - 1]);
            before.insert(slot(before, item.1.render_order), item)
        } else {
            before
        }
    }
}

/// Whether the layers of `list` never rise.
pub open spec fn layered(list: Seq<(Position, Renderable)>) -> bool {
    forall|i: int, j: int|
        0 <= i <= j < list.len() ==> list[i].1.render_order >= list[j].1.render_order
}

/// The slot lies within the list, with no lower layer before it and no higher
/// or equal one from it on, if the list is layered.
pub proof fn lemma_slot(list: Seq<(Position, Renderable)>, layer: i32)
    requires
        layered(list),
    ensures
        0 <= slot(list, layer) <= list.len(),
        forall|i: int| 0 <= i < slot(list, layer) ==> list[i].1.render_order >= layer,
        forall|i: int| slot(list, layer) <= i < list.len() ==> list[i].1.render_order < layer,
    decreases list.len(),
{
    if list.len() > 0 && list[0].1.render_order >= layer {
        let rest = list.drop_first();
        assert forall|i: int, j: int| 0 <= i <= j < rest.len() implies rest[i].1.render_order
            >= rest[j].1.render_order by {
            assert(rest[i] == list[i + 1] && rest[j] == list[j + 1]);
        }
        lemma_slot(rest, layer);
        assert forall|i: int| 0 <= i < slot(list, layer) implies list[i].1.render_order
            >= layer by {
            if i > 0 {
                assert(rest[i - 1] == list[i]);
            }
        }
        assert forall|i: int| slot(list, layer) <= i < list.len() implies list[i].1.render_order
            < layer by {
            assert(rest[i - 1] == list[i]);
        }
    }
}

/// The drawing order is layered: nothing is drawn over something of a lower
/// layer.
pub proof fn lemma_draw_list_layered(w: WorldView, n: nat)
    ensures
        layered(draw_list(w, n)),
    decreases n,
{
    if n > 0 {
        lemma_draw_list_layered(w, (n - 1) as nat);
        let before = draw_list(w, (n - 1) as nat);
        if shown(w, n - 1) {
            let item = (w.positions[n - 1], w.renderables[n - 1]);
            lemma_slot(before, item.1.render_order);
        }
    }
}

/// Finds the slot of `layer` in `list`.
fn find_slot(list: &Vec<(Position, Renderable)>, layer: i32) -> (at: usize)
    ensures
        at == slot(list@, layer),
        at <= list@.len(),
{
    let mut at: usize = 0;
    assert(list@.skip(0) =~= list@);
    while at < list.len() && list[at].1.render_order >= layer
        invariant
            at <= list@.len(),
            slot(list@, layer) == at + slot(list@.skip(at as int), layer),
        decreases list@.len() - at,
    {
        proof {
            let rest = list@.skip(at as int);
            assert(rest[0] == list@[at as int]);
            assert(rest.drop_first() =~= list@.skip(at + 1));
        }
        at += 1;
    }
    proof {
        let rest = list@.skip(at as int);
        if at < list@.len() {
            assert(rest[0] == list@[at as int]);
        }
    }
    at
}

/// Lists what is to be drawn, in drawing order.
pub fn render_list(ecs: &World) -> (list: Vec<(Position, Renderable)>)
    requires
        ecs@.map.wf(),
    ensures
        list@ == draw_list(ecs@, ecs@.alive.len()),
        layered(list@),
{
    let n = ecs.alive.len();
    let mut list: Vec<(Position, Renderable)> = Vec::new();
    let mut i: usize = 0;
    while i < n
        invariant
            i <= n,
            ecs@.map.wf(),
            list@ == draw_list(ecs@, i as nat),
        decreases n - i,
    {
        let e = Entity { id: i };
        if let Some(pos) = ecs.positions.get(e) {
            if let Some(render) = ecs.renderables.get(e) {
                let at = Point { x: pos.x, y: pos.y };
                if ecs.map.in_bounds(at) {
                    let idx = ecs.map.xy_idx(pos.x, pos.y);
                    if ecs.map.visible_tiles[idx] {
                        let slot = find_slot(&list, render.render_order);
                        list.insert(slot, (*pos, *render));
                    }
                }
            }
        }
        i += 1;
    }
    proof {
        lemma_draw_list_layered(ecs@, n as nat);
    }
    list
}

} // verus!
