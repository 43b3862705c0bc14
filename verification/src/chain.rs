//! Chains of detonations: a detonation sets off every bomb in its blast,
//! whose blast sets off further bombs, until no blast holds a live bomb.

use vstd::prelude::*;
use crate::bomb::{
    bomb_of, has_bomb, lemma_restored_add, ordered, owned, restored, Bomb, BombExploded,
    BombRegistry,
};
use crate::explosion::{
    blast_reaches, explosion_of, ignite, is_blast_of, lemma_ignited_blast, propagate, Explosion,
    DEFAULT_EXPLOSION_PERIOD,
};
use crate::map::{Cell, MapState, Material};

verus! {

/// Whether the blast of the detonation covers the cell.
pub open spec fn covers(terrain: &MapState, event: BombExploded, cell: Cell) -> bool {
    blast_reaches(terrain, event.bomb_cell, event.bomb_fire_range, cell)
}

/// Whether the blast of one of the first `upto` detonations covers the cell.
pub open spec fn struck(
    terrain: &MapState,
    events: Seq<BombExploded>,
    upto: int,
    cell: Cell,
) -> bool {
    exists|k: int| 0 <= k < upto && k < events.len() && #[trigger] covers(terrain, events[k], cell)
}

/// Whether one of the detonations is that of the bomb with the handle.
pub open spec fn detonated(events: Seq<BombExploded>, id: u64) -> bool {
    exists|k: int| 0 <= k < events.len() && (#[trigger] events[k]).bomb_id == id
}

/// Whether detonation `j` is the first whose blast covers the cell.
pub open spec fn first_struck_by(
    terrain: &MapState,
    events: Seq<BombExploded>,
    j: int,
    cell: Cell,
) -> bool {
    0 <= j < events.len() && covers(terrain, events[j], cell) && !struck(terrain, events, j, cell)
}

/// The place of the first detonation whose blast covers the cell, if there
/// is one.
pub open spec fn cause_of(terrain: &MapState, events: Seq<BombExploded>, cell: Cell) -> int {
    choose|j: int| first_struck_by(terrain, events, j, cell)
}

/// Whether detonation `k` is rightly listed before detonation `l`, both
/// being of bombs that stood in a blast: the bomb of `k` was reached by an
/// earlier detonation, or by the same and was created first.
pub open spec fn comes_before(
    terrain: &MapState,
    events: Seq<BombExploded>,
    k: int,
    l: int,
) -> bool {
    let by_k = cause_of(terrain, events, events[k].bomb_cell);
    let by_l = cause_of(terrain, events, events[l].bomb_cell);
    by_k < by_l || (by_k == by_l && events[k].bomb_id < events[l].bomb_id)
}

/// Whether the detonations after the first `first` are listed in the order
/// in which their bombs were reached, when the blasts of the first `done`
/// detonations have been dealt with: each is of a bomb in the blast of one
/// of those, and they come by the place of the first detonation that
/// reached them and, where that is the same, by the creation of their bombs.
pub open spec fn in_chain_order(
    terrain: &MapState,
    first: int,
    events: Seq<BombExploded>,
    done: int,
) -> bool {
    &&& forall|k: int|
        first <= k < events.len() ==> {
            let by = cause_of(terrain, events, (#[trigger] events[k]).bomb_cell);
            first_struck_by(terrain, events, by, events[k].bomb_cell) && by < done
        }
    &&& forall|k: int, l: int|
        first <= k < l < events.len() ==> #[trigger] comes_before(terrain, events, k, l)
}

/// The explosions of the first `upto` blasts, blast after blast.
pub open spec fn joined(blasts: Seq<Vec<Explosion>>, upto: int) -> Seq<Explosion>
    decreases upto,
{
    if upto <= 0 {
        Seq::empty()
    } else {
        joined(blasts, upto - 1) + blasts[upto - 1]@
    }
}

/// Whether an explosion of one of the first `upto` blasts, or one of the
/// first `within` explosions of the next blast, is on the cell.
pub open spec fn burnt(blasts: Seq<Vec<Explosion>>, upto: int, within: int, cell: Cell) -> bool {
    exists|k: int, i: int|
        0 <= k < blasts.len() && 0 <= i < blasts[k]@.len() && (k < upto || (k == upto && i
            < within)) && (#[trigger] blasts[k]@[i]).cell == cell
}

/// What one pass of detonations did: the detonations in the order in which
/// they were resolved, and the explosions that each of them lit.
#[derive(Debug, Clone, PartialEq, Eq)]
pub struct Resolution {
    /// The detonations; each is of another bomb.
    pub detonations: Vec<BombExploded>,
    /// For each detonation, at the same place, its explosions.
    pub blasts: Vec<Vec<Explosion>>,
    /// How many of the detonations, the first ones, set the pass off; the
    /// others are of bombs that stood in the blast of an earlier one.
    pub triggered: usize,
}

impl Resolution {
    /// All explosions of the pass, blast after blast.
    pub open spec fn lit(&self) -> Seq<Explosion> {
        joined(self.blasts@, self.blasts@.len() as int)
    }
}

/// What holds while a chain of detonations is being resolved, when the
/// blasts of the first `done` detonations have been dealt with: `left` are
/// the bombs of `origin` that have not detonated; no bomb detonated twice;
/// every detonation after the first `first` is of a bomb in the blast of an
/// earlier one; no bomb that is left stands in a blast that was dealt with.
pub open spec fn chain_inv(
    terrain: &MapState,
    origin: Seq<Bomb>,
    first: int,
    events: Seq<BombExploded>,
    done: int,
    left: Seq<Bomb>,
) -> bool {
    &&& 0 <= first <= events.len()
    &&& 0 <= done <= events.len()
    &&& left.len() + events.len() == origin.len()
    &&& forall|k: int, l: int|
        0 <= k < l < events.len() ==> (#[trigger] events[k]).bomb_id != (#[trigger] events[l]).bomb_id
    &&& forall|k: int|
        0 <= k < events.len() ==> has_bomb(origin, (#[trigger] events[k]).bomb_id) && events[k]
            == bomb_of(origin, events[k].bomb_id).detonation()
    &&& forall|k: int|
        first <= k < events.len() ==> struck(terrain, events, k, (#[trigger] events[k]).bomb_cell)
    &&& forall|b: Bomb| #[trigger] left.contains(b) <==> origin.contains(b) && !detonated(events, b.id)
    &&& forall|b: Bomb| #[trigger] left.contains(b) ==> !struck(terrain, events, done, b.cell)
    &&& forall|player_id: u128|
        owned(left, player_id) + #[trigger] restored(events, player_id) == owned(origin, player_id)
}

/// Whether `resolution` resolves the chain that its first detonations, of
/// bombs of `origin`, set off, leaving the bombs `left`: every bomb of
/// `origin` detonated at most once; a bomb detonated, beyond those first
/// ones, exactly if it stood in the blast of a detonation; those bombs are
/// listed in the order in which the blasts reached them; and each detonation
/// has its blast on the terrain as it was.
pub open spec fn chained(
    terrain: &MapState,
    origin: Seq<Bomb>,
    now: u64,
    resolution: Resolution,
    left: Seq<Bomb>,
) -> bool {
    let events = resolution.detonations@;
    &&& chain_inv(terrain, origin, resolution.triggered as int, events, events.len() as int, left)
    &&& in_chain_order(terrain, resolution.triggered as int, events, events.len() as int)
    &&& resolution.blasts@.len() == events.len()
    &&& forall|k: int|
        0 <= k < events.len() ==> is_blast_of(
            terrain,
            events[k],
            now,
            (#[trigger] resolution.blasts@[k])@,
        )
}

/// A detonation is in two lists taken together exactly if it is in one.
proof fn lemma_detonated_add(events: Seq<BombExploded>, hits: Seq<BombExploded>, id: u64)
    ensures
        detonated(events + hits, id) <==> detonated(events, id) || detonated(hits, id),
{
    let all = events + hits;
    let n = events.len() as int;
    if detonated(events, id) {
        let k = choose|k: int| 0 <= k < events.len() && (#[trigger] events[k]).bomb_id == id;
        assert(all[k].bomb_id == id);
    }
    if detonated(hits, id) {
        let k = choose|k: int| 0 <= k < hits.len() && (#[trigger] hits[k]).bomb_id == id;
        assert(all[k + n].bomb_id == id);
    }
}

/// A cell struck by the first detonations of a list is struck by the first
/// detonations of any longer list.
proof fn lemma_struck_add(
    terrain: &MapState,
    events: Seq<BombExploded>,
    hits: Seq<BombExploded>,
    upto: int,
    cell: Cell,
)
    requires
        upto <= events.len(),
    ensures
        struck(terrain, events + hits, upto, cell) <==> struck(terrain, events, upto, cell),
{
    let all = events + hits;
    if struck(terrain, events, upto, cell) {
        let j = choose|j: int|
            0 <= j < upto && j < events.len() && #[trigger] covers(terrain, events[j], cell);
        assert(all[j] == events[j]);
    }
}

/// The detonation of a bomb that was left is that of a bomb of the origin
/// which had not detonated.
proof fn lemma_hit_from_origin(
    origin: Seq<Bomb>,
    events: Seq<BombExploded>,
    left: Seq<Bomb>,
    hit: BombExploded,
)
    requires
        ordered(origin),
        forall|b: Bomb| #[trigger] left.contains(b) ==> origin.contains(b) && !detonated(events, b.id),
        has_bomb(left, hit.bomb_id),
        hit == bomb_of(left, hit.bomb_id).detonation(),
    ensures
        has_bomb(origin, hit.bomb_id),
        hit == bomb_of(origin, hit.bomb_id).detonation(),
        !detonated(events, hit.bomb_id),
{
    let id = hit.bomb_id;
    let b = bomb_of(left, id);
    assert(left.contains(b));
}

/// Only one detonation is the first whose blast covers a cell.
proof fn lemma_first_strike_is_unique(
    terrain: &MapState,
    events: Seq<BombExploded>,
    j: int,
    cell: Cell,
)
    requires
        first_struck_by(terrain, events, j, cell),
    ensures
        cause_of(terrain, events, cell) == j,
{
    let by = cause_of(terrain, events, cell);
    assert(first_struck_by(terrain, events, by, cell));
}

/// The first detonation to reach a cell stays the first when detonations
/// join the list at its end.
proof fn lemma_first_strike_add(
    terrain: &MapState,
    events: Seq<BombExploded>,
    hits: Seq<BombExploded>,
    j: int,
    cell: Cell,
)
    requires
        first_struck_by(terrain, events, j, cell),
    ensures
        first_struck_by(terrain, events + hits, j, cell),
        cause_of(terrain, events + hits, cell) == j,
{
    let all = events + hits;
    lemma_first_strike_is_unique(terrain, all, j, cell);
}

/// Dealing with the blast of the next detonation keeps the list in the
/// order in which the bombs were reached: the bombs that this blast is the
/// first to cover join the list at its end, in the order of their creation.
proof fn lemma_chain_order_step(
    terrain: &MapState,
    first: int,
    events: Seq<BombExploded>,
    done: int,
    hits: Seq<BombExploded>,
)
    requires
        in_chain_order(terrain, first, events, done),
        0 <= first <= events.len(),
        0 <= done < events.len(),
        forall|k: int|
            0 <= k < hits.len() ==> first_struck_by(
                terrain,
                events,
                done,
                (#[trigger] hits[k]).bomb_cell,
            ),
        forall|k: int, l: int|
            0 <= k < l < hits.len() ==> (#[trigger] hits[k]).bomb_id < (#[trigger] hits[l]).bomb_id,
    ensures
        in_chain_order(terrain, first, events + hits, done + 1),
{
    let all = events + hits;
    let n = events.len() as int;
    assert forall|k: int| first <= k < all.len() implies {
        let by = cause_of(terrain, all, (#[trigger] all[k]).bomb_cell);
        &&& first_struck_by(terrain, all, by, all[k].bomb_cell)
        &&& by < done + 1
        &&& k < n ==> by == cause_of(terrain, events, events[k].bomb_cell)
        &&& k >= n ==> by == done
    } by {
        if k < n {
            let by = cause_of(terrain, events, events[k].bomb_cell);
            lemma_first_strike_add(terrain, events, hits, by, events[k].bomb_cell);
        } else {
            lemma_first_strike_add(terrain, events, hits, done, hits[k - n].bomb_cell);
        }
    }
    assert forall|k: int, l: int| first <= k < l < all.len() implies #[trigger] comes_before(
        terrain,
        all,
        k,
        l,
    ) by {
        if l < n {
            assert(comes_before(terrain, events, k, l));
        }
    }
}

/// The bombs that detonate in the blast of the next detonation had not
/// been reached by an earlier one.
proof fn lemma_hits_are_first_struck(
    terrain: &MapState,
    origin: Seq<Bomb>,
    first: int,
    events: Seq<BombExploded>,
    done: int,
    left: Seq<Bomb>,
    cells: Seq<Cell>,
    hits: Seq<BombExploded>,
)
    requires
        chain_inv(terrain, origin, first, events, done, left),
        done < events.len(),
        forall|cell: Cell| cells.contains(cell) <==> covers(terrain, events[done], cell),
        forall|k: int|
            0 <= k < hits.len() ==> {
                let id = (#[trigger] hits[k]).bomb_id;
                &&& has_bomb(left, id)
                &&& cells.contains(hits[k].bomb_cell)
                &&& hits[k] == bomb_of(left, id).detonation()
            },
    ensures
        forall|k: int|
            0 <= k < hits.len() ==> first_struck_by(
                terrain,
                events,
                done,
                (#[trigger] hits[k]).bomb_cell,
            ),
{
    assert forall|k: int| 0 <= k < hits.len() implies first_struck_by(
        terrain,
        events,
        done,
        (#[trigger] hits[k]).bomb_cell,
    ) by {
        let id = hits[k].bomb_id;
        let b = bomb_of(left, id);
        assert(left.contains(b));
    }
}

/// Dealing with the blast of the next detonation keeps a chain in order:
/// the bombs that stand on the cells of the blast detonate and join the
/// list, the others are left.
proof fn lemma_chain_step(
    terrain: &MapState,
    origin: Seq<Bomb>,
    first: int,
    events: Seq<BombExploded>,
    done: int,
    left: Seq<Bomb>,
    cells: Seq<Cell>,
    hits: Seq<BombExploded>,
    rest: Seq<Bomb>,
)
    requires
        chain_inv(terrain, origin, first, events, done, left),
        done < events.len(),
        ordered(origin),
        ordered(left),
        forall|cell: Cell| cells.contains(cell) <==> covers(terrain, events[done], cell),
        rest.len() + hits.len() == left.len(),
        forall|b: Bomb| rest.contains(b) <==> left.contains(b) && !cells.contains(b.cell),
        forall|i: int|
            0 <= i < left.len() && cells.contains((#[trigger] left[i]).cell) ==> hits.contains(
                left[i].detonation(),
            ),
        forall|k: int|
            0 <= k < hits.len() ==> {
                let id = (#[trigger] hits[k]).bomb_id;
                &&& has_bomb(left, id)
                &&& cells.contains(hits[k].bomb_cell)
                &&& hits[k] == bomb_of(left, id).detonation()
            },
        forall|k: int, l: int|
            0 <= k < l < hits.len() ==> (#[trigger] hits[k]).bomb_id < (#[trigger] hits[l]).bomb_id,
        forall|player_id: u128|
            owned(rest, player_id) + restored(hits, player_id) == owned(left, player_id),
    ensures
        chain_inv(terrain, origin, first, events + hits, done + 1, rest),
{
    let all = events + hits;
    let n = events.len() as int;
    assert forall|k: int, l: int| 0 <= k < l < all.len() implies (#[trigger] all[k]).bomb_id != (
    #[trigger] all[l]).bomb_id by {
        if k < n <= l {
            lemma_hit_from_origin(origin, events, left, hits[l - n]);
        }
    }
    assert forall|k: int| 0 <= k < all.len() implies has_bomb(
        origin,
        (#[trigger] all[k]).bomb_id,
    ) && all[k] == bomb_of(origin, all[k].bomb_id).detonation() by {
        if k >= n {
            lemma_hit_from_origin(origin, events, left, hits[k - n]);
        }
    }
    assert forall|k: int| first <= k < all.len() implies struck(
        terrain,
        all,
        k,
        (#[trigger] all[k]).bomb_cell,
    ) by {
        if k < n {
            lemma_struck_add(terrain, events, hits, k, events[k].bomb_cell);
        } else {
            assert(all[done] == events[done]);
        }
    }
    assert forall|b: Bomb| #[trigger] rest.contains(b) <==> origin.contains(b) && !detonated(
        all,
        b.id,
    ) by {
        lemma_detonated_add(events, hits, b.id);
    }
    assert forall|player_id: u128|
        owned(rest, player_id) + #[trigger] restored(all, player_id) == owned(
            origin,
            player_id,
        ) by {
        lemma_restored_add(events, hits, player_id);
    }
}

/// A cell is burnt by the explosions of blasts exactly if one of the
/// detonations that lit them covers it.
pub(crate) proof fn lemma_burnt_is_struck(
    terrain: &MapState,
    events: Seq<BombExploded>,
    now: u64,
    blasts: Seq<Vec<Explosion>>,
    cell: Cell,
)
    requires
        blasts.len() == events.len(),
        forall|k: int|
            0 <= k < events.len() ==> is_blast_of(terrain, events[k], now, (#[trigger] blasts[k])@),
    ensures
        burnt(blasts, blasts.len() as int, 0, cell) <==> struck(
            terrain,
            events,
            events.len() as int,
            cell,
        ),
{
    if burnt(blasts, blasts.len() as int, 0, cell) {
        let (k, i) = choose|k: int, i: int|
            0 <= k < blasts.len() && 0 <= i < blasts[k]@.len() && (k < blasts.len() || (k
                == blasts.len() && i < 0)) && (#[trigger] blasts[k]@[i]).cell == cell;
        assert(covers(terrain, events[k], cell));
    }
    if struck(terrain, events, events.len() as int, cell) {
        let k = choose|k: int|
            0 <= k < events.len() && k < events.len() && #[trigger] covers(
                terrain,
                events[k],
                cell,
            );
        let i = choose|i: int|
            0 <= i < blasts[k]@.len() && blasts[k]@[i] == explosion_of(events[k], cell, now);
        assert(blasts[k]@[i].cell == cell);
    }
}

/// Resolves the chain that the detonations `triggers` set off: as long as a
/// detonation is left whose blast has not been dealt with, the bombs that
/// stand in that blast detonate too and join the list.
pub(crate) fn chain(
    registry: &mut BombRegistry,
    terrain: &MapState,
    triggers: Vec<BombExploded>,
    now: u64,
    Ghost(origin): Ghost<Seq<Bomb>>,
) -> (resolution: Resolution)
    requires
        old(registry).wf(),
        terrain.wf(),
        now + DEFAULT_EXPLOSION_PERIOD <= u64::MAX,
        ordered(origin),
        chain_inv(terrain, origin, triggers@.len() as int, triggers@, 0, old(registry)@),
    ensures
        final(registry).wf(),
        final(registry).issued() == old(registry).issued(),
        resolution.triggered == triggers@.len(),
        chained(terrain, origin, now, resolution, final(registry)@),
        resolution.detonations@.take(triggers@.len() as int) == triggers@,
{
    let first = triggers.len();
    let mut events = triggers;
    let mut blasts: Vec<Vec<Explosion>> = Vec::new();
    let mut done: usize = 0;
    while done < events.len()
        invariant
            registry.wf(),
            registry.issued() == old(registry).issued(),
            terrain.wf(),
            now + DEFAULT_EXPLOSION_PERIOD <= u64::MAX,
            ordered(origin),
            first == triggers@.len(),
            chain_inv(terrain, origin, first as int, events@, done as int, registry@),
            in_chain_order(terrain, first as int, events@, done as int),
            blasts@.len() == done,
            forall|k: int|
                0 <= k < done ==> is_blast_of(terrain, events@[k], now, (#[trigger] blasts@[k])@),
            events@.take(first as int) == triggers@,
        decreases origin.len() - done,
    {
        let event = events[done];
        let cells = propagate(event.bomb_cell, event.bomb_fire_range, terrain);
        let blast = ignite(&event, &cells, now);
        let ghost left = registry@;
        let ghost before = events@;
        let mut hits = registry.detonate_in(&cells);
        let ghost struck_bombs = hits@;
        events.append(&mut hits);
        proof {
            lemma_ignited_blast(terrain, event, now, cells@, blast@);
            lemma_hits_are_first_struck(
                terrain,
                origin,
                first as int,
                before,
                done as int,
                left,
                cells@,
                struck_bombs,
            );
            lemma_chain_order_step(terrain, first as int, before, done as int, struck_bombs);
            lemma_chain_step(
                terrain,
                origin,
                first as int,
                before,
                done as int,
                left,
                cells@,
                struck_bombs,
                registry@,
            );
        }
        blasts.push(blast);
        done += 1;
    }
    Resolution { detonations: events, blasts, triggered: first }
}

/// Destroys every brick on which one of the explosions burns.
pub(crate) fn clear_bricks(terrain: &mut MapState, blasts: &Vec<Vec<Explosion>>)
    requires
        old(terrain).wf(),
    ensures
        final(terrain).wf(),
        final(terrain).same_grid(*old(terrain)),
        forall|cell: Cell|
            old(terrain).spec_contains(cell) ==> #[trigger] final(terrain).material(cell) == (
            if old(terrain).material(cell) == Material::Brick && burnt(
                blasts@,
                blasts@.len() as int,
                0,
                cell,
            ) {
                Material::Empty
            } else {
                old(terrain).material(cell)
            }),
{
    let mut k: usize = 0;
    while k < blasts.len()
        invariant
            k <= blasts@.len(),
            terrain.wf(),
            terrain.same_grid(*old(terrain)),
            forall|cell: Cell|
                old(terrain).spec_contains(cell) ==> #[trigger] terrain.material(cell) == (
                if old(terrain).material(cell) == Material::Brick && burnt(
                    blasts@,
                    k as int,
                    0,
                    cell,
                ) {
                    Material::Empty
                } else {
                    old(terrain).material(cell)
                }),
        decreases blasts@.len() - k,
    {
        let mut i: usize = 0;
        while i < blasts[k].len()
            invariant
                k < blasts@.len(),
                i <= blasts@[k as int]@.len(),
                terrain.wf(),
                terrain.same_grid(*old(terrain)),
                forall|cell: Cell|
                    old(terrain).spec_contains(cell) ==> #[trigger] terrain.material(cell) == (
                    if old(terrain).material(cell) == Material::Brick && burnt(
                        blasts@,
                        k as int,
                        i as int,
                        cell,
                    ) {
                        Material::Empty
                    } else {
                        old(terrain).material(cell)
                    }),
            decreases blasts@[k as int]@.len() - i,
        {
            let target = blasts[k][i].cell;
            terrain.destroy_brick(target);
            i += 1;
        }
        k += 1;
    }
}

/// Adds the explosions of the blasts to those that burn.
pub(crate) fn light(explosions: &mut Vec<Explosion>, blasts: &Vec<Vec<Explosion>>)
    ensures
        final(explosions)@ == old(explosions)@ + joined(blasts@, blasts@.len() as int),
{
    let mut k: usize = 0;
    while k < blasts.len()
        invariant
            k <= blasts@.len(),
            explosions@ == old(explosions)@ + joined(blasts@, k as int),
        decreases blasts@.len() - k,
    {
        let ghost lit = explosions@;
        let mut i: usize = 0;
        while i < blasts[k].len()
            invariant
                k < blasts@.len(),
                i <= blasts@[k as int]@.len(),
                explosions@ == lit + blasts@[k as int]@.take(i as int),
            decreases blasts@[k as int]@.len() - i,
        {
            explosions.push(blasts[k][i]);
            i += 1;
        }
        k += 1;
    }
}

/// In a resolved chain every bomb detonates once at most, so that there
/// are no more detonations than there were bombs; and a bomb is left exactly
/// if it did not detonate.
pub proof fn lemma_each_bomb_detonates_once(
    terrain: &MapState,
    origin: Seq<Bomb>,
    now: u64,
    resolution: Resolution,
    left: Seq<Bomb>,
    k: int,
    l: int,
    place: int,
)
    requires
        chained(terrain, origin, now, resolution, left),
        0 <= k < resolution.detonations@.len(),
        0 <= l < resolution.detonations@.len(),
        0 <= place < origin.len(),
    ensures
        resolution.detonations@.len() <= origin.len(),
        resolution.detonations@[k].bomb_id == resolution.detonations@[l].bomb_id ==> k == l,
        left.contains(origin[place]) <==> !detonated(resolution.detonations@, origin[place].id),
{
    assert(origin.contains(origin[place]));
}

/// In a resolved chain no bomb that is left stands in a blast, and every
/// detonation beyond those that set the chain off is of a bomb that stood in
/// the blast of an earlier one.
pub proof fn lemma_chain_is_closed(
    terrain: &MapState,
    origin: Seq<Bomb>,
    now: u64,
    resolution: Resolution,
    left: Seq<Bomb>,
    k: int,
    place: int,
)
    requires
        chained(terrain, origin, now, resolution, left),
        0 <= k < resolution.detonations@.len(),
        0 <= place < left.len(),
    ensures
        !covers(terrain, resolution.detonations@[k], left[place].cell),
        k >= resolution.triggered ==> struck(
            terrain,
            resolution.detonations@,
            k,
            resolution.detonations@[k].bomb_cell,
        ),
{
    assert(left.contains(left[place]));
}

} // verus!
