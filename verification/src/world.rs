//! The arena as a whole: terrain, bombs, explosions and players, and the
//! passes of a tick that change them.

use vstd::prelude::*;
use crate::bomb::{
    armed_bomb, bomb_of, detonates_before, has_bomb, index_of, is_due, lemma_owned_push,
    lemma_owned_remove, lemma_owned_same_planters, lemma_restored_push, lemma_restored_take,
    owned, planted_bomb, restored, Bomb, BombExploded, BombPlanted, BombRegistry, PlantRejected,
};
use crate::chain::{
    chain, chain_inv, chained, clear_bricks, detonated, lemma_burnt_is_struck, light, struck,
    Resolution,
};
use crate::collision::{classify, contact_of, CollisionEvent, Contact};
use crate::explosion::{burning, extingush_explosion, gone_out, Explosion, DEFAULT_EXPLOSION_PERIOD};
use crate::map::{cell_at, Cell, MapState, Material, Position};
use crate::player::{
    distinct_ids, find_seat, has_player, seat_of, steering, InputState, Intents, Player,
};
use crate::seqs::lemma_take_next;

verus! {

/// The request of a player that stands on `cell` and asks for a bomb.
pub open spec fn request_of(player: Player, cell: Cell) -> BombPlanted {
    BombPlanted {
        player_id: player.id,
        player_color: player.color,
        player_cell: cell,
        player_fire_range: player.fire_range,
        player_bomb_detonation_period: player.bomb_detonation_period,
    }
}

/// Whether `after` is the arena `before` once a pass of detonations at time
/// `now` has been resolved as `resolution` says: the chain is resolved on the
/// terrain as it was, the explosions have joined those that burnt already,
/// every brick in a blast has gone, and every player has one bomb more to
/// plant for each of its bombs that detonated.
pub open spec fn resolved(before: World, after: World, now: u64, resolution: Resolution) -> bool {
    let terrain = before.terrain();
    let events = resolution.detonations@;
    let players = before.contestants();
    &&& after.wf()
    &&& after.registry().issued() == before.registry().issued()
    &&& chained(&terrain, before.registry()@, now, resolution, after.registry()@)
    &&& after.hazards() == before.hazards() + resolution.lit()
    &&& after.terrain().same_grid(terrain)
    &&& forall|cell: Cell|
        terrain.spec_contains(cell) ==> #[trigger] after.terrain().material(cell) == (
        if terrain.material(cell) == Material::Brick && struck(
            &terrain,
            events,
            events.len() as int,
            cell,
        ) {
            Material::Empty
        } else {
            terrain.material(cell)
        })
    &&& after.contestants().len() == players.len()
    &&& forall|p: int|
        0 <= p < players.len() ==> #[trigger] after.contestants()[p] == (Player {
            bomb_capacity: (players[p].bomb_capacity + restored(events, players[p].id)) as u8,
            ..players[p]
        })
    &&& forall|p: int|
        0 <= p < players.len() ==> after.budget(#[trigger] after.contestants()[p])
            == before.budget(players[p])
}

/// Whether `after` is the arena `before` once a player's intents for the
/// tick at time `now` have been taken, and `planted` says what became of its
/// request for a bomb, if it made one.
///
/// A player that is unknown or dead is not heard: nothing changes.
/// Otherwise the player steers as the keys say. If it asks for a bomb, the
/// request goes to the registry for the cell nearest to `position`; a granted
/// request costs the player one bomb of its capacity, so that its budget
/// stays what it was. Terrain and explosions stay as they are.
pub open spec fn input_taken(
    before: World,
    after: World,
    player_id: u128,
    intents: Intents,
    position: Position,
    now: u64,
    planted: Option<Result<u64, PlantRejected>>,
) -> bool {
    let players = before.contestants();
    let seat = seat_of(players, player_id);
    let steered = Player { inputs: steering(intents), ..players[seat] };
    let cell = cell_at(position);
    let outcome = before.registry().plant_outcome(cell, players[seat].bomb_capacity);
    &&& after.wf()
    &&& after.terrain() == before.terrain()
    &&& after.hazards() == before.hazards()
    &&& after.contestants().len() == players.len()
    &&& forall|p: int|
        0 <= p < players.len() ==> after.budget(#[trigger] after.contestants()[p]) == before.budget(
            players[p],
        )
    &&& if !has_player(players, player_id) || !players[seat].alive {
        &&& planted is None
        &&& after.contestants() == players
        &&& after.registry()@ == before.registry()@
        &&& after.registry().issued() == before.registry().issued()
    } else if !intents.set_bomb {
        &&& planted is None
        &&& after.contestants() == players.update(seat, steered)
        &&& after.registry()@ == before.registry()@
        &&& after.registry().issued() == before.registry().issued()
    } else if outcome is Err {
        &&& planted == Some(outcome)
        &&& after.contestants() == players.update(seat, steered)
        &&& after.registry()@ == before.registry()@
        &&& after.registry().issued() == before.registry().issued()
    } else {
        &&& planted == Some(outcome)
        &&& after.contestants() == players.update(seat, steered.planted())
        &&& after.registry()@ == before.registry()@.push(
            planted_bomb(request_of(players[seat], cell), before.registry().issued(), now),
        )
        &&& after.registry().issued() == before.registry().issued() + 1
    }
}

/// Whether `after` is the arena `before` once the bombs whose deadline has
/// passed at time `now` have detonated and the pass that they set off is
/// resolved: the bombs that were due lead the detonations, in the order of
/// their deadlines and, of equal deadlines, of their creation.
pub open spec fn fuses_resolved(
    before: World,
    after: World,
    now: u64,
    resolution: Resolution,
) -> bool {
    let bombs = before.registry()@;
    let events = resolution.detonations@;
    let first = resolution.triggered as int;
    &&& resolved(before, after, now, resolution)
    &&& forall|k: int| 0 <= k < first ==> is_due(bomb_of(bombs, (#[trigger] events[k]).bomb_id), now)
    &&& forall|i: int|
        0 <= i < bombs.len() && is_due(#[trigger] bombs[i], now) ==> detonated(
            events.take(first),
            bombs[i].id,
        )
    &&& forall|k: int, l: int|
        0 <= k < l < first ==> detonates_before(
            bomb_of(bombs, (#[trigger] events[k]).bomb_id),
            bomb_of(bombs, (#[trigger] events[l]).bomb_id),
        )
}

/// Whether `after` is the arena `before` once the explosions whose deadline
/// has passed at time `now` have gone out, and `out` are those explosions.
pub open spec fn burnt_out(before: World, after: World, now: u64, out: Seq<Explosion>) -> bool {
    &&& after.wf()
    &&& after.terrain() == before.terrain()
    &&& after.registry() == before.registry()
    &&& after.contestants() == before.contestants()
    &&& after.hazards() == burning(before.hazards(), now)
    &&& out == gone_out(before.hazards(), now)
}

/// What one player asks for in a tick, and where it stands.
#[derive(Debug, Copy, Clone, PartialEq, Eq, Structural)]
pub struct PlayerInput {
    pub player_id: u128,
    pub intents: Intents,
    pub position: Position,
}

/// What happened in one tick.
#[derive(Debug, Clone, PartialEq, Eq)]
pub struct TickReport {
    /// For each input, at the same place, what became of its request for a
    /// bomb, if it made one.
    pub planted: Vec<Option<Result<u64, PlantRejected>>>,
    /// The detonations that the fuses set off.
    pub exploded: Resolution,
    /// For each collision, at the same place, what came of it.
    pub outcomes: Vec<Outcome>,
    /// The explosions that went out.
    pub extinguished: Vec<Explosion>,
}

/// Whether `steps` are the states that an arena goes through in the tick at
/// time `now`, from `before` to `after`, and `report` says what happened:
/// first the intents of the players are taken, one after the other, and the
/// bombs they ask for are planted; then the bombs that are due detonate and
/// their chains are resolved; then the collisions are dealt with in their
/// order; at last the explosions that are due go out.
pub open spec fn ticked(
    before: World,
    after: World,
    now: u64,
    inputs: Seq<PlayerInput>,
    collisions: Seq<CollisionEvent>,
    report: TickReport,
    steps: Seq<World>,
) -> bool {
    let n = inputs.len() as int;
    let m = collisions.len() as int;
    &&& steps.len() == n + m + 3
    &&& steps[0] == before
    &&& steps[n + m + 2] == after
    &&& report.planted@.len() == n
    &&& report.outcomes@.len() == m
    &&& forall|i: int|
        0 <= i < n ==> input_taken(
            steps[i],
            steps[i + 1],
            inputs[i].player_id,
            inputs[i].intents,
            inputs[i].position,
            now,
            #[trigger] report.planted@[i],
        )
    &&& fuses_resolved(steps[n], steps[n + 1], now, report.exploded)
    &&& forall|j: int|
        0 <= j < m ==> collided(
            steps[n + 1 + j],
            steps[n + 2 + j],
            contact_of(collisions[j]),
            now,
            #[trigger] report.outcomes@[j],
        )
    &&& burnt_out(steps[n + m + 1], after, now, report.extinguished@)
}

/// Whether `after` is the arena `before` once it has been told that a
/// player has begun (`started`) or ceased to overlap a bomb, and `armed`
/// says whether the bomb was armed thereby.
///
/// A bomb that is not armed remembers that its planter stands on it. When
/// the planter is then reported gone, the bomb is armed. Any other report
/// changes nothing: of another player, of an unknown bomb, of a departure
/// that no arrival went before.
pub open spec fn player_tracked(
    before: World,
    after: World,
    started: bool,
    player_id: u128,
    bomb_id: u64,
    armed: bool,
) -> bool {
    let bombs = before.registry()@;
    let bomb = bomb_of(bombs, bomb_id);
    let place = index_of(bombs, bomb_id);
    &&& after.wf()
    &&& after.terrain() == before.terrain()
    &&& after.hazards() == before.hazards()
    &&& after.contestants() == before.contestants()
    &&& after.registry().issued() == before.registry().issued()
    &&& if !has_bomb(bombs, bomb_id) || bomb.player_id != player_id {
        !armed && after.registry()@ == bombs
    } else if started {
        !armed && after.registry()@ == (if bomb.armed {
            bombs
        } else {
            bombs.update(place, Bomb { owner_on_bomb: true, ..bomb })
        })
    } else {
        armed == bomb.owner_on_bomb && after.registry()@ == (if bomb.owner_on_bomb {
            bombs.update(place, armed_bomb(bomb))
        } else {
            bombs
        })
    }
}

/// Whether `after` is the arena `before` once an explosion has touched a
/// player, and `killed` says whether that killed the player: it did unless
/// the player is unknown or was dead before.
pub open spec fn player_struck(before: World, after: World, player_id: u128, killed: bool) -> bool {
    let players = before.contestants();
    let seat = seat_of(players, player_id);
    &&& after.wf()
    &&& after.terrain() == before.terrain()
    &&& after.hazards() == before.hazards()
    &&& after.registry() == before.registry()
    &&& if has_player(players, player_id) {
        killed == players[seat].alive && after.contestants() == players.update(
            seat,
            Player { alive: false, ..players[seat] },
        )
    } else {
        !killed && after.contestants() == players
    }
}

/// Whether `after` is the arena `before` once an explosion has touched a
/// cell, and `destroyed` says whether a brick stood there: if so the cell is
/// empty now; any other cell is as it was.
pub open spec fn brick_struck(before: World, after: World, cell: Cell, destroyed: bool) -> bool {
    &&& after.wf()
    &&& after.hazards() == before.hazards()
    &&& after.registry() == before.registry()
    &&& after.contestants() == before.contestants()
    &&& destroyed == before.terrain().is_brick(cell)
    &&& after.terrain()@ == (if destroyed {
        before.terrain()@.update(
            cell.1 as int,
            before.terrain()@[cell.1 as int].update(cell.0 as int, Material::Empty),
        )
    } else {
        before.terrain()@
    })
}

/// Whether `after` is the arena `before` once an explosion has touched the
/// bomb with the handle at time `now`: the pass that this one detonation
/// sets off is resolved. If no live bomb has the handle, nothing detonates.
pub open spec fn bomb_struck(
    before: World,
    after: World,
    bomb_id: u64,
    now: u64,
    resolution: Resolution,
) -> bool {
    &&& resolved(before, after, now, resolution)
    &&& if has_bomb(before.registry()@, bomb_id) {
        resolution.triggered == 1 && resolution.detonations@[0] == bomb_of(
            before.registry()@,
            bomb_id,
        ).detonation()
    } else {
        resolution.triggered == 0 && resolution.detonations@.len() == 0
    }
}

/// What a collision did to the arena.
#[derive(Debug, Clone, PartialEq, Eq)]
pub enum Outcome {
    /// Nothing changed.
    Nothing,
    /// The bomb with the handle is armed now: it is to be made solid.
    Armed(u64),
    /// The player with the identity is dead now.
    Killed(u128),
    /// The brick on the cell is gone now.
    Destroyed(Cell),
    /// Bombs detonated.
    Detonated(Resolution),
}

/// Whether `after` is the arena `before` once it has dealt with a contact
/// at time `now`, and `outcome` says what came of it.
pub open spec fn collided(
    before: World,
    after: World,
    contact: Contact,
    now: u64,
    outcome: Outcome,
) -> bool {
    match contact {
        Contact::PlayerAtBomb { started, player_id, bomb_id } => {
            &&& player_tracked(before, after, started, player_id, bomb_id, outcome is Armed)
            &&& outcome == Outcome::Armed(bomb_id) || outcome is Nothing
        },
        Contact::ExplosionAtBomb { bomb_id } => {
            &&& outcome matches Outcome::Detonated(resolution)
            &&& bomb_struck(before, after, bomb_id, now, resolution)
        },
        Contact::ExplosionAtPlayer { player_id } => {
            &&& player_struck(before, after, player_id, outcome is Killed)
            &&& outcome == Outcome::Killed(player_id) || outcome is Nothing
        },
        Contact::ExplosionAtBrick { cell } => {
            &&& brick_struck(before, after, cell, outcome is Destroyed)
            &&& outcome == Outcome::Destroyed(cell) || outcome is Nothing
        },
        Contact::Irrelevant => {
            &&& outcome is Nothing
            &&& after == before
        },
    }
}

/// Gives every player one bomb more to plant for each detonation of a bomb
/// that it had planted.
fn restore(players: &mut Vec<Player>, events: &Vec<BombExploded>)
    requires
        distinct_ids(old(players)@),
        forall|p: int|
            0 <= p < old(players)@.len() ==> (#[trigger] old(players)@[p]).bomb_capacity + restored(
                events@,
                old(players)@[p].id,
            ) <= u8::MAX,
    ensures
        final(players)@.len() == old(players)@.len(),
        forall|p: int|
            0 <= p < old(players)@.len() ==> #[trigger] final(players)@[p] == (Player {
                bomb_capacity: (old(players)@[p].bomb_capacity + restored(
                    events@,
                    old(players)@[p].id,
                )) as u8,
                ..old(players)@[p]
            }),
{
    let mut k: usize = 0;
    while k < events.len()
        invariant
            k <= events@.len(),
            players@.len() == old(players)@.len(),
            distinct_ids(old(players)@),
            forall|p: int|
                0 <= p < old(players)@.len() ==> (#[trigger] old(players)@[p]).bomb_capacity
                    + restored(events@, old(players)@[p].id) <= u8::MAX,
            forall|p: int|
                0 <= p < old(players)@.len() ==> #[trigger] players@[p] == (Player {
                    bomb_capacity: (old(players)@[p].bomb_capacity + restored(
                        events@.take(k as int),
                        old(players)@[p].id,
                    )) as u8,
                    ..old(players)@[p]
                }),
        decreases events@.len() - k,
    {
        let event = events[k];
        let ghost current = players@;
        proof {
            lemma_take_next(events@, k as int);
            assert forall|p: int| 0 <= p < current.len() implies restored(
                events@.take(k + 1),
                (#[trigger] old(players)@[p]).id,
            ) == restored(events@.take(k as int), old(players)@[p].id) + (if event.player_id
                == old(players)@[p].id {
                1nat
            } else {
                0nat
            }) && restored(events@.take(k + 1), old(players)@[p].id) <= restored(
                events@,
                old(players)@[p].id,
            ) by {
                lemma_restored_take(events@, k + 1, old(players)@[p].id);
            }
        }
        if let Some(seat) = find_seat(players, event.player_id) {
            let mut player = players[seat];
            player.on_own_bomb_resolved();
            players.set(seat, player);
        }
        k += 1;
    }
    assert(events@.take(events@.len() as int) =~= events@);
}

/// The state of one arena.
#[derive(Debug)]
pub struct World {
    map_state: MapState,
    bombs: BombRegistry,
    explosions: Vec<Explosion>,
    players: Vec<Player>,
}

impl World {
    /// The terrain.
    pub closed spec fn terrain(&self) -> MapState {
        self.map_state
    }

    /// The registry of live bombs.
    pub closed spec fn registry(&self) -> BombRegistry {
        self.bombs
    }

    /// The explosions that burn, in the order in which they were lit.
    pub closed spec fn hazards(&self) -> Seq<Explosion> {
        self.explosions@
    }

    /// The players, dead ones included.
    pub closed spec fn contestants(&self) -> Seq<Player> {
        self.players@
    }

    /// What a player could plant in all: the bombs it may still plant and
    /// its live bombs.
    pub open spec fn budget(&self, player: Player) -> int {
        player.bomb_capacity + owned(self.registry()@, player.id)
    }

    /// Terrain and registry are well-formed, the players differ in their
    /// identities, and no budget exceeds what a capacity can hold.
    pub open spec fn wf(&self) -> bool {
        &&& self.terrain().wf()
        &&& self.registry().wf()
        &&& distinct_ids(self.contestants())
        &&& forall|p: int|
            0 <= p < self.contestants().len() ==> self.budget(#[trigger] self.contestants()[p])
                <= u8::MAX
    }

    /// An arena with the given terrain and players, without bombs and
    /// explosions. There is none if two players share an identity.
    pub fn new(map_state: MapState, players: Vec<Player>) -> (world: Option<World>)
        requires
            map_state.wf(),
        ensures
            world is Some <==> distinct_ids(players@),
            world matches Some(w) ==> {
                &&& w.wf()
                &&& w.terrain() == map_state
                &&& w.registry()@ == Seq::<Bomb>::empty()
                &&& w.registry().issued() == 0
                &&& w.hazards() == Seq::<Explosion>::empty()
                &&& w.contestants() == players@
            },
    {
        let mut j: usize = 0;
        while j < players.len()
            invariant
                j <= players@.len(),
                forall|a: int, b: int|
                    0 <= a < b < j ==> (#[trigger] players@[a]).id != (#[trigger] players@[b]).id,
            decreases players@.len() - j,
        {
            let mut i: usize = 0;
            while i < j
                invariant
                    i <= j < players@.len(),
                    forall|a: int| 0 <= a < i ==> (#[trigger] players@[a]).id != players@[j as int].id,
                decreases j - i,
            {
                if players[i].id == players[j].id {
                    return None;
                }
                i += 1;
            }
            j += 1;
        }
        let world = World {
            map_state,
            bombs: BombRegistry::new(),
            explosions: Vec::new(),
            players,
        };
        Some(world)
    }

    /// The terrain.
    pub fn map_state(&self) -> (map_state: &MapState)
        ensures
            *map_state == self.terrain(),
    {
        &self.map_state
    }

    /// The registry of live bombs.
    pub fn bombs(&self) -> (bombs: &BombRegistry)
        ensures
            *bombs == self.registry(),
    {
        &self.bombs
    }

    /// The explosions that burn.
    pub fn explosions(&self) -> (explosions: &Vec<Explosion>)
        ensures
            explosions@ == self.hazards(),
    {
        &self.explosions
    }

    /// The players, dead ones included.
    pub fn players(&self) -> (players: &Vec<Player>)
        ensures
            players@ == self.contestants(),
    {
        &self.players
    }

    /// The place of the player with the identity.
    fn seat(&self, player_id: u128) -> (seat: Option<usize>)
        requires
            distinct_ids(self.players@),
        ensures
            seat is Some <==> has_player(self.players@, player_id),
            seat matches Some(p) ==> p < self.players@.len() && self.players@[p as int].id
                == player_id && p == seat_of(self.players@, player_id),
    {
        find_seat(&self.players, player_id)
    }

    /// Takes a player's intents for this tick.
    ///
    /// A player that is unknown or dead is not heard: nothing changes.
    /// Otherwise the player steers as the keys say. If it asks for a bomb,
    /// the request goes to the registry for the cell nearest to `position`;
    /// the result says what became of it, and a granted request costs the
    /// player one bomb of its capacity. Terrain and explosions stay as they
    /// are.
    pub fn update_player_input(
        &mut self,
        player_id: u128,
        intents: &Intents,
        position: &Position,
        now: u64,
    ) -> (planted: Option<Result<u64, PlantRejected>>)
        requires
            old(self).wf(),
            old(self).registry().issued() < u64::MAX,
            forall|p: int|
                0 <= p < old(self).contestants().len() ==> now + (#[trigger] old(
                    self,
                ).contestants()[p]).bomb_detonation_period <= u64::MAX,
        ensures
            input_taken(*old(self), *final(self), player_id, *intents, *position, now, planted),
    {
        let ghost players = self.players@;
        let ghost bombs = self.bombs@;
        let seat = match self.seat(player_id) {
            Some(seat) => seat,
            None => {
                return None;
            },
        };
        let mut player = self.players[seat];
        if !player.alive {
            return None;
        }
        player.inputs = InputState::from_intents(intents);
        if !intents.set_bomb {
            self.players.set(seat, player);
            return None;
        }
        let request = BombPlanted {
            player_id: player.id,
            player_color: player.color,
            player_cell: Cell::from_transform(position),
            player_fire_range: player.fire_range,
            player_bomb_detonation_period: player.bomb_detonation_period,
        };
        let outcome = self.bombs.plant(&request, player.bomb_capacity, now);
        if outcome.is_ok() {
            player.on_plant();
            proof {
                let bomb = planted_bomb(request, old(self).registry().issued(), now);
                assert forall|p: int| 0 <= p < players.len() implies owned(
                    self.bombs@,
                    (#[trigger] players[p]).id,
                ) == owned(bombs, players[p].id) + if p == seat {
                    1nat
                } else {
                    0nat
                } by {
                    lemma_owned_push(bombs, bomb, players[p].id);
                }
            }
        }
        self.players.set(seat, player);
        Some(outcome)
    }

    /// Resolves the pass of detonations that `triggers` set off. `before`
    /// is the arena as it was when the bombs of `triggers` were still in
    /// the registry.
    fn resolve(&mut self, triggers: Vec<BombExploded>, now: u64, Ghost(before): Ghost<World>) -> (resolution:
        Resolution)
        requires
            before.wf(),
            old(self).map_state == before.map_state,
            old(self).players == before.players,
            old(self).explosions == before.explosions,
            old(self).bombs.wf(),
            old(self).bombs.issued() == before.bombs.issued(),
            now + DEFAULT_EXPLOSION_PERIOD <= u64::MAX,
            chain_inv(
                &before.map_state,
                before.bombs@,
                triggers@.len() as int,
                triggers@,
                0,
                old(self).bombs@,
            ),
        ensures
            resolved(before, *final(self), now, resolution),
            resolution.triggered == triggers@.len(),
            resolution.detonations@.take(triggers@.len() as int) == triggers@,
    {
        let ghost origin = before.bombs@;
        let resolution = chain(&mut self.bombs, &self.map_state, triggers, now, Ghost(origin));
        let ghost events = resolution.detonations@;
        clear_bricks(&mut self.map_state, &resolution.blasts);
        light(&mut self.explosions, &resolution.blasts);
        restore(&mut self.players, &resolution.detonations);
        proof {
            let terrain = before.map_state;
            assert forall|cell: Cell| terrain.spec_contains(cell) implies #[trigger] self.map_state.material(
                cell,
            ) == (if terrain.material(cell) == Material::Brick && struck(
                &terrain,
                events,
                events.len() as int,
                cell,
            ) {
                Material::Empty
            } else {
                terrain.material(cell)
            }) by {
                lemma_burnt_is_struck(&terrain, events, now, resolution.blasts@, cell);
            }
        }
        resolution
    }

    /// Detonates the bombs whose deadline has passed at time `now`, and
    /// with them every bomb that the chain of blasts reaches.
    ///
    /// The bombs that are due set the pass off, in the order of their
    /// deadlines and, of equal deadlines, of their creation. A bomb in the
    /// blast of a detonation detonates in the same pass, whatever its
    /// deadline, and so on until no blast holds a live bomb. All blasts are
    /// taken on the terrain as it was before the pass; afterwards the bricks
    /// in them are gone, their explosions burn, and the planters have their
    /// bombs back.
    pub fn explode_bomb(&mut self, now: u64) -> (resolution: Resolution)
        requires
            old(self).wf(),
            now + DEFAULT_EXPLOSION_PERIOD <= u64::MAX,
        ensures
            fuses_resolved(*old(self), *final(self), now, resolution),
    {
        let ghost before = *self;
        let triggers = self.bombs.tick(now);
        let resolution = self.resolve(triggers, now, Ghost(before));
        proof {
            let events = resolution.detonations@;
            assert(forall|k: int|
                0 <= k < resolution.triggered ==> #[trigger] events[k] == triggers@[k]);
        }
        resolution
    }

    /// An explosion touched a bomb: the bomb detonates at once, whatever
    /// its deadline, and with it every bomb that the chain of blasts
    /// reaches, as in `explode_bomb`. If no live bomb has the handle, nothing
    /// happens: a bomb detonates once.
    pub fn track_explosion_bombs(&mut self, bomb_id: u64, now: u64) -> (resolution: Resolution)
        requires
            old(self).wf(),
            now + DEFAULT_EXPLOSION_PERIOD <= u64::MAX,
        ensures
            bomb_struck(*old(self), *final(self), bomb_id, now, resolution),
    {
        let ghost before = *self;
        let ghost origin = self.bombs@;
        let mut triggers: Vec<BombExploded> = Vec::new();
        match self.bombs.force_detonate(bomb_id) {
            Some(event) => {
                triggers.push(event);
            },
            None => {},
        }
        proof {
            let events = triggers@;
            let left = self.bombs@;
            if has_bomb(origin, bomb_id) {
                let place = index_of(origin, bomb_id);
                assert forall|b: Bomb| #[trigger] left.contains(b) <==> origin.contains(b)
                    && !detonated(events, b.id) by {
                    if origin.contains(b) && !detonated(events, b.id) {
                        let i = choose|i: int| 0 <= i < origin.len() && origin[i] == b;
                        if i < place {
                            assert(left[i] == b);
                        } else {
                            assert(left[i - 1] == b);
                        }
                    }
                }
                assert forall|player_id: u128|
                    owned(left, player_id) + #[trigger] restored(events, player_id) == owned(
                        origin,
                        player_id,
                    ) by {
                    lemma_owned_remove(origin, place, player_id);
                    lemma_restored_push(Seq::<BombExploded>::empty(), events[0], player_id);
                }
            }
        }
        let resolution = self.resolve(triggers, now, Ghost(before));
        resolution
    }

    /// A player has begun (`started`) or ceased to overlap a bomb.
    ///
    /// A bomb that is not armed remembers that its planter stands on it.
    /// When the planter is then reported gone, the bomb is armed: it is
    /// solid from now on, for its planter too, and the result is true. Any
    /// other report changes nothing: of another player, of an unknown bomb,
    /// of a departure that no arrival went before.
    pub fn track_player_gone(&mut self, started: bool, player_id: u128, bomb_id: u64) -> (armed:
        bool)
        requires
            old(self).wf(),
        ensures
            player_tracked(*old(self), *final(self), started, player_id, bomb_id, armed),
    {
        let ghost bombs = self.bombs@;
        let armed = if started {
            self.bombs.player_arrived(bomb_id, player_id);
            false
        } else {
            self.bombs.player_gone(bomb_id, player_id)
        };
        proof {
            if self.bombs@ != bombs {
                assert forall|player_id: u128| owned(self.bombs@, player_id) == owned(
                    bombs,
                    player_id,
                ) by {
                    lemma_owned_same_planters(self.bombs@, bombs, player_id);
                }
            }
        }
        armed
    }

    /// An explosion touched a player: the player is dead from now on. Says
    /// whether this call killed it; it did not if the player is unknown or
    /// was dead before.
    pub fn track_explosion_players(&mut self, player_id: u128) -> (killed: bool)
        requires
            old(self).wf(),
        ensures
            player_struck(*old(self), *final(self), player_id, killed),
    {
        match self.seat(player_id) {
            Some(seat) => {
                let mut player = self.players[seat];
                let killed = player.alive;
                player.on_hazard_contact();
                self.players.set(seat, player);
                killed
            },
            None => false,
        }
    }

    /// An explosion touched the cell: a brick on it is destroyed. Says
    /// whether one was; any other cell is left as it is.
    pub fn track_explosion_bricks(&mut self, cell: Cell) -> (destroyed: bool)
        requires
            old(self).wf(),
        ensures
            brick_struck(*old(self), *final(self), cell, destroyed),
    {
        self.map_state.destroy_brick(cell)
    }

    /// Deals with one collision that the physics reports at time `now`.
    ///
    /// A player that steps on or off a bomb is tracked, so that the bomb is
    /// armed when its planter has left. An explosion that reaches a bomb
    /// detonates it, one that reaches a player kills it, one that reaches a
    /// brick destroys it. Every other collision is passed over.
    pub fn handle_collision_events(&mut self, event: &CollisionEvent, now: u64) -> (outcome:
        Outcome)
        requires
            old(self).wf(),
            now + DEFAULT_EXPLOSION_PERIOD <= u64::MAX,
        ensures
            collided(*old(self), *final(self), contact_of(*event), now, outcome),
    {
        match classify(event) {
            Contact::PlayerAtBomb { started, player_id, bomb_id } => {
                if self.track_player_gone(started, player_id, bomb_id) {
                    Outcome::Armed(bomb_id)
                } else {
                    Outcome::Nothing
                }
            },
            Contact::ExplosionAtBomb { bomb_id } => {
                Outcome::Detonated(self.track_explosion_bombs(bomb_id, now))
            },
            Contact::ExplosionAtPlayer { player_id } => {
                if self.track_explosion_players(player_id) {
                    Outcome::Killed(player_id)
                } else {
                    Outcome::Nothing
                }
            },
            Contact::ExplosionAtBrick { cell } => {
                if self.track_explosion_bricks(cell) {
                    Outcome::Destroyed(cell)
                } else {
                    Outcome::Nothing
                }
            },
            Contact::Irrelevant => Outcome::Nothing,
        }
    }

    /// Runs the tick at time `now`: takes the players' intents and plants
    /// the bombs they ask for, detonates the bombs that are due and resolves
    /// their chains, deals with the collisions that the physics reported, and
    /// puts out the explosions that are due, in this order.
    pub fn tick(&mut self, now: u64, inputs: &Vec<PlayerInput>, collisions: &Vec<CollisionEvent>) -> (report:
        TickReport)
        requires
            old(self).wf(),
            now + DEFAULT_EXPLOSION_PERIOD <= u64::MAX,
            old(self).registry().issued() + inputs@.len() <= u64::MAX,
            forall|p: int|
                0 <= p < old(self).contestants().len() ==> now + (#[trigger] old(
                    self,
                ).contestants()[p]).bomb_detonation_period <= u64::MAX,
        ensures
            exists|steps: Seq<World>|
                ticked(*old(self), *final(self), now, inputs@, collisions@, report, steps),
    {
        let ghost mut steps: Seq<World> = seq![*self];
        let mut planted: Vec<Option<Result<u64, PlantRejected>>> = Vec::new();
        let mut i: usize = 0;
        while i < inputs.len()
            invariant
                i <= inputs@.len(),
                self.wf(),
                now + DEFAULT_EXPLOSION_PERIOD <= u64::MAX,
                self.registry().issued() + (inputs@.len() - i) <= u64::MAX,
                self.contestants().len() == old(self).contestants().len(),
                forall|p: int|
                    0 <= p < self.contestants().len() ==> now + (
                    #[trigger] self.contestants()[p]).bomb_detonation_period <= u64::MAX,
                steps.len() == i + 1,
                steps[0] == *old(self),
                steps[i as int] == *self,
                planted@.len() == i,
                forall|k: int|
                    0 <= k < i ==> input_taken(
                        steps[k],
                        steps[k + 1],
                        inputs@[k].player_id,
                        inputs@[k].intents,
                        inputs@[k].position,
                        now,
                        #[trigger] planted@[k],
                    ),
            decreases inputs@.len() - i,
        {
            let input = &inputs[i];
            let result = self.update_player_input(
                input.player_id,
                &input.intents,
                &input.position,
                now,
            );
            planted.push(result);
            proof {
                steps = steps.push(*self);
            }
            i += 1;
        }
        let ghost n = inputs@.len() as int;
        let exploded = self.explode_bomb(now);
        proof {
            steps = steps.push(*self);
        }
        let ghost after_fuses = steps;
        let mut outcomes: Vec<Outcome> = Vec::new();
        let mut j: usize = 0;
        while j < collisions.len()
            invariant
                j <= collisions@.len(),
                self.wf(),
                now + DEFAULT_EXPLOSION_PERIOD <= u64::MAX,
                n == inputs@.len(),
                after_fuses.len() == n + 2,
                steps.len() == n + 2 + j,
                forall|k: int| 0 <= k < n + 2 ==> #[trigger] steps[k] == after_fuses[k],
                steps[n + 1 + j] == *self,
                outcomes@.len() == j,
                forall|k: int|
                    0 <= k < j ==> collided(
                        steps[n + 1 + k],
                        steps[n + 2 + k],
                        contact_of(collisions@[k]),
                        now,
                        #[trigger] outcomes@[k],
                    ),
            decreases collisions@.len() - j,
        {
            let outcome = self.handle_collision_events(&collisions[j], now);
            outcomes.push(outcome);
            proof {
                steps = steps.push(*self);
            }
            j += 1;
        }
        let extinguished = self.extingush_explosion(now);
        let report = TickReport { planted, exploded, outcomes, extinguished };
        proof {
            steps = steps.push(*self);
            assert(ticked(*old(self), *self, now, inputs@, collisions@, report, steps));
        }
        report
    }

    /// Puts out the explosions whose deadline has passed at time `now`:
    /// they leave the arena and are returned; the others stay.
    pub fn extingush_explosion(&mut self, now: u64) -> (out: Vec<Explosion>)
        requires
            old(self).wf(),
        ensures
            burnt_out(*old(self), *final(self), now, out@),
    {
        extingush_explosion(&mut self.explosions, now)
    }
}

/// What a player may plant is conserved: when a player has made a request
/// for a bomb and a pass of detonations has been resolved, and as many of
/// its bombs are live as were before the request, it may plant as many bombs
/// as before the request.
pub proof fn lemma_capacity_is_conserved(
    start: World,
    planted: World,
    end: World,
    player_id: u128,
    intents: Intents,
    position: Position,
    asked_at: u64,
    outcome: Option<Result<u64, PlantRejected>>,
    resolved_at: u64,
    resolution: Resolution,
    seat: int,
)
    requires
        input_taken(start, planted, player_id, intents, position, asked_at, outcome),
        resolved(planted, end, resolved_at, resolution),
        0 <= seat < start.contestants().len(),
        owned(end.registry()@, start.contestants()[seat].id) == owned(
            start.registry()@,
            start.contestants()[seat].id,
        ),
    ensures
        end.contestants()[seat].bomb_capacity == start.contestants()[seat].bomb_capacity,
{
}

} // verus!
