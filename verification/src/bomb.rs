//! Planted bombs: the registry that holds them, the set of cells they
//! occupy, and the events by which bombs come and go.

use std::collections::HashSet;
use vstd::prelude::*;
use crate::map::Cell;
use crate::player::PlayerColor;
use crate::seqs::{lemma_insert_contains, lemma_push_contains, lemma_take_next};

verus! {

broadcast use vstd::std_specs::hash::group_hash_axioms;

/// A player asks for a bomb on the cell it stands on.
#[derive(Debug, Copy, Clone, PartialEq, Eq, Structural)]
pub struct BombPlanted {
    pub player_id: u128,
    pub player_color: PlayerColor,
    pub player_cell: Cell,
    pub player_fire_range: u8,
    /// Time from planting to detonation, in nanoseconds.
    pub player_bomb_detonation_period: u64,
}

/// A bomb has detonated, by its fuse or by another blast.
#[derive(Debug, Copy, Clone, PartialEq, Eq, Structural)]
pub struct BombExploded {
    /// The handle that the bomb had in the registry.
    pub bomb_id: u64,
    pub player_id: u128,
    pub player_color: PlayerColor,
    pub bomb_cell: Cell,
    pub bomb_fire_range: u8,
}

/// A planted bomb.
#[derive(Debug, Copy, Clone, PartialEq, Eq, Structural)]
pub struct Bomb {
    /// Handle of the bomb; later bombs have higher handles.
    pub id: u64,
    pub player_id: u128,
    pub player_color: PlayerColor,
    /// Blast radius, in cells.
    pub fire_range: u8,
    pub cell: Cell,
    /// Simulated time at which the fuse runs out, in nanoseconds.
    pub explode_at: u64,
    /// Whether the player that planted the bomb is known to overlap it.
    pub owner_on_bomb: bool,
    /// Whether the bomb has become solid. An armed bomb stays armed.
    pub armed: bool,
}

/// Why no bomb was planted.
#[derive(Debug, Copy, Clone, PartialEq, Eq, Structural)]
pub enum PlantRejected {
    /// The player has no bomb left to plant.
    CapacityExhausted,
    /// A bomb stands on the cell already.
    CellOccupied,
}

impl Bomb {
    /// The event that announces the detonation of this bomb.
    pub open spec fn detonation(self) -> BombExploded {
        BombExploded {
            bomb_id: self.id,
            player_id: self.player_id,
            player_color: self.player_color,
            bomb_cell: self.cell,
            bomb_fire_range: self.fire_range,
        }
    }

    /// The event that announces the detonation of this bomb.
    pub fn exploded(&self) -> (event: BombExploded)
        ensures
            event == self.detonation(),
    {
        BombExploded {
            bomb_id: self.id,
            player_id: self.player_id,
            player_color: self.player_color,
            bomb_cell: self.cell,
            bomb_fire_range: self.fire_range,
        }
    }
}

/// Whether the list holds the cell.
pub fn holds(cells: &Vec<Cell>, cell: Cell) -> (found: bool)
    ensures
        found == cells@.contains(cell),
{
    let mut i: usize = 0;
    while i < cells.len()
        invariant
            i <= cells@.len(),
            forall|j: int| 0 <= j < i ==> cells@[j] != cell,
        decreases cells@.len() - i,
    {
        if cells[i] == cell {
            return true;
        }
        i += 1;
    }
    false
}

/// The number under which a cell is kept in the set of planted cells.
pub open spec fn cell_key(cell: Cell) -> u16 {
    (cell.0 * 256 + cell.1) as u16
}

fn key_of(cell: Cell) -> (key: u16)
    ensures
        key == cell_key(cell),
{
    (cell.0 as u16) * 256 + (cell.1 as u16)
}

/// The cells on which a bomb stands.
#[derive(Debug)]
pub struct PlantedBombs {
    set: HashSet<u16>,
}

impl View for PlantedBombs {
    type V = Set<Cell>;

    closed spec fn view(&self) -> Set<Cell> {
        Set::new(|cell: Cell| self.set@.contains(cell_key(cell)))
    }
}

impl PlantedBombs {
    /// No cell is planted.
    pub fn new() -> (planted: PlantedBombs)
        ensures
            planted@ == Set::<Cell>::empty(),
    {
        let planted = PlantedBombs { set: HashSet::new() };
        planted
    }

    /// Whether a bomb stands on the cell.
    pub fn contains(&self, cell: &Cell) -> (found: bool)
        ensures
            found == self@.contains(*cell),
    {
        let key = key_of(*cell);
        self.set.contains(&key)
    }

    /// Marks the cell as planted; says whether it was free before.
    pub fn insert(&mut self, cell: Cell) -> (fresh: bool)
        ensures
            final(self)@ == old(self)@.insert(cell),
            fresh == !old(self)@.contains(cell),
    {
        let fresh = self.set.insert(key_of(cell));
        fresh
    }

    /// Marks the cell as free; says whether it was planted before.
    pub fn remove(&mut self, cell: &Cell) -> (found: bool)
        ensures
            final(self)@ == old(self)@.remove(*cell),
            found == old(self)@.contains(*cell),
    {
        let key = key_of(*cell);
        let found = self.set.remove(&key);
        found
    }
}

/// Whether the handles rise along the sequence, as they do when it lists
/// bombs in the order of their creation.
pub open spec fn ordered(bombs: Seq<Bomb>) -> bool {
    forall|i: int, j: int|
        0 <= i < j < bombs.len() ==> (#[trigger] bombs[i]).id < (#[trigger] bombs[j]).id
}

/// Whether no two bombs of the sequence stand on one cell.
pub open spec fn one_per_cell(bombs: Seq<Bomb>) -> bool {
    forall|i: int, j: int|
        0 <= i < j < bombs.len() ==> (#[trigger] bombs[i]).cell != (#[trigger] bombs[j]).cell
}

/// Whether a bomb of the sequence stands on the cell.
pub open spec fn occupied(bombs: Seq<Bomb>, cell: Cell) -> bool {
    exists|i: int| 0 <= i < bombs.len() && (#[trigger] bombs[i]).cell == cell
}

/// The cells on which the bombs of the sequence stand.
pub open spec fn cells_of(bombs: Seq<Bomb>) -> Set<Cell> {
    Set::new(|cell: Cell| occupied(bombs, cell))
}

/// Whether a bomb of the sequence has the handle.
pub open spec fn has_bomb(bombs: Seq<Bomb>, id: u64) -> bool {
    exists|i: int| 0 <= i < bombs.len() && (#[trigger] bombs[i]).id == id
}

/// Where the bomb with the handle stands in the sequence, if there is one.
pub open spec fn index_of(bombs: Seq<Bomb>, id: u64) -> int {
    choose|i: int| 0 <= i < bombs.len() && (#[trigger] bombs[i]).id == id
}

/// The bomb with the handle, if there is one.
pub open spec fn bomb_of(bombs: Seq<Bomb>, id: u64) -> Bomb {
    bombs[index_of(bombs, id)]
}

/// How many bombs of the sequence the player has planted.
pub open spec fn owned(bombs: Seq<Bomb>, player_id: u128) -> nat
    decreases bombs.len(),
{
    if bombs.len() == 0 {
        0
    } else {
        owned(bombs.drop_last(), player_id) + if bombs.last().player_id == player_id {
            1nat
        } else {
            0nat
        }
    }
}

/// How many of the detonations are of bombs that the player had planted.
pub open spec fn restored(events: Seq<BombExploded>, player_id: u128) -> nat
    decreases events.len(),
{
    if events.len() == 0 {
        0
    } else {
        restored(events.drop_last(), player_id) + if events.last().player_id == player_id {
            1nat
        } else {
            0nat
        }
    }
}

/// Whether the fuse of the bomb has run out at time `now`.
pub open spec fn is_due(bomb: Bomb, now: u64) -> bool {
    bomb.explode_at <= now
}

/// Whether `a` detonates before `b` when the fuses of both have run out: the
/// earlier deadline first, of equal deadlines the bomb planted first.
pub open spec fn detonates_before(a: Bomb, b: Bomb) -> bool {
    a.explode_at < b.explode_at || (a.explode_at == b.explode_at && a.id < b.id)
}

/// The bomb that a request plants, under the handle `id` at time `now`: not
/// armed, its fuse running from `now`.
pub open spec fn planted_bomb(request: BombPlanted, id: u64, now: u64) -> Bomb {
    Bomb {
        id,
        player_id: request.player_id,
        player_color: request.player_color,
        fire_range: request.player_fire_range,
        cell: request.player_cell,
        explode_at: (now + request.player_bomb_detonation_period) as u64,
        owner_on_bomb: false,
        armed: false,
    }
}

/// The bomb once its planter has walked off it.
pub open spec fn armed_bomb(bomb: Bomb) -> Bomb {
    Bomb { owner_on_bomb: false, armed: true, ..bomb }
}

/// One more bomb at the end counts for its planter and for no one else.
pub proof fn lemma_owned_push(bombs: Seq<Bomb>, bomb: Bomb, player_id: u128)
    ensures
        owned(bombs.push(bomb), player_id) == owned(bombs, player_id) + if bomb.player_id
            == player_id {
            1nat
        } else {
            0nat
        },
{
    assert(bombs.push(bomb).drop_last() =~= bombs);
}

/// One more bomb anywhere counts for its planter and for no one else.
pub proof fn lemma_owned_insert(bombs: Seq<Bomb>, place: int, bomb: Bomb, player_id: u128)
    requires
        0 <= place <= bombs.len(),
    ensures
        owned(bombs.insert(place, bomb), player_id) == owned(bombs, player_id) + if bomb.player_id
            == player_id {
            1nat
        } else {
            0nat
        },
    decreases bombs.len() - place,
{
    if place == bombs.len() {
        assert(bombs.insert(place, bomb) =~= bombs.push(bomb));
        lemma_owned_push(bombs, bomb, player_id);
    } else {
        assert(bombs.insert(place, bomb).drop_last() =~= bombs.drop_last().insert(place, bomb));
        lemma_owned_insert(bombs.drop_last(), place, bomb, player_id);
    }
}

/// One more detonation counts for the bomb's planter and for no one else.
pub proof fn lemma_restored_push(events: Seq<BombExploded>, event: BombExploded, player_id: u128)
    ensures
        restored(events.push(event), player_id) == restored(events, player_id) + if event.player_id
            == player_id {
            1nat
        } else {
            0nat
        },
{
    assert(events.push(event).drop_last() =~= events);
}

/// In a list of bombs in the order of their creation, a handle names the
/// bomb at one place only.
pub proof fn lemma_handle_is_unique(bombs: Seq<Bomb>, place: int)
    requires
        ordered(bombs),
        0 <= place < bombs.len(),
    ensures
        has_bomb(bombs, bombs[place].id),
        index_of(bombs, bombs[place].id) == place,
        bomb_of(bombs, bombs[place].id) == bombs[place],
{
    let k = index_of(bombs, bombs[place].id);
    assert(0 <= k < bombs.len() && bombs[k].id == bombs[place].id);
}

/// The live bombs, in the order of their creation, with the set of cells
/// they stand on.
#[derive(Debug)]
pub struct BombRegistry {
    bombs: Vec<Bomb>,
    planted: PlantedBombs,
    next_id: u64,
}

impl View for BombRegistry {
    type V = Seq<Bomb>;

    /// The live bombs in the order of their creation.
    closed spec fn view(&self) -> Seq<Bomb> {
        self.bombs@
    }
}

impl BombRegistry {
    /// The set of planted cells.
    pub closed spec fn planted(&self) -> Set<Cell> {
        self.planted@
    }

    /// The handle that the next bomb gets; all handles given so far are
    /// below it.
    pub closed spec fn issued(&self) -> u64 {
        self.next_id
    }

    /// The bombs are listed in the order of their creation, no two stand on
    /// one cell, and the planted cells are exactly the cells they stand on.
    pub open spec fn wf(&self) -> bool {
        &&& ordered(self@)
        &&& one_per_cell(self@)
        &&& forall|i: int| 0 <= i < self@.len() ==> (#[trigger] self@[i]).id < self.issued()
        &&& self.planted() == cells_of(self@)
    }

    /// What becomes of a request to plant on `cell` by a player with
    /// `capacity` bombs left: rejected for want of capacity, else rejected
    /// because the cell is planted, else granted under the next handle.
    pub open spec fn plant_outcome(&self, cell: Cell, capacity: u8) -> Result<u64, PlantRejected> {
        if capacity == 0 {
            Err(PlantRejected::CapacityExhausted)
        } else if self.planted().contains(cell) {
            Err(PlantRejected::CellOccupied)
        } else {
            Ok(self.issued())
        }
    }

    /// A registry without bombs.
    pub fn new() -> (registry: BombRegistry)
        ensures
            registry.wf(),
            registry@ == Seq::<Bomb>::empty(),
            registry.issued() == 0,
    {
        let registry = BombRegistry { bombs: Vec::new(), planted: PlantedBombs::new(), next_id: 0 };
        assert(registry.planted() =~= cells_of(registry@));
        registry
    }

    /// The live bombs in the order of their creation.
    pub fn bombs(&self) -> (bombs: &Vec<Bomb>)
        ensures
            bombs@ == self@,
    {
        &self.bombs
    }

    /// The set of planted cells.
    pub fn planted_bombs(&self) -> (planted: &PlantedBombs)
        ensures
            planted@ == self.planted(),
    {
        &self.planted
    }

    /// The handle that the next bomb gets.
    pub fn next_id(&self) -> (id: u64)
        ensures
            id == self.issued(),
    {
        self.next_id
    }

    /// Where the bomb with the handle stands in the list.
    fn position(&self, bomb_id: u64) -> (found: Option<usize>)
        requires
            self.wf(),
        ensures
            found is Some <==> has_bomb(self@, bomb_id),
            found matches Some(i) ==> i < self@.len() && self@[i as int].id == bomb_id && i
                == index_of(self@, bomb_id),
    {
        let mut i: usize = 0;
        while i < self.bombs.len()
            invariant
                i <= self.bombs@.len(),
                ordered(self@),
                forall|j: int| 0 <= j < i ==> (#[trigger] self.bombs@[j]).id != bomb_id,
            decreases self.bombs@.len() - i,
        {
            if self.bombs[i].id == bomb_id {
                return Some(i);
            }
            i += 1;
        }
        None
    }

    /// The bomb with the handle, if it is live.
    pub fn get(&self, bomb_id: u64) -> (bomb: Option<Bomb>)
        requires
            self.wf(),
        ensures
            bomb is Some <==> has_bomb(self@, bomb_id),
            bomb matches Some(b) ==> b == bomb_of(self@, bomb_id) && b.id == bomb_id,
    {
        match self.position(bomb_id) {
            Some(i) => Some(self.bombs[i]),
            None => None,
        }
    }

    /// Plants the bomb that a player with `capacity` bombs left asks for.
    ///
    /// The request is rejected if the capacity is zero, and else if a bomb
    /// stands on the cell already; the registry is then left as it is.
    /// Otherwise the new bomb joins the registry under the next handle, which
    /// is returned, and its cell joins the planted cells. Lowering the
    /// player's capacity is left to the caller.
    pub fn plant(&mut self, request: &BombPlanted, capacity: u8, now: u64) -> (planted: Result<
        u64,
        PlantRejected,
    >)
        requires
            old(self).wf(),
            old(self).issued() < u64::MAX,
            now + request.player_bomb_detonation_period <= u64::MAX,
        ensures
            final(self).wf(),
            planted == old(self).plant_outcome(request.player_cell, capacity),
            planted is Err ==> final(self)@ == old(self)@ && final(self).issued() == old(
                self,
            ).issued(),
            planted is Ok ==> final(self)@ == old(self)@.push(
                planted_bomb(*request, old(self).issued(), now),
            ) && final(self).issued() == old(self).issued() + 1,
    {
        if capacity == 0 {
            return Err(PlantRejected::CapacityExhausted);
        }
        if self.planted.contains(&request.player_cell) {
            return Err(PlantRejected::CellOccupied);
        }
        let id = self.next_id;
        let bomb = Bomb {
            id,
            player_id: request.player_id,
            player_color: request.player_color,
            fire_range: request.player_fire_range,
            cell: request.player_cell,
            explode_at: now + request.player_bomb_detonation_period,
            owner_on_bomb: false,
            armed: false,
        };
        self.bombs.push(bomb);
        self.planted.insert(request.player_cell);
        self.next_id = id + 1;
        proof {
            let before = old(self)@;
            let after = self@;
            assert forall|cell: Cell| occupied(after, cell) <==> occupied(before, cell) || cell
                == bomb.cell by {
                if occupied(before, cell) {
                    let i = choose|i: int|
                        0 <= i < before.len() && (#[trigger] before[i]).cell == cell;
                    assert(after[i].cell == cell);
                }
                if cell == bomb.cell {
                    assert(after[before.len() as int].cell == cell);
                }
            }
            assert(self.planted() =~= cells_of(after));
        }
        Ok(id)
    }

    /// Takes the bomb at place `i` out of the registry.
    fn remove_at(&mut self, i: usize) -> (bomb: Bomb)
        requires
            old(self).wf(),
            i < old(self)@.len(),
        ensures
            final(self).wf(),
            final(self).issued() == old(self).issued(),
            bomb == old(self)@[i as int],
            final(self)@ == old(self)@.remove(i as int),
    {
        let bomb = self.bombs.remove(i);
        self.planted.remove(&bomb.cell);
        proof {
            let before = old(self)@;
            let after = self@;
            assert forall|cell: Cell| occupied(after, cell) <==> occupied(before, cell) && cell
                != bomb.cell by {
                if occupied(before, cell) && cell != bomb.cell {
                    let k = choose|k: int|
                        0 <= k < before.len() && (#[trigger] before[k]).cell == cell;
                    if k < i {
                        assert(after[k].cell == cell);
                    } else {
                        assert(after[k - 1].cell == cell);
                    }
                }
            }
            assert(self.planted() =~= cells_of(after));
        }
        bomb
    }

    /// Detonates the bomb with the handle at once, whatever its deadline.
    /// If no live bomb has the handle, nothing happens.
    pub fn force_detonate(&mut self, bomb_id: u64) -> (event: Option<BombExploded>)
        requires
            old(self).wf(),
        ensures
            final(self).wf(),
            final(self).issued() == old(self).issued(),
            event is Some <==> has_bomb(old(self)@, bomb_id),
            event matches Some(e) ==> e == bomb_of(old(self)@, bomb_id).detonation() && final(self)@
                == old(self)@.remove(index_of(old(self)@, bomb_id)),
            event is None ==> final(self)@ == old(self)@,
    {
        match self.position(bomb_id) {
            Some(i) => {
                let bomb = self.remove_at(i);
                Some(bomb.exploded())
            },
            None => None,
        }
    }

    /// Arms the bomb with the handle: it is solid from now on. Says whether
    /// this call armed it; it did not if the bomb was armed before or no live
    /// bomb has the handle.
    pub fn disarm_on_departure(&mut self, bomb_id: u64) -> (armed: bool)
        requires
            old(self).wf(),
        ensures
            final(self).wf(),
            final(self).issued() == old(self).issued(),
            armed == (has_bomb(old(self)@, bomb_id) && !bomb_of(old(self)@, bomb_id).armed),
            has_bomb(old(self)@, bomb_id) ==> final(self)@ == old(self)@.update(
                index_of(old(self)@, bomb_id),
                armed_bomb(bomb_of(old(self)@, bomb_id)),
            ),
            !has_bomb(old(self)@, bomb_id) ==> final(self)@ == old(self)@,
    {
        match self.position(bomb_id) {
            Some(i) => {
                let bomb = self.bombs[i];
                self.bombs.set(
                    i,
                    Bomb { owner_on_bomb: false, armed: true, ..bomb },
                );
                proof {
                    self.lemma_same_places(*old(self));
                }
                !bomb.armed
            },
            None => false,
        }
    }

    /// A player has begun to overlap a bomb. If it is the planter of a bomb
    /// that is not armed yet, the bomb remembers it; any other report changes
    /// nothing.
    pub fn player_arrived(&mut self, bomb_id: u64, player_id: u128)
        requires
            old(self).wf(),
        ensures
            final(self).wf(),
            final(self).issued() == old(self).issued(),
            has_bomb(old(self)@, bomb_id) && bomb_of(old(self)@, bomb_id).player_id == player_id
                && !bomb_of(old(self)@, bomb_id).armed ==> final(self)@ == old(self)@.update(
                index_of(old(self)@, bomb_id),
                Bomb { owner_on_bomb: true, ..bomb_of(old(self)@, bomb_id) },
            ),
            !(has_bomb(old(self)@, bomb_id) && bomb_of(old(self)@, bomb_id).player_id == player_id
                && !bomb_of(old(self)@, bomb_id).armed) ==> final(self)@ == old(self)@,
    {
        match self.position(bomb_id) {
            Some(i) => {
                let bomb = self.bombs[i];
                if bomb.player_id == player_id && !bomb.armed {
                    self.bombs.set(i, Bomb { owner_on_bomb: true, ..bomb });
                    proof {
                        self.lemma_same_places(*old(self));
                    }
                }
            },
            None => {},
        }
    }

    /// A player has ceased to overlap a bomb. If it is the planter, and the
    /// bomb had it recorded as overlapping, the bomb is armed, and the result
    /// is true. A report for a pair that is not recorded changes nothing.
    pub fn player_gone(&mut self, bomb_id: u64, player_id: u128) -> (armed: bool)
        requires
            old(self).wf(),
        ensures
            final(self).wf(),
            final(self).issued() == old(self).issued(),
            armed == (has_bomb(old(self)@, bomb_id) && bomb_of(old(self)@, bomb_id).player_id
                == player_id && bomb_of(old(self)@, bomb_id).owner_on_bomb),
            armed ==> final(self)@ == old(self)@.update(
                index_of(old(self)@, bomb_id),
                armed_bomb(bomb_of(old(self)@, bomb_id)),
            ),
            !armed ==> final(self)@ == old(self)@,
    {
        match self.get(bomb_id) {
            Some(bomb) => {
                if bomb.player_id == player_id && bomb.owner_on_bomb {
                    self.disarm_on_departure(bomb_id);
                    true
                } else {
                    false
                }
            },
            None => false,
        }
    }

    /// Takes the marked bombs out of the registry and returns them in the
    /// order of their creation. `chosen` says in the contract what the marks
    /// say in the code.
    fn extract(&mut self, marks: &Vec<bool>, Ghost(chosen): Ghost<spec_fn(Bomb) -> bool>) -> (taken:
        Vec<Bomb>)
        requires
            old(self).wf(),
            marks@.len() == old(self)@.len(),
            forall|i: int| 0 <= i < marks@.len() ==> marks@[i] == chosen(#[trigger] old(self)@[i]),
        ensures
            final(self).wf(),
            final(self).issued() == old(self).issued(),
            final(self)@.len() + taken@.len() == old(self)@.len(),
            ordered(taken@),
            forall|b: Bomb| #[trigger] final(self)@.contains(b) <==> old(self)@.contains(b) && !chosen(b),
            forall|b: Bomb| #[trigger] taken@.contains(b) <==> old(self)@.contains(b) && chosen(b),
            forall|player_id: u128|
                owned(final(self)@, player_id) + owned(taken@, player_id) == owned(
                    old(self)@,
                    player_id,
                ),
    {
        let ghost before = self@;
        let n = self.bombs.len();
        let mut kept: Vec<Bomb> = Vec::new();
        let mut taken: Vec<Bomb> = Vec::new();
        let mut i: usize = 0;
        while i < n
            invariant
                i <= n,
                n == before.len(),
                self.bombs@ == before,
                before == old(self)@,
                self.next_id == old(self).next_id,
                old(self).wf(),
                marks@.len() == n,
                forall|j: int| 0 <= j < n ==> marks@[j] == chosen(#[trigger] before[j]),
                kept@.len() + taken@.len() == i,
                ordered(kept@),
                ordered(taken@),
                forall|b: Bomb| kept@.contains(b) <==> before.take(i as int).contains(b) && !chosen(b),
                forall|b: Bomb| taken@.contains(b) <==> before.take(i as int).contains(b) && chosen(b),
                forall|cell: Cell|
                    #![trigger self.planted@.contains(cell)]
                    #![trigger occupied(before, cell)]
                    self.planted@.contains(cell) <==> occupied(before, cell) && !occupied(
                        taken@,
                        cell,
                    ),
                forall|player_id: u128|
                    owned(kept@, player_id) + owned(taken@, player_id) == owned(
                        before.take(i as int),
                        player_id,
                    ),
            decreases n - i,
        {
            let bomb = self.bombs[i];
            let ghost kept_before = kept@;
            let ghost taken_before = taken@;
            proof {
                lemma_take_next(before, i as int);
            }
            if marks[i] {
                taken.push(bomb);
                self.planted.remove(&bomb.cell);
                proof {
                    assert forall|a: int, b: int| 0 <= a < b < taken@.len() implies (
                    #[trigger] taken@[a]).id < (#[trigger] taken@[b]).id by {
                        if b == taken_before.len() {
                            assert(taken_before.contains(taken_before[a]));
                        }
                    }
                    assert forall|cell: Cell| occupied(taken@, cell) <==> occupied(
                        taken_before,
                        cell,
                    ) || cell == bomb.cell by {
                        if occupied(taken_before, cell) {
                            let k = choose|k: int|
                                0 <= k < taken_before.len() && (#[trigger] taken_before[k]).cell
                                    == cell;
                            assert(taken@[k].cell == cell);
                        }
                        if cell == bomb.cell {
                            assert(taken@[taken_before.len() as int].cell == cell);
                        }
                    }
                }
            } else {
                kept.push(bomb);
                proof {
                    assert forall|a: int, b: int| 0 <= a < b < kept@.len() implies (
                    #[trigger] kept@[a]).id < (#[trigger] kept@[b]).id by {
                        if b == kept_before.len() {
                            assert(kept_before.contains(kept_before[a]));
                        }
                    }
                }
            }
            proof {
                assert forall|b: Bomb| kept@.contains(b) <==> before.take(i + 1).contains(b)
                    && !chosen(b) by {
                    lemma_push_contains(kept_before, bomb, b);
                    lemma_push_contains(before.take(i as int), bomb, b);
                }
                assert forall|b: Bomb| taken@.contains(b) <==> before.take(i + 1).contains(b)
                    && chosen(b) by {
                    lemma_push_contains(taken_before, bomb, b);
                    lemma_push_contains(before.take(i as int), bomb, b);
                }
                assert forall|player_id: u128|
                    owned(kept@, player_id) + owned(taken@, player_id) == owned(
                        before.take(i + 1),
                        player_id,
                    ) by {
                    lemma_owned_push(kept_before, bomb, player_id);
                    lemma_owned_push(taken_before, bomb, player_id);
                    lemma_owned_push(before.take(i as int), bomb, player_id);
                }
            }
            i += 1;
        }
        self.bombs = kept;
        proof {
            assert(before.take(n as int) =~= before);
            let after = self@;
            assert forall|k: int| 0 <= k < after.len() implies (#[trigger] after[k]).id
                < self.issued() by {
                assert(after.contains(after[k]));
            }
            assert forall|a: int, b: int| 0 <= a < b < after.len() implies (#[trigger] after[a]).cell
                != (#[trigger] after[b]).cell by {
                assert(after.contains(after[a]));
                assert(after.contains(after[b]));
            }
            assert forall|cell: Cell| self.planted@.contains(cell) <==> occupied(after, cell) by {
                if occupied(after, cell) {
                    let k = choose|k: int| 0 <= k < after.len() && (#[trigger] after[k]).cell == cell;
                    assert(after.contains(after[k]));
                    if occupied(taken@, cell) {
                        let t = choose|t: int|
                            0 <= t < taken@.len() && (#[trigger] taken@[t]).cell == cell;
                        assert(taken@.contains(taken@[t]));
                    }
                }
                if self.planted@.contains(cell) {
                    let j = choose|j: int|
                        0 <= j < before.len() && (#[trigger] before[j]).cell == cell;
                    if chosen(before[j]) {
                        assert(taken@.contains(before[j]));
                    } else {
                        assert(after.contains(before[j]));
                    }
                }
            }
            assert(self.planted() =~= cells_of(after));
        }
        taken
    }

    /// The events that announce the detonations of the bombs, one by one.
    fn announce(bombs: &Vec<Bomb>) -> (events: Vec<BombExploded>)
        ensures
            events@.len() == bombs@.len(),
            forall|k: int| 0 <= k < bombs@.len() ==> #[trigger] events@[k] == bombs@[k].detonation(),
            forall|player_id: u128| restored(events@, player_id) == owned(bombs@, player_id),
    {
        let mut events: Vec<BombExploded> = Vec::new();
        let mut k: usize = 0;
        while k < bombs.len()
            invariant
                k <= bombs@.len(),
                events@.len() == k,
                forall|j: int| 0 <= j < k ==> #[trigger] events@[j] == bombs@[j].detonation(),
                forall|player_id: u128|
                    restored(events@, player_id) == owned(bombs@.take(k as int), player_id),
            decreases bombs@.len() - k,
        {
            let ghost events_before = events@;
            events.push(bombs[k].exploded());
            proof {
                lemma_take_next(bombs@, k as int);
                assert forall|player_id: u128|
                    restored(events@, player_id) == owned(bombs@.take(k + 1), player_id) by {
                    lemma_restored_push(events_before, bombs@[k as int].detonation(), player_id);
                }
            }
            k += 1;
        }
        assert(bombs@.take(bombs@.len() as int) =~= bombs@);
        events
    }

    /// Brings bombs listed in the order of their creation into the order in
    /// which they detonate.
    fn sort_by_deadline(taken: Vec<Bomb>) -> (sorted: Vec<Bomb>)
        requires
            ordered(taken@),
        ensures
            sorted@.len() == taken@.len(),
            forall|b: Bomb| sorted@.contains(b) <==> taken@.contains(b),
            forall|k: int, l: int|
                0 <= k < l < sorted@.len() ==> detonates_before(
                    #[trigger] sorted@[k],
                    #[trigger] sorted@[l],
                ),
            forall|player_id: u128| owned(sorted@, player_id) == owned(taken@, player_id),
    {
        let mut sorted: Vec<Bomb> = Vec::new();
        let mut i: usize = 0;
        while i < taken.len()
            invariant
                i <= taken@.len(),
                ordered(taken@),
                sorted@.len() == i,
                forall|b: Bomb| sorted@.contains(b) <==> taken@.take(i as int).contains(b),
                forall|k: int, l: int|
                    0 <= k < l < sorted@.len() ==> detonates_before(
                        #[trigger] sorted@[k],
                        #[trigger] sorted@[l],
                    ),
                forall|player_id: u128|
                    owned(sorted@, player_id) == owned(taken@.take(i as int), player_id),
            decreases taken@.len() - i,
        {
            let bomb = taken[i];
            let mut place: usize = 0;
            while place < sorted.len() && sorted[place].explode_at <= bomb.explode_at
                invariant
                    place <= sorted@.len(),
                    forall|k: int|
                        0 <= k < place ==> (#[trigger] sorted@[k]).explode_at <= bomb.explode_at,
                decreases sorted@.len() - place,
            {
                place += 1;
            }
            let ghost sorted_before = sorted@;
            sorted.insert(place, bomb);
            proof {
                lemma_take_next(taken@, i as int);
                assert forall|b: Bomb| sorted@.contains(b) <==> taken@.take(i + 1).contains(b) by {
                    lemma_insert_contains(sorted_before, place as int, bomb, b);
                    lemma_push_contains(taken@.take(i as int), bomb, b);
                }
                assert forall|player_id: u128|
                    owned(sorted@, player_id) == owned(taken@.take(i + 1), player_id) by {
                    lemma_owned_insert(sorted_before, place as int, bomb, player_id);
                }
                assert forall|k: int| 0 <= k < sorted_before.len() implies (
                #[trigger] sorted_before[k]).id < bomb.id by {
                    assert(sorted_before.contains(sorted_before[k]));
                }
            }
            i += 1;
        }
        assert(taken@.take(taken@.len() as int) =~= taken@);
        sorted
    }

    /// Detonates every bomb whose deadline has passed at time `now`.
    ///
    /// Those bombs leave the registry and the planted cells; all others stay.
    /// The detonations are listed by deadline, the earlier first, and those
    /// of equal deadlines in the order in which the bombs were created.
    pub fn tick(&mut self, now: u64) -> (events: Vec<BombExploded>)
        requires
            old(self).wf(),
        ensures
            final(self).wf(),
            final(self).issued() == old(self).issued(),
            final(self)@.len() + events@.len() == old(self)@.len(),
            forall|b: Bomb| #[trigger] final(self)@.contains(b) <==> old(self)@.contains(b) && !is_due(b, now),
            forall|i: int|
                0 <= i < old(self)@.len() && is_due(#[trigger] old(self)@[i], now)
                    ==> events@.contains(old(self)@[i].detonation()),
            forall|k: int|
                0 <= k < events@.len() ==> {
                    let id = (#[trigger] events@[k]).bomb_id;
                    &&& has_bomb(old(self)@, id)
                    &&& is_due(bomb_of(old(self)@, id), now)
                    &&& events@[k] == bomb_of(old(self)@, id).detonation()
                },
            forall|k: int, l: int|
                0 <= k < l < events@.len() ==> detonates_before(
                    bomb_of(old(self)@, (#[trigger] events@[k]).bomb_id),
                    bomb_of(old(self)@, (#[trigger] events@[l]).bomb_id),
                ),
            forall|player_id: u128|
                owned(final(self)@, player_id) + restored(events@, player_id) == owned(
                    old(self)@,
                    player_id,
                ),
    {
        let ghost before = self@;
        let mut marks: Vec<bool> = Vec::new();
        let mut i: usize = 0;
        while i < self.bombs.len()
            invariant
                i <= self.bombs@.len(),
                marks@.len() == i,
                forall|j: int| 0 <= j < i ==> marks@[j] == is_due(#[trigger] self.bombs@[j], now),
            decreases self.bombs@.len() - i,
        {
            marks.push(self.bombs[i].explode_at <= now);
            i += 1;
        }
        let taken = self.extract(&marks, Ghost(|b: Bomb| is_due(b, now)));
        let sorted = Self::sort_by_deadline(taken);
        let events = Self::announce(&sorted);
        proof {
            assert forall|k: int| 0 <= k < events@.len() implies {
                let id = (#[trigger] events@[k]).bomb_id;
                &&& has_bomb(before, id)
                &&& bomb_of(before, id) == sorted@[k]
                &&& is_due(bomb_of(before, id), now)
                &&& events@[k] == bomb_of(before, id).detonation()
            } by {
                assert(sorted@.contains(sorted@[k]));
            }
            assert forall|i: int| 0 <= i < before.len() && is_due(
                #[trigger] before[i],
                now,
            ) implies events@.contains(before[i].detonation()) by {
                assert(sorted@.contains(before[i]));
                let k = choose|k: int| 0 <= k < sorted@.len() && sorted@[k] == before[i];
                assert(events@[k] == before[i].detonation());
            }
        }
        events
    }

    /// Detonates every bomb that stands on one of the cells, whatever its
    /// deadline.
    ///
    /// Those bombs leave the registry and the planted cells; all others stay.
    /// The detonations are listed in the order in which the bombs were
    /// created.
    pub fn detonate_in(&mut self, cells: &Vec<Cell>) -> (events: Vec<BombExploded>)
        requires
            old(self).wf(),
        ensures
            final(self).wf(),
            final(self).issued() == old(self).issued(),
            final(self)@.len() + events@.len() == old(self)@.len(),
            forall|b: Bomb|
                #[trigger] final(self)@.contains(b) <==> old(self)@.contains(b) && !cells@.contains(
                    b.cell,
                ),
            forall|i: int|
                0 <= i < old(self)@.len() && cells@.contains((#[trigger] old(self)@[i]).cell)
                    ==> events@.contains(old(self)@[i].detonation()),
            forall|k: int|
                0 <= k < events@.len() ==> {
                    let id = (#[trigger] events@[k]).bomb_id;
                    &&& has_bomb(old(self)@, id)
                    &&& cells@.contains(events@[k].bomb_cell)
                    &&& events@[k] == bomb_of(old(self)@, id).detonation()
                },
            forall|k: int, l: int|
                0 <= k < l < events@.len() ==> (#[trigger] events@[k]).bomb_id < (
                #[trigger] events@[l]).bomb_id,
            forall|player_id: u128|
                owned(final(self)@, player_id) + restored(events@, player_id) == owned(
                    old(self)@,
                    player_id,
                ),
    {
        let ghost before = self@;
        let mut marks: Vec<bool> = Vec::new();
        let mut i: usize = 0;
        while i < self.bombs.len()
            invariant
                i <= self.bombs@.len(),
                marks@.len() == i,
                forall|j: int|
                    0 <= j < i ==> marks@[j] == cells@.contains((#[trigger] self.bombs@[j]).cell),
            decreases self.bombs@.len() - i,
        {
            marks.push(holds(cells, self.bombs[i].cell));
            i += 1;
        }
        let taken = self.extract(&marks, Ghost(|b: Bomb| cells@.contains(b.cell)));
        let events = Self::announce(&taken);
        proof {
            assert forall|k: int| 0 <= k < events@.len() implies {
                let id = (#[trigger] events@[k]).bomb_id;
                &&& has_bomb(before, id)
                &&& cells@.contains(events@[k].bomb_cell)
                &&& events@[k] == bomb_of(before, id).detonation()
            } by {
                assert(taken@.contains(taken@[k]));
            }
            assert forall|i: int| 0 <= i < before.len() && cells@.contains(
                (#[trigger] before[i]).cell,
            ) implies events@.contains(before[i].detonation()) by {
                assert(taken@.contains(before[i]));
                let k = choose|k: int| 0 <= k < taken@.len() && taken@[k] == before[i];
                assert(events@[k] == before[i].detonation());
            }
        }
        events
    }

    /// A registry whose bombs have the handles and cells of those of a
    /// well-formed one, place by place, is well-formed too.
    proof fn lemma_same_places(self, before: BombRegistry)
        requires
            before.wf(),
            self.bombs@.len() == before.bombs@.len(),
            forall|i: int|
                0 <= i < self.bombs@.len() ==> (#[trigger] self.bombs@[i]).id == before.bombs@[i].id
                    && self.bombs@[i].cell == before.bombs@[i].cell,
            self.planted@ == before.planted@,
            self.next_id == before.next_id,
        ensures
            self.wf(),
    {
        assert forall|cell: Cell| occupied(self@, cell) <==> occupied(before@, cell) by {
            if occupied(before@, cell) {
                let i = choose|i: int|
                    0 <= i < before@.len() && (#[trigger] before@[i]).cell == cell;
                assert(self@[i].cell == cell);
            }
        }
        assert(self.planted() =~= cells_of(self@));
    }
}

/// In a well-formed registry no two bombs stand on one cell.
pub proof fn lemma_one_bomb_per_cell(registry: BombRegistry, i: int, j: int)
    requires
        registry.wf(),
        0 <= i < registry@.len(),
        0 <= j < registry@.len(),
        registry@[i].cell == registry@[j].cell,
    ensures
        i == j,
{
}

/// A request to plant on a cell on which a bomb stands is rejected,
/// whatever the player's capacity.
pub proof fn lemma_occupied_cell_rejects(registry: BombRegistry, place: int, capacity: u8)
    requires
        registry.wf(),
        0 <= place < registry@.len(),
    ensures
        registry.plant_outcome(registry@[place].cell, capacity) is Err,
{
}

/// Detonations listed one after the other count as both lists together.
pub proof fn lemma_restored_add(a: Seq<BombExploded>, b: Seq<BombExploded>, player_id: u128)
    ensures
        restored(a + b, player_id) == restored(a, player_id) + restored(b, player_id),
    decreases b.len(),
{
    if b.len() > 0 {
        assert((a + b).drop_last() =~= a + b.drop_last());
        lemma_restored_add(a, b.drop_last(), player_id);
    }
}

/// The first detonations of a list count no more than the whole list.
pub proof fn lemma_restored_take(events: Seq<BombExploded>, upto: int, player_id: u128)
    requires
        0 <= upto <= events.len(),
    ensures
        restored(events.take(upto), player_id) <= restored(events, player_id),
{
    assert(events =~= events.take(upto) + events.skip(upto));
    lemma_restored_add(events.take(upto), events.skip(upto), player_id);
}

/// Taking a bomb out of a list takes it out of its planter's count.
pub proof fn lemma_owned_remove(bombs: Seq<Bomb>, place: int, player_id: u128)
    requires
        0 <= place < bombs.len(),
    ensures
        owned(bombs.remove(place), player_id) + (if bombs[place].player_id == player_id {
            1nat
        } else {
            0nat
        }) == owned(bombs, player_id),
{
    assert(bombs.remove(place).insert(place, bombs[place]) =~= bombs);
    lemma_owned_insert(bombs.remove(place), place, bombs[place], player_id);
}

/// Bombs that have the planters of other bombs, place by place, count the
/// same for every player.
pub proof fn lemma_owned_same_planters(a: Seq<Bomb>, b: Seq<Bomb>, player_id: u128)
    requires
        a.len() == b.len(),
        forall|i: int| 0 <= i < a.len() ==> (#[trigger] a[i]).player_id == b[i].player_id,
    ensures
        owned(a, player_id) == owned(b, player_id),
    decreases a.len(),
{
    if a.len() > 0 {
        lemma_owned_same_planters(a.drop_last(), b.drop_last(), player_id);
    }
}

} // verus!
