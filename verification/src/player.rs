//! Players: identity, colour, steering and the count of bombs they may
//! still plant.

use vstd::prelude::*;
use crate::map::{default_material, Cell, Material};

verus! {

/// Blast radius of a new player's bombs, in cells.
pub const DEFAULT_FIRE_RANGE: u8 = 2;

/// Number of bombs a new player may have planted at once.
pub const DEFAULT_BOMB_CAPACITY: u8 = 1;

/// Time from planting to detonation of a new player's bombs, in
/// nanoseconds of simulated time.
pub const DEFAULT_DETONATION_PERIOD: u64 = 2_000_000_000;

/// The bits of an identity that hold its version and variant.
pub const ID_FORMAT_MASK: u128 = 0x0000_0000_0000_f000_c000_0000_0000_0000;

/// Their value in a random (version 4) identity.
pub const ID_FORMAT_RANDOM: u128 = 0x0000_0000_0000_4000_8000_0000_0000_0000;

/// The colour in which a player, its bombs and their explosions are shown.
#[derive(Debug, Copy, Clone, PartialEq, Eq, Structural)]
pub enum PlayerColor {
    White,
    Black,
}

/// The cell on which a player of the colour starts.
pub open spec fn start_of(color: PlayerColor) -> Cell {
    match color {
        PlayerColor::White => Cell(0, 0),
        PlayerColor::Black => Cell(2, 2),
    }
}

impl PlayerColor {
    /// The cell on which a player of this colour starts.
    pub fn start_cell(&self) -> (cell: Cell)
        ensures
            cell == start_of(*self),
    {
        match self {
            PlayerColor::White => Cell(0, 0),
            PlayerColor::Black => Cell(2, 2),
        }
    }
}

/// In the standard arena the players start on empty cells.
pub proof fn lemma_start_cells_are_clear(color: PlayerColor)
    ensures
        default_material(start_of(color).0 as int, start_of(color).1 as int) == Material::Empty,
{
}

/// What a player asks for in one tick.
#[derive(Debug, Copy, Clone, PartialEq, Eq, Structural)]
pub struct Intents {
    pub move_north: bool,
    pub move_south: bool,
    pub move_west: bool,
    pub move_east: bool,
    /// The key to plant a bomb went down in this tick.
    pub set_bomb: bool,
}

/// The direction in which a player steers: -1, 0 or 1 along each axis, east
/// and north counting as 1.
#[derive(Debug, Copy, Clone, Default, PartialEq, Eq, Structural)]
pub struct InputState {
    pub horizontal_direction: i8,
    pub vertical_direction: i8,
}

/// 1 for a pressed key, 0 for a released one.
pub open spec fn pressed(key: bool) -> int {
    if key {
        1
    } else {
        0
    }
}

/// The steering that the pressed keys amount to; opposite keys cancel.
pub open spec fn steering(intents: Intents) -> InputState {
    InputState {
        horizontal_direction: (pressed(intents.move_east) - pressed(intents.move_west)) as i8,
        vertical_direction: (pressed(intents.move_north) - pressed(intents.move_south)) as i8,
    }
}

impl InputState {
    /// The steering that the pressed keys amount to.
    pub fn from_intents(intents: &Intents) -> (state: InputState)
        ensures
            state == steering(*intents),
    {
        let east: i8 = if intents.move_east { 1 } else { 0 };
        let west: i8 = if intents.move_west { 1 } else { 0 };
        let north: i8 = if intents.move_north { 1 } else { 0 };
        let south: i8 = if intents.move_south { 1 } else { 0 };
        InputState { horizontal_direction: east - west, vertical_direction: north - south }
    }
}

/// One of the contestants.
#[derive(Debug, Copy, Clone, PartialEq, Eq, Structural)]
pub struct Player {
    pub id: u128,
    pub color: PlayerColor,
    pub inputs: InputState,
    /// How many more bombs the player may plant right now.
    pub bomb_capacity: u8,
    /// Blast radius of the player's bombs, in cells.
    pub fire_range: u8,
    /// Time from planting to detonation, in nanoseconds.
    pub bomb_detonation_period: u64,
    /// Cleared when an explosion touches the player.
    pub alive: bool,
}

/// Draws a random identity with `uuid::Uuid::new_v4` and reads it as a
/// number with `uuid::Uuid::as_u128`. The outcome is random but for the bits
/// that mark it as a version 4 identity of the standard variant. The call
/// panics if the operating system hands out no random bytes.
#[verifier::external_body]
fn new_v4() -> (id: u128)
    ensures
        id & ID_FORMAT_MASK == ID_FORMAT_RANDOM,
{
    uuid::Uuid::new_v4().as_u128()
}

impl Player {
    /// A new player of the given colour with a fresh random identity and the
    /// default equipment.
    pub fn new(color: PlayerColor) -> (player: Player)
        ensures
            player == (Player { id: player.id, ..Player::fresh(color) }),
            player.id & ID_FORMAT_MASK == ID_FORMAT_RANDOM,
    {
        Player::with_id(new_v4(), color)
    }

    /// A player as `Player::new` makes it, but for the identity.
    pub open spec fn fresh(color: PlayerColor) -> Player {
        Player {
            id: 0,
            color,
            inputs: InputState { horizontal_direction: 0, vertical_direction: 0 },
            bomb_capacity: DEFAULT_BOMB_CAPACITY,
            fire_range: DEFAULT_FIRE_RANGE,
            bomb_detonation_period: DEFAULT_DETONATION_PERIOD,
            alive: true,
        }
    }

    /// A new player with a given identity.
    pub fn with_id(id: u128, color: PlayerColor) -> (player: Player)
        ensures
            player == (Player { id, ..Player::fresh(color) }),
    {
        Player {
            id,
            color,
            inputs: InputState { horizontal_direction: 0, vertical_direction: 0 },
            bomb_capacity: DEFAULT_BOMB_CAPACITY,
            fire_range: DEFAULT_FIRE_RANGE,
            bomb_detonation_period: DEFAULT_DETONATION_PERIOD,
            alive: true,
        }
    }

    /// The player after planting a bomb.
    pub open spec fn planted(self) -> Player {
        Player { bomb_capacity: (self.bomb_capacity - 1) as u8, ..self }
    }

    /// The player after one of its bombs has detonated.
    pub open spec fn resolved(self) -> Player {
        Player { bomb_capacity: (self.bomb_capacity + 1) as u8, ..self }
    }

    /// Accounts for a bomb that the player has just planted.
    pub fn on_plant(&mut self)
        requires
            old(self).bomb_capacity > 0,
        ensures
            *final(self) == old(self).planted(),
            final(self).bomb_capacity == old(self).bomb_capacity - 1,
    {
        self.bomb_capacity = self.bomb_capacity - 1;
    }

    /// Accounts for the detonation of one of the player's bombs, by its fuse
    /// or by another blast.
    pub fn on_own_bomb_resolved(&mut self)
        requires
            old(self).bomb_capacity < u8::MAX,
        ensures
            *final(self) == old(self).resolved(),
            final(self).bomb_capacity == old(self).bomb_capacity + 1,
    {
        self.bomb_capacity = self.bomb_capacity + 1;
    }

    /// An explosion touched the player: it is dead from now on.
    pub fn on_hazard_contact(&mut self)
        ensures
            *final(self) == (Player { alive: false, ..*old(self) }),
    {
        self.alive = false;
    }
}

impl Default for Player {
    /// A new white player.
    fn default() -> (player: Player)
        ensures
            player == (Player { id: player.id, ..Player::fresh(PlayerColor::White) }),
            player.id & ID_FORMAT_MASK == ID_FORMAT_RANDOM,
    {
        Player::new(PlayerColor::White)
    }
}

/// Planting a bomb and seeing it detonate leaves a player as it was.
pub proof fn lemma_capacity_round_trip(player: Player)
    requires
        player.bomb_capacity > 0,
    ensures
        player.planted().resolved() == player,
{
}

/// Whether no two players share an identity.
pub open spec fn distinct_ids(players: Seq<Player>) -> bool {
    forall|i: int, j: int|
        0 <= i < j < players.len() ==> (#[trigger] players[i]).id != (#[trigger] players[j]).id
}

/// Whether one of the players has the identity.
pub open spec fn has_player(players: Seq<Player>, id: u128) -> bool {
    exists|p: int| 0 <= p < players.len() && (#[trigger] players[p]).id == id
}

/// The place of the player with the identity, if there is one.
pub open spec fn seat_of(players: Seq<Player>, id: u128) -> int {
    choose|p: int| 0 <= p < players.len() && (#[trigger] players[p]).id == id
}

/// The place of the player with the identity.
pub(crate) fn find_seat(players: &Vec<Player>, player_id: u128) -> (seat: Option<usize>)
    requires
        distinct_ids(players@),
    ensures
        seat is Some <==> has_player(players@, player_id),
        seat matches Some(p) ==> p < players@.len() && players@[p as int].id == player_id && p
            == seat_of(players@, player_id),
{
    let mut p: usize = 0;
    while p < players.len()
        invariant
            p <= players@.len(),
            distinct_ids(players@),
            forall|q: int| 0 <= q < p ==> (#[trigger] players@[q]).id != player_id,
        decreases players@.len() - p,
    {
        if players[p].id == player_id {
            return Some(p);
        }
        p += 1;
    }
    None
}

} // verus!
