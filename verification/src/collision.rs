//! Collision groups and the membership/filter pairs the bodies are given.

use vstd::prelude::*;
use crate::map::Cell;

verus! {

/// Bit of the collision group of players.
pub const PLAYER_GROUP: u32 = 0b00000001;

/// Bit of the collision group of bombs.
pub const BOMB_GROUP: u32 = 0b00000010;

/// A body's collision policy: the groups it belongs to, then the groups it
/// collides with.
#[derive(Debug, Clone, Copy, PartialEq, Eq, Structural)]
pub struct CollisionPolicy(pub u32, pub u32);

/// Players belong to the player group and collide with bombs.
pub fn player_policy() -> (p: CollisionPolicy)
    ensures
        p == CollisionPolicy(PLAYER_GROUP, BOMB_GROUP),
{
    CollisionPolicy(PLAYER_GROUP, BOMB_GROUP)
}

/// Bombs belong to the bomb group and collide with players and with bombs.
pub fn bomb_policy() -> (p: CollisionPolicy)
    ensures
        p == CollisionPolicy(BOMB_GROUP, PLAYER_GROUP | BOMB_GROUP),
{
    CollisionPolicy(BOMB_GROUP, PLAYER_GROUP | BOMB_GROUP)
}

/// What takes part in a collision, as far as the arena cares.
#[derive(Debug, Copy, Clone, PartialEq, Eq, Structural)]
pub enum Body {
    /// The player with the identity.
    Player(u128),
    /// The bomb with the handle.
    Bomb(u64),
    /// An explosion.
    Explosion,
    /// The brick on the cell.
    Brick(Cell),
    /// Anything else: a block, a border.
    Other,
}

/// Two bodies have begun or ceased to overlap.
#[derive(Debug, Copy, Clone, PartialEq, Eq, Structural)]
pub enum CollisionEvent {
    Started(Body, Body),
    Stopped(Body, Body),
}

/// What a collision means to the arena.
#[derive(Debug, Copy, Clone, PartialEq, Eq, Structural)]
pub enum Contact {
    /// A player has stepped on a bomb (`started`) or off it.
    PlayerAtBomb { started: bool, player_id: u128, bomb_id: u64 },
    /// An explosion has reached a bomb.
    ExplosionAtBomb { bomb_id: u64 },
    /// An explosion has reached a player.
    ExplosionAtPlayer { player_id: u128 },
    /// An explosion has reached a brick.
    ExplosionAtBrick { cell: Cell },
    /// Nothing that changes the arena.
    Irrelevant,
}

/// What the overlap of two bodies means, whichever of them is named first.
/// That an explosion ceases to overlap something means nothing.
pub open spec fn contact_of(event: CollisionEvent) -> Contact {
    match event {
        CollisionEvent::Started(Body::Player(player_id), Body::Bomb(bomb_id))
        | CollisionEvent::Started(Body::Bomb(bomb_id), Body::Player(player_id)) => {
            Contact::PlayerAtBomb { started: true, player_id, bomb_id }
        },
        CollisionEvent::Stopped(Body::Player(player_id), Body::Bomb(bomb_id))
        | CollisionEvent::Stopped(Body::Bomb(bomb_id), Body::Player(player_id)) => {
            Contact::PlayerAtBomb { started: false, player_id, bomb_id }
        },
        CollisionEvent::Started(Body::Explosion, Body::Bomb(bomb_id))
        | CollisionEvent::Started(Body::Bomb(bomb_id), Body::Explosion) => {
            Contact::ExplosionAtBomb { bomb_id }
        },
        CollisionEvent::Started(Body::Explosion, Body::Player(player_id))
        | CollisionEvent::Started(Body::Player(player_id), Body::Explosion) => {
            Contact::ExplosionAtPlayer { player_id }
        },
        CollisionEvent::Started(Body::Explosion, Body::Brick(cell))
        | CollisionEvent::Started(Body::Brick(cell), Body::Explosion) => {
            Contact::ExplosionAtBrick { cell }
        },
        _ => Contact::Irrelevant,
    }
}

/// Reads a collision.
pub fn classify(event: &CollisionEvent) -> (contact: Contact)
    ensures
        contact == contact_of(*event),
{
    match event {
        CollisionEvent::Started(first, second) => match (first, second) {
            (Body::Player(player_id), Body::Bomb(bomb_id)) => Contact::PlayerAtBomb {
                started: true,
                player_id: *player_id,
                bomb_id: *bomb_id,
            },
            (Body::Bomb(bomb_id), Body::Player(player_id)) => Contact::PlayerAtBomb {
                started: true,
                player_id: *player_id,
                bomb_id: *bomb_id,
            },
            (Body::Explosion, Body::Bomb(bomb_id)) => Contact::ExplosionAtBomb {
                bomb_id: *bomb_id,
            },
            (Body::Bomb(bomb_id), Body::Explosion) => Contact::ExplosionAtBomb {
                bomb_id: *bomb_id,
            },
            (Body::Explosion, Body::Player(player_id)) => Contact::ExplosionAtPlayer {
                player_id: *player_id,
            },
            (Body::Player(player_id), Body::Explosion) => Contact::ExplosionAtPlayer {
                player_id: *player_id,
            },
            (Body::Explosion, Body::Brick(cell)) => Contact::ExplosionAtBrick { cell: *cell },
            (Body::Brick(cell), Body::Explosion) => Contact::ExplosionAtBrick { cell: *cell },
            _ => Contact::Irrelevant,
        },
        CollisionEvent::Stopped(first, second) => match (first, second) {
            (Body::Player(player_id), Body::Bomb(bomb_id)) => Contact::PlayerAtBomb {
                started: false,
                player_id: *player_id,
                bomb_id: *bomb_id,
            },
            (Body::Bomb(bomb_id), Body::Player(player_id)) => Contact::PlayerAtBomb {
                started: false,
                player_id: *player_id,
                bomb_id: *bomb_id,
            },
            _ => Contact::Irrelevant,
        },
    }
}

} // verus!
