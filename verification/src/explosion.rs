//! Blast propagation over the terrain, and the short-lived explosions that
//! a detonation leaves on the cells it reaches.

use vstd::prelude::*;
use crate::bomb::BombExploded;
use crate::map::{Cell, MapState, Material};
use crate::player::PlayerColor;
use crate::seqs::lemma_take_next;

verus! {

/// The four directions in which a blast travels.
#[derive(Debug, Copy, Clone, PartialEq, Eq, Structural)]
pub enum Direction {
    /// Towards row 0.
    North,
    /// Towards higher rows.
    South,
    /// Towards column 0.
    West,
    /// Towards higher columns.
    East,
}

/// The cell `k` steps from `center` in direction `dir`, where that is a grid
/// coordinate at all.
pub open spec fn step(center: Cell, dir: Direction, k: int) -> Option<Cell> {
    match dir {
        Direction::North => center.offset(0, -k),
        Direction::South => center.offset(0, k),
        Direction::West => center.offset(-k, 0),
        Direction::East => center.offset(k, 0),
    }
}

/// Whether step `k` of the walk from `center` in direction `dir` lies on the
/// grid and is empty, so that a blast which gets there also leaves it.
pub open spec fn is_open(terrain: &MapState, center: Cell, dir: Direction, k: int) -> bool {
    step(center, dir, k) matches Some(cell) && terrain.spec_contains(cell) && terrain.material(cell)
        == Material::Empty
}

/// Whether a blast of the given radius gets to step `k` of the walk from
/// `center` in direction `dir`: the step is within the radius, on the grid
/// and no block, and every step before it is open.
pub open spec fn ray_reaches(
    terrain: &MapState,
    center: Cell,
    dir: Direction,
    radius: u8,
    k: int,
) -> bool {
    &&& 1 <= k <= radius
    &&& forall|j: int| 1 <= j < k ==> #[trigger] is_open(terrain, center, dir, j)
    &&& step(center, dir, k) matches Some(cell) && terrain.spec_contains(cell) && terrain.material(
        cell,
    ) != Material::Block
}

/// Whether the blast of a detonation at `center` covers `cell`: the centre
/// itself always, any other cell exactly if one of the four walks gets to it.
pub open spec fn blast_reaches(terrain: &MapState, center: Cell, radius: u8, cell: Cell) -> bool {
    cell == center || exists|dir: Direction, k: int|
        #[trigger] ray_reaches(terrain, center, dir, radius, k) && step(center, dir, k) == Some(
            cell,
        )
}

/// Place of a cell in the order in which a blast is listed: the centre, then
/// the cells north of it from the nearest on, then likewise those south,
/// west and east of it.
pub open spec fn blast_rank(center: Cell, cell: Cell) -> int {
    if cell == center {
        0
    } else if cell.0 == center.0 && cell.1 < center.1 {
        256 + (center.1 - cell.1)
    } else if cell.0 == center.0 {
        512 + (cell.1 - center.1)
    } else if cell.1 == center.1 && cell.0 < center.0 {
        768 + (center.0 - cell.0)
    } else if cell.1 == center.1 {
        1024 + (cell.0 - center.0)
    } else {
        1280
    }
}

/// The neighbour of a cell in a direction, if the coordinate exists.
fn neighbor(cell: Cell, dir: Direction) -> (next: Option<Cell>)
    ensures
        next == step(cell, dir, 1),
{
    match dir {
        Direction::North => if cell.1 == 0 {
            None
        } else {
            Some(Cell(cell.0, cell.1 - 1))
        },
        Direction::South => if cell.1 == 255 {
            None
        } else {
            Some(Cell(cell.0, cell.1 + 1))
        },
        Direction::West => if cell.0 == 0 {
            None
        } else {
            Some(Cell(cell.0 - 1, cell.1))
        },
        Direction::East => if cell.0 == 255 {
            None
        } else {
            Some(Cell(cell.0 + 1, cell.1))
        },
    }
}

/// Whether the `n` cells of `cells` from place `from` on are the cells that
/// the blast gets to along one walk, nearest first.
pub open spec fn lists_walk(
    terrain: &MapState,
    center: Cell,
    dir: Direction,
    radius: u8,
    cells: Seq<Cell>,
    from: int,
    n: int,
) -> bool {
    &&& 0 <= from
    &&& 0 <= n
    &&& from + n <= cells.len()
    &&& forall|x: int|
        from <= x < from + n ==> Some(#[trigger] cells[x]) == step(center, dir, x - from + 1)
    &&& forall|k: int| #[trigger] ray_reaches(terrain, center, dir, radius, k) <==> 1 <= k <= n
}

/// Whether `cells` lists a blast as `propagate` does: the centre, then the
/// `north` cells of the walk to the north, then likewise the walks to the
/// south, west and east.
pub open spec fn lists_blast(
    terrain: &MapState,
    center: Cell,
    radius: u8,
    cells: Seq<Cell>,
    north: int,
    south: int,
    west: int,
    east: int,
) -> bool {
    &&& cells.len() == 1 + north + south + west + east
    &&& cells[0] == center
    &&& lists_walk(terrain, center, Direction::North, radius, cells, 1, north)
    &&& lists_walk(terrain, center, Direction::South, radius, cells, 1 + north, south)
    &&& lists_walk(terrain, center, Direction::West, radius, cells, 1 + north + south, west)
    &&& lists_walk(terrain, center, Direction::East, radius, cells, 1 + north + south + west, east)
}

/// Walks from `center` in one direction and appends the cells that the blast
/// gets to, nearest first. Returns how many there are.
fn walk(terrain: &MapState, center: Cell, dir: Direction, radius: u8, cells: &mut Vec<Cell>) -> (n:
    u8)
    requires
        terrain.wf(),
    ensures
        final(cells)@.len() == old(cells)@.len() + n,
        forall|x: int| 0 <= x < old(cells)@.len() ==> #[trigger] final(cells)@[x] == old(cells)@[x],
        lists_walk(terrain, center, dir, radius, final(cells)@, old(cells)@.len() as int, n as int),
{
    let ghost from = cells@.len() as int;
    let mut n: u8 = 0;
    let mut at: Cell = center;
    let mut blocked: bool = false;
    while n < radius && !blocked
        invariant
            terrain.wf(),
            n <= radius,
            from == old(cells)@.len(),
            step(center, dir, n as int) == Some(at),
            cells@.len() == from + n,
            forall|x: int| 0 <= x < from ==> #[trigger] cells@[x] == old(cells)@[x],
            forall|x: int|
                from <= x < from + n ==> Some(#[trigger] cells@[x]) == step(
                    center,
                    dir,
                    x - from + 1,
                ),
            forall|k: int| 1 <= k <= n ==> #[trigger] ray_reaches(terrain, center, dir, radius, k),
            !blocked ==> forall|j: int| 1 <= j <= n ==> #[trigger] is_open(terrain, center, dir, j),
            blocked ==> forall|k: int|
                k > n ==> !#[trigger] ray_reaches(terrain, center, dir, radius, k),
        decreases radius - n + (if blocked { 0int } else { 1int }),
    {
        let ghost reached = n as int;
        match neighbor(at, dir) {
            None => {
                blocked = true;
            },
            Some(next) => {
                match terrain.material_at(next) {
                    Err(_) => {
                        blocked = true;
                    },
                    Ok(Material::Block) => {
                        blocked = true;
                    },
                    Ok(Material::Brick) => {
                        cells.push(next);
                        n += 1;
                        at = next;
                        blocked = true;
                    },
                    Ok(Material::Empty) => {
                        cells.push(next);
                        n += 1;
                        at = next;
                    },
                }
            },
        }
        proof {
            if blocked {
                // The walk ends at step `reached + 1`, which is not open.
                assert(!is_open(terrain, center, dir, reached + 1));
            }
        }
    }
    n
}

/// Every cell of a listed blast is covered by the blast.
proof fn lemma_listing_is_sound(
    terrain: &MapState,
    center: Cell,
    radius: u8,
    cells: Seq<Cell>,
    north: int,
    south: int,
    west: int,
    east: int,
    x: int,
)
    requires
        lists_blast(terrain, center, radius, cells, north, south, west, east),
        0 <= x < cells.len(),
    ensures
        blast_reaches(terrain, center, radius, cells[x]),
        blast_rank(center, cells[x]) == (if x == 0 {
            0
        } else if x < 1 + north {
            256 + x
        } else if x < 1 + north + south {
            512 + (x - north)
        } else if x < 1 + north + south + west {
            768 + (x - north - south)
        } else {
            1024 + (x - north - south - west)
        }),
{
    if 1 <= x < 1 + north {
        assert(Some(cells[x]) == step(center, Direction::North, x));
        assert(ray_reaches(terrain, center, Direction::North, radius, x));
    } else if 1 + north <= x < 1 + north + south {
        let k = x - north;
        assert(Some(cells[x]) == step(center, Direction::South, k));
        assert(ray_reaches(terrain, center, Direction::South, radius, k));
    } else if 1 + north + south <= x < 1 + north + south + west {
        let k = x - north - south;
        assert(Some(cells[x]) == step(center, Direction::West, k));
        assert(ray_reaches(terrain, center, Direction::West, radius, k));
    } else if 1 + north + south + west <= x {
        let k = x - north - south - west;
        assert(Some(cells[x]) == step(center, Direction::East, k));
        assert(ray_reaches(terrain, center, Direction::East, radius, k));
    }
}

/// Every cell that the blast covers is in its listing.
proof fn lemma_listing_is_complete(
    terrain: &MapState,
    center: Cell,
    radius: u8,
    cells: Seq<Cell>,
    north: int,
    south: int,
    west: int,
    east: int,
    cell: Cell,
)
    requires
        lists_blast(terrain, center, radius, cells, north, south, west, east),
        blast_reaches(terrain, center, radius, cell),
    ensures
        cells.contains(cell),
{
    if cell != center {
        let (dir, k) = choose|dir: Direction, k: int|
            #[trigger] ray_reaches(terrain, center, dir, radius, k) && step(center, dir, k) == Some(
                cell,
            );
        let x = match dir {
            Direction::North => k,
            Direction::South => north + k,
            Direction::West => north + south + k,
            Direction::East => north + south + west + k,
        };
        assert(Some(cells[x]) == step(center, dir, k));
    }
}

/// The cells that a detonation at `center` with blast radius `radius`
/// covers: the centre, and along each of the four directions the cells up to
/// the radius, the edge of the grid, the first block (left out) or the first
/// brick (taken in), whichever comes first. The directions do not affect one
/// another. The cells are listed once each, in the order of `blast_rank`.
pub fn propagate(center: Cell, radius: u8, terrain: &MapState) -> (cells: Vec<Cell>)
    requires
        terrain.wf(),
    ensures
        cells@.len() >= 1,
        cells@[0] == center,
        forall|cell: Cell| cells@.contains(cell) <==> blast_reaches(terrain, center, radius, cell),
        forall|i: int, j: int|
            0 <= i < j < cells@.len() ==> blast_rank(center, #[trigger] cells@[i]) < blast_rank(
                center,
                #[trigger] cells@[j],
            ),
        cells@.no_duplicates(),
{
    let mut cells: Vec<Cell> = Vec::new();
    cells.push(center);
    let north = walk(terrain, center, Direction::North, radius, &mut cells);
    let south = walk(terrain, center, Direction::South, radius, &mut cells);
    let west = walk(terrain, center, Direction::West, radius, &mut cells);
    let east = walk(terrain, center, Direction::East, radius, &mut cells);
    proof {
        let n = north as int;
        let s = south as int;
        let w = west as int;
        let e = east as int;
        assert forall|cell: Cell| cells@.contains(cell) implies blast_reaches(
            terrain,
            center,
            radius,
            cell,
        ) by {
            let x = choose|x: int| 0 <= x < cells@.len() && cells@[x] == cell;
            lemma_listing_is_sound(terrain, center, radius, cells@, n, s, w, e, x);
        }
        assert forall|cell: Cell| blast_reaches(terrain, center, radius, cell) implies cells@.contains(
            cell,
        ) by {
            lemma_listing_is_complete(terrain, center, radius, cells@, n, s, w, e, cell);
        }
    }
    cells
}

/// How long an explosion burns, in nanoseconds of simulated time.
pub const DEFAULT_EXPLOSION_PERIOD: u64 = 800_000_000;

/// The mark that a detonation leaves on one cell for a short time. It goes
/// out by its deadline alone, whatever it touches meanwhile.
#[derive(Debug, Copy, Clone, PartialEq, Eq, Structural)]
pub struct Explosion {
    pub cell: Cell,
    /// The player that had planted the bomb.
    pub player_id: u128,
    pub player_color: PlayerColor,
    /// Simulated time at which the explosion goes out, in nanoseconds.
    pub extinguish_at: u64,
}

/// The explosion that a detonation at time `now` leaves on a cell.
pub open spec fn explosion_of(event: BombExploded, cell: Cell, now: u64) -> Explosion {
    Explosion {
        cell,
        player_id: event.player_id,
        player_color: event.player_color,
        extinguish_at: (now + DEFAULT_EXPLOSION_PERIOD) as u64,
    }
}

/// Those of the explosions that still burn at time `now`, in their order.
pub open spec fn burning(explosions: Seq<Explosion>, now: u64) -> Seq<Explosion>
    decreases explosions.len(),
{
    if explosions.len() == 0 {
        explosions
    } else if explosions.last().extinguish_at <= now {
        burning(explosions.drop_last(), now)
    } else {
        burning(explosions.drop_last(), now).push(explosions.last())
    }
}

/// Those of the explosions that have gone out at time `now`, in their order.
pub open spec fn gone_out(explosions: Seq<Explosion>, now: u64) -> Seq<Explosion>
    decreases explosions.len(),
{
    if explosions.len() == 0 {
        explosions
    } else if explosions.last().extinguish_at <= now {
        gone_out(explosions.drop_last(), now).push(explosions.last())
    } else {
        gone_out(explosions.drop_last(), now)
    }
}

impl Explosion {
    /// Whether the explosion has gone out at time `now`.
    pub fn is_extinguished(&self, now: u64) -> (out: bool)
        ensures
            out == (self.extinguish_at <= now),
    {
        self.extinguish_at <= now
    }
}

/// Whether `explosions` are the explosions of one detonation at time `now`:
/// one on each cell that the blast covers and no other, each with the
/// planter's identity and colour and the deadline counted from `now`, listed
/// in the order of `blast_rank`.
pub open spec fn is_blast_of(
    terrain: &MapState,
    event: BombExploded,
    now: u64,
    explosions: Seq<Explosion>,
) -> bool {
    &&& forall|i: int|
        0 <= i < explosions.len() ==> (#[trigger] explosions[i]) == explosion_of(
            event,
            explosions[i].cell,
            now,
        )
    &&& forall|cell: Cell|
        explosions.contains(explosion_of(event, cell, now)) <==> blast_reaches(
            terrain,
            event.bomb_cell,
            event.bomb_fire_range,
            cell,
        )
    &&& forall|i: int, j: int|
        0 <= i < j < explosions.len() ==> blast_rank(
            event.bomb_cell,
            (#[trigger] explosions[i]).cell,
        ) < blast_rank(event.bomb_cell, (#[trigger] explosions[j]).cell)
}

/// One explosion of a detonation at time `now` on each of the cells.
pub fn ignite(event: &BombExploded, cells: &Vec<Cell>, now: u64) -> (explosions: Vec<Explosion>)
    requires
        now + DEFAULT_EXPLOSION_PERIOD <= u64::MAX,
    ensures
        explosions@.len() == cells@.len(),
        forall|i: int|
            0 <= i < cells@.len() ==> (#[trigger] explosions@[i]) == explosion_of(
                *event,
                cells@[i],
                now,
            ),
{
    let mut explosions: Vec<Explosion> = Vec::new();
    let mut i: usize = 0;
    while i < cells.len()
        invariant
            i <= cells@.len(),
            now + DEFAULT_EXPLOSION_PERIOD <= u64::MAX,
            explosions@.len() == i,
            forall|j: int|
                0 <= j < i ==> (#[trigger] explosions@[j]) == explosion_of(*event, cells@[j], now),
        decreases cells@.len() - i,
    {
        explosions.push(
            Explosion {
                cell: cells[i],
                player_id: event.player_id,
                player_color: event.player_color,
                extinguish_at: now + DEFAULT_EXPLOSION_PERIOD,
            },
        );
        i += 1;
    }
    explosions
}

/// Explosions on the cells that `propagate` lists make up the blast.
pub proof fn lemma_ignited_blast(
    terrain: &MapState,
    event: BombExploded,
    now: u64,
    cells: Seq<Cell>,
    explosions: Seq<Explosion>,
)
    requires
        forall|cell: Cell|
            cells.contains(cell) <==> blast_reaches(
                terrain,
                event.bomb_cell,
                event.bomb_fire_range,
                cell,
            ),
        forall|i: int, j: int|
            0 <= i < j < cells.len() ==> blast_rank(event.bomb_cell, #[trigger] cells[i])
                < blast_rank(event.bomb_cell, #[trigger] cells[j]),
        explosions.len() == cells.len(),
        forall|i: int|
            0 <= i < cells.len() ==> (#[trigger] explosions[i]) == explosion_of(
                event,
                cells[i],
                now,
            ),
    ensures
        is_blast_of(terrain, event, now, explosions),
{
    assert forall|cell: Cell|
        explosions.contains(explosion_of(event, cell, now)) <==> blast_reaches(
            terrain,
            event.bomb_cell,
            event.bomb_fire_range,
            cell,
        ) by {
        if cells.contains(cell) {
            let k = choose|k: int| 0 <= k < cells.len() && cells[k] == cell;
            assert(explosions[k] == explosion_of(event, cell, now));
        }
    }
}

/// The explosions of one detonation at time `now`: one on each cell that
/// the blast covers, listed as `propagate` lists the cells.
pub fn spawn_explosion(event: &BombExploded, map_state: &MapState, now: u64) -> (explosions: Vec<
    Explosion,
>)
    requires
        map_state.wf(),
        now + DEFAULT_EXPLOSION_PERIOD <= u64::MAX,
    ensures
        explosions@.len() >= 1,
        explosions@[0].cell == event.bomb_cell,
        is_blast_of(map_state, *event, now, explosions@),
{
    let cells = propagate(event.bomb_cell, event.bomb_fire_range, map_state);
    let explosions = ignite(event, &cells, now);
    proof {
        lemma_ignited_blast(map_state, *event, now, cells@, explosions@);
    }
    explosions
}

/// Puts out the explosions whose deadline has passed at time `now`: they
/// leave the list and are returned; the others stay, all in their order.
pub fn extingush_explosion(explosions: &mut Vec<Explosion>, now: u64) -> (out: Vec<Explosion>)
    ensures
        final(explosions)@ == burning(old(explosions)@, now),
        out@ == gone_out(old(explosions)@, now),
{
    let mut kept: Vec<Explosion> = Vec::new();
    let mut out: Vec<Explosion> = Vec::new();
    let mut i: usize = 0;
    while i < explosions.len()
        invariant
            i <= explosions@.len(),
            explosions@ == old(explosions)@,
            kept@ == burning(explosions@.take(i as int), now),
            out@ == gone_out(explosions@.take(i as int), now),
        decreases explosions@.len() - i,
    {
        proof {
            lemma_take_next(explosions@, i as int);
        }
        if explosions[i].is_extinguished(now) {
            out.push(explosions[i]);
        } else {
            kept.push(explosions[i]);
        }
        i += 1;
    }
    assert(explosions@.take(explosions@.len() as int) =~= explosions@);
    *explosions = kept;
    out
}

/// Two walks from one centre do not meet, and none comes back to the centre.
pub proof fn lemma_walks_are_apart(center: Cell, a: Direction, i: int, b: Direction, j: int)
    requires
        1 <= i,
        1 <= j,
        step(center, a, i) is Some,
    ensures
        step(center, a, i) != Some(center),
        step(center, a, i) == step(center, b, j) ==> a == b && i == j,
{
}

/// A blast does not get past what stands in its way: no cell behind a block
/// or a brick is covered, nor is the block itself.
pub proof fn lemma_blast_stops_at_obstacle(
    terrain: &MapState,
    center: Cell,
    radius: u8,
    dir: Direction,
    at: int,
    beyond: int,
)
    requires
        1 <= at <= beyond,
        step(center, dir, at) matches Some(obstacle) && terrain.spec_contains(obstacle) && (
        terrain.material(obstacle) == Material::Block || (terrain.material(obstacle)
            == Material::Brick && at < beyond)),
        step(center, dir, beyond) is Some,
    ensures
        !blast_reaches(terrain, center, radius, step(center, dir, beyond)->0),
{
    let cell = step(center, dir, beyond)->0;
    if blast_reaches(terrain, center, radius, cell) {
        if at < beyond {
            assert(is_open(terrain, center, dir, at));
        }
    }
}

/// Where the first thing in the way of a blast is a brick within the
/// radius, the blast covers that brick.
pub proof fn lemma_first_brick_is_reached(
    terrain: &MapState,
    center: Cell,
    radius: u8,
    dir: Direction,
    at: int,
)
    requires
        1 <= at <= radius,
        forall|j: int| 1 <= j < at ==> #[trigger] is_open(terrain, center, dir, j),
        step(center, dir, at) matches Some(brick) && terrain.is_brick(brick),
    ensures
        blast_reaches(terrain, center, radius, step(center, dir, at)->0),
{
    assert(ray_reaches(terrain, center, dir, radius, at));
}

/// Of the cells that a blast covers along one walk, all but the farthest are
/// empty: the blast takes in one brick per direction at most.
pub proof fn lemma_one_brick_per_walk(
    terrain: &MapState,
    center: Cell,
    radius: u8,
    dir: Direction,
    near: int,
    far: int,
)
    requires
        1 <= near < far,
        step(center, dir, far) matches Some(cell) && blast_reaches(terrain, center, radius, cell),
    ensures
        step(center, dir, near) matches Some(cell) && terrain.spec_contains(cell)
            && terrain.material(cell) == Material::Empty && blast_reaches(
            terrain,
            center,
            radius,
            cell,
        ),
{
    assert(is_open(terrain, center, dir, near));
    assert(ray_reaches(terrain, center, dir, radius, near));
}

} // verus!
