use abtestbed::bomb::{BombExploded, PlantRejected};
use abtestbed::collision::{Body, CollisionEvent};
use abtestbed::explosion::{propagate, Explosion};
use abtestbed::map::{Cell, MapState, Material, Position};
use abtestbed::player::{InputState, Intents, Player, PlayerColor};
use abtestbed::chain::Resolution;
use abtestbed::world::{Outcome, PlayerInput, World};

const SECOND: u64 = 1_000_000_000;
const WHITE: u128 = 1;
const BLACK: u128 = 2;

fn field(width: usize, height: usize, marks: &[(u8, u8, u8)]) -> MapState {
    let mut scheme = vec![vec![0u8; width]; height];
    for (col, row, code) in marks {
        scheme[*row as usize][*col as usize] = *code;
    }
    MapState::from_scheme(&scheme).unwrap()
}

fn players(capacity: u8) -> Vec<Player> {
    let mut white = Player::with_id(WHITE, PlayerColor::White);
    let mut black = Player::with_id(BLACK, PlayerColor::Black);
    white.bomb_capacity = capacity;
    black.bomb_capacity = capacity;
    vec![white, black]
}

fn arena(terrain: MapState, capacity: u8) -> World {
    World::new(terrain, players(capacity)).unwrap()
}

fn idle() -> Intents {
    Intents { move_north: false, move_south: false, move_west: false, move_east: false, set_bomb: false }
}

fn plant() -> Intents {
    Intents { set_bomb: true, ..idle() }
}

fn plant_at(world: &mut World, player_id: u128, cell: Cell, now: u64) -> Option<Result<u64, PlantRejected>> {
    world.update_player_input(player_id, &plant(), &cell.center(), now)
}

fn capacity(world: &World, player_id: u128) -> u8 {
    world.players().iter().find(|p| p.id == player_id).unwrap().bomb_capacity
}

fn handles(events: &[BombExploded]) -> Vec<u64> {
    events.iter().map(|e| e.bomb_id).collect()
}

fn live(world: &World) -> Vec<u64> {
    world.bombs().bombs().iter().map(|b| b.id).collect()
}

fn cells(explosions: &[Explosion]) -> Vec<Cell> {
    explosions.iter().map(|e| e.cell).collect()
}

fn sorted(mut cells: Vec<Cell>) -> Vec<Cell> {
    cells.sort_by_key(|c| (c.1, c.0));
    cells
}

#[test]
fn an_arena_starts_without_bombs_and_explosions() {
    let world = arena(MapState::default(), 1);
    assert_eq!(world.map_state(), &MapState::default());
    assert_eq!(world.bombs().bombs().len(), 0);
    assert_eq!(world.explosions().len(), 0);
    assert_eq!(world.players(), &players(1));
}

#[test]
fn players_of_one_identity_make_no_arena() {
    let twins = vec![Player::with_id(7, PlayerColor::White), Player::with_id(7, PlayerColor::Black)];
    assert!(World::new(MapState::default(), twins).is_none());
    let three = vec![
        Player::with_id(7, PlayerColor::White),
        Player::with_id(8, PlayerColor::Black),
        Player::with_id(7, PlayerColor::Black),
    ];
    assert!(World::new(MapState::default(), three).is_none());
    assert!(World::new(MapState::default(), Vec::new()).is_some());
}

#[test]
fn a_bomb_planted_in_the_middle_of_an_open_field_blasts_a_full_cross() {
    let mut world = arena(field(5, 5, &[]), 1);
    assert_eq!(plant_at(&mut world, WHITE, Cell(2, 2), 0), Some(Ok(0)));
    let bomb = world.bombs().get(0).unwrap();
    assert_eq!(bomb.cell, Cell(2, 2));
    assert_eq!(bomb.fire_range, 2);
    assert_eq!(bomb.explode_at, 2 * SECOND);
    assert!(!bomb.armed);
    let early = world.explode_bomb(2 * SECOND - 1);
    assert_eq!(early.detonations, Vec::new());
    assert_eq!(early.blasts, Vec::<Vec<Explosion>>::new());
    let resolution = world.explode_bomb(2 * SECOND);
    assert_eq!(handles(&resolution.detonations), vec![0]);
    assert_eq!(resolution.triggered, 1);
    assert_eq!(resolution.blasts.len(), 1);
    assert_eq!(resolution.blasts[0].len(), 9);
    assert_eq!(
        sorted(cells(&resolution.blasts[0])),
        sorted(vec![
            Cell(2, 2),
            Cell(2, 0),
            Cell(2, 1),
            Cell(2, 3),
            Cell(2, 4),
            Cell(0, 2),
            Cell(1, 2),
            Cell(3, 2),
            Cell(4, 2),
        ])
    );
    assert_eq!(world.explosions(), &resolution.blasts[0]);
    assert_eq!(live(&world), Vec::<u64>::new());
}

#[test]
fn a_brick_in_a_blast_is_gone_after_the_resolution() {
    let mut world = arena(field(5, 5, &[(2, 3, 2), (2, 1, 1), (4, 4, 2)]), 1);
    plant_at(&mut world, WHITE, Cell(2, 2), 0);
    let resolution = world.explode_bomb(2 * SECOND);
    let blast = cells(&resolution.blasts[0]);
    assert!(blast.contains(&Cell(2, 3)));
    assert!(!blast.contains(&Cell(2, 4)));
    assert!(!blast.contains(&Cell(2, 1)));
    assert_eq!(world.map_state().material_at(Cell(2, 3)), Ok(Material::Empty));
    assert_eq!(world.map_state().material_at(Cell(2, 1)), Ok(Material::Block));
    assert_eq!(world.map_state().material_at(Cell(4, 4)), Ok(Material::Brick));
    assert_eq!(world.map_state(), &field(5, 5, &[(2, 1, 1), (4, 4, 2)]));
}

#[test]
fn a_bomb_in_a_blast_detonates_in_the_same_resolution() {
    let mut world = arena(field(5, 5, &[]), 1);
    assert_eq!(plant_at(&mut world, WHITE, Cell(1, 2), 0), Some(Ok(0)));
    assert_eq!(plant_at(&mut world, BLACK, Cell(2, 2), SECOND), Some(Ok(1)));
    assert_eq!(capacity(&world, WHITE), 0);
    assert_eq!(capacity(&world, BLACK), 0);
    let resolution = world.explode_bomb(2 * SECOND);
    assert_eq!(handles(&resolution.detonations), vec![0, 1]);
    assert_eq!(resolution.triggered, 1);
    assert_eq!(resolution.detonations[1].player_id, BLACK);
    assert_eq!(cells(&resolution.blasts[0]), propagate(Cell(1, 2), 2, &field(5, 5, &[])));
    assert_eq!(cells(&resolution.blasts[1]), propagate(Cell(2, 2), 2, &field(5, 5, &[])));
    assert_eq!(live(&world), Vec::<u64>::new());
    assert_eq!(capacity(&world, WHITE), 1);
    assert_eq!(capacity(&world, BLACK), 1);
    let later = world.explode_bomb(3 * SECOND);
    assert_eq!(later.detonations, Vec::new());
    assert_eq!(capacity(&world, BLACK), 1);
}

#[test]
fn a_bomb_outside_every_blast_waits_for_its_fuse() {
    let mut world = arena(field(7, 7, &[]), 2);
    plant_at(&mut world, WHITE, Cell(0, 0), 0);
    plant_at(&mut world, BLACK, Cell(3, 0), SECOND);
    plant_at(&mut world, BLACK, Cell(1, 1), SECOND);
    let resolution = world.explode_bomb(2 * SECOND);
    assert_eq!(handles(&resolution.detonations), vec![0]);
    assert_eq!(live(&world), vec![1, 2]);
    assert_eq!(capacity(&world, WHITE), 2);
    assert_eq!(capacity(&world, BLACK), 0);
    let resolution = world.explode_bomb(3 * SECOND);
    assert_eq!(handles(&resolution.detonations), vec![1, 2]);
    assert_eq!(resolution.triggered, 2);
    assert_eq!(capacity(&world, BLACK), 2);
}

#[test]
fn a_dense_field_of_bombs_resolves_with_each_bomb_detonating_once() {
    let mut world = arena(field(6, 6, &[]), 36);
    let mut planted = 0u64;
    for row in 0..6u8 {
        for col in 0..6u8 {
            let owner = if (row + col) % 2 == 0 { WHITE } else { BLACK };
            let now = planted;
            assert_eq!(plant_at(&mut world, owner, Cell(col, row), now), Some(Ok(planted)));
            planted += 1;
        }
    }
    assert_eq!(capacity(&world, WHITE), 18);
    assert_eq!(capacity(&world, BLACK), 18);
    let resolution = world.explode_bomb(2 * SECOND);
    assert_eq!(resolution.triggered, 1);
    assert_eq!(resolution.detonations.len(), 36);
    assert_eq!(resolution.blasts.len(), 36);
    let mut seen = handles(&resolution.detonations);
    seen.sort();
    assert_eq!(seen, (0..36).collect::<Vec<u64>>());
    assert_eq!(resolution.detonations[0].bomb_id, 0);
    assert_eq!(live(&world), Vec::<u64>::new());
    assert_eq!(capacity(&world, WHITE), 36);
    assert_eq!(capacity(&world, BLACK), 36);
    let lit: usize = resolution.blasts.iter().map(|b| b.len()).sum();
    assert_eq!(world.explosions().len(), lit);
}

#[test]
fn bombs_that_reach_one_another_resolve_once_each() {
    let mut world = arena(field(5, 1, &[]), 3);
    plant_at(&mut world, WHITE, Cell(0, 0), 0);
    plant_at(&mut world, WHITE, Cell(2, 0), 0);
    plant_at(&mut world, BLACK, Cell(4, 0), 0);
    let resolution = world.track_explosion_bombs(1, SECOND);
    assert_eq!(handles(&resolution.detonations), vec![1, 0, 2]);
    assert_eq!(resolution.triggered, 1);
    assert_eq!(capacity(&world, WHITE), 3);
    assert_eq!(capacity(&world, BLACK), 3);
    assert_eq!(world.track_explosion_bombs(1, SECOND).detonations, Vec::new());
}

#[test]
fn all_blasts_of_a_resolution_are_taken_on_the_terrain_as_it_was() {
    let mut world = arena(field(6, 1, &[(2, 0, 2)]), 1);
    plant_at(&mut world, WHITE, Cell(0, 0), 0);
    plant_at(&mut world, BLACK, Cell(1, 0), 0);
    let resolution = world.explode_bomb(2 * SECOND);
    assert_eq!(handles(&resolution.detonations), vec![0, 1]);
    assert_eq!(cells(&resolution.blasts[0]), vec![Cell(0, 0), Cell(1, 0), Cell(2, 0)]);
    assert_eq!(cells(&resolution.blasts[1]), vec![Cell(1, 0), Cell(0, 0), Cell(2, 0)]);
    assert_eq!(world.map_state(), &field(6, 1, &[]));
}

#[test]
fn a_block_between_two_bombs_breaks_the_chain() {
    let mut world = arena(field(5, 1, &[(1, 0, 1)]), 1);
    plant_at(&mut world, WHITE, Cell(0, 0), 0);
    plant_at(&mut world, BLACK, Cell(2, 0), SECOND);
    let resolution = world.explode_bomb(2 * SECOND);
    assert_eq!(handles(&resolution.detonations), vec![0]);
    assert_eq!(live(&world), vec![1]);
    assert_eq!(capacity(&world, BLACK), 0);
}

#[test]
fn explosions_carry_the_planter_and_burn_for_their_period() {
    let mut world = arena(field(3, 1, &[]), 1);
    plant_at(&mut world, BLACK, Cell(1, 0), 0);
    let resolution = world.explode_bomb(2 * SECOND);
    assert_eq!(
        resolution.blasts[0],
        vec![
            Explosion {
                cell: Cell(1, 0),
                player_id: BLACK,
                player_color: PlayerColor::Black,
                extinguish_at: 2_800_000_000,
            },
            Explosion {
                cell: Cell(0, 0),
                player_id: BLACK,
                player_color: PlayerColor::Black,
                extinguish_at: 2_800_000_000,
            },
            Explosion {
                cell: Cell(2, 0),
                player_id: BLACK,
                player_color: PlayerColor::Black,
                extinguish_at: 2_800_000_000,
            },
        ]
    );
    assert_eq!(world.extingush_explosion(2_799_999_999), Vec::new());
    assert_eq!(world.explosions().len(), 3);
    assert_eq!(world.extingush_explosion(2_800_000_000), resolution.blasts[0]);
    assert_eq!(world.explosions().len(), 0);
}

#[test]
fn a_player_without_capacity_plants_nothing() {
    let mut world = arena(field(5, 5, &[]), 1);
    assert_eq!(plant_at(&mut world, WHITE, Cell(0, 0), 0), Some(Ok(0)));
    assert_eq!(
        plant_at(&mut world, WHITE, Cell(1, 0), 0),
        Some(Err(PlantRejected::CapacityExhausted))
    );
    assert_eq!(live(&world), vec![0]);
    assert_eq!(capacity(&world, WHITE), 0);
}

#[test]
fn nobody_plants_on_a_planted_cell() {
    let mut world = arena(field(5, 5, &[]), 2);
    assert_eq!(plant_at(&mut world, WHITE, Cell(3, 3), 0), Some(Ok(0)));
    assert_eq!(plant_at(&mut world, BLACK, Cell(3, 3), 0), Some(Err(PlantRejected::CellOccupied)));
    assert_eq!(plant_at(&mut world, WHITE, Cell(3, 3), 0), Some(Err(PlantRejected::CellOccupied)));
    assert_eq!(live(&world), vec![0]);
    assert_eq!(capacity(&world, WHITE), 1);
    assert_eq!(capacity(&world, BLACK), 2);
}

#[test]
fn a_bomb_is_planted_on_the_cell_nearest_to_the_player() {
    let mut world = arena(MapState::default(), 2);
    let position = Position { x: -215, y: 120 };
    assert_eq!(world.update_player_input(BLACK, &plant(), &position, 0), Some(Ok(0)));
    assert_eq!(world.bombs().get(0).unwrap().cell, Cell(2, 2));
    assert_eq!(world.bombs().get(0).unwrap().player_id, BLACK);
    assert_eq!(world.bombs().get(0).unwrap().player_color, PlayerColor::Black);
}

#[test]
fn intents_steer_the_player() {
    let mut world = arena(MapState::default(), 1);
    let north_east = Intents { move_north: true, move_east: true, ..idle() };
    assert_eq!(world.update_player_input(WHITE, &north_east, &Cell(0, 0).center(), 0), None);
    assert_eq!(
        world.players()[0].inputs,
        InputState { horizontal_direction: 1, vertical_direction: 1 }
    );
    assert_eq!(world.players()[1].inputs, InputState::default());
    assert_eq!(world.update_player_input(WHITE, &idle(), &Cell(0, 0).center(), 0), None);
    assert_eq!(world.players()[0].inputs, InputState::default());
    assert_eq!(live(&world), Vec::<u64>::new());
}

#[test]
fn an_unknown_player_is_not_heard() {
    let mut world = arena(MapState::default(), 1);
    assert_eq!(plant_at(&mut world, 77, Cell(0, 0), 0), None);
    assert_eq!(live(&world), Vec::<u64>::new());
    assert_eq!(world.players(), &players(1));
}

#[test]
fn a_dead_player_is_not_heard() {
    let mut world = arena(MapState::default(), 1);
    assert!(world.track_explosion_players(WHITE));
    assert!(!world.players()[0].alive);
    assert!(world.players()[1].alive);
    let keys = Intents { move_west: true, set_bomb: true, ..idle() };
    assert_eq!(world.update_player_input(WHITE, &keys, &Cell(0, 0).center(), 0), None);
    assert_eq!(world.players()[0].inputs, InputState::default());
    assert_eq!(live(&world), Vec::<u64>::new());
    assert!(!world.track_explosion_players(WHITE));
    assert!(!world.track_explosion_players(77));
}

#[test]
fn a_dead_player_gets_its_bomb_back_all_the_same() {
    let mut world = arena(field(3, 3, &[]), 1);
    plant_at(&mut world, WHITE, Cell(1, 1), 0);
    world.track_explosion_players(WHITE);
    world.explode_bomb(2 * SECOND);
    assert_eq!(capacity(&world, WHITE), 1);
    assert!(!world.players()[0].alive);
}

#[test]
fn a_bomb_is_solid_once_its_planter_has_stepped_off() {
    let mut world = arena(field(3, 3, &[]), 1);
    plant_at(&mut world, WHITE, Cell(1, 1), 0);
    assert!(!world.track_player_gone(false, WHITE, 0));
    assert!(!world.track_player_gone(true, BLACK, 0));
    assert!(!world.track_player_gone(false, BLACK, 0));
    assert!(!world.bombs().get(0).unwrap().armed);
    assert!(!world.track_player_gone(true, WHITE, 0));
    assert!(world.bombs().get(0).unwrap().owner_on_bomb);
    assert!(world.track_player_gone(false, WHITE, 0));
    assert!(world.bombs().get(0).unwrap().armed);
    assert!(!world.track_player_gone(false, WHITE, 0));
    assert!(!world.track_player_gone(true, WHITE, 0));
    assert!(!world.track_player_gone(false, WHITE, 0));
    assert!(!world.track_player_gone(true, WHITE, 9));
}

#[test]
fn an_explosion_destroys_the_brick_it_touches() {
    let mut world = arena(field(3, 1, &[(1, 0, 2), (2, 0, 1)]), 1);
    assert!(world.track_explosion_bricks(Cell(1, 0)));
    assert!(!world.track_explosion_bricks(Cell(1, 0)));
    assert!(!world.track_explosion_bricks(Cell(2, 0)));
    assert!(!world.track_explosion_bricks(Cell(0, 0)));
    assert!(!world.track_explosion_bricks(Cell(7, 7)));
    assert_eq!(world.map_state(), &field(3, 1, &[(2, 0, 1)]));
}

#[test]
fn collisions_are_dealt_with_by_what_they_mean() {
    let mut world = arena(field(5, 1, &[(4, 0, 2)]), 1);
    plant_at(&mut world, WHITE, Cell(0, 0), 0);
    let on = CollisionEvent::Started(Body::Bomb(0), Body::Player(WHITE));
    let off = CollisionEvent::Stopped(Body::Player(WHITE), Body::Bomb(0));
    assert_eq!(world.handle_collision_events(&on, 0), Outcome::Nothing);
    assert_eq!(world.handle_collision_events(&off, 0), Outcome::Armed(0));
    assert_eq!(world.handle_collision_events(&off, 0), Outcome::Nothing);
    let brick = CollisionEvent::Started(Body::Explosion, Body::Brick(Cell(4, 0)));
    assert_eq!(world.handle_collision_events(&brick, 0), Outcome::Destroyed(Cell(4, 0)));
    assert_eq!(world.handle_collision_events(&brick, 0), Outcome::Nothing);
    let player = CollisionEvent::Started(Body::Player(BLACK), Body::Explosion);
    assert_eq!(world.handle_collision_events(&player, 0), Outcome::Killed(BLACK));
    assert_eq!(world.handle_collision_events(&player, 0), Outcome::Nothing);
    let other = CollisionEvent::Started(Body::Player(BLACK), Body::Other);
    assert_eq!(world.handle_collision_events(&other, 0), Outcome::Nothing);
    let gone = CollisionEvent::Stopped(Body::Explosion, Body::Bomb(0));
    assert_eq!(world.handle_collision_events(&gone, 0), Outcome::Nothing);
    assert_eq!(live(&world), vec![0]);
    let bomb = CollisionEvent::Started(Body::Explosion, Body::Bomb(0));
    match world.handle_collision_events(&bomb, 5) {
        Outcome::Detonated(resolution) => {
            assert_eq!(handles(&resolution.detonations), vec![0]);
            assert_eq!(resolution.blasts[0][0].extinguish_at, 5 + 800_000_000);
        }
        outcome => panic!("{:?}", outcome),
    }
    assert_eq!(
        world.handle_collision_events(&bomb, 5),
        Outcome::Detonated(Resolution { detonations: Vec::new(), blasts: Vec::new(), triggered: 0 })
    );
    assert_eq!(capacity(&world, WHITE), 1);
}

#[test]
fn a_tick_runs_its_passes_in_order() {
    let mut world = arena(field(5, 1, &[]), 1);
    let first = vec![
        PlayerInput { player_id: WHITE, intents: plant(), position: Cell(0, 0).center() },
        PlayerInput { player_id: BLACK, intents: plant(), position: Cell(0, 0).center() },
    ];
    let report = world.tick(0, &first, &Vec::new());
    assert_eq!(report.planted, vec![Some(Ok(0)), Some(Err(PlantRejected::CellOccupied))]);
    assert_eq!(report.exploded.detonations, Vec::new());
    assert_eq!(report.outcomes, Vec::new());
    assert_eq!(report.extinguished, Vec::new());
    // The bomb planted in this tick stands in the blast of the bomb that is
    // due in this tick, and the collision finds the first bomb gone.
    let second = vec![
        PlayerInput { player_id: BLACK, intents: plant(), position: Cell(2, 0).center() },
        PlayerInput { player_id: WHITE, intents: idle(), position: Cell(1, 0).center() },
    ];
    let collisions = vec![
        CollisionEvent::Stopped(Body::Player(WHITE), Body::Bomb(0)),
        CollisionEvent::Started(Body::Explosion, Body::Player(WHITE)),
    ];
    let report = world.tick(2 * SECOND, &second, &collisions);
    assert_eq!(report.planted, vec![Some(Ok(1)), None]);
    assert_eq!(handles(&report.exploded.detonations), vec![0, 1]);
    assert_eq!(report.exploded.triggered, 1);
    assert_eq!(report.outcomes, vec![Outcome::Nothing, Outcome::Killed(WHITE)]);
    assert_eq!(report.extinguished, Vec::new());
    assert_eq!(capacity(&world, WHITE), 1);
    assert_eq!(capacity(&world, BLACK), 1);
    assert_eq!(world.explosions().len(), 3 + 5);
    let report = world.tick(2 * SECOND + 800_000_000, &Vec::new(), &Vec::new());
    assert_eq!(report.extinguished.len(), 3 + 5);
    assert_eq!(world.explosions().len(), 0);
}

#[test]
fn the_capacity_of_a_player_and_its_live_bombs_add_up_to_the_same_all_along() {
    let mut world = arena(field(9, 9, &[(4, 3, 2), (3, 4, 1)]), 3);
    let budget = |world: &World, id: u128| {
        capacity(world, id) as usize
            + world.bombs().bombs().iter().filter(|b| b.player_id == id).count()
    };
    let spots = [Cell(4, 4), Cell(4, 5), Cell(0, 0), Cell(8, 8), Cell(4, 6), Cell(5, 4), Cell(0, 1)];
    let mut now = 0;
    for (turn, spot) in spots.iter().enumerate() {
        let owner = if turn % 2 == 0 { WHITE } else { BLACK };
        plant_at(&mut world, owner, *spot, now);
        assert_eq!(budget(&world, WHITE), 3);
        assert_eq!(budget(&world, BLACK), 3);
        now += SECOND / 2;
        world.explode_bomb(now);
        assert_eq!(budget(&world, WHITE), 3);
        assert_eq!(budget(&world, BLACK), 3);
    }
    world.explode_bomb(now + 10 * SECOND);
    assert_eq!(capacity(&world, WHITE), 3);
    assert_eq!(capacity(&world, BLACK), 3);
    assert_eq!(live(&world), Vec::<u64>::new());
}

struct Dice(u64);

impl Dice {
    fn roll(&mut self, sides: u64) -> u64 {
        self.0 = self.0.wrapping_mul(6364136223846793005).wrapping_add(1442695040888963407);
        (self.0 >> 33) % sides
    }
}

#[test]
fn chains_on_random_fields_reach_exactly_the_bombs_that_blasts_cover() {
    let mut dice = Dice(7);
    for _ in 0..60 {
        let mut scheme = vec![vec![0u8; 8]; 6];
        for row in scheme.iter_mut() {
            for code in row.iter_mut() {
                *code = [0, 0, 0, 0, 1, 2][dice.roll(6) as usize];
            }
        }
        let terrain = MapState::from_scheme(&scheme).unwrap();
        let mut world = arena(terrain.clone(), 40);
        let mut spots: Vec<(u64, Cell, u128)> = Vec::new();
        for _ in 0..12 {
            let cell = Cell(dice.roll(8) as u8, dice.roll(6) as u8);
            let owner = if dice.roll(2) == 0 { WHITE } else { BLACK };
            if let Some(Ok(id)) = plant_at(&mut world, owner, cell, 0) {
                spots.push((id, cell, owner));
            }
        }
        assert!(!spots.is_empty());
        let first = spots[dice.roll(spots.len() as u64) as usize].0;

        // The bombs that must go: the first, and every bomb in the blast of
        // one that goes.
        let mut gone = vec![first];
        let mut grew = true;
        while grew {
            grew = false;
            for (id, cell, _) in &spots {
                if gone.contains(id) {
                    continue;
                }
                let covered = spots.iter().any(|(other, center, _)| {
                    gone.contains(other) && propagate(*center, 2, &terrain).contains(cell)
                });
                if covered {
                    gone.push(*id);
                    grew = true;
                }
            }
        }

        let resolution = world.track_explosion_bombs(first, SECOND);
        let mut detonated = handles(&resolution.detonations);
        assert_eq!(detonated[0], first);
        assert_eq!(resolution.triggered, 1);
        detonated.sort();
        gone.sort();
        assert_eq!(detonated, gone);
        let mut left: Vec<u64> = spots.iter().map(|s| s.0).filter(|id| !gone.contains(id)).collect();
        left.sort();
        assert_eq!(live(&world), left);
        for (place, detonation) in resolution.detonations.iter().enumerate() {
            assert_eq!(
                cells(&resolution.blasts[place]),
                propagate(detonation.bomb_cell, 2, &terrain)
            );
        }
        for owner in [WHITE, BLACK] {
            let still = spots.iter().filter(|s| s.2 == owner && !gone.contains(&s.0)).count();
            assert_eq!(capacity(&world, owner) as usize + still, 40);
        }
        for row in 0..6u8 {
            for col in 0..8u8 {
                let cell = Cell(col, row);
                let burnt = resolution.blasts.iter().any(|b| cells(b).contains(&cell));
                let was = terrain.material_at(cell).unwrap();
                let expected = if was == Material::Brick && burnt { Material::Empty } else { was };
                assert_eq!(world.map_state().material_at(cell), Ok(expected));
            }
        }
    }
}

#[test]
fn chained_bombs_are_listed_as_the_blasts_reach_them() {
    let mut world = arena(field(9, 3, &[]), 9);
    // Handles 0..=4 along the middle row, 5 and 6 above and below the third.
    for (turn, cell) in [Cell(8, 1), Cell(6, 1), Cell(4, 1), Cell(2, 1), Cell(0, 1), Cell(4, 2), Cell(4, 0)]
        .iter()
        .enumerate()
    {
        assert_eq!(plant_at(&mut world, WHITE, *cell, 0), Some(Ok(turn as u64)));
    }
    let resolution = world.track_explosion_bombs(2, SECOND);
    assert_eq!(handles(&resolution.detonations), vec![2, 1, 3, 5, 6, 0, 4]);
}

#[test]
fn a_tick_does_what_its_passes_do_one_after_the_other() {
    let terrain = field(7, 5, &[(3, 2, 2), (1, 1, 1)]);
    let mut whole = arena(terrain.clone(), 2);
    let mut stepwise = arena(terrain, 2);
    let mut dice = Dice(99);
    let mut now = 0;
    for _ in 0..80 {
        now += SECOND / 4;
        let mut inputs = Vec::new();
        for player_id in [WHITE, BLACK] {
            let intents = Intents {
                move_north: dice.roll(2) == 0,
                move_south: dice.roll(2) == 0,
                move_west: dice.roll(2) == 0,
                move_east: dice.roll(2) == 0,
                set_bomb: dice.roll(3) == 0,
            };
            let position = Cell(dice.roll(7) as u8, dice.roll(5) as u8).center();
            inputs.push(PlayerInput { player_id, intents, position });
        }
        let mut collisions = Vec::new();
        for _ in 0..dice.roll(3) {
            let bomb = Body::Bomb(dice.roll(40));
            let other = match dice.roll(3) {
                0 => Body::Player(WHITE),
                1 => Body::Player(BLACK),
                _ => Body::Explosion,
            };
            collisions.push(if dice.roll(2) == 0 {
                CollisionEvent::Started(bomb, other)
            } else {
                CollisionEvent::Stopped(other, bomb)
            });
        }
        let report = whole.tick(now, &inputs, &collisions);
        for (place, input) in inputs.iter().enumerate() {
            let planted = stepwise.update_player_input(
                input.player_id,
                &input.intents,
                &input.position,
                now,
            );
            assert_eq!(report.planted[place], planted);
        }
        assert_eq!(report.exploded, stepwise.explode_bomb(now));
        for (place, collision) in collisions.iter().enumerate() {
            assert_eq!(report.outcomes[place], stepwise.handle_collision_events(collision, now));
        }
        assert_eq!(report.extinguished, stepwise.extingush_explosion(now));
        assert_eq!(whole.players(), stepwise.players());
        assert_eq!(whole.bombs().bombs(), stepwise.bombs().bombs());
        assert_eq!(whole.explosions(), stepwise.explosions());
        assert_eq!(whole.map_state(), stepwise.map_state());
    }
    assert!(whole.bombs().next_id() > 5);
}
