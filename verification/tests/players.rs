use abtestbed::map::{Cell, MapState, Material};
use abtestbed::player::{
    InputState, Intents, Player, PlayerColor, DEFAULT_BOMB_CAPACITY, DEFAULT_DETONATION_PERIOD,
    DEFAULT_FIRE_RANGE, ID_FORMAT_MASK, ID_FORMAT_RANDOM,
};

fn keys(north: bool, south: bool, west: bool, east: bool) -> Intents {
    Intents { move_north: north, move_south: south, move_west: west, move_east: east, set_bomb: false }
}

#[test]
fn a_new_player_has_the_default_equipment() {
    let player = Player::with_id(5, PlayerColor::Black);
    assert_eq!(
        player,
        Player {
            id: 5,
            color: PlayerColor::Black,
            inputs: InputState { horizontal_direction: 0, vertical_direction: 0 },
            bomb_capacity: 1,
            fire_range: 2,
            bomb_detonation_period: 2_000_000_000,
            alive: true,
        }
    );
    assert_eq!(DEFAULT_BOMB_CAPACITY, 1);
    assert_eq!(DEFAULT_FIRE_RANGE, 2);
    assert_eq!(DEFAULT_DETONATION_PERIOD, 2_000_000_000);
}

#[test]
fn the_default_player_is_white() {
    let player = Player::default();
    assert_eq!(player, Player::with_id(player.id, PlayerColor::White));
}

#[test]
fn a_fresh_identity_is_a_random_one() {
    for _ in 0..50 {
        let player = Player::new(PlayerColor::Black);
        assert_eq!(player.id & ID_FORMAT_MASK, ID_FORMAT_RANDOM);
        assert_eq!((player.id >> 76) & 0xf, 4);
        assert_eq!((player.id >> 62) & 0x3, 2);
        assert_eq!(player, Player::with_id(player.id, PlayerColor::Black));
    }
}

#[test]
fn fresh_identities_differ() {
    let first = Player::new(PlayerColor::White);
    let second = Player::new(PlayerColor::White);
    let third = Player::default();
    assert_ne!(first.id, second.id);
    assert_ne!(first.id, third.id);
    assert_ne!(second.id, third.id);
}

#[test]
fn steering_is_east_minus_west_and_north_minus_south() {
    assert_eq!(
        InputState::from_intents(&keys(false, false, false, false)),
        InputState { horizontal_direction: 0, vertical_direction: 0 }
    );
    assert_eq!(
        InputState::from_intents(&keys(true, false, false, true)),
        InputState { horizontal_direction: 1, vertical_direction: 1 }
    );
    assert_eq!(
        InputState::from_intents(&keys(false, true, true, false)),
        InputState { horizontal_direction: -1, vertical_direction: -1 }
    );
    assert_eq!(
        InputState::from_intents(&keys(true, true, true, true)),
        InputState { horizontal_direction: 0, vertical_direction: 0 }
    );
    assert_eq!(
        InputState::from_intents(&keys(true, true, false, true)),
        InputState { horizontal_direction: 1, vertical_direction: 0 }
    );
    assert_eq!(InputState::default(), InputState { horizontal_direction: 0, vertical_direction: 0 });
}

#[test]
fn planting_costs_one_bomb_and_its_detonation_gives_it_back() {
    for capacity in 1..=255u8 {
        let mut player = Player::with_id(1, PlayerColor::White);
        player.bomb_capacity = capacity;
        let before = player;
        player.on_plant();
        assert_eq!(player.bomb_capacity, capacity - 1);
        player.on_own_bomb_resolved();
        assert_eq!(player, before);
    }
}

#[test]
fn a_player_that_an_explosion_touches_is_dead() {
    let mut player = Player::with_id(1, PlayerColor::White);
    assert!(player.alive);
    player.on_hazard_contact();
    assert_eq!(player, Player { alive: false, ..Player::with_id(1, PlayerColor::White) });
    player.on_hazard_contact();
    assert!(!player.alive);
}

#[test]
fn the_players_start_on_empty_cells_of_the_standard_arena() {
    assert_eq!(PlayerColor::White.start_cell(), Cell(0, 0));
    assert_eq!(PlayerColor::Black.start_cell(), Cell(2, 2));
    let terrain = MapState::default();
    assert_eq!(terrain.material_at(PlayerColor::White.start_cell()), Ok(Material::Empty));
    assert_eq!(terrain.material_at(PlayerColor::Black.start_cell()), Ok(Material::Empty));
}
