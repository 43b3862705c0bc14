use abtestbed::bomb::BombExploded;
use abtestbed::explosion::{
    extingush_explosion, ignite, propagate, spawn_explosion, Explosion, DEFAULT_EXPLOSION_PERIOD,
};
use abtestbed::map::{Cell, MapState, Material};
use abtestbed::player::PlayerColor;

fn field(width: usize, height: usize, marks: &[(u8, u8, u8)]) -> MapState {
    let mut scheme = vec![vec![0u8; width]; height];
    for (col, row, code) in marks {
        scheme[*row as usize][*col as usize] = *code;
    }
    MapState::from_scheme(&scheme).unwrap()
}

fn north_of(center: Cell, cells: &[Cell]) -> Vec<Cell> {
    cells.iter().copied().filter(|c| c.0 == center.0 && c.1 < center.1).collect()
}

fn south_of(center: Cell, cells: &[Cell]) -> Vec<Cell> {
    cells.iter().copied().filter(|c| c.0 == center.0 && c.1 > center.1).collect()
}

fn sorted(mut cells: Vec<Cell>) -> Vec<Cell> {
    cells.sort_by_key(|c| (c.1, c.0));
    cells
}

#[test]
fn a_blast_on_an_open_field_is_a_full_cross() {
    let terrain = field(5, 5, &[]);
    let cells = propagate(Cell(2, 2), 2, &terrain);
    assert_eq!(cells.len(), 9);
    assert_eq!(
        sorted(cells),
        sorted(vec![
            Cell(2, 2),
            Cell(2, 0),
            Cell(2, 1),
            Cell(2, 3),
            Cell(2, 4),
            Cell(0, 2),
            Cell(1, 2),
            Cell(3, 2),
            Cell(4, 2),
        ])
    );
}

#[test]
fn a_blast_is_listed_from_the_center_outwards_north_south_west_east() {
    let terrain = field(5, 5, &[]);
    assert_eq!(
        propagate(Cell(2, 2), 2, &terrain),
        vec![
            Cell(2, 2),
            Cell(2, 1),
            Cell(2, 0),
            Cell(2, 3),
            Cell(2, 4),
            Cell(1, 2),
            Cell(0, 2),
            Cell(3, 2),
            Cell(4, 2),
        ]
    );
}

#[test]
fn a_block_stops_the_walk_and_is_left_out() {
    let terrain = field(5, 5, &[(2, 1, 1)]);
    let cells = propagate(Cell(2, 2), 2, &terrain);
    assert_eq!(north_of(Cell(2, 2), &cells), Vec::<Cell>::new());
    assert!(cells.contains(&Cell(2, 2)));
    assert!(!cells.contains(&Cell(2, 1)));
    assert!(!cells.contains(&Cell(2, 0)));
    assert_eq!(cells.len(), 7);
}

#[test]
fn a_brick_is_taken_in_and_stops_the_walk() {
    let terrain = field(5, 5, &[(2, 3, 2)]);
    for radius in 2..=5u8 {
        let cells = propagate(Cell(2, 2), radius, &terrain);
        assert_eq!(south_of(Cell(2, 2), &cells), vec![Cell(2, 3)]);
        assert!(!cells.contains(&Cell(2, 4)));
    }
    assert_eq!(terrain.material_at(Cell(2, 3)), Ok(Material::Brick));
}

#[test]
fn a_brick_behind_a_block_is_not_reached() {
    let terrain = field(7, 1, &[(4, 0, 1), (5, 0, 2)]);
    assert_eq!(propagate(Cell(2, 0), 4, &terrain), vec![Cell(2, 0), Cell(1, 0), Cell(0, 0), Cell(3, 0)]);
}

#[test]
fn of_two_bricks_in_a_row_only_the_first_is_reached() {
    let terrain = field(7, 1, &[(4, 0, 2), (5, 0, 2)]);
    assert_eq!(
        propagate(Cell(2, 0), 4, &terrain),
        vec![Cell(2, 0), Cell(1, 0), Cell(0, 0), Cell(3, 0), Cell(4, 0)]
    );
}

#[test]
fn the_radius_limits_the_walk() {
    let terrain = field(9, 9, &[]);
    assert_eq!(propagate(Cell(4, 4), 0, &terrain), vec![Cell(4, 4)]);
    assert_eq!(
        propagate(Cell(4, 4), 1, &terrain),
        vec![Cell(4, 4), Cell(4, 3), Cell(4, 5), Cell(3, 4), Cell(5, 4)]
    );
    assert_eq!(propagate(Cell(4, 4), 3, &terrain).len(), 13);
    assert_eq!(propagate(Cell(4, 4), 4, &terrain).len(), 17);
    assert_eq!(propagate(Cell(4, 4), 255, &terrain).len(), 17);
}

#[test]
fn the_edge_of_the_grid_limits_the_walk() {
    let terrain = field(5, 5, &[]);
    assert_eq!(
        propagate(Cell(0, 0), 3, &terrain),
        vec![Cell(0, 0), Cell(0, 1), Cell(0, 2), Cell(0, 3), Cell(1, 0), Cell(2, 0), Cell(3, 0)]
    );
    assert_eq!(
        propagate(Cell(4, 4), 2, &terrain),
        vec![Cell(4, 4), Cell(4, 3), Cell(4, 2), Cell(3, 4), Cell(2, 4)]
    );
}

#[test]
fn the_walks_do_not_affect_one_another() {
    let open = field(5, 5, &[]);
    let walled = field(5, 5, &[(2, 1, 1), (1, 2, 2)]);
    let free = propagate(Cell(2, 2), 2, &open);
    let cells = propagate(Cell(2, 2), 2, &walled);
    assert_eq!(south_of(Cell(2, 2), &cells), south_of(Cell(2, 2), &free));
    assert_eq!(
        cells,
        vec![Cell(2, 2), Cell(2, 3), Cell(2, 4), Cell(1, 2), Cell(3, 2), Cell(4, 2)]
    );
}

#[test]
fn the_center_is_covered_whatever_stands_there() {
    let terrain = field(3, 3, &[(1, 1, 1), (0, 1, 1), (2, 1, 1), (1, 0, 1), (1, 2, 1)]);
    assert_eq!(propagate(Cell(1, 1), 2, &terrain), vec![Cell(1, 1)]);
    let bricks = field(3, 1, &[(1, 0, 2)]);
    assert_eq!(propagate(Cell(1, 0), 1, &bricks), vec![Cell(1, 0), Cell(0, 0), Cell(2, 0)]);
}

#[test]
fn a_center_outside_the_grid_covers_itself_and_what_a_walk_gets_to() {
    let terrain = field(3, 3, &[]);
    assert_eq!(propagate(Cell(9, 9), 3, &terrain), vec![Cell(9, 9)]);
    assert_eq!(propagate(Cell(255, 255), 3, &terrain), vec![Cell(255, 255)]);
    assert_eq!(propagate(Cell(3, 1), 2, &terrain), vec![Cell(3, 1), Cell(2, 1), Cell(1, 1)]);
}

#[test]
fn a_blast_in_the_standard_arena_respects_blocks_and_bricks() {
    let terrain = MapState::default();
    assert_eq!(
        propagate(Cell(0, 0), 2, &terrain),
        vec![Cell(0, 0), Cell(0, 1), Cell(0, 2), Cell(1, 0), Cell(2, 0)]
    );
    assert_eq!(
        propagate(Cell(2, 2), 2, &terrain),
        vec![
            Cell(2, 2),
            Cell(2, 1),
            Cell(2, 0),
            Cell(2, 3),
            Cell(2, 4),
            Cell(1, 2),
            Cell(0, 2),
            Cell(3, 2),
            Cell(4, 2),
        ]
    );
    assert_eq!(propagate(Cell(1, 0), 2, &terrain), vec![Cell(1, 0), Cell(0, 0), Cell(2, 0), Cell(3, 0)]);
}

fn detonation(cell: Cell, range: u8) -> BombExploded {
    BombExploded {
        bomb_id: 7,
        player_id: 42,
        player_color: PlayerColor::Black,
        bomb_cell: cell,
        bomb_fire_range: range,
    }
}

#[test]
fn a_detonation_lights_one_explosion_on_each_cell_of_its_blast() {
    let terrain = field(5, 5, &[(2, 1, 1), (2, 3, 2)]);
    let event = detonation(Cell(2, 2), 2);
    let explosions = spawn_explosion(&event, &terrain, 1_000);
    let cells: Vec<Cell> = explosions.iter().map(|e| e.cell).collect();
    assert_eq!(cells, propagate(Cell(2, 2), 2, &terrain));
    assert_eq!(cells.len(), 6);
    for explosion in &explosions {
        assert_eq!(explosion.player_id, 42);
        assert_eq!(explosion.player_color, PlayerColor::Black);
        assert_eq!(explosion.extinguish_at, 1_000 + 800_000_000);
    }
    assert_eq!(DEFAULT_EXPLOSION_PERIOD, 800_000_000);
}

#[test]
fn explosions_are_lit_on_the_cells_that_are_given() {
    let event = detonation(Cell(0, 0), 1);
    let explosions = ignite(&event, &vec![Cell(5, 6), Cell(7, 8)], 10);
    assert_eq!(
        explosions,
        vec![
            Explosion {
                cell: Cell(5, 6),
                player_id: 42,
                player_color: PlayerColor::Black,
                extinguish_at: 800_000_010,
            },
            Explosion {
                cell: Cell(7, 8),
                player_id: 42,
                player_color: PlayerColor::Black,
                extinguish_at: 800_000_010,
            },
        ]
    );
    assert_eq!(ignite(&event, &Vec::new(), 10), Vec::new());
}

fn explosion(col: u8, extinguish_at: u64) -> Explosion {
    Explosion { cell: Cell(col, 0), player_id: 1, player_color: PlayerColor::White, extinguish_at }
}

#[test]
fn an_explosion_goes_out_when_its_deadline_has_come() {
    let burning = explosion(0, 100);
    assert!(!burning.is_extinguished(0));
    assert!(!burning.is_extinguished(99));
    assert!(burning.is_extinguished(100));
    assert!(burning.is_extinguished(101));
}

#[test]
fn explosions_that_are_due_leave_the_list_in_their_order() {
    let mut explosions = vec![explosion(0, 50), explosion(1, 10), explosion(2, 30), explosion(3, 20)];
    let out = extingush_explosion(&mut explosions, 20);
    assert_eq!(out, vec![explosion(1, 10), explosion(3, 20)]);
    assert_eq!(explosions, vec![explosion(0, 50), explosion(2, 30)]);
    let out = extingush_explosion(&mut explosions, 20);
    assert_eq!(out, Vec::new());
    assert_eq!(explosions.len(), 2);
    let out = extingush_explosion(&mut explosions, 1_000);
    assert_eq!(out, vec![explosion(0, 50), explosion(2, 30)]);
    assert_eq!(explosions, Vec::new());
}

struct Dice(u64);

impl Dice {
    fn roll(&mut self, sides: u64) -> u64 {
        self.0 = self.0.wrapping_mul(6364136223846793005).wrapping_add(1442695040888963407);
        (self.0 >> 33) % sides
    }
}

fn walk_by_ranges(scheme: &[Vec<u8>], center: Cell, radius: u8) -> Vec<Cell> {
    let width = scheme[0].len() as i32;
    let height = scheme.len() as i32;
    let mut cells = vec![center];
    for (dx, dy) in [(0, -1), (0, 1), (-1, 0), (1, 0)] {
        for k in 1..=radius as i32 {
            let col = center.0 as i32 + dx * k;
            let row = center.1 as i32 + dy * k;
            if col < 0 || row < 0 || col >= width || row >= height {
                break;
            }
            let code = scheme[row as usize][col as usize];
            if code == 1 {
                break;
            }
            cells.push(Cell(col as u8, row as u8));
            if code == 2 {
                break;
            }
        }
    }
    cells
}

#[test]
fn blasts_on_random_terrains_are_what_a_plain_walk_gives() {
    let mut dice = Dice(2024);
    for _ in 0..40 {
        let width = 1 + dice.roll(9) as usize;
        let height = 1 + dice.roll(7) as usize;
        let mut scheme = vec![vec![0u8; width]; height];
        for row in scheme.iter_mut() {
            for code in row.iter_mut() {
                *code = [0, 0, 0, 1, 2][dice.roll(5) as usize];
            }
        }
        let terrain = MapState::from_scheme(&scheme).unwrap();
        for row in 0..height as u8 {
            for col in 0..width as u8 {
                for radius in 0..=5u8 {
                    assert_eq!(
                        propagate(Cell(col, row), radius, &terrain),
                        walk_by_ranges(&scheme, Cell(col, row), radius)
                    );
                }
            }
        }
    }
}

#[test]
fn no_cell_is_listed_twice_in_a_blast() {
    let terrain = field(6, 6, &[(3, 3, 2), (1, 4, 1)]);
    for row in 0..6u8 {
        for col in 0..6u8 {
            let cells = propagate(Cell(col, row), 6, &terrain);
            let mut seen = sorted(cells.clone());
            seen.dedup();
            assert_eq!(seen.len(), cells.len());
        }
    }
}
