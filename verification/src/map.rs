//! The grid: cells, their place in the world, and the terrain they carry.

use vstd::prelude::*;
use crate::legend;
use crate::seqs::lemma_push_contains;

verus! {

/// Width and height of the arena, in pixels.
pub const SIZE: (i32, i32) = (600, 392);

/// Columns and rows of the standard arena.
pub const NET_SIZE: (u8, u8) = (15, 11);

/// Width and height of one cell, in pixels.
pub const CELL_SIZE: (i32, i32) = (40, 36);

/// Centre of cell (0, 0), in pixels: half a cell inside the arena's top left
/// corner. The world's y axis points up, rows count downwards.
pub const CELL_START_POS: (i32, i32) = (-280, 178);

/// A point of the world, in whole pixels.
///
/// A continuous point is brought to whole pixels by rounding `x` down and `y`
/// up; `Cell::from_transform` then yields the cell nearest to the continuous
/// point, because the borders between cells lie on whole pixels.
#[derive(Debug, Copy, Clone, PartialEq, Eq, Structural)]
pub struct Position {
    pub x: i32,
    pub y: i32,
}

/// A grid coordinate: column, then row, both counted from 0.
#[derive(Debug, Copy, Clone, Default, Hash, PartialEq, Eq, Structural)]
pub struct Cell(pub u8, pub u8);

/// x coordinate of the centre of column `col`.
pub open spec fn column_center(col: int) -> int {
    CELL_START_POS.0 + col * CELL_SIZE.0
}

/// y coordinate of the centre of row `row`.
pub open spec fn row_center(row: int) -> int {
    CELL_START_POS.1 - row * CELL_SIZE.1
}

/// The index in `0..=255` whose centre `index * step` lies nearest to
/// `offset`; of two equally near indices the larger.
pub open spec fn nearest_index(offset: int, step: int) -> int {
    if offset < 0 {
        0
    } else if (offset + step / 2) / step > 255 {
        255
    } else {
        (offset + step / 2) / step
    }
}

/// Distance between two integers.
pub open spec fn distance(a: int, b: int) -> int {
    if a <= b {
        b - a
    } else {
        a - b
    }
}

/// The cell nearest to a point of the world.
pub open spec fn cell_at(position: Position) -> Cell {
    Cell(
        nearest_index(position.x - CELL_START_POS.0, CELL_SIZE.0 as int) as u8,
        nearest_index(CELL_START_POS.1 - position.y, CELL_SIZE.1 as int) as u8,
    )
}

fn index_of(offset: i64, step: i64) -> (index: u8)
    requires
        0 < step <= 1000,
        -0x1_0000_0000 <= offset <= 0x1_0000_0000,
    ensures
        index == nearest_index(offset as int, step as int),
{
    if offset < 0 {
        0
    } else {
        let q: i64 = (offset + step / 2) / step;
        if q > 255 {
            255
        } else {
            q as u8
        }
    }
}

impl Cell {
    /// The cell nearest to a point of the world. Points left of or above the
    /// arena fall into column or row 0, points far right or below into 255.
    pub fn from_transform(transform: &Position) -> (cell: Cell)
        ensures
            cell == cell_at(*transform),
            cell.0 == nearest_index(transform.x - CELL_START_POS.0, CELL_SIZE.0 as int),
            cell.1 == nearest_index(CELL_START_POS.1 - transform.y, CELL_SIZE.1 as int),
    {
        let dx: i64 = transform.x as i64 - CELL_START_POS.0 as i64;
        let dy: i64 = CELL_START_POS.1 as i64 - transform.y as i64;
        Cell(index_of(dx, CELL_SIZE.0 as i64), index_of(dy, CELL_SIZE.1 as i64))
    }

    /// The point at the centre of the cell.
    pub fn center(&self) -> (position: Position)
        ensures
            position.x == column_center(self.0 as int),
            position.y == row_center(self.1 as int),
    {
        Position {
            x: CELL_START_POS.0 + (self.0 as i32) * CELL_SIZE.0,
            y: CELL_START_POS.1 - (self.1 as i32) * CELL_SIZE.1,
        }
    }

    /// The cell `right` columns to the right (to the left, if negative) and
    /// `down` rows below (above, if negative), where that is a grid
    /// coordinate at all.
    pub open spec fn offset(self, right: int, down: int) -> Option<Cell> {
        if 0 <= self.0 + right <= 255 && 0 <= self.1 + down <= 255 {
            Some(Cell((self.0 + right) as u8, (self.1 + down) as u8))
        } else {
            None
        }
    }
}

/// What stands on a cell.
#[derive(Debug, Copy, Clone, PartialEq, Eq, Structural)]
pub enum Material {
    /// Nothing: a blast enters and goes on.
    Empty,
    /// Permanent: a blast stops in front of it.
    Block,
    /// Destructible: a blast enters, destroys it and stops.
    Brick,
}

/// The material that a code of the legend names; codes outside the legend
/// name none.
pub open spec fn material_of_code(code: u8) -> Option<Material> {
    if code == legend::EMPTY {
        Some(Material::Empty)
    } else if code == legend::BLOCK {
        Some(Material::Block)
    } else if code == legend::BRICK {
        Some(Material::Brick)
    } else {
        None
    }
}

impl Material {
    /// Reads a code of the legend.
    pub fn from_code(code: u8) -> (material: Option<Material>)
        ensures
            material == material_of_code(code),
    {
        if code == legend::EMPTY {
            Some(Material::Empty)
        } else if code == legend::BLOCK {
            Some(Material::Block)
        } else if code == legend::BRICK {
            Some(Material::Brick)
        } else {
            None
        }
    }

    /// The code of the legend for this material.
    pub fn code(&self) -> (code: u8)
        ensures
            material_of_code(code) == Some(*self),
    {
        match self {
            Material::Empty => legend::EMPTY,
            Material::Block => legend::BLOCK,
            Material::Brick => legend::BRICK,
        }
    }
}

/// A cell was named that lies outside the grid.
#[derive(Debug, Copy, Clone, PartialEq, Eq, Structural)]
pub struct BoundsError {
    /// The cell that was asked for.
    pub cell: Cell,
}

/// The terrain: one material per cell of a rectangular grid of at most
/// 256 columns and 256 rows.
#[derive(Debug, Clone, PartialEq, Eq)]
pub struct MapState {
    scheme: Vec<Vec<Material>>,
}

/// Whether rows of codes describe a terrain: at most 256 rows, all of one
/// length of at most 256, every code a code of the legend.
pub open spec fn valid_scheme(scheme: Seq<Seq<u8>>) -> bool {
    &&& scheme.len() <= 256
    &&& forall|r: int| 0 <= r < scheme.len() ==> (#[trigger] scheme[r]).len() == scheme[0].len()
    &&& scheme.len() > 0 ==> scheme[0].len() <= 256
    &&& forall|r: int, c: int|
        0 <= r < scheme.len() && 0 <= c < scheme[r].len() ==> material_of_code(
            #[trigger] scheme[r][c],
        ) is Some
}

/// The material of the standard arena at column `col`, row `row`: blocks
/// where both are odd, a clearing round the two starting cells (0, 0) and
/// (2, 2), bricks everywhere else.
pub open spec fn default_material(col: int, row: int) -> Material {
    if col % 2 == 1 && row % 2 == 1 {
        Material::Block
    } else if (col <= 2 && row <= 2) || (col == 3 && row == 2) || (col == 2 && row == 3) {
        Material::Empty
    } else {
        Material::Brick
    }
}

/// Whether `a` comes before `b` when the grid is read row by row, each row
/// from the left.
pub open spec fn reads_before(a: Cell, b: Cell) -> bool {
    a.1 < b.1 || (a.1 == b.1 && a.0 < b.0)
}

impl View for MapState {
    type V = Seq<Seq<Material>>;

    /// The rows from top to bottom, each from left to right.
    closed spec fn view(&self) -> Seq<Seq<Material>> {
        Seq::new(self.scheme@.len(), |r: int| self.scheme@[r]@)
    }
}

impl MapState {
    /// The rows are equally long, and neither rows nor columns exceed 256.
    pub open spec fn wf(&self) -> bool {
        &&& self@.len() <= 256
        &&& self.spec_width() <= 256
        &&& forall|r: int| 0 <= r < self@.len() ==> (#[trigger] self@[r]).len() == self.spec_width()
    }

    /// Number of columns.
    pub open spec fn spec_width(&self) -> nat {
        if self@.len() == 0 {
            0
        } else {
            self@[0].len()
        }
    }

    /// Number of rows.
    pub open spec fn spec_height(&self) -> nat {
        self@.len()
    }

    /// Whether the cell lies on the grid.
    pub open spec fn spec_contains(&self, cell: Cell) -> bool {
        cell.0 < self.spec_width() && cell.1 < self.spec_height()
    }

    /// The material on a cell of the grid.
    pub open spec fn material(&self, cell: Cell) -> Material
        recommends
            self.spec_contains(cell),
    {
        self@[cell.1 as int][cell.0 as int]
    }

    /// Whether the two terrains cover the same grid.
    pub open spec fn same_grid(&self, other: MapState) -> bool {
        &&& self@.len() == other@.len()
        &&& forall|r: int| 0 <= r < self@.len() ==> (#[trigger] self@[r]).len() == other@[r].len()
    }

    /// Whether a brick stands on the cell.
    pub open spec fn is_brick(&self, cell: Cell) -> bool {
        self.spec_contains(cell) && self.material(cell) == Material::Brick
    }

    /// Reads a layout given as rows of codes of the legend, top row first.
    /// There is a terrain for it exactly if it is a valid scheme.
    pub fn from_scheme(scheme: &Vec<Vec<u8>>) -> (terrain: Option<MapState>)
        ensures
            terrain is Some <==> valid_scheme(scheme.deep_view()),
            terrain matches Some(t) ==> {
                &&& t.wf()
                &&& t@.len() == scheme@.len()
                &&& forall|r: int|
                    0 <= r < scheme@.len() ==> (#[trigger] t@[r]).len() == scheme@[r]@.len()
                &&& forall|r: int, c: int|
                    0 <= r < scheme@.len() && 0 <= c < scheme@[r]@.len() ==> Some(
                        #[trigger] t@[r][c],
                    ) == material_of_code(scheme@[r]@[c])
            },
    {
        let ghost codes = scheme.deep_view();
        if scheme.len() > 256 {
            return None;
        }
        let width: usize = if scheme.len() == 0 {
            0
        } else {
            scheme[0].len()
        };
        if width > 256 {
            return None;
        }
        let mut rows: Vec<Vec<Material>> = Vec::new();
        let mut r: usize = 0;
        while r < scheme.len()
            invariant
                r <= scheme@.len() <= 256,
                width <= 256,
                scheme@.len() > 0 ==> width == scheme@[0]@.len(),
                codes == scheme.deep_view(),
                codes.len() == scheme@.len(),
                forall|i: int| 0 <= i < scheme@.len() ==> #[trigger] codes[i] == scheme@[i]@,
                rows@.len() == r,
                forall|i: int| 0 <= i < r ==> (#[trigger] rows@[i])@.len() == width,
                forall|i: int| 0 <= i < r ==> (#[trigger] scheme@[i])@.len() == width,
                forall|i: int, c: int|
                    0 <= i < r && 0 <= c < width ==> Some(#[trigger] rows@[i]@[c])
                        == material_of_code(scheme@[i]@[c]),
            decreases scheme@.len() - r,
        {
            if scheme[r].len() != width {
                assert(codes[r as int].len() != codes[0].len());
                return None;
            }
            let mut row: Vec<Material> = Vec::new();
            let mut c: usize = 0;
            while c < width
                invariant
                    r < scheme@.len(),
                    c <= width,
                    scheme@[r as int]@.len() == width,
                    codes == scheme.deep_view(),
                    codes.len() == scheme@.len(),
                    forall|i: int| 0 <= i < scheme@.len() ==> #[trigger] codes[i] == scheme@[i]@,
                    row@.len() == c,
                    forall|j: int|
                        0 <= j < c ==> Some(#[trigger] row@[j]) == material_of_code(
                            scheme@[r as int]@[j],
                        ),
                decreases width - c,
            {
                match Material::from_code(scheme[r][c]) {
                    Some(material) => {
                        row.push(material);
                    },
                    None => {
                        assert(material_of_code(codes[r as int][c as int]) is None);
                        return None;
                    },
                }
                c += 1;
            }
            rows.push(row);
            r += 1;
        }
        let terrain = MapState { scheme: rows };
        assert forall|i: int, c: int| 0 <= i < codes.len() && 0 <= c < codes[i].len() implies material_of_code(
            #[trigger] codes[i][c],
        ) is Some by {
            assert(Some(rows@[i]@[c]) == material_of_code(scheme@[i]@[c]));
        }
        Some(terrain)
    }

    /// The cells on which the given material stands, read row by row, each
    /// row from the left.
    pub fn cells_with(&self, material: Material) -> (cells: Vec<Cell>)
        requires
            self.wf(),
        ensures
            forall|cell: Cell|
                #[trigger] cells@.contains(cell) <==> self.spec_contains(cell) && self.material(cell)
                    == material,
            forall|i: int, j: int|
                0 <= i < j < cells@.len() ==> reads_before(#[trigger] cells@[i], #[trigger] cells@[j]),
    {
        let width = self.width();
        let height = self.height();
        let mut cells: Vec<Cell> = Vec::new();
        let mut row: usize = 0;
        while row < height
            invariant
                self.wf(),
                width == self.spec_width(),
                height == self.spec_height(),
                row <= height,
                forall|cell: Cell|
                    #[trigger] cells@.contains(cell) <==> self.spec_contains(cell) && cell.1 < row
                        && self.material(cell) == material,
                forall|i: int, j: int|
                    0 <= i < j < cells@.len() ==> reads_before(
                        #[trigger] cells@[i],
                        #[trigger] cells@[j],
                    ),
            decreases height - row,
        {
            let mut col: usize = 0;
            while col < width
                invariant
                    self.wf(),
                    width == self.spec_width(),
                    height == self.spec_height(),
                    row < height,
                    col <= width,
                    forall|cell: Cell|
                        #[trigger] cells@.contains(cell) <==> self.spec_contains(cell) && (cell.1
                            < row || (cell.1 == row && cell.0 < col)) && self.material(cell)
                            == material,
                    forall|i: int, j: int|
                        0 <= i < j < cells@.len() ==> reads_before(
                            #[trigger] cells@[i],
                            #[trigger] cells@[j],
                        ),
                decreases width - col,
            {
                assert(self@[row as int].len() == self.spec_width());
                if self.scheme[row][col] == material {
                    let here = Cell(col as u8, row as u8);
                    let ghost listed = cells@;
                    cells.push(here);
                    proof {
                        assert forall|cell: Cell| #[trigger] cells@.contains(cell) <==> listed.contains(
                            cell,
                        ) || cell == here by {
                            lemma_push_contains(listed, here, cell);
                        }
                        assert forall|i: int, j: int| 0 <= i < j < cells@.len() implies reads_before(
                            #[trigger] cells@[i],
                            #[trigger] cells@[j],
                        ) by {
                            if j == listed.len() {
                                assert(listed.contains(listed[i]));
                            }
                        }
                    }
                }
                col += 1;
            }
            row += 1;
        }
        cells
    }

    /// Number of columns.
    pub fn width(&self) -> (width: usize)
        requires
            self.wf(),
        ensures
            width == self.spec_width(),
    {
        if self.scheme.len() == 0 {
            0
        } else {
            self.scheme[0].len()
        }
    }

    /// Number of rows.
    pub fn height(&self) -> (height: usize)
        requires
            self.wf(),
        ensures
            height == self.spec_height(),
    {
        self.scheme.len()
    }

    /// Whether the cell lies on the grid.
    pub fn contains(&self, cell: Cell) -> (inside: bool)
        requires
            self.wf(),
        ensures
            inside == self.spec_contains(cell),
    {
        (cell.0 as usize) < self.width() && (cell.1 as usize) < self.height()
    }

    /// The material on a cell; a `BoundsError` naming the cell exactly if it
    /// lies outside the grid.
    pub fn material_at(&self, cell: Cell) -> (found: Result<Material, BoundsError>)
        requires
            self.wf(),
        ensures
            self.spec_contains(cell) ==> found == Ok::<Material, BoundsError>(self.material(cell)),
            !self.spec_contains(cell) ==> found == Err::<Material, BoundsError>(
                BoundsError { cell },
            ),
    {
        if self.contains(cell) {
            Ok(self.scheme[cell.1 as usize][cell.0 as usize])
        } else {
            Err(BoundsError { cell })
        }
    }

    /// Clears the cell if a brick stands on it, and says whether one did.
    /// Any other cell, on the grid or not, is left as it is.
    pub fn destroy_brick(&mut self, cell: Cell) -> (destroyed: bool)
        requires
            old(self).wf(),
        ensures
            final(self).wf(),
            destroyed == old(self).is_brick(cell),
            destroyed ==> final(self)@ == old(self)@.update(
                cell.1 as int,
                old(self)@[cell.1 as int].update(cell.0 as int, Material::Empty),
            ),
            !destroyed ==> final(self)@ == old(self)@,
            final(self).same_grid(*old(self)),
            forall|other: Cell|
                old(self).spec_contains(other) ==> #[trigger] final(self).material(other) == (
                if other == cell && destroyed {
                    Material::Empty
                } else {
                    old(self).material(other)
                }),
    {
        if !self.contains(cell) {
            return false;
        }
        let row: usize = cell.1 as usize;
        let col: usize = cell.0 as usize;
        assert(self@[row as int].len() == self.spec_width());
        match self.scheme[row][col] {
            Material::Brick => {
                self.scheme[row][col] = Material::Empty;
                assert(self@ =~= old(self)@.update(
                    row as int,
                    old(self)@[row as int].update(col as int, Material::Empty),
                ));
                true
            },
            _ => false,
        }
    }
}

impl Default for MapState {
    /// The terrain of the standard arena, 15 columns by 11 rows.
    fn default() -> (terrain: MapState)
        ensures
            terrain.wf(),
            terrain.spec_width() == NET_SIZE.0,
            terrain.spec_height() == NET_SIZE.1,
            forall|cell: Cell|
                terrain.spec_contains(cell) ==> #[trigger] terrain.material(cell) == default_material(
                    cell.0 as int,
                    cell.1 as int,
                ),
    {
        let mut rows: Vec<Vec<Material>> = Vec::new();
        let mut row: u8 = 0;
        while row < NET_SIZE.1
            invariant
                row <= NET_SIZE.1,
                rows@.len() == row,
                forall|r: int| 0 <= r < row ==> (#[trigger] rows@[r])@.len() == NET_SIZE.0,
                forall|r: int, c: int|
                    0 <= r < row && 0 <= c < NET_SIZE.0 ==> #[trigger] rows@[r]@[c]
                        == default_material(c, r),
            decreases NET_SIZE.1 - row,
        {
            let mut cells: Vec<Material> = Vec::new();
            let mut col: u8 = 0;
            while col < NET_SIZE.0
                invariant
                    col <= NET_SIZE.0,
                    cells@.len() == col,
                    forall|c: int|
                        0 <= c < col ==> #[trigger] cells@[c] == default_material(c, row as int),
                decreases NET_SIZE.0 - col,
            {
                let material = if col % 2 == 1 && row % 2 == 1 {
                    Material::Block
                } else if (col <= 2 && row <= 2) || (col == 3 && row == 2) || (col == 2 && row == 3) {
                    Material::Empty
                } else {
                    Material::Brick
                };
                cells.push(material);
                col += 1;
            }
            rows.push(cells);
            row += 1;
        }
        let terrain = MapState { scheme: rows };
        terrain
    }
}

/// A cell converts to its centre and back to itself.
pub proof fn lemma_center_round_trip(cell: Cell)
    ensures
        cell_at(Position { x: column_center(cell.0 as int) as i32, y: row_center(cell.1 as int) as i32 })
            == cell,
{
}

/// No column and no row has its centre nearer to a point than those of the
/// cell that `Cell::from_transform` gives for it.
pub proof fn lemma_from_transform_is_nearest(x: int, y: int, other: Cell)
    ensures
        distance(x, column_center(nearest_index(x - CELL_START_POS.0, CELL_SIZE.0 as int)))
            <= distance(x, column_center(other.0 as int)),
        distance(y, row_center(nearest_index(CELL_START_POS.1 - y, CELL_SIZE.1 as int)))
            <= distance(y, row_center(other.1 as int)),
{
}

} // verus!
