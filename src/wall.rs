use vstd::prelude::*;

verus! {

/// The kinds of terrain tile.
#[derive(Clone, Copy, Debug, PartialEq, Eq, Structural)]
pub enum WallType {
    Brick,
    Concrete,
    Net,
    Empty,
    Border,
}

/// Solid tiles block movement and stop projectiles.
pub open spec fn solid(v: WallType) -> bool {
    v is Brick || v is Concrete || v is Border
}

/// What a hit leaves behind: a brick is destroyed, everything else stays.
pub open spec fn damaged(v: WallType) -> WallType {
    if v is Brick {
        WallType::Empty
    } else {
        v
    }
}

/// One terrain tile.
#[derive(Clone, Copy, Debug)]
pub struct Wall {
    pub variant: WallType,
    pub position: [i32; 2],
}

impl Wall {
    pub fn new(position: [i32; 2]) -> (r: Wall)
        ensures
            r == (Wall { variant: WallType::Empty, position }),
    {
        Wall { variant: WallType::Empty, position }
    }

    pub fn variant(&self) -> (r: WallType)
        ensures
            r == self.variant,
    {
        self.variant
    }

    pub fn brick(self) -> (r: Self)
        ensures
            r == (Wall { variant: WallType::Brick, ..self }),
    {
        Wall { variant: WallType::Brick, ..self }
    }

    pub fn concrete(self) -> (r: Self)
        ensures
            r == (Wall { variant: WallType::Concrete, ..self }),
    {
        Wall { variant: WallType::Concrete, ..self }
    }

    pub fn net(self) -> (r: Self)
        ensures
            r == (Wall { variant: WallType::Net, ..self }),
    {
        Wall { variant: WallType::Net, ..self }
    }

    pub fn empty(self) -> (r: Self)
        ensures
            r == (Wall { variant: WallType::Empty, ..self }),
    {
        Wall { variant: WallType::Empty, ..self }
    }

    pub fn border(self) -> (r: Self)
        ensures
            r == (Wall { variant: WallType::Border, ..self }),
    {
        Wall { variant: WallType::Border, ..self }
    }

    /// A hit: brick becomes empty, every other kind is left as it is.
    pub fn damage(&mut self)
        ensures
            final(self).variant == damaged(old(self).variant),
            final(self).position == old(self).position,
    {
        match self.variant {
            WallType::Brick => self.variant = WallType::Empty,
            WallType::Concrete => self.variant = WallType::Concrete,
            WallType::Net => self.variant = WallType::Net,
            WallType::Empty => self.variant = WallType::Empty,
            WallType::Border => self.variant = WallType::Border,
        }
    }

    pub fn is_solid(&self) -> (r: bool)
        ensures
            r == solid(self.variant),
    {
        match self.variant {
            WallType::Brick | WallType::Concrete | WallType::Border => true,
            WallType::Net | WallType::Empty => false,
        }
    }
}

/// The terrain as rows of tiles.
pub open spec fn grid_of(walls: Seq<Vec<Wall>>) -> Seq<Seq<Wall>> {
    walls.map_values(|r: Vec<Wall>| r@)
}

/// The tile at column `x`, row `y`.
pub open spec fn tile_at(walls: Seq<Seq<Wall>>, x: int, y: int) -> Wall {
    walls[y][x]
}

/// The grid with the tile at column `x`, row `y` replaced.
pub open spec fn with_tile(walls: Seq<Seq<Wall>>, x: int, y: int, t: Wall) -> Seq<Seq<Wall>> {
    walls.update(y, walls[y].update(x, t))
}

/// A rectangular grid of `columns` per row, each tile knowing its own position.
pub open spec fn grid_wf(walls: Seq<Seq<Wall>>, columns: int) -> bool {
    &&& forall|y: int| 0 <= y < walls.len() ==> (#[trigger] walls[y].len()) == columns
    &&& forall|x: int, y: int|
        0 <= y < walls.len() && 0 <= x < columns ==> (#[trigger] tile_at(walls, x, y)).position
            == [x as i32, y as i32]
}

/// `p` lies on a grid of `columns` by `rows`.
pub open spec fn in_grid(p: [i32; 2], columns: int, rows: int) -> bool {
    0 <= p[0] < columns && 0 <= p[1] < rows
}

/// The kind of the tile at `p`.
pub open spec fn variant_at(walls: Seq<Seq<Wall>>, p: [i32; 2]) -> WallType {
    tile_at(walls, p[0] as int, p[1] as int).variant
}

/// `x`, `y` lies on the outer ring of the grid.
pub open spec fn on_ring(x: int, y: int, columns: int, rows: int) -> bool {
    x == 0 || y == 0 || x == columns - 1 || y == rows - 1
}

/// The kind that a random draw gives an inner tile: brick for two draws in
/// six, concrete for one, net for one, empty for two.
pub open spec fn kind_for_draw(draw: u8) -> WallType {
    let k = draw % 6;
    if k == 0 || k == 1 {
        WallType::Brick
    } else if k == 2 {
        WallType::Concrete
    } else if k == 3 {
        WallType::Net
    } else {
        WallType::Empty
    }
}

/// The kind of tile `x`, `y` in a grid built from `draws`, one per tile in
/// row-major order.
pub open spec fn generated_kind(draws: Seq<u8>, columns: int, rows: int, x: int, y: int) -> WallType {
    if on_ring(x, y, columns, rows) {
        WallType::Border
    } else {
        kind_for_draw(draws[y * columns + x])
    }
}

fn wall_for_draw(draw: u8) -> (r: WallType)
    ensures
        r == kind_for_draw(draw),
{
    let k: u8 = draw % 6;
    if k == 0 || k == 1 {
        WallType::Brick
    } else if k == 2 {
        WallType::Concrete
    } else if k == 3 {
        WallType::Net
    } else {
        WallType::Empty
    }
}

/// Builds a grid of `column_count` by `row_count` tiles from one draw per
/// tile (row-major): the outer ring is border, every inner tile takes the
/// kind of its draw.
pub fn walls_from_draws(column_count: u8, row_count: u8, draws: &Vec<u8>) -> (walls: Vec<Vec<Wall>>)
    requires
        draws@.len() == column_count as int * row_count as int,
    ensures
        walls@.len() == row_count as int,
        grid_wf(grid_of(walls@), column_count as int),
        forall|x: int, y: int|
            0 <= x < column_count && 0 <= y < row_count ==> (#[trigger] tile_at(grid_of(walls@), x, y)).variant
                == generated_kind(draws@, column_count as int, row_count as int, x, y),
{
    let w = column_count as usize;
    let h = row_count as usize;
    let mut walls: Vec<Vec<Wall>> = Vec::new();
    let mut y: usize = 0;
    while y < h
        invariant
            0 <= y <= h,
            w == column_count as usize,
            h == row_count as usize,
            draws@.len() == w * h,
            walls@.len() == y,
            grid_wf(grid_of(walls@), w as int),
            forall|i: int, j: int|
                0 <= i < w && 0 <= j < y ==> (#[trigger] tile_at(grid_of(walls@), i, j)).variant
                    == generated_kind(draws@, w as int, h as int, i, j),
        decreases h - y,
    {
        let mut row: Vec<Wall> = Vec::new();
        let mut x: usize = 0;
        while x < w
            invariant
                0 <= x <= w,
                0 <= y < h,
                w == column_count as usize,
                h == row_count as usize,
                draws@.len() == w * h,
                row@.len() == x,
                forall|i: int|
                    0 <= i < x ==> (#[trigger] row@[i]).position == [i as i32, y as i32]
                        && row@[i].variant == generated_kind(draws@, w as int, h as int, i, y as int),
            decreases w - x,
        {
            let variant = if x == 0 || y == 0 || x + 1 == w || y + 1 == h {
                WallType::Border
            } else {
                assert(y * w + x < h * w && h * w <= 255 * 255) by (nonlinear_arith)
                    requires
                        y < h,
                        x < w,
                        h <= 255,
                        w <= 255,
                ;
                assert(h * w == w * h) by (nonlinear_arith);
                wall_for_draw(draws[y * w + x])
            };
            row.push(Wall { variant, position: [x as i32, y as i32] });
            x = x + 1;
        }
        let ghost before = grid_of(walls@);
        walls.push(row);
        assert forall|i: int, j: int|
            0 <= i < w && 0 <= j <= y implies (#[trigger] tile_at(grid_of(walls@), i, j)).variant
                == generated_kind(draws@, w as int, h as int, i, j) && tile_at(grid_of(walls@), i, j).position == [i as i32, j as i32] by {
            if j < y {
                assert(grid_of(walls@)[j] == before[j]);
                assert(tile_at(grid_of(walls@), i, j) == tile_at(before, i, j));
            } else {
                assert(grid_of(walls@)[j] == row@);
                assert(tile_at(grid_of(walls@), i, j) == row@[i]);
            }
        }
        assert forall|j: int| 0 <= j < walls@.len() implies (#[trigger] walls@[j]@.len()) == w by {
            if j < y {
                assert(grid_of(walls@)[j] == before[j]);
            }
        }
        y = y + 1;
    }
    walls
}

/// Draws taken at most for one tile before the last one is used.
const REDRAW_LIMIT: u32 = 16;

/// A random byte for one tile's kind. Bytes from 252 up are drawn again, so
/// that each remainder modulo six is equally likely; only after
/// `REDRAW_LIMIT` such bytes in a row (odds 2^-96) is the last one kept.
fn draw_for_tile() -> u8 {
    let mut d: u8 = rand::random::<u8>();
    let mut tries: u32 = 1;
    while d >= 252 && tries < REDRAW_LIMIT
        invariant
            1 <= tries <= REDRAW_LIMIT,
        decreases REDRAW_LIMIT - tries,
    {
        d = rand::random::<u8>();
        tries = tries + 1;
    }
    d
}

/// Builds a fresh random grid: the outer ring is border, each inner tile is
/// brick, concrete, net or empty.
pub fn generate_walls(column_count: u8, row_count: u8) -> (walls: Vec<Vec<Wall>>)
    ensures
        walls@.len() == row_count as int,
        grid_wf(grid_of(walls@), column_count as int),
        forall|x: int, y: int|
            0 <= x < column_count && 0 <= y < row_count ==> ((#[trigger] tile_at(grid_of(walls@), x, y)).variant
                is Border <==> on_ring(x, y, column_count as int, row_count as int)),
{
    assert(column_count as int * row_count as int <= 255 * 255) by (nonlinear_arith)
        requires
            column_count <= 255,
            row_count <= 255,
    ;
    let n: usize = column_count as usize * row_count as usize;
    let mut draws: Vec<u8> = Vec::new();
    let mut i: usize = 0;
    while i < n
        invariant
            i <= n,
            draws@.len() == i,
        decreases n - i,
    {
        draws.push(draw_for_tile());
        i = i + 1;
    }
    let walls = walls_from_draws(column_count, row_count, &draws);
    assert forall|x: int, y: int|
        0 <= x < column_count && 0 <= y < row_count implies ((#[trigger] tile_at(grid_of(walls@), x, y)).variant
            is Border <==> on_ring(x, y, column_count as int, row_count as int)) by {
        assert(tile_at(grid_of(walls@), x, y).variant == generated_kind(draws@, column_count as int, row_count as int, x, y));
    }
    walls
}

/// Replaces the tile at column `x`, row `y`.
pub(crate) fn set_tile(walls: &mut Vec<Vec<Wall>>, x: usize, y: usize, t: Wall)
    requires
        y < old(walls)@.len(),
        x < old(walls)@[y as int]@.len(),
    ensures
        final(walls)@.len() == old(walls)@.len(),
        forall|j: int| 0 <= j < old(walls)@.len() ==> (#[trigger] final(walls)@[j]@.len()) == old(walls)@[j]@.len(),
        forall|i: int, j: int|
            0 <= j < old(walls)@.len() && 0 <= i < old(walls)@[j]@.len() ==> #[trigger] tile_at(grid_of(final(walls)@), i, j)
                == if i == x && j == y {
                t
            } else {
                tile_at(grid_of(old(walls)@), i, j)
            },
{
    walls[y][x] = t;
}

/// Hits the tile at column `x`, row `y`.
pub(crate) fn damage_tile(walls: &mut Vec<Vec<Wall>>, x: usize, y: usize)
    requires
        y < old(walls)@.len(),
        x < old(walls)@[y as int]@.len(),
    ensures
        grid_of(final(walls)@) == with_tile(
            grid_of(old(walls)@),
            x as int,
            y as int,
            Wall { variant: damaged(tile_at(grid_of(old(walls)@), x as int, y as int).variant), ..tile_at(grid_of(old(walls)@), x as int, y as int) },
        ),
{
    let ghost before = grid_of(walls@);
    walls[y][x].damage();
    assert(grid_of(walls@) =~= with_tile(
        before,
        x as int,
        y as int,
        Wall { variant: damaged(tile_at(before, x as int, y as int).variant), ..tile_at(before, x as int, y as int) },
    ));
}

/// Sets every tile within `radius` of `center` (a square neighbourhood) to
/// empty; tiles off the grid are skipped.
pub fn carve_safe_zone(walls: &mut Vec<Vec<Wall>>, center: [i32; 2], radius: i32)
    requires
        old(walls)@.len() > 0 ==> grid_wf(grid_of(old(walls)@), old(walls)@[0]@.len() as int),
        old(walls)@.len() <= i32::MAX,
        old(walls)@.len() > 0 ==> old(walls)@[0]@.len() <= i32::MAX,
    ensures
        final(walls)@.len() == old(walls)@.len(),
        old(walls)@.len() > 0 ==> grid_wf(grid_of(final(walls)@), old(walls)@[0]@.len() as int),
        forall|x: int, y: int|
            0 <= y < old(walls)@.len() && 0 <= x < old(walls)@[y]@.len() ==> (#[trigger] tile_at(
                grid_of(final(walls)@),
                x,
                y,
            )).variant == if center[0] - radius <= x <= center[0] + radius && center[1] - radius
                <= y <= center[1] + radius {
                WallType::Empty
            } else {
                tile_at(grid_of(old(walls)@), x, y).variant
            },
{
    if walls.len() == 0 {
        return;
    }
    let h = walls.len() as i64;
    let w = walls[0].len() as i64;
    let cx = center[0] as i64;
    let cy = center[1] as i64;
    let r = radius as i64;
    let y_lo: i64 = if cy - r < 0 { 0 } else { cy - r };
    let y_hi: i64 = if cy + r >= h { h - 1 } else { cy + r };
    let x_lo: i64 = if cx - r < 0 { 0 } else { cx - r };
    let x_hi: i64 = if cx + r >= w { w - 1 } else { cx + r };
    let ghost start = grid_of(walls@);
    let mut y: i64 = y_lo;
    while y <= y_hi
        invariant
            0 <= y_lo,
            y_lo <= y,
            y <= y_hi + 1 || y == y_lo,
            y_hi < h,
            0 <= x_lo,
            x_hi < w,
            h == start.len(),
            w == start[0].len(),
            h <= i32::MAX,
            w <= i32::MAX,
            grid_wf(start, w as int),
            walls@.len() == start.len(),
            grid_wf(grid_of(walls@), w as int),
            forall|i: int, j: int|
                0 <= j < h && 0 <= i < w ==> (#[trigger] tile_at(grid_of(walls@), i, j)).variant == if x_lo
                    <= i <= x_hi && y_lo <= j < y {
                    WallType::Empty
                } else {
                    tile_at(start, i, j).variant
                },
        decreases y_hi + 1 - y,
    {
        let mut x: i64 = x_lo;
        while x <= x_hi
            invariant
                0 <= y_lo <= y <= y_hi,
                y_hi < h,
                0 <= x_lo <= x,
                x <= x_hi + 1 || x == x_lo,
                x_hi < w,
                h == start.len(),
                w == start[0].len(),
                h <= i32::MAX,
                w <= i32::MAX,
                grid_wf(start, w as int),
                walls@.len() == start.len(),
                grid_wf(grid_of(walls@), w as int),
                forall|i: int, j: int|
                    0 <= j < h && 0 <= i < w ==> (#[trigger] tile_at(grid_of(walls@), i, j)).variant == if x_lo
                        <= i <= x_hi && (y_lo <= j < y || (j == y && i < x)) {
                        WallType::Empty
                    } else {
                        tile_at(start, i, j).variant
                    },
            decreases x_hi + 1 - x,
        {
            let xi = x as usize;
            let yi = y as usize;
            let ghost before = grid_of(walls@);
            assert(grid_of(walls@)[yi as int].len() == w);
            set_tile(walls, xi, yi, Wall::new([x as i32, y as i32]).empty());
            assert forall|i: int, j: int| 0 <= j < h && 0 <= i < w implies #[trigger] tile_at(grid_of(walls@), i, j) == if i == xi && j == yi {
                Wall { variant: WallType::Empty, position: [x as i32, y as i32] }
            } else {
                tile_at(before, i, j)
            } by {
                assert(before[j].len() == w);
            }
            assert forall|j: int| 0 <= j < walls@.len() implies (#[trigger] walls@[j]@.len()) == w by {
                assert(before[j].len() == w);
            }
            x = x + 1;
        }
        y = y + 1;
    }
    assert forall|x: int, y: int|
        0 <= y < start.len() && 0 <= x < start[y].len() implies (#[trigger] tile_at(
            grid_of(walls@),
            x,
            y,
        )).variant == if center[0] - radius <= x <= center[0] + radius && center[1] - radius <= y
            <= center[1] + radius {
            WallType::Empty
        } else {
            tile_at(start, x, y).variant
        } by {
        assert(start[y].len() == w);
    }
}

} // verus!
