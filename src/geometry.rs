use vstd::prelude::*;

verus! {

/// Number of tiles along each side of the board.
pub const BOARD_SIZE: usize = 8;

/// Side length of one tile, in pixels.
pub const TILE_SIZE: i32 = 100;

/// Gap between a tile's origin and the sprite of the piece on it, in pixels.
pub const PIECE_INSET: i32 = 5;

/// Side length of a piece sprite, in pixels.
pub const PIECE_SIZE: i32 = 90;

/// Side length of the square window the board fills, in pixels.
pub const WINDOW_SIZE: i32 = 800;

/// A tile's coordinates on the board: `row` counts downward, `col` rightward.
#[derive(Clone, Copy, Debug, PartialEq, Eq, Structural)]
pub struct GridPos {
    pub row: usize,
    pub col: usize,
}

impl GridPos {
    pub open spec fn wf(self) -> bool {
        self.row < BOARD_SIZE && self.col < BOARD_SIZE
    }

    /// Position of this tile in a row-major list of all tiles.
    pub open spec fn index(self) -> int {
        self.row * BOARD_SIZE + self.col
    }
}

/// A pixel that lies outside the board.
#[derive(Clone, Copy, Debug, PartialEq, Eq, Structural)]
pub struct OutOfBounds;

/// The tile under pixel `(x, y)`, if any: `x` picks the column, `y` the row.
pub open spec fn cell_of_pixel(x: int, y: int) -> Option<GridPos> {
    let row = y / (TILE_SIZE as int);
    let col = x / (TILE_SIZE as int);
    if 0 <= row < BOARD_SIZE && 0 <= col < BOARD_SIZE {
        Some(GridPos { row: row as usize, col: col as usize })
    } else {
        None
    }
}

/// Maps a pixel to the tile under it.
pub fn pixel_to_cell(x: i32, y: i32) -> (r: Result<GridPos, OutOfBounds>)
    ensures
        r is Ok <==> (0 <= (x as int) / (TILE_SIZE as int) < BOARD_SIZE && 0 <= (y as int) / (TILE_SIZE as int) < BOARD_SIZE),
        r is Ok ==> r->Ok_0.wf() && cell_of_pixel(x as int, y as int) == Some(r->Ok_0),
        r is Err <==> cell_of_pixel(x as int, y as int) is None,
{
    if x < 0 || y < 0 || x >= WINDOW_SIZE || y >= WINDOW_SIZE {
        Err(OutOfBounds)
    } else {
        Ok(GridPos { row: (y / TILE_SIZE) as usize, col: (x / TILE_SIZE) as usize })
    }
}


/// The tile at position `k` of a row-major list of all tiles.
pub open spec fn pos_of(k: int) -> GridPos {
    GridPos { row: (k / (BOARD_SIZE as int)) as usize, col: (k % (BOARD_SIZE as int)) as usize }
}

/// Row-major positions and tiles correspond one to one.
pub proof fn lemma_pos_of_index(p: GridPos)
    requires
        p.wf(),
    ensures
        pos_of(p.index()) == p,
        0 <= p.index() < BOARD_SIZE * BOARD_SIZE,
{
    let r = p.row as int;
    let c = p.col as int;
    assert((r * 8 + c) / 8 == r && (r * 8 + c) % 8 == c) by (nonlinear_arith)
        requires 0 <= c < 8, 0 <= r;
}

/// Every row-major position names a tile on the board.
pub proof fn lemma_index_of_pos(k: int)
    requires
        0 <= k < BOARD_SIZE * BOARD_SIZE,
    ensures
        pos_of(k).wf(),
        pos_of(k).index() == k,
{
    assert(0 <= k / 8 < 8 && 0 <= k % 8 < 8 && (k / 8) * 8 + k % 8 == k) by (nonlinear_arith)
        requires 0 <= k < 64;
}

/// An axis-aligned rectangle in pixels, with its top-left corner at `(x, y)`.
#[derive(Clone, Copy, Debug, PartialEq, Eq, Structural)]
pub struct Region {
    pub x: i32,
    pub y: i32,
    pub width: u32,
    pub height: u32,
}

pub open spec fn tile_region_of(p: GridPos) -> Region {
    Region {
        x: (p.col * TILE_SIZE) as i32,
        y: (p.row * TILE_SIZE) as i32,
        width: TILE_SIZE as u32,
        height: TILE_SIZE as u32,
    }
}

pub open spec fn piece_region_of(p: GridPos) -> Region {
    Region {
        x: (p.col * TILE_SIZE + PIECE_INSET) as i32,
        y: (p.row * TILE_SIZE + PIECE_INSET) as i32,
        width: PIECE_SIZE as u32,
        height: PIECE_SIZE as u32,
    }
}

/// The square a tile covers.
pub fn cell_to_region(p: GridPos) -> (r: Region)
    requires
        p.wf(),
    ensures
        r == tile_region_of(p),
{
    Region {
        x: p.col as i32 * TILE_SIZE,
        y: p.row as i32 * TILE_SIZE,
        width: TILE_SIZE as u32,
        height: TILE_SIZE as u32,
    }
}

/// The square a piece sprite covers: inset within its tile so a border of the tile shows.
pub fn cell_to_piece_region(p: GridPos) -> (r: Region)
    requires
        p.wf(),
    ensures
        r == piece_region_of(p),
{
    Region {
        x: p.col as i32 * TILE_SIZE + PIECE_INSET,
        y: p.row as i32 * TILE_SIZE + PIECE_INSET,
        width: PIECE_SIZE as u32,
        height: PIECE_SIZE as u32,
    }
}

/// A pixel maps to a tile exactly when it lies on the board, and going from a tile to its
/// square, to the tile under that square's corner, and back to a square gives the same square.
pub proof fn lemma_pixel_cell_round_trip(x: i32, y: i32, p: GridPos)
    requires
        p.wf(),
    ensures
        (cell_of_pixel(x as int, y as int) is Some) <==> (0 <= x < WINDOW_SIZE && 0 <= y < WINDOW_SIZE),
        cell_of_pixel(tile_region_of(p).x as int, tile_region_of(p).y as int) == Some(p),
        tile_region_of(cell_of_pixel(tile_region_of(p).x as int, tile_region_of(p).y as int)->0)
            == tile_region_of(p),
{
    let r = p.row as int;
    let c = p.col as int;
    assert((c * 100) / 100 == c && (r * 100) / 100 == r) by (nonlinear_arith);
}

} // verus!
