//! Mapping between world positions and the discrete chunk grid.

use vstd::prelude::*;
use vstd::arithmetic::div_mod::lemma_fundamental_div_mod_converse;

verus! {

/// Number of height samples along one side of a chunk.
pub const MAP_CHUNK_SIZE: usize = 241;

/// World-space edge length of a chunk: neighbouring chunks share their border samples.
pub const CHUNK_SIZE: i32 = 240;

/// A position on the horizontal plane of the world, in whole world units.
#[derive(Clone, Copy, Debug, PartialEq, Eq, Hash, Default, Structural)]
pub struct WorldPosition {
    pub x: i32,
    pub y: i32,
}

/// Identity of a chunk on the infinite chunk grid.
#[derive(Clone, Copy, Debug, PartialEq, Eq, Hash, Default, Structural)]
pub struct ChunkCoords {
    pub x: i32,
    pub y: i32,
}

/// The chunk index that a world coordinate falls in: floor division by the edge length.
pub open spec fn chunk_of(p: int) -> int {
    p / (CHUNK_SIZE as int)
}

/// The world coordinate of the origin of chunk index `c`.
pub open spec fn origin_of(c: int) -> int {
    c * (CHUNK_SIZE as int)
}

/// Squared straight-line distance between two points of the plane.
pub open spec fn distance_squared(ax: int, ay: int, bx: int, by: int) -> int {
    (ax - bx) * (ax - bx) + (ay - by) * (ay - by)
}

/// Squared distance from the origin of chunk `c` to the world position `p`.
pub open spec fn chunk_distance_squared(c: ChunkCoords, p: WorldPosition) -> int {
    distance_squared(origin_of(c.x as int), origin_of(c.y as int), p.x as int, p.y as int)
}

/// Floor division of a world coordinate by the chunk edge length.
fn floor_div_chunk(p: i32) -> (r: i32)
    ensures
        r == chunk_of(p as int),
        -8947849 <= r <= 8947848,
{
    proof {
        lemma_origin_round_trip(p as int);
    }
    let q: i32 = p / CHUNK_SIZE;
    let m: i32 = p % CHUNK_SIZE;
    if m < 0 {
        q - 1
    } else {
        q
    }
}

impl ChunkCoords {
    /// The chunk that contains the world position.
    pub fn from_position(position: &WorldPosition) -> (r: ChunkCoords)
        ensures
            r.x == chunk_of(position.x as int),
            r.y == chunk_of(position.y as int),
            -8947849 <= r.x <= 8947848,
            -8947849 <= r.y <= 8947848,
    {
        ChunkCoords { x: floor_div_chunk(position.x), y: floor_div_chunk(position.y) }
    }

    /// World coordinates of the chunk's origin corner; a chunk always covers the
    /// same footprint, whatever its level of detail.
    pub fn to_position(&self) -> (r: (i64, i64))
        ensures
            r.0 == origin_of(self.x as int),
            r.1 == origin_of(self.y as int),
    {
        let x: i64 = self.x as i64;
        let y: i64 = self.y as i64;
        assert(-0x100_0000_0000 <= x * 240 <= 0x100_0000_0000) by (nonlinear_arith)
            requires
                i32::MIN <= x <= i32::MAX,
        ;
        assert(-0x100_0000_0000 <= y * 240 <= 0x100_0000_0000) by (nonlinear_arith)
            requires
                i32::MIN <= y <= i32::MAX,
        ;
        (x * 240, y * 240)
    }
}

/// Squared distance, exact in `i128`, between a chunk origin and a world position.
pub fn chunk_distance_squared_exec(c: &ChunkCoords, p: &WorldPosition) -> (r: i128)
    ensures
        r == chunk_distance_squared(*c, *p),
{
    let (ox, oy) = c.to_position();
    let dx: i128 = (ox as i128) - (p.x as i128);
    let dy: i128 = (oy as i128) - (p.y as i128);
    assert(-0x100_0000_0000 <= dx <= 0x100_0000_0000);
    assert(-0x100_0000_0000 <= dy <= 0x100_0000_0000);
    assert(dx * dx <= 0x1_0000_0000_0000_0000_0000) by (nonlinear_arith)
        requires
            -0x100_0000_0000 <= dx <= 0x100_0000_0000,
    ;
    assert(0 <= dy * dy <= 0x1_0000_0000_0000_0000_0000) by (nonlinear_arith)
        requires
            -0x100_0000_0000 <= dy <= 0x100_0000_0000,
    ;
    assert(0 <= dx * dx) by (nonlinear_arith);
    dx * dx + dy * dy
}

/// Re-deriving a chunk from the origin of the chunk that holds `p` gives the
/// same chunk, and that origin lies at most one edge length below `p`.
pub proof fn lemma_origin_round_trip(p: int)
    ensures
        chunk_of(origin_of(chunk_of(p))) == chunk_of(p),
        origin_of(chunk_of(p)) <= p < origin_of(chunk_of(p)) + CHUNK_SIZE,
{
    let c = chunk_of(p);
    assert(origin_of(c) / 240 == c) by (nonlinear_arith);
    assert(c * 240 <= p < c * 240 + 240) by (nonlinear_arith)
        requires
            c == p / 240,
    ;
}

/// Position `k` of a row-major grid with rows of length `side` lies in row
/// `k / side` and column `k % side`.
pub proof fn lemma_row_major_index(k: int, row: int, col: int, side: int)
    requires
        0 < side,
        0 <= col < side,
        k == row * side + col,
    ensures
        k % side == col,
        k / side == row,
{
    lemma_fundamental_div_mod_converse(k, side, row, col);
}

} // verus!
