//! Height grids of single chunks, sampled from an injected coherent-noise field.
//!
//! The noise field is any function from a world grid point to a height; it is
//! queried at the chunk's own samples offset by the chunk's world origin, so
//! that neighbouring chunks read the same field values along their shared edge.

use vstd::prelude::*;
use crate::config::HEIGHT_ONE;
use crate::coords::{origin_of, ChunkCoords, MAP_CHUNK_SIZE};

verus! {

/// A square grid of normalized heights (fixed point, at most `HEIGHT_ONE`),
/// indexed as `data[y][x]`.
#[derive(Clone, Debug)]
pub struct HeightMap {
    pub data: Vec<Vec<u32>>,
    pub size: usize,
}

/// A raw field value clamped into the normalized range.
pub open spec fn clamp_height(v: u32) -> u32 {
    if v > HEIGHT_ONE {
        HEIGHT_ONE
    } else {
        v
    }
}

/// The world grid point at which sample `(x, y)` of chunk `c` is taken.
pub open spec fn sample_point(c: ChunkCoords, x: int, y: int) -> (i64, i64) {
    ((origin_of(c.x as int) + x) as i64, (origin_of(c.y as int) + y) as i64)
}

/// `h` is a value that `sample` can return at `p`, clamped into the normalized range.
pub open spec fn sampled_at<F: Fn(i64, i64) -> u32>(sample: F, p: (i64, i64), h: u32) -> bool {
    exists|v: u32| #[trigger] call_ensures(sample, p, v) && h == clamp_height(v)
}

/// Every sample of `map` is a value that `sample` can return at the sample's
/// world grid point, clamped into the normalized range.
pub open spec fn sampled_from<F: Fn(i64, i64) -> u32>(
    map: HeightMap,
    c: ChunkCoords,
    sample: F,
) -> bool {
    forall|x: int, y: int|
        0 <= x < map.size && 0 <= y < map.size ==> sampled_at(
            sample,
            sample_point(c, x, y),
            #[trigger] map.data@[y]@[x],
        )
}

/// The field gives one value per point.
pub open spec fn deterministic<F: Fn(i64, i64) -> u32>(sample: F) -> bool {
    forall|p: (i64, i64), a: u32, b: u32|
        call_ensures(sample, p, a) && call_ensures(sample, p, b) ==> a == b
}

impl HeightMap {
    /// The grid is square with side `size`, and every height is normalized.
    pub open spec fn wf(&self) -> bool {
        &&& self.data@.len() == self.size
        &&& forall|y: int| 0 <= y < self.size ==> (#[trigger] self.data@[y])@.len() == self.size
        &&& forall|y: int, x: int|
            0 <= y < self.size && 0 <= x < self.size ==> #[trigger] self.data@[y]@[x] <= HEIGHT_ONE
    }

    /// Samples the height grid of a chunk: sample `(x, y)` is the field's value
    /// at the chunk origin plus `(x, y)`, clamped into the normalized range.
    pub fn generate<F: Fn(i64, i64) -> u32>(chunk_coords: &ChunkCoords, sample: F) -> (r: HeightMap)
        requires
            forall|x: i64, y: i64| sample.requires((x, y)),
        ensures
            r.wf(),
            r.size == MAP_CHUNK_SIZE,
            sampled_from(r, *chunk_coords, sample),
    {
        let (ox, oy) = chunk_coords.to_position();
        let mut data: Vec<Vec<u32>> = Vec::new();
        let mut y: usize = 0;
        while y < MAP_CHUNK_SIZE
            invariant
                ox == origin_of(chunk_coords.x as int),
                oy == origin_of(chunk_coords.y as int),
                -0x100_0000_0000 <= ox <= 0x100_0000_0000,
                -0x100_0000_0000 <= oy <= 0x100_0000_0000,
                forall|x: i64, y: i64| sample.requires((x, y)),
                0 <= y <= MAP_CHUNK_SIZE,
                data@.len() == y,
                forall|j: int| 0 <= j < y ==> (#[trigger] data@[j])@.len() == MAP_CHUNK_SIZE,
                forall|j: int, i: int|
                    0 <= j < y && 0 <= i < MAP_CHUNK_SIZE ==> #[trigger] data@[j]@[i] <= HEIGHT_ONE,
                forall|j: int, i: int|
                    0 <= j < y && 0 <= i < MAP_CHUNK_SIZE ==> sampled_at(
                        sample,
                        sample_point(*chunk_coords, i, j),
                        #[trigger] data@[j]@[i],
                    ),
            decreases MAP_CHUNK_SIZE - y,
        {
            let mut row: Vec<u32> = Vec::new();
            let mut x: usize = 0;
            while x < MAP_CHUNK_SIZE
                invariant
                    ox == origin_of(chunk_coords.x as int),
                    oy == origin_of(chunk_coords.y as int),
                    -0x100_0000_0000 <= ox <= 0x100_0000_0000,
                    -0x100_0000_0000 <= oy <= 0x100_0000_0000,
                    forall|x: i64, y: i64| sample.requires((x, y)),
                    0 <= y < MAP_CHUNK_SIZE,
                    0 <= x <= MAP_CHUNK_SIZE,
                    row@.len() == x,
                    forall|i: int| 0 <= i < x ==> #[trigger] row@[i] <= HEIGHT_ONE,
                    forall|i: int|
                        0 <= i < x ==> sampled_at(
                            sample,
                            sample_point(*chunk_coords, i, y as int),
                            #[trigger] row@[i],
                        ),
                decreases MAP_CHUNK_SIZE - x,
            {
                let px: i64 = ox + x as i64;
                let py: i64 = oy + y as i64;
                let ghost before = row@;
                let v = sample(px, py);
                let h = if v > HEIGHT_ONE {
                    HEIGHT_ONE
                } else {
                    v
                };
                row.push(h);
                proof {
                    assert(sample_point(*chunk_coords, x as int, y as int) == (px, py));
                    assert(row@[x as int] == clamp_height(v));
                    assert(call_ensures(sample, sample_point(*chunk_coords, x as int, y as int), v));
                    assert(sampled_at(sample, sample_point(*chunk_coords, x as int, y as int), row@[x as int]));
                    assert forall|i: int| 0 <= i < x + 1 implies sampled_at(
                        sample,
                        sample_point(*chunk_coords, i, y as int),
                        #[trigger] row@[i],
                    ) by {
                        if i < x {
                            assert(row@[i] == before[i]);
                        }
                    }
                }
                x += 1;
            }
            let ghost rows_before = data@;
            data.push(row);
            proof {
                assert forall|j: int, i: int|
                    0 <= j < y + 1 && 0 <= i < MAP_CHUNK_SIZE implies sampled_at(
                        sample,
                        sample_point(*chunk_coords, i, j),
                        #[trigger] data@[j]@[i],
                    ) by {
                    if j < y {
                        assert(data@[j] == rows_before[j]);
                    } else {
                        assert(data@[j]@[i] == row@[i]);
                    }
                }
            }
            y += 1;
        }
        let r = HeightMap { data, size: MAP_CHUNK_SIZE };
        assert forall|x: int, y: int| 0 <= x < r.size && 0 <= y < r.size implies sampled_at(
            sample,
            sample_point(*chunk_coords, x, y),
            #[trigger] r.data@[y]@[x],
        ) by {
            assert(r.data@[y]@[x] == data@[y]@[x]);
        }
        r
    }
}

/// Seamless tiling: under the same field, two chunks that share an edge agree
/// exactly on it; the last column (row) of one chunk is the first column (row)
/// of its neighbour to the east (south).
pub proof fn lemma_seamless_tiling<F: Fn(i64, i64) -> u32>(
    a: ChunkCoords,
    b: ChunkCoords,
    map_a: HeightMap,
    map_b: HeightMap,
    sample: F,
)
    requires
        deterministic(sample),
        map_a.size == MAP_CHUNK_SIZE,
        map_b.size == MAP_CHUNK_SIZE,
        sampled_from(map_a, a, sample),
        sampled_from(map_b, b, sample),
    ensures
        b.x == a.x + 1 && b.y == a.y ==> forall|y: int|
            0 <= y < MAP_CHUNK_SIZE ==> #[trigger] map_a.data@[y]@[MAP_CHUNK_SIZE - 1]
                == map_b.data@[y]@[0],
        b.y == a.y + 1 && b.x == a.x ==> forall|x: int|
            0 <= x < MAP_CHUNK_SIZE ==> #[trigger] map_a.data@[MAP_CHUNK_SIZE - 1]@[x]
                == map_b.data@[0]@[x],
{
    if b.x == a.x + 1 && b.y == a.y {
        assert forall|y: int| 0 <= y < MAP_CHUNK_SIZE implies #[trigger] map_a.data@[y]@[
            MAP_CHUNK_SIZE - 1] == map_b.data@[y]@[0] by {
            assert(sample_point(a, 240, y) == sample_point(b, 0, y));
        }
    }
    if b.y == a.y + 1 && b.x == a.x {
        assert forall|x: int| 0 <= x < MAP_CHUNK_SIZE implies #[trigger] map_a.data@[
            MAP_CHUNK_SIZE - 1]@[x] == map_b.data@[0]@[x] by {
            assert(sample_point(a, x, 240) == sample_point(b, x, 0));
        }
    }
}

} // verus!
