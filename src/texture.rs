//! Colour textures of height grids, by ordered height bands.

use vstd::prelude::*;
use crate::config::{Config, Rgb8, TerrainThreshold};
use crate::coords::lemma_row_major_index;
use crate::height_map::HeightMap;

verus! {

/// One colour per height sample, row by row.
#[derive(Debug)]
pub struct ColorMap {
    pub colors: Vec<Rgb8>,
    pub size: (usize, usize),
}

impl ColorMap {
    /// An empty colour map of the given dimensions.
    pub fn new(size: (usize, usize)) -> (r: ColorMap)
        ensures
            r.colors@.len() == 0,
            r.size == size,
    {
        ColorMap { colors: Vec::new(), size }
    }
}

/// The colour of height `h`: that of the first band whose bound exceeds `h`;
/// the last band also takes every height above all bounds.
pub open spec fn color_for(bands: Seq<TerrainThreshold>, h: u32) -> Rgb8
    decreases bands.len(),
{
    if bands.len() == 0 {
        Rgb8 { r: 0, g: 0, b: 0 }
    } else if bands.len() == 1 || h < bands[0].max_height {
        bands[0].color
    } else {
        color_for(bands.drop_first(), h)
    }
}

/// The RGBA bytes of a colour, fully opaque.
pub open spec fn rgba_bytes(c: Rgb8) -> Seq<u8> {
    seq![c.r, c.g, c.b, 255u8]
}

/// The colour of one height, scanning the bands in the given order.
pub fn band_color(bands: &Vec<TerrainThreshold>, h: u32) -> (r: Rgb8)
    requires
        bands@.len() > 0,
    ensures
        r == color_for(bands@, h),
{
    let n = bands.len();
    let mut k: usize = 0;
    assert(bands@.subrange(0, n as int) =~= bands@);
    while k + 1 < n && h >= bands[k].max_height
        invariant
            n == bands@.len(),
            0 <= k < n,
            color_for(bands@, h) == color_for(bands@.subrange(k as int, n as int), h),
        decreases n - k,
    {
        proof {
            assert(bands@.subrange(k as int, n as int).drop_first() =~= bands@.subrange(
                k + 1,
                n as int,
            ));
        }
        k += 1;
    }
    bands[k].color
}

/// Colours every sample of the height grid, row by row.
pub fn generate_color_map(height_map: &HeightMap, config: &Config) -> (r: ColorMap)
    requires
        height_map.wf(),
        config.terrain_thresholds@.len() > 0,
    ensures
        r.size == (height_map.size, height_map.size),
        r.colors@.len() == height_map.size * height_map.size,
        forall|k: int|
            0 <= k < r.colors@.len() ==> #[trigger] r.colors@[k] == color_for(
                config.terrain_thresholds@,
                height_map.data@[k / (height_map.size as int)]@[k % (height_map.size as int)],
            ),
{
    let size = height_map.size;
    let mut color_map = ColorMap::new((size, size));
    let mut y: usize = 0;
    while y < size
        invariant
            height_map.wf(),
            size == height_map.size,
            config.terrain_thresholds@.len() > 0,
            color_map.size == (size, size),
            0 <= y <= size,
            color_map.colors@.len() == y * size,
            forall|k: int|
                0 <= k < color_map.colors@.len() ==> #[trigger] color_map.colors@[k] == color_for(
                    config.terrain_thresholds@,
                    height_map.data@[k / (size as int)]@[k % (size as int)],
                ),
        decreases size - y,
    {
        let mut x: usize = 0;
        while x < size
            invariant
                height_map.wf(),
                size == height_map.size,
                config.terrain_thresholds@.len() > 0,
                color_map.size == (size, size),
                0 <= y < size,
                0 <= x <= size,
                color_map.colors@.len() == y * size + x,
                forall|k: int|
                    0 <= k < color_map.colors@.len() ==> #[trigger] color_map.colors@[k]
                        == color_for(
                        config.terrain_thresholds@,
                        height_map.data@[k / (size as int)]@[k % (size as int)],
                    ),
            decreases size - x,
        {
            let height = height_map.data[y][x];
            proof {
                lemma_row_major_index(color_map.colors@.len() as int, y as int, x as int, size as int);
            }
            color_map.colors.push(band_color(&config.terrain_thresholds, height));
            x += 1;
        }
        proof {
            assert(y * size + size == (y + 1) * size) by (nonlinear_arith);
        }
        y += 1;
    }
    color_map
}

/// The RGBA8 pixel buffer of a colour map: four bytes per colour, in order.
pub fn generate_texture(color_map: &ColorMap) -> (r: Vec<u8>)
    requires
        color_map.colors@.len() * 4 <= usize::MAX,
    ensures
        r@.len() == 4 * color_map.colors@.len(),
        forall|k: int|
            0 <= k < color_map.colors@.len() ==> #[trigger] r@.subrange(4 * k, 4 * k + 4)
                == rgba_bytes(color_map.colors@[k]),
{
    let mut image_buffer: Vec<u8> = Vec::new();
    let mut k: usize = 0;
    while k < color_map.colors.len()
        invariant
            0 <= k <= color_map.colors@.len(),
            image_buffer@.len() == 4 * k,
            forall|i: int|
                0 <= i < k ==> #[trigger] image_buffer@.subrange(4 * i, 4 * i + 4) == rgba_bytes(
                    color_map.colors@[i],
                ),
        decreases color_map.colors@.len() - k,
    {
        let color = color_map.colors[k];
        let ghost before = image_buffer@;
        image_buffer.push(color.r);
        image_buffer.push(color.g);
        image_buffer.push(color.b);
        image_buffer.push(255);
        proof {
            assert forall|i: int| 0 <= i < k + 1 implies #[trigger] image_buffer@.subrange(
                4 * i,
                4 * i + 4,
            ) == rgba_bytes(color_map.colors@[i]) by {
                if i < k {
                    assert(image_buffer@.subrange(4 * i, 4 * i + 4) =~= before.subrange(
                        4 * i,
                        4 * i + 4,
                    ));
                } else {
                    assert(image_buffer@.subrange(4 * i, 4 * i + 4) =~= rgba_bytes(color));
                }
            }
        }
        k += 1;
    }
    image_buffer
}

/// The RGBA8 texture of a height grid: pixel `k` (row by row) has the colour of
/// the band of sample `k`.
pub fn generate(height_map: &HeightMap, config: &Config) -> (r: Vec<u8>)
    requires
        height_map.wf(),
        4 * height_map.size * height_map.size <= usize::MAX,
        config.terrain_thresholds@.len() > 0,
    ensures
        r@.len() == 4 * height_map.size * height_map.size,
        forall|k: int|
            0 <= k < height_map.size * height_map.size ==> #[trigger] r@.subrange(4 * k, 4 * k + 4)
                == rgba_bytes(
                color_for(
                    config.terrain_thresholds@,
                    height_map.data@[k / (height_map.size as int)]@[k % (height_map.size as int)],
                ),
            ),
{
    let color_map = generate_color_map(height_map, config);
    proof {
        assert(height_map.size * height_map.size * 4 == 4 * height_map.size * height_map.size)
            by (nonlinear_arith);
    }
    generate_texture(&color_map)
}

} // verus!
