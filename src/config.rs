//! Terrain parameters that the streaming, mesh and texture logic read.

use vstd::prelude::*;

verus! {

/// Fixed-point value of a normalized height of `1.0`.
pub const HEIGHT_ONE: u32 = 10000;

/// Mesh decimation level: level 0 samples every height, level `n > 0`
/// samples every `2 * n`-th one. Levels compare by their number.
#[derive(Clone, Copy, Debug, PartialEq, Eq, Hash, Default, Structural)]
pub struct SimplificationLevel(pub u32);

impl SimplificationLevel {
    /// The finest level that the distance bands hand out.
    pub fn min() -> (r: SimplificationLevel)
        ensures
            r.0 == 1,
    {
        SimplificationLevel(1)
    }

    /// The coarsest level, used beyond every distance band.
    pub fn max() -> (r: SimplificationLevel)
        ensures
            r.0 == 6,
    {
        SimplificationLevel(6)
    }
}

/// A distance band: chunks whose origin lies closer than `max_distance`
/// (exclusive) to the viewer are built at `level`.
#[derive(Clone, Copy, Debug, PartialEq, Eq, Structural)]
pub struct SimplificationThreshold {
    pub max_distance: u32,
    pub level: SimplificationLevel,
}

/// An 8-bit-per-channel opaque colour.
#[derive(Clone, Copy, Debug, PartialEq, Eq, Hash, Default, Structural)]
pub struct Rgb8 {
    pub r: u8,
    pub g: u8,
    pub b: u8,
}

/// A colour band: heights below `max_height` (fixed point, see `HEIGHT_ONE`)
/// take `color`, unless an earlier band already matched.
#[derive(Clone, Copy, Debug, PartialEq, Eq, Structural)]
pub struct TerrainThreshold {
    pub max_height: u32,
    pub color: Rgb8,
}

/// The parameters that shape the streamed terrain. A change of any of them
/// invalidates every generated chunk.
#[derive(Clone, Debug)]
pub struct Config {
    /// Vertical scale of the mesh, in world units per normalized height of `1.0`.
    pub height_scale: u32,
    /// Chunks whose origin is farther than this from the viewer are hidden;
    /// it also fixes how many rings of chunks around the viewer are built.
    pub max_view_distance: u32,
    pub low_simplification_threshold: SimplificationThreshold,
    pub medium_simplification_threshold: SimplificationThreshold,
    pub high_simplification_threshold: SimplificationThreshold,
    /// Colour bands in ascending order of `max_height`; the last one also
    /// takes every height above all of them.
    pub terrain_thresholds: Vec<TerrainThreshold>,
    pub wireframe: bool,
}

impl Default for Config {
    fn default() -> (r: Config)
        ensures
            r.height_scale == 100,
            r.max_view_distance == 1500,
            r.low_simplification_threshold == (SimplificationThreshold {
                max_distance: 700,
                level: SimplificationLevel(1),
            }),
            r.medium_simplification_threshold == (SimplificationThreshold {
                max_distance: 1000,
                level: SimplificationLevel(2),
            }),
            r.high_simplification_threshold == (SimplificationThreshold {
                max_distance: 1300,
                level: SimplificationLevel(4),
            }),
            r.terrain_thresholds@ == seq![
                TerrainThreshold { max_height: 3500, color: Rgb8 { r: 0, g: 25, b: 204 } },
                TerrainThreshold { max_height: 4000, color: Rgb8 { r: 229, g: 198, b: 2 } },
                TerrainThreshold { max_height: 4500, color: Rgb8 { r: 51, g: 157, b: 53 } },
                TerrainThreshold { max_height: 7000, color: Rgb8 { r: 61, g: 179, b: 72 } },
                TerrainThreshold { max_height: 8500, color: Rgb8 { r: 72, g: 56, b: 56 } },
                TerrainThreshold { max_height: 20000, color: Rgb8 { r: 255, g: 255, b: 255 } },
            ],
            !r.wireframe,
    {
        let mut terrain_thresholds: Vec<TerrainThreshold> = Vec::new();
        terrain_thresholds.push(
            TerrainThreshold { max_height: 3500, color: Rgb8 { r: 0, g: 25, b: 204 } },
        );
        terrain_thresholds.push(
            TerrainThreshold { max_height: 4000, color: Rgb8 { r: 229, g: 198, b: 2 } },
        );
        terrain_thresholds.push(
            TerrainThreshold { max_height: 4500, color: Rgb8 { r: 51, g: 157, b: 53 } },
        );
        terrain_thresholds.push(
            TerrainThreshold { max_height: 7000, color: Rgb8 { r: 61, g: 179, b: 72 } },
        );
        terrain_thresholds.push(
            TerrainThreshold { max_height: 8500, color: Rgb8 { r: 72, g: 56, b: 56 } },
        );
        terrain_thresholds.push(
            TerrainThreshold { max_height: 20000, color: Rgb8 { r: 255, g: 255, b: 255 } },
        );
        assert(terrain_thresholds@ =~= seq![
            TerrainThreshold { max_height: 3500, color: Rgb8 { r: 0, g: 25, b: 204 } },
            TerrainThreshold { max_height: 4000, color: Rgb8 { r: 229, g: 198, b: 2 } },
            TerrainThreshold { max_height: 4500, color: Rgb8 { r: 51, g: 157, b: 53 } },
            TerrainThreshold { max_height: 7000, color: Rgb8 { r: 61, g: 179, b: 72 } },
            TerrainThreshold { max_height: 8500, color: Rgb8 { r: 72, g: 56, b: 56 } },
            TerrainThreshold { max_height: 20000, color: Rgb8 { r: 255, g: 255, b: 255 } },
        ]);
        Config {
            height_scale: 100,
            max_view_distance: 1500,
            low_simplification_threshold: SimplificationThreshold {
                max_distance: 700,
                level: SimplificationLevel(1),
            },
            medium_simplification_threshold: SimplificationThreshold {
                max_distance: 1000,
                level: SimplificationLevel(2),
            },
            high_simplification_threshold: SimplificationThreshold {
                max_distance: 1300,
                level: SimplificationLevel(4),
            },
            terrain_thresholds,
            wireframe: false,
        }
    }
}

} // verus!
