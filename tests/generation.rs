use endless_terrain::endless::{generate_chunk, Job};
use endless_terrain::height_map::HeightMap;
use endless_terrain::mesh::{Generator, Normal3, Point3, Uv};
use endless_terrain::texture::{
    band_color, generate, generate_color_map, generate_texture, ColorMap,
};
use endless_terrain::{
    ChunkCoords, Config, Rgb8, SimplificationLevel, TerrainThreshold, HEIGHT_ONE, MAP_CHUNK_SIZE,
};

fn field(x: i64, y: i64) -> u32 {
    ((x * 7919 + y * 104729).rem_euclid(10_007)) as u32
}

#[test]
fn neighbours_share_their_edge_samples() {
    let a = HeightMap::generate(&ChunkCoords { x: 2, y: -3 }, field);
    let east = HeightMap::generate(&ChunkCoords { x: 3, y: -3 }, field);
    let south = HeightMap::generate(&ChunkCoords { x: 2, y: -2 }, field);
    assert_eq!(a.size, MAP_CHUNK_SIZE);
    assert_eq!(a.data.len(), MAP_CHUNK_SIZE);
    for i in 0..MAP_CHUNK_SIZE {
        assert_eq!(a.data[i][MAP_CHUNK_SIZE - 1], east.data[i][0]);
        assert_eq!(a.data[MAP_CHUNK_SIZE - 1][i], south.data[0][i]);
    }
    assert_ne!(a.data[0][0], east.data[0][0]);
}

#[test]
fn samples_are_offset_by_chunk_origin_and_clamped() {
    let map = HeightMap::generate(&ChunkCoords { x: -1, y: 1 }, |x: i64, y: i64| {
        if x == -240 && y == 240 { 70_000 } else { (x + 1000 + y) as u32 }
    });
    assert_eq!(map.data[0][0], HEIGHT_ONE);
    assert_eq!(map.data[0][1], (-239 + 1000 + 240) as u32);
    assert_eq!(map.data[2][5], (-235 + 1000 + 242) as u32);
}

#[test]
fn band_color_picks_first_exceeding_band() {
    let a = Rgb8 { r: 1, g: 0, b: 0 };
    let b = Rgb8 { r: 2, g: 0, b: 0 };
    let c = Rgb8 { r: 3, g: 0, b: 0 };
    let d = Rgb8 { r: 4, g: 0, b: 0 };
    let bands = vec![
        TerrainThreshold { max_height: 3500, color: a },
        TerrainThreshold { max_height: 4300, color: b },
        TerrainThreshold { max_height: 8500, color: c },
        TerrainThreshold { max_height: 20000, color: d },
    ];
    assert_eq!(band_color(&bands, 5000), c);
    assert_eq!(band_color(&bands, 0), a);
    assert_eq!(band_color(&bands, 3500), b);
    assert_eq!(band_color(&bands, 20000), d);
    assert_eq!(band_color(&bands, u32::MAX), d);
}

#[test]
fn texture_is_rgba_row_by_row() {
    let mut config = Config::default();
    config.terrain_thresholds = vec![
        TerrainThreshold { max_height: 5000, color: Rgb8 { r: 10, g: 20, b: 30 } },
        TerrainThreshold { max_height: 6000, color: Rgb8 { r: 40, g: 50, b: 60 } },
    ];
    let map = HeightMap { data: vec![vec![0, 9000], vec![5500, 4999]], size: 2 };
    let color_map = generate_color_map(&map, &config);
    assert_eq!(color_map.size, (2, 2));
    assert_eq!(color_map.colors[1], Rgb8 { r: 40, g: 50, b: 60 });
    let bytes = generate(&map, &config);
    assert_eq!(
        bytes,
        vec![10, 20, 30, 255, 40, 50, 60, 255, 40, 50, 60, 255, 10, 20, 30, 255]
    );
    let mut own = ColorMap::new((1, 1));
    own.colors.push(Rgb8 { r: 7, g: 8, b: 9 });
    assert_eq!(generate_texture(&own), vec![7, 8, 9, 255]);
}

#[test]
fn full_detail_mesh_of_three_by_three_grid() {
    let map = HeightMap { data: vec![vec![0; 3]; 3], size: 3 };
    let mut g = Generator::new(map, 2, SimplificationLevel(0));
    g.generate();
    assert_eq!(g.vertices_per_line, 3);
    assert_eq!(g.vertices.len(), 9);
    assert_eq!(g.vertices[5], Point3 { x: 20_000, y: 0, z: 10_000 });
    assert_eq!(g.uvs[7], Uv { u: 1, v: 2 });
    assert_eq!(&g.triangles[0..6], &[4, 0, 3, 0, 4, 1]);
    assert_eq!(&g.triangles[18..24], &[8, 4, 7, 4, 8, 5]);
    for n in g.normals.iter() {
        assert_eq!(*n, Normal3 { x: 0, y: 100_000_000, z: 0 });
    }
}

#[test]
fn simplified_mesh_skips_samples_and_scales_heights() {
    let mut data = vec![vec![0u32; 5]; 5];
    data[4][2] = 5000;
    data[1][1] = 9999;
    let map = HeightMap { data, size: 5 };
    let mut g = Generator::new(map, 3, SimplificationLevel(1));
    g.generate();
    assert_eq!(g.simplification_increment, 2);
    assert_eq!(g.vertices_per_line, 3);
    assert_eq!(g.vertices[7], Point3 { x: 20_000, y: 15_000, z: 40_000 });
    assert_eq!(g.vertices[4], Point3 { x: 20_000, y: 0, z: 20_000 });
    assert_eq!(g.uvs[7], Uv { u: 2, v: 4 });
}

#[test]
fn normals_are_overwritten_by_last_triangle() {
    // one quad; raise the bottom-right corner so the two faces differ
    let map = HeightMap { data: vec![vec![0, 0], vec![0, 10_000]], size: 2 };
    let mut g = Generator::new(map, 1, SimplificationLevel(0));
    g.generate();
    assert_eq!(g.triangles, vec![3, 0, 2, 0, 3, 1]);
    // first face (3, 0, 2), second face (0, 3, 1)
    let first = Normal3 { x: -100_000_000, y: 100_000_000, z: 0 };
    let second = Normal3 { x: 0, y: 100_000_000, z: -100_000_000 };
    assert_eq!(g.normals[2], first);
    assert_eq!(g.normals[0], second);
    assert_eq!(g.normals[3], second);
    assert_eq!(g.normals[1], second);
}

#[test]
fn collider_heights_keep_native_resolution() {
    let map = HeightMap { data: vec![vec![1, 2, 3], vec![4, 5, 6], vec![7, 8, 9]], size: 3 };
    let g = Generator::new(map, 10, SimplificationLevel(6));
    assert_eq!(g.collider_heights(), vec![10, 20, 30, 40, 50, 60, 70, 80, 90]);
}

#[test]
fn generate_chunk_builds_texture_and_mesh() {
    let config = Config::default();
    let job = Job {
        handle: 0,
        coords: ChunkCoords { x: 1, y: 1 },
        simplification_level: SimplificationLevel(2),
    };
    let (texture, g) = generate_chunk(&job, &config, |_x: i64, _y: i64| 5000);
    assert_eq!(texture.len(), 4 * 241 * 241);
    assert_eq!(&texture[0..4], &[61, 179, 72, 255]);
    assert_eq!(g.vertices_per_line, 61);
    assert_eq!(g.vertices.len(), 61 * 61);
    assert_eq!(g.vertices[0].y, 500_000);
}

#[test]
fn default_config_values() {
    let config = Config::default();
    assert_eq!(config.height_scale, 100);
    assert_eq!(config.max_view_distance, 1500);
    assert_eq!(config.terrain_thresholds.len(), 6);
    assert_eq!(config.low_simplification_threshold.level, SimplificationLevel(1));
    assert_eq!(config.medium_simplification_threshold.max_distance, 1000);
    assert_eq!(config.high_simplification_threshold.level, SimplificationLevel(4));
    assert!(!config.wireframe);
}
