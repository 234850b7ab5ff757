use endless_terrain::endless::{chunk_window, select_simplification_level};
use endless_terrain::mesh::Generator;
use endless_terrain::height_map::HeightMap;
use endless_terrain::{
    ChunkCoords, Config, SimplificationLevel, WorldPosition, CHUNK_SIZE, MAP_CHUNK_SIZE,
};

fn flat_map(size: usize) -> HeightMap {
    HeightMap { data: vec![vec![0u32; size]; size], size }
}

#[test]
fn from_position_floors_positive_and_negative() {
    let c = ChunkCoords::from_position(&WorldPosition { x: 250, y: 239 });
    assert_eq!(c, ChunkCoords { x: 1, y: 0 });
    let c = ChunkCoords::from_position(&WorldPosition { x: -1, y: -240 });
    assert_eq!(c, ChunkCoords { x: -1, y: -1 });
    let c = ChunkCoords::from_position(&WorldPosition { x: -241, y: 480 });
    assert_eq!(c, ChunkCoords { x: -2, y: 2 });
}

#[test]
fn to_position_multiplies_by_edge() {
    assert_eq!(ChunkCoords { x: 3, y: -2 }.to_position(), (720, -480));
    assert_eq!(CHUNK_SIZE as usize, MAP_CHUNK_SIZE - 1);
}

#[test]
fn origin_round_trip_gives_same_chunk() {
    for p in [-1000, -481, -240, -239, -1, 0, 1, 239, 240, 719, 100_000] {
        let pos = WorldPosition { x: p, y: -p };
        let c = ChunkCoords::from_position(&pos);
        let (ox, oy) = c.to_position();
        let back = ChunkCoords::from_position(&WorldPosition { x: ox as i32, y: oy as i32 });
        assert_eq!(back, c);
        assert!(ox <= p as i64 && (p as i64) < ox + 240);
        assert!(oy <= -p as i64 && (-p as i64) < oy + 240);
    }
}

#[test]
fn level_bands_are_exclusive_upper_bounds() {
    let config = Config::default();
    assert_eq!(select_simplification_level(&config, 0), SimplificationLevel(1));
    assert_eq!(select_simplification_level(&config, 699 * 699), SimplificationLevel(1));
    assert_eq!(select_simplification_level(&config, 700 * 700), SimplificationLevel(2));
    assert_eq!(select_simplification_level(&config, 999 * 999), SimplificationLevel(2));
    assert_eq!(select_simplification_level(&config, 1000 * 1000), SimplificationLevel(4));
    assert_eq!(select_simplification_level(&config, 1300 * 1300), SimplificationLevel(6));
    assert_eq!(SimplificationLevel::max(), SimplificationLevel(6));
    assert_eq!(SimplificationLevel::min(), SimplificationLevel(1));
}

#[test]
fn window_at_origin_spans_two_rings() {
    let mut config = Config::default();
    config.max_view_distance = 2 * 240;
    let window = chunk_window(&WorldPosition { x: 0, y: 0 }, &config);
    assert_eq!(window.len(), 25);
    let mut k = 0;
    for y in -2..=2 {
        for x in -2..=2 {
            assert_eq!(window[k].0, ChunkCoords { x, y });
            k += 1;
        }
    }
    assert_eq!(window[12].1, SimplificationLevel(1));
    // (-2, -2) lies sqrt(2) * 480 ~ 679 away: still the finest band
    assert_eq!(window[0].1, SimplificationLevel(1));
}

#[test]
fn window_rounds_view_radius_up() {
    let mut config = Config::default();
    config.max_view_distance = 241;
    let window = chunk_window(&WorldPosition { x: 10, y: 10 }, &config);
    assert_eq!(window.len(), 25);
    config.max_view_distance = 0;
    let window = chunk_window(&WorldPosition { x: -10, y: 10 }, &config);
    assert_eq!(window.len(), 1);
    assert_eq!(window[0].0, ChunkCoords { x: -1, y: 0 });
}

#[test]
fn default_window_and_far_chunks_use_coarsest_level() {
    let config = Config::default();
    let window = chunk_window(&WorldPosition { x: 0, y: 0 }, &config);
    assert_eq!(window.len(), 15 * 15);
    assert_eq!(window[0].0, ChunkCoords { x: -7, y: -7 });
    assert_eq!(window[0].1, SimplificationLevel(6));
}

#[test]
fn vertices_per_line_shrinks_with_level() {
    let expected = [241usize, 121, 61, 41, 31, 25, 21];
    let mut previous = usize::MAX;
    for level in 0..=6u32 {
        let g = Generator::new(flat_map(MAP_CHUNK_SIZE), 1, SimplificationLevel(level));
        assert_eq!(g.vertices_per_line, expected[level as usize]);
        assert!(g.vertices_per_line <= previous);
        previous = g.vertices_per_line;
        let step = if level == 0 { 1 } else { 2 * level as u64 };
        assert_eq!(g.simplification_increment, step);
    }
}

#[test]
fn vertex_count_is_square_of_vertices_per_line() {
    for level in 1..=6u32 {
        let mut g = Generator::new(flat_map(MAP_CHUNK_SIZE), 5, SimplificationLevel(level));
        g.generate();
        let vpl = g.vertices_per_line;
        assert_eq!(g.vertices.len(), vpl * vpl);
        assert_eq!(g.uvs.len(), vpl * vpl);
        assert_eq!(g.normals.len(), vpl * vpl);
        assert_eq!(g.triangles.len(), 6 * (vpl - 1) * (vpl - 1));
    }
}
