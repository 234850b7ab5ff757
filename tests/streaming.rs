use endless_terrain::endless::{
    compute_chunk_visibility, initialize_chunks, insert_chunks, rebuild_on_change, setup,
    trigger_update, ChunkState, Job, LastChunkUpdatePosition, SeenChunks,
};
use endless_terrain::{ChunkCoords, Config, SimplificationLevel, WorldPosition};

fn small_config() -> Config {
    let mut config = Config::default();
    config.max_view_distance = 480;
    config
}

#[test]
fn setup_starts_empty_at_origin() {
    let (seen, last, _event) = setup();
    assert!(seen.is_empty());
    assert_eq!(last.0, WorldPosition { x: 0, y: 0 });
}

#[test]
fn trigger_fires_only_beyond_threshold() {
    let mut last = LastChunkUpdatePosition(WorldPosition { x: 0, y: 0 });
    assert!(!trigger_update(&mut last, &WorldPosition { x: 24, y: 0 }));
    assert_eq!(last.0, WorldPosition { x: 0, y: 0 });
    assert!(!trigger_update(&mut last, &WorldPosition { x: 16, y: 17 }));
    assert!(trigger_update(&mut last, &WorldPosition { x: 17, y: 17 }));
    assert_eq!(last.0, WorldPosition { x: 17, y: 17 });
    assert!(!trigger_update(&mut last, &WorldPosition { x: 17, y: 41 }));
    assert!(trigger_update(&mut last, &WorldPosition { x: -8, y: 17 }));
}

#[test]
fn first_window_registers_every_candidate_once() {
    let config = small_config();
    let mut seen = SeenChunks::new();
    let viewer = WorldPosition { x: 0, y: 0 };
    let jobs = initialize_chunks(&mut seen, &config, &viewer);
    assert_eq!(jobs.len(), 25);
    assert_eq!(seen.len(), 25);
    for (k, job) in jobs.iter().enumerate() {
        assert_eq!(job.handle, k);
        let chunk = seen.get(k).unwrap();
        assert_eq!(chunk.coords, job.coords);
        assert_eq!(chunk.simplification_level, job.simplification_level);
        assert_eq!(chunk.state, ChunkState::Processing);
        assert_eq!(chunk.installed_level, None);
        assert_eq!(seen.find(&job.coords), Some(k));
    }
    assert_eq!(seen.find(&ChunkCoords { x: 3, y: 0 }), None);
    assert!(seen.get(25).is_none());
}

#[test]
fn registry_follows_latest_levels_after_several_windows() {
    let config = small_config();
    let mut seen = SeenChunks::new();
    initialize_chunks(&mut seen, &config, &WorldPosition { x: 0, y: 0 });
    initialize_chunks(&mut seen, &config, &WorldPosition { x: 480, y: 0 });
    let viewer = WorldPosition { x: 960, y: 240 };
    initialize_chunks(&mut seen, &config, &viewer);
    for k in 0..seen.len() {
        for j in 0..seen.len() {
            if j != k {
                assert_ne!(seen.get(j).unwrap().coords, seen.get(k).unwrap().coords);
            }
        }
    }
    let window = endless_terrain::endless::chunk_window(&viewer, &config);
    for (coords, level) in window.iter() {
        let h = seen.find(coords).unwrap();
        assert_eq!(seen.get(h).unwrap().simplification_level, *level);
    }
}

#[test]
fn second_window_at_same_position_dispatches_nothing() {
    let config = Config::default();
    let mut seen = SeenChunks::new();
    let viewer = WorldPosition { x: 1234, y: -567 };
    let first = initialize_chunks(&mut seen, &config, &viewer);
    assert_eq!(first.len(), 225);
    let len = seen.len();
    let second = initialize_chunks(&mut seen, &config, &viewer);
    assert!(second.is_empty());
    assert_eq!(seen.len(), len);
}

#[test]
fn config_change_despawns_everything() {
    let config = small_config();
    let mut seen = SeenChunks::new();
    initialize_chunks(&mut seen, &config, &WorldPosition { x: 0, y: 0 });
    let unchanged = rebuild_on_change(&mut seen, false);
    assert!(unchanged.is_empty());
    assert_eq!(seen.len(), 25);
    let despawn = rebuild_on_change(&mut seen, true);
    assert_eq!(despawn, (0..25).collect::<Vec<usize>>());
    assert!(seen.is_empty());
    let jobs = initialize_chunks(&mut seen, &config, &WorldPosition { x: 0, y: 0 });
    assert_eq!(jobs.len(), 25);
}

#[test]
fn harvest_installs_current_and_drops_unknown_results() {
    let config = small_config();
    let mut seen = SeenChunks::new();
    let jobs = initialize_chunks(&mut seen, &config, &WorldPosition { x: 0, y: 0 });
    let stray = Job {
        handle: 99,
        coords: ChunkCoords { x: 0, y: 0 },
        simplification_level: SimplificationLevel(1),
    };
    let wrong_coords = Job { coords: ChunkCoords { x: 9, y: 9 }, ..jobs[1] };
    let finished = vec![jobs[0], stray, wrong_coords, jobs[0]];
    let installs = insert_chunks(&mut seen, &finished);
    assert_eq!(installs, vec![true, false, false, false]);
    let chunk = seen.get(0).unwrap();
    assert_eq!(chunk.state, ChunkState::Resident);
    assert_eq!(chunk.installed_level, Some(chunk.simplification_level));
    assert_eq!(seen.get(1).unwrap().state, ChunkState::Processing);
}

#[test]
fn level_change_keeps_old_mesh_visible_until_replaced() {
    let config = Config::default();
    let mut seen = SeenChunks::new();
    let origin = WorldPosition { x: 0, y: 0 };
    let jobs = initialize_chunks(&mut seen, &config, &origin);
    let h = seen.find(&ChunkCoords { x: 0, y: 0 }).unwrap();
    let job_l1 = jobs.iter().find(|j| j.handle == h).copied().unwrap();
    assert_eq!(job_l1.simplification_level, SimplificationLevel(1));
    assert_eq!(insert_chunks(&mut seen, &vec![job_l1]), vec![true]);
    compute_chunk_visibility(&mut seen, &config, &origin);
    assert!(seen.get(h).unwrap().visible);

    // 800 units away the chunk falls in the medium band
    let moved = WorldPosition { x: 800, y: 0 };
    let jobs = initialize_chunks(&mut seen, &config, &moved);
    let job_l2 = jobs.iter().find(|j| j.handle == h).copied().unwrap();
    assert_eq!(job_l2.simplification_level, SimplificationLevel(2));
    compute_chunk_visibility(&mut seen, &config, &moved);
    let chunk = seen.get(h).unwrap();
    assert_eq!(chunk.state, ChunkState::Processing);
    assert_eq!(chunk.simplification_level, SimplificationLevel(2));
    assert_eq!(chunk.installed_level, Some(SimplificationLevel(1)));
    assert!(chunk.visible);

    // a late result for the superseded level is dropped, the new one installed
    assert_eq!(insert_chunks(&mut seen, &vec![job_l1, job_l2]), vec![false, true]);
    let chunk = seen.get(h).unwrap();
    assert_eq!(chunk.state, ChunkState::Resident);
    assert_eq!(chunk.installed_level, Some(SimplificationLevel(2)));
}

#[test]
fn visibility_uses_distance_to_chunk_origin() {
    let config = small_config();
    let mut seen = SeenChunks::new();
    initialize_chunks(&mut seen, &config, &WorldPosition { x: 0, y: 0 });
    compute_chunk_visibility(&mut seen, &config, &WorldPosition { x: 0, y: 0 });
    let visible = |c: ChunkCoords, seen: &SeenChunks| {
        seen.get(seen.find(&c).unwrap()).unwrap().visible
    };
    assert!(visible(ChunkCoords { x: 2, y: 0 }, &seen));
    assert!(!visible(ChunkCoords { x: 2, y: 1 }, &seen));
    assert!(visible(ChunkCoords { x: -1, y: -1 }, &seen));
    compute_chunk_visibility(&mut seen, &config, &WorldPosition { x: 5000, y: 0 });
    for k in 0..seen.len() {
        assert!(!seen.get(k).unwrap().visible);
    }
    assert_eq!(seen.len(), 25);
}
