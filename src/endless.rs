//! The streaming controller: which chunks exist around the viewer, at which
//! level of detail, and what has to be generated, installed or despawned.
//!
//! Every step is a function from the controller's state and an event (a viewer
//! position, a finished generation job, a configuration change) to the next
//! state and the work that the host has to carry out.

use vstd::prelude::*;
use crate::config::{Config, SimplificationLevel};
use crate::height_map::{sampled_from, HeightMap};
use crate::mesh::{mesh_built, Generator};
use crate::texture::{color_for, rgba_bytes};
use crate::coords::{
    chunk_distance_squared, chunk_distance_squared_exec, chunk_of, distance_squared,
    lemma_row_major_index, ChunkCoords, WorldPosition, MAP_CHUNK_SIZE,
};

verus! {

/// The viewer has to move farther than this (in world units, a tenth of a
/// chunk edge) before the chunk window is computed again.
pub const CHUNK_UPDATE_MOVEMENT_THRESHOLD: i32 = 24;

/// Where a registered chunk stands in its generation.
#[derive(Clone, Copy, Debug, PartialEq, Eq, Structural)]
pub enum ChunkState {
    /// A generation job for the registered level is outstanding.
    Processing,
    /// The mesh of the registered level is installed.
    Resident,
}

/// A registered chunk.
#[derive(Clone, Copy, Debug, PartialEq, Eq, Structural)]
pub struct Chunk {
    pub coords: ChunkCoords,
    /// The level that the chunk is (being) built at.
    pub simplification_level: SimplificationLevel,
    pub state: ChunkState,
    /// The level of the mesh on display, if one was ever installed.
    pub installed_level: Option<SimplificationLevel>,
    pub visible: bool,
}

/// A unit of generation work: build chunk `handle` at `coords` at the given level.
#[derive(Clone, Copy, Debug, PartialEq, Eq, Structural)]
pub struct Job {
    pub handle: usize,
    pub coords: ChunkCoords,
    pub simplification_level: SimplificationLevel,
}

/// The registry of every chunk seen since the last rebuild. A chunk's handle is
/// its position here; handles stay valid until the next rebuild.
#[derive(Clone, Debug)]
pub struct SeenChunks {
    chunks: Vec<Chunk>,
}

/// The viewer position at which the window was last computed.
#[derive(Clone, Copy, Debug, Default, PartialEq, Eq, Structural)]
pub struct LastChunkUpdatePosition(pub WorldPosition);

/// Signal that the chunk window has to be computed again.
#[derive(Clone, Copy, Debug, Default, PartialEq, Eq, Structural)]
pub struct StartChunkUpdateEvent;

// ---------------------------------------------------------------------------
// Model of the registry

/// No coordinate is registered twice.
pub open spec fn coords_unique(s: Seq<Chunk>) -> bool {
    forall|i: int, j: int|
        0 <= i < s.len() && 0 <= j < s.len() && (#[trigger] s[i]).coords == (#[trigger] s[j]).coords
            ==> i == j
}

/// A resident chunk shows the mesh of its registered level.
pub open spec fn chunk_wf(c: Chunk) -> bool {
    c.state == ChunkState::Resident ==> c.installed_level == Some(c.simplification_level)
}

pub open spec fn registry_wf(s: Seq<Chunk>) -> bool {
    &&& coords_unique(s)
    &&& forall|i: int| 0 <= i < s.len() ==> chunk_wf(#[trigger] s[i])
}

pub open spec fn has_coords(s: Seq<Chunk>, c: ChunkCoords) -> bool {
    exists|i: int| 0 <= i < s.len() && (#[trigger] s[i]).coords == c
}

/// The handle of the chunk registered at `c` (meaningful where `has_coords`).
pub open spec fn index_of(s: Seq<Chunk>, c: ChunkCoords) -> int {
    choose|i: int| 0 <= i < s.len() && (#[trigger] s[i]).coords == c
}

impl View for SeenChunks {
    type V = Seq<Chunk>;

    closed spec fn view(&self) -> Seq<Chunk> {
        self.chunks@
    }
}

impl SeenChunks {
    pub open spec fn wf(&self) -> bool {
        registry_wf(self@)
    }

    /// An empty registry.
    pub fn new() -> (r: SeenChunks)
        ensures
            r@.len() == 0,
            r.wf(),
    {
        SeenChunks { chunks: Vec::new() }
    }

    pub fn len(&self) -> (r: usize)
        ensures
            r == self@.len(),
    {
        self.chunks.len()
    }

    pub fn is_empty(&self) -> (r: bool)
        ensures
            r == (self@.len() == 0),
    {
        self.chunks.len() == 0
    }

    /// The chunk with the given handle.
    pub fn get(&self, handle: usize) -> (r: Option<Chunk>)
        ensures
            handle < self@.len() ==> r == Some(self@[handle as int]),
            handle >= self@.len() ==> r.is_none(),
    {
        if handle < self.chunks.len() {
            Some(self.chunks[handle])
        } else {
            None
        }
    }

    /// The handle of the chunk registered at `coords`.
    pub fn find(&self, coords: &ChunkCoords) -> (r: Option<usize>)
        ensures
            match r {
                Some(i) => i < self@.len() && self@[i as int].coords == *coords,
                None => !has_coords(self@, *coords),
            },
    {
        let mut i: usize = 0;
        while i < self.chunks.len()
            invariant
                0 <= i <= self.chunks@.len(),
                forall|j: int| 0 <= j < i ==> (#[trigger] self.chunks@[j]).coords != *coords,
            decreases self.chunks@.len() - i,
        {
            if self.chunks[i].coords == *coords {
                return Some(i);
            }
            i += 1;
        }
        None
    }
}

// ---------------------------------------------------------------------------
// Level of detail and the chunk window

/// The level for a chunk whose origin lies at squared distance `d2` from the
/// viewer: the first band whose bound exceeds the distance, else the coarsest level.
pub open spec fn level_for(config: Config, d2: int) -> SimplificationLevel {
    let low = config.low_simplification_threshold.max_distance as int;
    let medium = config.medium_simplification_threshold.max_distance as int;
    let high = config.high_simplification_threshold.max_distance as int;
    if d2 < low * low {
        config.low_simplification_threshold.level
    } else if d2 < medium * medium {
        config.medium_simplification_threshold.level
    } else if d2 < high * high {
        config.high_simplification_threshold.level
    } else {
        SimplificationLevel(6)
    }
}

/// Number of rings of chunks built around the viewer's chunk: the view
/// distance divided by the edge length, rounded up.
pub open spec fn view_radius(max_view_distance: u32) -> int {
    (max_view_distance as int + 239) / 240
}

pub open spec fn window_side(config: Config) -> int {
    2 * view_radius(config.max_view_distance) + 1
}

/// The `k`-th chunk of the square window, row by row.
pub open spec fn window_coords(viewer: WorldPosition, config: Config, k: int) -> ChunkCoords {
    let r = view_radius(config.max_view_distance);
    let side = window_side(config);
    ChunkCoords {
        x: (chunk_of(viewer.x as int) + k % side - r) as i32,
        y: (chunk_of(viewer.y as int) + k / side - r) as i32,
    }
}

/// Every chunk of the square window around the viewer, with the level it is to
/// be built at.
pub open spec fn window(viewer: WorldPosition, config: Config) -> Seq<
    (ChunkCoords, SimplificationLevel),
> {
    let side = window_side(config);
    Seq::new(
        (side * side) as nat,
        |k: int|
            (
                window_coords(viewer, config, k),
                level_for(config, chunk_distance_squared(window_coords(viewer, config, k), viewer)),
            ),
    )
}

/// The level for a chunk whose origin lies at squared distance `distance_squared`.
pub fn select_simplification_level(config: &Config, distance_squared: i128) -> (r:
    SimplificationLevel)
    ensures
        r == level_for(*config, distance_squared as int),
{
    let low = config.low_simplification_threshold.max_distance as i128;
    let medium = config.medium_simplification_threshold.max_distance as i128;
    let high = config.high_simplification_threshold.max_distance as i128;
    assert(low * low <= 0xffff_ffff * 0xffff_ffff) by (nonlinear_arith)
        requires
            0 <= low <= 0xffff_ffff,
    ;
    assert(medium * medium <= 0xffff_ffff * 0xffff_ffff) by (nonlinear_arith)
        requires
            0 <= medium <= 0xffff_ffff,
    ;
    assert(high * high <= 0xffff_ffff * 0xffff_ffff) by (nonlinear_arith)
        requires
            0 <= high <= 0xffff_ffff,
    ;
    if distance_squared < low * low {
        config.low_simplification_threshold.level
    } else if distance_squared < medium * medium {
        config.medium_simplification_threshold.level
    } else if distance_squared < high * high {
        config.high_simplification_threshold.level
    } else {
        SimplificationLevel::max()
    }
}

/// The square neighbourhood of chunks around the viewer's chunk, row by row,
/// each with its level of detail.
pub fn chunk_window(viewer: &WorldPosition, config: &Config) -> (r: Vec<
    (ChunkCoords, SimplificationLevel),
>)
    ensures
        r@ == window(*viewer, *config),
{
    let center = ChunkCoords::from_position(viewer);
    let radius: i64 = ((config.max_view_distance as i64) + 239) / 240;
    let side: i64 = 2 * radius + 1;
    let ghost w = window(*viewer, *config);
    assert(radius == view_radius(config.max_view_distance));
    assert(0 <= radius <= 17895698);
    assert(w.len() == side * side) by (nonlinear_arith)
        requires
            side == 2 * radius + 1,
            0 <= radius <= 17895698,
            w.len() == (side * side) as nat,
    ;
    let mut result: Vec<(ChunkCoords, SimplificationLevel)> = Vec::new();
    let mut y_offset: i64 = -radius;
    assert((y_offset + radius) * side == 0) by (nonlinear_arith)
        requires
            y_offset == -radius,
    ;
    while y_offset <= radius
        invariant
            radius == view_radius(config.max_view_distance),
            0 <= radius <= 17895698,
            side == 2 * radius + 1,
            w == window(*viewer, *config),
            w.len() == side * side,
            center.x == chunk_of(viewer.x as int),
            center.y == chunk_of(viewer.y as int),
            -8947849 <= center.x <= 8947848,
            -8947849 <= center.y <= 8947848,
            -radius <= y_offset <= radius + 1,
            result@.len() == (y_offset + radius) * side,
            forall|k: int| 0 <= k < result@.len() ==> #[trigger] result@[k] == w[k],
        decreases radius + 1 - y_offset,
    {
        let mut x_offset: i64 = -radius;
        assert(result@.len() == (y_offset + radius) * side + (x_offset + radius));
        while x_offset <= radius
            invariant
                radius == view_radius(config.max_view_distance),
                0 <= radius <= 17895698,
                side == 2 * radius + 1,
                w == window(*viewer, *config),
                w.len() == side * side,
                center.x == chunk_of(viewer.x as int),
                center.y == chunk_of(viewer.y as int),
                -8947849 <= center.x <= 8947848,
                -8947849 <= center.y <= 8947848,
                -radius <= y_offset <= radius,
                -radius <= x_offset <= radius + 1,
                result@.len() == (y_offset + radius) * side + (x_offset + radius),
                forall|k: int| 0 <= k < result@.len() ==> #[trigger] result@[k] == w[k],
            decreases radius + 1 - x_offset,
        {
            let coords = ChunkCoords {
                x: (center.x as i64 + x_offset) as i32,
                y: (center.y as i64 + y_offset) as i32,
            };
            let d2 = chunk_distance_squared_exec(&coords, viewer);
            let level = select_simplification_level(config, d2);
            let ghost k = result@.len() as int;
            proof {
                lemma_row_major_index(k, y_offset + radius, x_offset + radius, side as int);
                assert(0 <= y_offset + radius < side);
                assert(k < side * side) by (nonlinear_arith)
                    requires
                        k == (y_offset + radius) * side + (x_offset + radius),
                        0 <= y_offset + radius < side,
                        0 <= x_offset + radius < side,
                ;
                assert(coords == window_coords(*viewer, *config, k));
            }
            result.push((coords, level));
            x_offset += 1;
        }
        assert((y_offset + radius) * side + side == (y_offset + 1 + radius) * side)
            by (nonlinear_arith);
        y_offset += 1;
    }
    proof {
        assert(result@.len() == side * side) by (nonlinear_arith)
            requires
                result@.len() == (y_offset + radius) * side,
                y_offset == radius + 1,
                side == 2 * radius + 1,
        ;
        assert(result@ =~= w);
    }
    result
}


// ---------------------------------------------------------------------------
// Reconciling the registry with the window

/// A chunk seen for the first time: queued for generation, nothing shown yet.
pub open spec fn fresh_chunk(c: ChunkCoords, level: SimplificationLevel) -> Chunk {
    Chunk {
        coords: c,
        simplification_level: level,
        state: ChunkState::Processing,
        installed_level: None,
        visible: false,
    }
}

/// A registered chunk sent back to generation at a new level; the mesh that it
/// shows stays until the new one is installed.
pub open spec fn retargeted(c: Chunk, level: SimplificationLevel) -> Chunk {
    Chunk {
        coords: c.coords,
        simplification_level: level,
        state: ChunkState::Processing,
        installed_level: c.installed_level,
        visible: c.visible,
    }
}

/// Registers one window entry: an unseen coordinate is added, a registered one
/// whose level differs is retargeted, and either way a job is issued; a
/// registered one at the same level is left as it is.
pub open spec fn reconcile_one(s: Seq<Chunk>, entry: (ChunkCoords, SimplificationLevel)) -> (
    Seq<Chunk>,
    Seq<Job>,
) {
    let (c, level) = entry;
    if has_coords(s, c) {
        let i = index_of(s, c);
        if s[i].simplification_level == level {
            (s, Seq::empty())
        } else {
            (
                s.update(i, retargeted(s[i], level)),
                seq![Job { handle: i as usize, coords: c, simplification_level: level }],
            )
        }
    } else {
        (
            s.push(fresh_chunk(c, level)),
            seq![Job { handle: s.len() as usize, coords: c, simplification_level: level }],
        )
    }
}

/// Registers the window entries in order; the jobs are issued in the same order.
pub open spec fn reconcile(s: Seq<Chunk>, entries: Seq<(ChunkCoords, SimplificationLevel)>) -> (
    Seq<Chunk>,
    Seq<Job>,
)
    decreases entries.len(),
{
    if entries.len() == 0 {
        (s, Seq::empty())
    } else {
        let (s1, j1) = reconcile(s, entries.drop_last());
        let (s2, j2) = reconcile_one(s1, entries.last());
        (s2, j1 + j2)
    }
}

/// Every window entry is registered, at the level the window gives it.
pub open spec fn settled(s: Seq<Chunk>, entries: Seq<(ChunkCoords, SimplificationLevel)>) -> bool {
    forall|k: int|
        0 <= k < entries.len() ==> has_coords(s, (#[trigger] entries[k]).0)
            && s[index_of(s, entries[k].0)].simplification_level == entries[k].1
}

pub open spec fn distinct_coords(entries: Seq<(ChunkCoords, SimplificationLevel)>) -> bool {
    forall|a: int, b: int|
        0 <= a < entries.len() && 0 <= b < entries.len() && (#[trigger] entries[a]).0 == (
        #[trigger] entries[b]).0 ==> a == b
}

proof fn lemma_index_of(s: Seq<Chunk>, c: ChunkCoords, i: int)
    requires
        coords_unique(s),
        0 <= i < s.len(),
        s[i].coords == c,
    ensures
        has_coords(s, c),
        index_of(s, c) == i,
{
    assert(has_coords(s, c));
    let j = index_of(s, c);
    assert(s[j].coords == c);
}

/// One reconciliation step keeps the registry well formed, registers its
/// entry at the entry's level, and leaves every other coordinate and every
/// handle as it was.
proof fn lemma_reconcile_one(s: Seq<Chunk>, entry: (ChunkCoords, SimplificationLevel))
    requires
        registry_wf(s),
    ensures
        ({
            let s2 = reconcile_one(s, entry).0;
            &&& registry_wf(s2)
            &&& s.len() <= s2.len()
            &&& forall|i: int| 0 <= i < s.len() ==> (#[trigger] s2[i]).coords == s[i].coords
            &&& has_coords(s2, entry.0)
            &&& s2[index_of(s2, entry.0)].simplification_level == entry.1
            &&& forall|c: ChunkCoords| c != entry.0 ==> #[trigger] has_coords(s2, c) == has_coords(s, c)
            &&& forall|c: ChunkCoords|
                c != entry.0 && has_coords(s, c) ==> s2[index_of(s2, c)] == #[trigger] s[index_of(
                    s,
                    c,
                )]
        }),
{
    let (c, level) = entry;
    let s2 = reconcile_one(s, entry).0;
    if has_coords(s, c) {
        let i = index_of(s, c);
        assert(forall|j: int| 0 <= j < s.len() ==> (#[trigger] s2[j]).coords == s[j].coords);
        assert(s2.len() == s.len());
        assert(coords_unique(s2));
        assert(forall|j: int| 0 <= j < s2.len() ==> chunk_wf(#[trigger] s2[j]));
        lemma_index_of(s2, c, i);
        assert forall|d: ChunkCoords| d != c implies #[trigger] has_coords(s2, d) == has_coords(
            s,
            d,
        ) by {
            if has_coords(s, d) {
                let j = index_of(s, d);
                lemma_index_of(s2, d, j);
            }
            if has_coords(s2, d) {
                let j = index_of(s2, d);
                assert(s[j].coords == d);
            }
        }
        assert forall|d: ChunkCoords| d != c && has_coords(s, d) implies s2[index_of(s2, d)]
            == #[trigger] s[index_of(s, d)] by {
            let j = index_of(s, d);
            lemma_index_of(s2, d, j);
        }
    } else {
        assert(forall|j: int| 0 <= j < s.len() ==> (#[trigger] s2[j]).coords == s[j].coords);
        assert(coords_unique(s2));
        assert(forall|j: int| 0 <= j < s2.len() ==> chunk_wf(#[trigger] s2[j]));
        lemma_index_of(s2, c, s.len() as int);
        assert forall|d: ChunkCoords| d != c implies #[trigger] has_coords(s2, d) == has_coords(
            s,
            d,
        ) by {
            if has_coords(s, d) {
                let j = index_of(s, d);
                lemma_index_of(s2, d, j);
            }
            if has_coords(s2, d) {
                let j = index_of(s2, d);
                assert(s[j].coords == d);
            }
        }
        assert forall|d: ChunkCoords| d != c && has_coords(s, d) implies s2[index_of(s2, d)]
            == #[trigger] s[index_of(s, d)] by {
            let j = index_of(s, d);
            lemma_index_of(s2, d, j);
        }
    }
}

/// Reconciling a sequence of entries with distinct coordinates leaves the
/// registry well formed, keeps every handle, and settles every entry.
pub proof fn lemma_reconcile(s: Seq<Chunk>, entries: Seq<(ChunkCoords, SimplificationLevel)>)
    requires
        registry_wf(s),
        distinct_coords(entries),
    ensures
        registry_wf(reconcile(s, entries).0),
        s.len() <= reconcile(s, entries).0.len(),
        forall|i: int|
            0 <= i < s.len() ==> (#[trigger] reconcile(s, entries).0[i]).coords == s[i].coords,
        settled(reconcile(s, entries).0, entries),
    decreases entries.len(),
{
    if entries.len() > 0 {
        let prefix = entries.drop_last();
        assert(distinct_coords(prefix));
        lemma_reconcile(s, prefix);
        let s1 = reconcile(s, prefix).0;
        let s2 = reconcile(s, entries).0;
        lemma_reconcile_one(s1, entries.last());
        assert forall|k: int| 0 <= k < entries.len() implies has_coords(
            s2,
            (#[trigger] entries[k]).0,
        ) && s2[index_of(s2, entries[k].0)].simplification_level == entries[k].1 by {
            if k < entries.len() - 1 {
                assert(prefix[k] == entries[k]);
                assert(entries[k].0 != entries.last().0);
            }
        }
    }
}

proof fn lemma_row_in_window(a: int, side: int)
    requires
        0 < side,
        0 <= a < side * side,
    ensures
        0 <= a / side < side,
{
    let q = a / side;
    let m = a % side;
    vstd::arithmetic::div_mod::lemma_fundamental_div_mod(a, side);
    assert(0 <= q < side) by (nonlinear_arith)
        requires
            a == side * q + m,
            0 <= m < side,
            0 <= a < side * side,
    ;
}

/// The coordinates of the window are pairwise distinct.
pub proof fn lemma_window_distinct(viewer: WorldPosition, config: Config)
    ensures
        distinct_coords(window(viewer, config)),
{
    let w = window(viewer, config);
    let r = view_radius(config.max_view_distance);
    let side = window_side(config);
    let cx = chunk_of(viewer.x as int);
    let cy = chunk_of(viewer.y as int);
    assert(-8947849 <= cx <= 8947848 && -8947849 <= cy <= 8947848) by {
        crate::coords::lemma_origin_round_trip(viewer.x as int);
        crate::coords::lemma_origin_round_trip(viewer.y as int);
    }
    assert(0 <= r <= 17895698);
    assert forall|a: int, b: int|
        0 <= a < w.len() && 0 <= b < w.len() && (#[trigger] w[a]).0 == (#[trigger] w[b]).0 implies a
        == b by {
        assert(0 <= a % side < side && 0 <= b % side < side);
        lemma_row_in_window(a, side);
        lemma_row_in_window(b, side);
        assert(a % side == b % side);
        assert(a / side == b / side);
        vstd::arithmetic::div_mod::lemma_fundamental_div_mod(a, side);
        vstd::arithmetic::div_mod::lemma_fundamental_div_mod(b, side);
    }
}

/// Computes the chunk window around the viewer and reconciles the registry
/// with it. Returns the generation jobs to dispatch: one for each chunk seen
/// for the first time and one for each chunk whose level changed, in window
/// order. A chunk that changes level keeps showing its old mesh.
pub fn initialize_chunks(
    seen_chunks: &mut SeenChunks,
    config: &Config,
    viewer: &WorldPosition,
) -> (jobs: Vec<Job>)
    requires
        old(seen_chunks).wf(),
    ensures
        final(seen_chunks).wf(),
        (final(seen_chunks)@, jobs@) == reconcile(old(seen_chunks)@, window(*viewer, *config)),
        settled(final(seen_chunks)@, window(*viewer, *config)),
        old(seen_chunks)@.len() <= final(seen_chunks)@.len(),
        forall|i: int|
            0 <= i < old(seen_chunks)@.len() ==> (#[trigger] final(seen_chunks)@[i]).coords == old(
                seen_chunks,
            )@[i].coords,
{
    let entries = chunk_window(viewer, config);
    let ghost s0 = seen_chunks@;
    let mut jobs: Vec<Job> = Vec::new();
    let mut k: usize = 0;
    while k < entries.len()
        invariant
            registry_wf(s0),
            0 <= k <= entries@.len(),
            (seen_chunks@, jobs@) == reconcile(s0, entries@.take(k as int)),
            registry_wf(seen_chunks@),
        decreases entries@.len() - k,
    {
        let (coords, level) = entries[k];
        let ghost s1 = seen_chunks@;
        let ghost j1 = jobs@;
        proof {
            assert(entries@.take(k + 1).drop_last() =~= entries@.take(k as int));
            assert(entries@.take(k + 1).last() == entries@[k as int]);
        }
        match seen_chunks.find(&coords) {
            Some(i) => {
                proof {
                    lemma_index_of(s1, coords, i as int);
                }
                let current = seen_chunks.chunks[i];
                if current.simplification_level != level {
                    seen_chunks.chunks[i] = Chunk {
                        coords: current.coords,
                        simplification_level: level,
                        state: ChunkState::Processing,
                        installed_level: current.installed_level,
                        visible: current.visible,
                    };
                    jobs.push(Job { handle: i, coords, simplification_level: level });
                    proof {
                        assert(seen_chunks@ =~= s1.update(i as int, retargeted(s1[i as int], level)));
                    }
                } else {
                    proof {
                        assert(jobs@ =~= j1 + Seq::<Job>::empty());
                    }
                }
            },
            None => {
                let handle = seen_chunks.chunks.len();
                seen_chunks.chunks.push(
                    Chunk {
                        coords,
                        simplification_level: level,
                        state: ChunkState::Processing,
                        installed_level: None,
                        visible: false,
                    },
                );
                jobs.push(Job { handle, coords, simplification_level: level });
            },
        }
        proof {
            lemma_reconcile_one(s1, (coords, level));
            assert(jobs@ =~= j1 + reconcile_one(s1, (coords, level)).1);
        }
        k += 1;
    }
    proof {
        assert(entries@.take(k as int) =~= entries@);
        lemma_window_distinct(*viewer, *config);
        lemma_reconcile(s0, entries@);
    }
    jobs
}

proof fn lemma_reconcile_settled(s: Seq<Chunk>, entries: Seq<(ChunkCoords, SimplificationLevel)>)
    requires
        settled(s, entries),
    ensures
        reconcile(s, entries).0 == s,
        reconcile(s, entries).1 =~= Seq::<Job>::empty(),
    decreases entries.len(),
{
    if entries.len() > 0 {
        let prefix = entries.drop_last();
        assert forall|k: int| 0 <= k < prefix.len() implies has_coords(s, (#[trigger] prefix[k]).0)
            && s[index_of(s, prefix[k].0)].simplification_level == prefix[k].1 by {
            assert(prefix[k] == entries[k]);
        }
        lemma_reconcile_settled(s, prefix);
        assert(entries[entries.len() - 1] == entries.last());
    }
}

/// Computing the window a second time, from the same viewer position under the
/// same configuration, changes nothing and issues no job.
pub proof fn lemma_window_idempotent(s: Seq<Chunk>, viewer: WorldPosition, config: Config)
    requires
        registry_wf(s),
    ensures
        ({
            let s1 = reconcile(s, window(viewer, config)).0;
            &&& reconcile(s1, window(viewer, config)).0 == s1
            &&& reconcile(s1, window(viewer, config)).1 =~= Seq::<Job>::empty()
        }),
{
    let w = window(viewer, config);
    lemma_window_distinct(viewer, config);
    lemma_reconcile(s, w);
    lemma_reconcile_settled(reconcile(s, w).0, w);
}

// ---------------------------------------------------------------------------
// Harvesting finished jobs

/// A chunk whose mesh for its registered level has been installed.
pub open spec fn installed(c: Chunk) -> Chunk {
    Chunk {
        coords: c.coords,
        simplification_level: c.simplification_level,
        state: ChunkState::Resident,
        installed_level: Some(c.simplification_level),
        visible: c.visible,
    }
}

/// The result of a job is installed only if its chunk still waits for exactly
/// that level; a result for a superseded level, or for a chunk that is no longer
/// registered, is dropped.
pub open spec fn harvest_one(s: Seq<Chunk>, job: Job) -> (Seq<Chunk>, bool) {
    let h = job.handle as int;
    if h < s.len() && s[h].coords == job.coords && s[h].state == ChunkState::Processing
        && s[h].simplification_level == job.simplification_level {
        (s.update(h, installed(s[h])), true)
    } else {
        (s, false)
    }
}

/// Harvests finished jobs in the order given.
pub open spec fn harvest(s: Seq<Chunk>, jobs: Seq<Job>) -> (Seq<Chunk>, Seq<bool>)
    decreases jobs.len(),
{
    if jobs.len() == 0 {
        (s, Seq::empty())
    } else {
        let (s1, d1) = harvest(s, jobs.drop_last());
        let (s2, d2) = harvest_one(s1, jobs.last());
        (s2, d1.push(d2))
    }
}

/// Records the jobs whose results have come back, in the order given. Entry
/// `i` of the result says whether the result of `finished[i]` is to be
/// installed (its chunk becomes resident) or dropped as stale.
pub fn insert_chunks(seen_chunks: &mut SeenChunks, finished: &Vec<Job>) -> (installs: Vec<bool>)
    requires
        old(seen_chunks).wf(),
    ensures
        final(seen_chunks).wf(),
        (final(seen_chunks)@, installs@) == harvest(old(seen_chunks)@, finished@),
{
    let ghost s0 = seen_chunks@;
    let mut installs: Vec<bool> = Vec::new();
    let mut k: usize = 0;
    while k < finished.len()
        invariant
            0 <= k <= finished@.len(),
            (seen_chunks@, installs@) == harvest(s0, finished@.take(k as int)),
            registry_wf(seen_chunks@),
        decreases finished@.len() - k,
    {
        let job = finished[k];
        let ghost s1 = seen_chunks@;
        proof {
            assert(finished@.take(k + 1).drop_last() =~= finished@.take(k as int));
            assert(finished@.take(k + 1).last() == finished@[k as int]);
        }
        let h = job.handle;
        let mut install = false;
        if h < seen_chunks.chunks.len() {
            let current = seen_chunks.chunks[h];
            if current.coords == job.coords && current.state == ChunkState::Processing
                && current.simplification_level == job.simplification_level {
                seen_chunks.chunks[h] = Chunk {
                    coords: current.coords,
                    simplification_level: current.simplification_level,
                    state: ChunkState::Resident,
                    installed_level: Some(current.simplification_level),
                    visible: current.visible,
                };
                install = true;
                proof {
                    assert(seen_chunks@ =~= s1.update(h as int, installed(s1[h as int])));
                    assert(forall|i: int, j: int|
                        0 <= i < seen_chunks@.len() && 0 <= j < seen_chunks@.len() ==> (
                        #[trigger] seen_chunks@[i]).coords == s1[i].coords && (
                        #[trigger] seen_chunks@[j]).coords == s1[j].coords);
                    assert(forall|i: int|
                        0 <= i < seen_chunks@.len() ==> chunk_wf(#[trigger] seen_chunks@[i]));
                }
            }
        }
        installs.push(install);
        k += 1;
    }
    proof {
        assert(finished@.take(k as int) =~= finished@);
    }
    installs
}

// ---------------------------------------------------------------------------
// Visibility, rebuild and the move trigger

/// A chunk is shown when its origin lies within the view distance of the viewer.
pub open spec fn in_view(c: ChunkCoords, viewer: WorldPosition, max_view_distance: u32) -> bool {
    chunk_distance_squared(c, viewer) <= (max_view_distance as int) * (max_view_distance as int)
}

pub open spec fn with_visibility(c: Chunk, viewer: WorldPosition, max_view_distance: u32) -> Chunk {
    Chunk {
        coords: c.coords,
        simplification_level: c.simplification_level,
        state: c.state,
        installed_level: c.installed_level,
        visible: in_view(c.coords, viewer, max_view_distance),
    }
}

/// Recomputes the visibility flag of every registered chunk from its distance
/// to the viewer; levels and generation state are left alone.
pub fn compute_chunk_visibility(
    seen_chunks: &mut SeenChunks,
    config: &Config,
    viewer: &WorldPosition,
)
    requires
        old(seen_chunks).wf(),
    ensures
        final(seen_chunks).wf(),
        final(seen_chunks)@.len() == old(seen_chunks)@.len(),
        forall|i: int|
            0 <= i < old(seen_chunks)@.len() ==> #[trigger] final(seen_chunks)@[i]
                == with_visibility(old(seen_chunks)@[i], *viewer, config.max_view_distance),
{
    let ghost s0 = seen_chunks@;
    let max = config.max_view_distance as i128;
    assert(max * max <= 0xffff_ffff * 0xffff_ffff) by (nonlinear_arith)
        requires
            0 <= max <= 0xffff_ffff,
    ;
    let mut i: usize = 0;
    while i < seen_chunks.chunks.len()
        invariant
            registry_wf(s0),
            max == config.max_view_distance as int,
            max * max <= 0xffff_ffff * 0xffff_ffff,
            0 <= i <= seen_chunks@.len(),
            seen_chunks@.len() == s0.len(),
            forall|j: int|
                0 <= j < i ==> #[trigger] seen_chunks@[j] == with_visibility(
                    s0[j],
                    *viewer,
                    config.max_view_distance,
                ),
            forall|j: int| i <= j < s0.len() ==> #[trigger] seen_chunks@[j] == s0[j],
        decreases s0.len() - i,
    {
        let current = seen_chunks.chunks[i];
        let d2 = chunk_distance_squared_exec(&current.coords, viewer);
        seen_chunks.chunks[i] = Chunk {
            coords: current.coords,
            simplification_level: current.simplification_level,
            state: current.state,
            installed_level: current.installed_level,
            visible: d2 <= max * max,
        };
        i += 1;
    }
    proof {
        assert(forall|j: int|
            0 <= j < seen_chunks@.len() ==> (#[trigger] seen_chunks@[j]).coords == s0[j].coords);
        assert(forall|a: int, b: int|
            0 <= a < seen_chunks@.len() && 0 <= b < seen_chunks@.len() && (
            #[trigger] seen_chunks@[a]).coords == (#[trigger] seen_chunks@[b]).coords ==> s0[a].coords
                == s0[b].coords);
        assert(forall|j: int| 0 <= j < seen_chunks@.len() ==> chunk_wf(#[trigger] seen_chunks@[j]));
    }
}

/// Tears the terrain down after a configuration change: every registered chunk
/// is to be despawned (the result lists all their handles) and the registry is
/// emptied, so that the next window computation starts from nothing. Without
/// a change, nothing happens.
pub fn rebuild_on_change(seen_chunks: &mut SeenChunks, config_changed: bool) -> (despawn: Vec<
    usize,
>)
    requires
        old(seen_chunks).wf(),
    ensures
        final(seen_chunks).wf(),
        config_changed ==> final(seen_chunks)@.len() == 0,
        config_changed ==> despawn@ == Seq::new(old(seen_chunks)@.len(), |i: int| i as usize),
        !config_changed ==> final(seen_chunks)@ == old(seen_chunks)@ && despawn@.len() == 0,
{
    let mut despawn: Vec<usize> = Vec::new();
    if config_changed {
        let n = seen_chunks.chunks.len();
        let mut h: usize = 0;
        while h < n
            invariant
                0 <= h <= n,
                despawn@ == Seq::new(h as nat, |i: int| i as usize),
            decreases n - h,
        {
            despawn.push(h);
            h += 1;
            proof {
                assert(despawn@ =~= Seq::new(h as nat, |i: int| i as usize));
            }
        }
        seen_chunks.chunks.clear();
    }
    despawn
}

/// Requests a new window computation when the viewer has moved farther than
/// the movement threshold since the last one, and then remembers the new position.
pub fn trigger_update(
    last_chunk_update_position: &mut LastChunkUpdatePosition,
    viewer: &WorldPosition,
) -> (requested: bool)
    ensures
        requested == (distance_squared(
            viewer.x as int,
            viewer.y as int,
            old(last_chunk_update_position).0.x as int,
            old(last_chunk_update_position).0.y as int,
        ) > 24 * 24),
        requested ==> final(last_chunk_update_position).0 == *viewer,
        !requested ==> *final(last_chunk_update_position) == *old(last_chunk_update_position),
{
    let last = last_chunk_update_position.0;
    let dx: i128 = (viewer.x as i128) - (last.x as i128);
    let dy: i128 = (viewer.y as i128) - (last.y as i128);
    assert(0 <= dx * dx <= 0x1_0000_0000 * 0x1_0000_0000) by (nonlinear_arith)
        requires
            -0x1_0000_0000 <= dx <= 0x1_0000_0000,
    ;
    assert(0 <= dy * dy <= 0x1_0000_0000 * 0x1_0000_0000) by (nonlinear_arith)
        requires
            -0x1_0000_0000 <= dy <= 0x1_0000_0000,
    ;
    let threshold = CHUNK_UPDATE_MOVEMENT_THRESHOLD as i128;
    if dx * dx + dy * dy > threshold * threshold {
        last_chunk_update_position.0 = *viewer;
        true
    } else {
        false
    }
}

/// The initial controller state: an empty registry, the viewer assumed at the
/// world origin, and a request for a first window computation.
pub fn setup() -> (r: (SeenChunks, LastChunkUpdatePosition, StartChunkUpdateEvent))
    ensures
        r.0.wf(),
        r.0@.len() == 0,
        r.1.0 == (WorldPosition { x: 0, y: 0 }),
{
    let last = LastChunkUpdatePosition(WorldPosition { x: 0, y: 0 });
    (SeenChunks::new(), last, StartChunkUpdateEvent)
}

/// The work of one job, run away from the controller: samples the chunk's
/// height grid from the field, colours it into an RGBA8 texture and builds its
/// mesh at the job's level. Returns the texture bytes and the built generator.
pub fn generate_chunk<F: Fn(i64, i64) -> u32>(job: &Job, config: &Config, sample: F) -> (r: (
    Vec<u8>,
    Generator,
))
    requires
        forall|x: i64, y: i64| sample.requires((x, y)),
        config.terrain_thresholds@.len() > 0,
    ensures
        r.1.wf(),
        sampled_from(r.1.height_map, job.coords, sample),
        r.1.height_map.size == MAP_CHUNK_SIZE,
        r.1.height_scale == config.height_scale,
        r.1.simplification_level == job.simplification_level,
        mesh_built(r.1),
        r.0@.len() == 4 * MAP_CHUNK_SIZE * MAP_CHUNK_SIZE,
        forall|k: int|
            0 <= k < MAP_CHUNK_SIZE * MAP_CHUNK_SIZE ==> #[trigger] r.0@.subrange(4 * k, 4 * k + 4)
                == rgba_bytes(
                color_for(
                    config.terrain_thresholds@,
                    r.1.height_map.data@[k / (MAP_CHUNK_SIZE as int)]@[k % (
                    MAP_CHUNK_SIZE as int)],
                ),
            ),
{
    let height_map = HeightMap::generate(&job.coords, sample);
    let texture = crate::texture::generate(&height_map, config);
    let mut generator = Generator::new(height_map, config.height_scale, job.simplification_level);
    generator.generate();
    (texture, generator)
}

} // verus!
