//! Triangulated grid meshes built from a height grid at a level of detail.
//!
//! Positions are fixed point with `HEIGHT_ONE` units per world unit on all
//! three axes, so that face normals computed from them point the same way as
//! in world space.

use vstd::prelude::*;
use vstd::arithmetic::div_mod::{lemma_div_is_ordered_by_denominator, lemma_fundamental_div_mod};
use crate::config::{SimplificationLevel, HEIGHT_ONE};
use crate::coords::lemma_row_major_index;
use crate::height_map::HeightMap;

verus! {

/// A mesh vertex position.
#[derive(Clone, Copy, Debug, PartialEq, Eq, Structural)]
pub struct Point3 {
    pub x: i64,
    pub y: i64,
    pub z: i64,
}

/// An (unnormalized) normal vector.
#[derive(Clone, Copy, Debug, PartialEq, Eq, Structural)]
pub struct Normal3 {
    pub x: i128,
    pub y: i128,
    pub z: i128,
}

/// Texture coordinates as grid positions; divided by the map width they give
/// the usual `[0, 1)` coordinates.
#[derive(Clone, Copy, Debug, PartialEq, Eq, Structural)]
pub struct Uv {
    pub u: u32,
    pub v: u32,
}

/// Builds the mesh of one height grid at one level of detail.
#[derive(Clone, Debug)]
pub struct Generator {
    pub height_map: HeightMap,
    /// World units per normalized height of `1.0`.
    pub height_scale: u32,
    pub simplification_level: SimplificationLevel,
    /// Distance, in samples, between neighbouring vertices.
    pub simplification_increment: u64,
    pub vertices_per_line: usize,
    pub vertices: Vec<Point3>,
    /// Vertex indices, three per triangle.
    pub triangles: Vec<u32>,
    pub uvs: Vec<Uv>,
    pub normals: Vec<Normal3>,
    pub map_width: usize,
}

/// Sample stride of a level: every sample at level 0, every `2 * n`-th at level `n`.
pub open spec fn increment_for(level: SimplificationLevel) -> int {
    if level.0 == 0 {
        1
    } else {
        2 * level.0
    }
}

/// Number of vertices along one side of the mesh of a `map_width` grid.
pub open spec fn vertices_per_line_for(map_width: int, level: SimplificationLevel) -> int {
    (map_width - 1) / increment_for(level) + 1
}

/// The vertex in column `i` and row `j` of the decimated grid.
pub open spec fn grid_vertex(
    map: HeightMap,
    height_scale: u32,
    inc: int,
    i: int,
    j: int,
) -> Point3 {
    Point3 {
        x: (i * inc * HEIGHT_ONE) as i64,
        y: (map.data@[j * inc]@[i * inc] * height_scale) as i64,
        z: (j * inc * HEIGHT_ONE) as i64,
    }
}

/// Corner `c` of the two triangles of the quad whose top-left vertex is in
/// column `col` and row `row`: (bottom-right, top-left, bottom-left) and
/// (top-left, bottom-right, top-right), the same winding for every quad.
pub open spec fn quad_corner(vpl: int, row: int, col: int, c: int) -> int {
    let top_left = row * vpl + col;
    let top_right = top_left + 1;
    let bottom_left = top_left + vpl;
    let bottom_right = bottom_left + 1;
    if c == 0 || c == 4 {
        bottom_right
    } else if c == 1 || c == 3 {
        top_left
    } else if c == 2 {
        bottom_left
    } else {
        top_right
    }
}

/// Entry `t` of the index buffer: quads are laid out row by row, six indices each.
pub open spec fn triangle_index(vpl: int, t: int) -> int {
    let q = t / 6;
    quad_corner(vpl, q / (vpl - 1), q % (vpl - 1), t % 6)
}

/// The cross product `(b - a) x (c - a)`.
pub open spec fn face_normal(a: Point3, b: Point3, c: Point3) -> Normal3 {
    let (ux, uy, uz) = (b.x - a.x, b.y - a.y, b.z - a.z);
    let (vx, vy, vz) = (c.x - a.x, c.y - a.y, c.z - a.z);
    Normal3 {
        x: (uy * vz - uz * vy) as i128,
        y: (uz * vx - ux * vz) as i128,
        z: (ux * vy - uy * vx) as i128,
    }
}

/// Vertex normals after the first `n` triangles: each triangle writes its face
/// normal to its three vertices, overwriting what earlier triangles wrote.
/// Normals are therefore flat and not averaged over the triangles that share a
/// vertex, a known approximation of the shading.
pub open spec fn normals_after(verts: Seq<Point3>, tris: Seq<u32>, n: nat) -> Seq<Normal3>
    decreases n,
{
    if n == 0 {
        Seq::new(verts.len(), |i: int| Normal3 { x: 0, y: 0, z: 0 })
    } else {
        let prev = normals_after(verts, tris, (n - 1) as nat);
        let t = 3 * (n - 1);
        let normal = face_normal(
            verts[tris[t] as int],
            verts[tris[t + 1] as int],
            verts[tris[t + 2] as int],
        );
        prev.update(tris[t] as int, normal).update(tris[t + 1] as int, normal).update(
            tris[t + 2] as int,
            normal,
        )
    }
}

/// Vertex coordinates stay where the normal arithmetic cannot overflow.
pub open spec fn point_bounded(p: Point3) -> bool {
    &&& 0 <= p.x < 0x4000_0000
    &&& 0 <= p.z < 0x4000_0000
    &&& 0 <= p.y < 0x4000_0000_0000
}

pub open spec fn mesh_built(g: Generator) -> bool {
    let vpl = g.vertices_per_line as int;
    let inc = g.simplification_increment as int;
    &&& g.vertices@.len() == vpl * vpl
    &&& g.uvs@.len() == vpl * vpl
    &&& g.triangles@.len() == 6 * (vpl - 1) * (vpl - 1)
    &&& forall|k: int|
        0 <= k < vpl * vpl ==> #[trigger] g.vertices@[k] == grid_vertex(
            g.height_map,
            g.height_scale,
            inc,
            k % vpl,
            k / vpl,
        )
    &&& forall|k: int|
        0 <= k < vpl * vpl ==> #[trigger] g.uvs@[k] == (Uv {
            u: ((k % vpl) * inc) as u32,
            v: ((k / vpl) * inc) as u32,
        })
    &&& forall|t: int|
        0 <= t < 6 * (vpl - 1) * (vpl - 1) ==> #[trigger] g.triangles@[t] == triangle_index(vpl, t)
    &&& g.normals@ == normals_after(g.vertices@, g.triangles@, (g.triangles@.len() / 3) as nat)
}

/// Fewer or equally many vertices per line at a coarser level.
pub proof fn lemma_vertices_per_line_monotone(
    map_width: int,
    a: SimplificationLevel,
    b: SimplificationLevel,
)
    requires
        1 <= map_width,
        1 <= a.0 <= b.0 <= 6,
    ensures
        vertices_per_line_for(map_width, a) >= vertices_per_line_for(map_width, b),
        vertices_per_line_for(map_width, b) >= 1,
{
    lemma_div_is_ordered_by_denominator(map_width - 1, increment_for(a), increment_for(b));
    vstd::arithmetic::div_mod::lemma_div_pos_is_pos(map_width - 1, increment_for(b));
}

impl Generator {
    /// The generator's parameters agree with its height grid.
    pub open spec fn wf(&self) -> bool {
        &&& self.height_map.wf()
        &&& 1 <= self.height_map.size <= 0xffff
        &&& self.map_width == self.height_map.size
        &&& self.simplification_increment == increment_for(self.simplification_level)
        &&& self.vertices_per_line == vertices_per_line_for(
            self.map_width as int,
            self.simplification_level,
        )
    }

    /// A generator for `height_map` at the given level, with empty buffers.
    pub fn new(
        height_map: HeightMap,
        height_scale: u32,
        simplification_level: SimplificationLevel,
    ) -> (r: Generator)
        requires
            height_map.wf(),
            1 <= height_map.size <= 0xffff,
        ensures
            r.wf(),
            r.height_map == height_map,
            r.height_scale == height_scale,
            r.simplification_level == simplification_level,
            r.vertices@.len() == 0,
            r.triangles@.len() == 0,
            r.uvs@.len() == 0,
            r.normals@.len() == 0,
    {
        let map_width = height_map.data.len();
        let simplification_increment: u64 = if simplification_level.0 == 0 {
            1
        } else {
            (simplification_level.0 as u64) * 2
        };
        let vertices_per_line = (((map_width - 1) as u64) / simplification_increment) as usize + 1;
        proof {
            vstd::arithmetic::div_mod::lemma_div_is_ordered_by_denominator(
                (map_width - 1) as int,
                1,
                simplification_increment as int,
            );
        }
        Generator {
            height_map,
            height_scale,
            simplification_level,
            simplification_increment,
            vertices_per_line,
            map_width,
            vertices: Vec::new(),
            triangles: Vec::new(),
            uvs: Vec::new(),
            normals: Vec::new(),
        }
    }
}

/// The decimated grid fits in the height grid: its last vertex line lies on
/// or before the last sample line, and there are at most as many vertices per
/// line as samples.
proof fn lemma_grid_fits(map_width: int, inc: int)
    requires
        1 <= map_width,
        1 <= inc,
    ensures
        0 <= ((map_width - 1) / inc) * inc <= map_width - 1,
        (map_width - 1) / inc + 1 <= map_width,
        0 <= (map_width - 1) / inc,
{
    lemma_fundamental_div_mod(map_width - 1, inc);
    vstd::arithmetic::div_mod::lemma_div_pos_is_pos(map_width - 1, inc);
    lemma_div_is_ordered_by_denominator(map_width - 1, 1, inc);
    let q = (map_width - 1) / inc;
    vstd::arithmetic::div_mod::lemma_mod_pos_bound(map_width - 1, inc);
    assert(0 <= q * inc <= map_width - 1) by (nonlinear_arith)
        requires
            0 <= q,
            1 <= inc,
            map_width - 1 == inc * q + (map_width - 1) % inc,
            0 <= (map_width - 1) % inc,
    ;
}

/// Slot `c` of quad `(row, col)` in the index buffer holds that quad's corner `c`.
proof fn lemma_triangle_slot(vpl: int, row: int, col: int, c: int)
    requires
        2 <= vpl,
        0 <= row < vpl - 1,
        0 <= col < vpl - 1,
        0 <= c < 6,
    ensures
        triangle_index(vpl, 6 * (row * (vpl - 1) + col) + c) == quad_corner(vpl, row, col, c),
        0 <= quad_corner(vpl, row, col, c) < vpl * vpl,
{
    let q = row * (vpl - 1) + col;
    lemma_row_major_index(6 * q + c, q, c, 6);
    lemma_row_major_index(q, row, col, vpl - 1);
    assert(0 <= quad_corner(vpl, row, col, c) < vpl * vpl) by (nonlinear_arith)
        requires
            0 <= row < vpl - 1,
            0 <= col < vpl - 1,
            quad_corner(vpl, row, col, c) <= row * vpl + col + vpl + 1,
            0 <= row * vpl + col <= quad_corner(vpl, row, col, c),
    ;
}

/// Face normal of three bounded vertices, exact in `i128`.
fn face_normal_exec(a: Point3, b: Point3, c: Point3) -> (r: Normal3)
    requires
        point_bounded(a),
        point_bounded(b),
        point_bounded(c),
    ensures
        r == face_normal(a, b, c),
{
    let ux = (b.x as i128) - (a.x as i128);
    let uy = (b.y as i128) - (a.y as i128);
    let uz = (b.z as i128) - (a.z as i128);
    let vx = (c.x as i128) - (a.x as i128);
    let vy = (c.y as i128) - (a.y as i128);
    let vz = (c.z as i128) - (a.z as i128);
    assert(-0x1000_0000_0000_0000_0000 <= uy * vz <= 0x1000_0000_0000_0000_0000) by (nonlinear_arith)
        requires
            -0x4000_0000_0000 <= uy <= 0x4000_0000_0000,
            -0x4000_0000 <= vz <= 0x4000_0000,
    ;
    assert(-0x1000_0000_0000_0000_0000 <= uz * vy <= 0x1000_0000_0000_0000_0000) by (nonlinear_arith)
        requires
            -0x4000_0000_0000 <= vy <= 0x4000_0000_0000,
            -0x4000_0000 <= uz <= 0x4000_0000,
    ;
    assert(-0x1000_0000_0000_0000_0000 <= uz * vx <= 0x1000_0000_0000_0000_0000) by (nonlinear_arith)
        requires
            -0x4000_0000 <= uz <= 0x4000_0000,
            -0x4000_0000 <= vx <= 0x4000_0000,
    ;
    assert(-0x1000_0000_0000_0000_0000 <= ux * vz <= 0x1000_0000_0000_0000_0000) by (nonlinear_arith)
        requires
            -0x4000_0000 <= ux <= 0x4000_0000,
            -0x4000_0000 <= vz <= 0x4000_0000,
    ;
    assert(-0x1000_0000_0000_0000_0000 <= ux * vy <= 0x1000_0000_0000_0000_0000) by (nonlinear_arith)
        requires
            -0x4000_0000 <= ux <= 0x4000_0000,
            -0x4000_0000_0000 <= vy <= 0x4000_0000_0000,
    ;
    assert(-0x1000_0000_0000_0000_0000 <= uy * vx <= 0x1000_0000_0000_0000_0000) by (nonlinear_arith)
        requires
            -0x4000_0000_0000 <= uy <= 0x4000_0000_0000,
            -0x4000_0000 <= vx <= 0x4000_0000,
    ;
    Normal3 { x: uy * vz - uz * vy, y: uz * vx - ux * vz, z: ux * vy - uy * vx }
}

/// The normals of a mesh: each triangle in order writes its face normal to
/// its three vertices.
fn calculate_normals(vertices: &Vec<Point3>, triangles: &Vec<u32>) -> (r: Vec<Normal3>)
    requires
        triangles@.len() % 3 == 0,
        forall|t: int| 0 <= t < triangles@.len() ==> #[trigger] triangles@[t] < vertices@.len(),
        forall|k: int| 0 <= k < vertices@.len() ==> point_bounded(#[trigger] vertices@[k]),
    ensures
        r@ == normals_after(vertices@, triangles@, (triangles@.len() / 3) as nat),
{
    let mut normals: Vec<Normal3> = Vec::new();
    let mut k: usize = 0;
    while k < vertices.len()
        invariant
            0 <= k <= vertices@.len(),
            normals@ == Seq::new(k as nat, |i: int| Normal3 { x: 0, y: 0, z: 0 }),
        decreases vertices@.len() - k,
    {
        normals.push(Normal3 { x: 0, y: 0, z: 0 });
        k += 1;
        proof {
            assert(normals@ =~= Seq::new(k as nat, |i: int| Normal3 { x: 0, y: 0, z: 0 }));
        }
    }
    let count = triangles.len() / 3;
    proof {
        lemma_fundamental_div_mod(triangles@.len() as int, 3);
    }
    let mut n: usize = 0;
    while n < count
        invariant
            count == triangles@.len() / 3,
            triangles@.len() % 3 == 0,
            triangles@.len() == 3 * count,
            forall|t: int| 0 <= t < triangles@.len() ==> #[trigger] triangles@[t] < vertices@.len(),
            forall|k: int| 0 <= k < vertices@.len() ==> point_bounded(#[trigger] vertices@[k]),
            0 <= n <= count,
            normals@ == normals_after(vertices@, triangles@, n as nat),
            normals@.len() == vertices@.len(),
        decreases count - n,
    {
        let len = triangles.len();
        assert(3 * n + 2 < len);
        let t = 3 * n;
        let a = triangles[t] as usize;
        let b = triangles[t + 1] as usize;
        let c = triangles[t + 2] as usize;
        let normal = face_normal_exec(vertices[a], vertices[b], vertices[c]);
        normals[a] = normal;
        normals[b] = normal;
        normals[c] = normal;
        n += 1;
    }
    normals
}

impl Generator {
    /// Builds the mesh: one vertex for every `simplification_increment`-th
    /// sample in both directions (`vertices_per_line` squared vertices, row by
    /// row, with texture coordinates from their grid position), two triangles
    /// per quad of neighbouring vertices, and the flat normals of `normals_after`.
    pub fn generate(&mut self)
        requires
            old(self).wf(),
        ensures
            final(self).wf(),
            final(self).height_map == old(self).height_map,
            final(self).height_scale == old(self).height_scale,
            final(self).simplification_level == old(self).simplification_level,
            mesh_built(*final(self)),
    {
        let vpl = self.vertices_per_line;
        let inc = self.simplification_increment;
        let ghost w = self.map_width as int;
        proof {
            lemma_grid_fits(w, inc as int);
            assert((vpl - 1) * inc == ((w - 1) / (inc as int)) * inc);
            assert(vpl * vpl <= 0xffff * 0xffff) by (nonlinear_arith)
                requires
                    1 <= vpl <= 0xffff,
            ;
        }
        let mut vertices: Vec<Point3> = Vec::new();
        let mut uvs: Vec<Uv> = Vec::new();
        let mut j: usize = 0;
        while j < vpl
            invariant
                self.wf(),
                vpl == self.vertices_per_line,
                inc == self.simplification_increment,
                w == self.map_width,
                1 <= vpl <= w,
                0 <= (vpl - 1) * inc <= w - 1,
                0 <= j <= vpl,
                vertices@.len() == j * vpl,
                uvs@.len() == j * vpl,
                forall|k: int|
                    0 <= k < vertices@.len() ==> #[trigger] vertices@[k] == grid_vertex(
                        self.height_map,
                        self.height_scale,
                        inc as int,
                        k % (vpl as int),
                        k / (vpl as int),
                    ),
                forall|k: int| 0 <= k < vertices@.len() ==> point_bounded(#[trigger] vertices@[k]),
                forall|k: int|
                    0 <= k < uvs@.len() ==> #[trigger] uvs@[k] == (Uv {
                        u: ((k % (vpl as int)) * inc) as u32,
                        v: ((k / (vpl as int)) * inc) as u32,
                    }),
            decreases vpl - j,
        {
            let mut i: usize = 0;
            while i < vpl
                invariant
                    self.wf(),
                    vpl == self.vertices_per_line,
                    inc == self.simplification_increment,
                    w == self.map_width,
                    1 <= vpl <= w,
                    0 <= (vpl - 1) * inc <= w - 1,
                    0 <= j < vpl,
                    0 <= i <= vpl,
                    vertices@.len() == j * vpl + i,
                    uvs@.len() == j * vpl + i,
                    forall|k: int|
                        0 <= k < vertices@.len() ==> #[trigger] vertices@[k] == grid_vertex(
                            self.height_map,
                            self.height_scale,
                            inc as int,
                            k % (vpl as int),
                            k / (vpl as int),
                        ),
                    forall|k: int| 0 <= k < vertices@.len() ==> point_bounded(#[trigger] vertices@[k]),
                    forall|k: int|
                        0 <= k < uvs@.len() ==> #[trigger] uvs@[k] == (Uv {
                            u: ((k % (vpl as int)) * inc) as u32,
                            v: ((k / (vpl as int)) * inc) as u32,
                        }),
                decreases vpl - i,
            {
                proof {
                    assert(0 <= i * inc <= (vpl - 1) * inc) by (nonlinear_arith)
                        requires
                            0 <= i < vpl,
                            1 <= inc,
                    ;
                    assert(0 <= j * inc <= (vpl - 1) * inc) by (nonlinear_arith)
                        requires
                            0 <= j < vpl,
                            1 <= inc,
                    ;
                }
                let xs = ((i as u64) * inc) as usize;
                let ys = ((j as u64) * inc) as usize;
                let h = self.height_map.data[ys][xs];
                let ghost k = vertices@.len() as int;
                proof {
                    assert(h <= HEIGHT_ONE);
                    assert(0 <= (h as int) * (self.height_scale as int) <= 10000 * 0xffff_ffff)
                        by (nonlinear_arith)
                        requires
                            0 <= h <= 10000,
                            0 <= self.height_scale <= 0xffff_ffff,
                    ;
                    lemma_row_major_index(k, j as int, i as int, vpl as int);
                }
                let height: i64 = (h as i64) * (self.height_scale as i64);
                let vertex = Point3 { x: (xs as i64) * 10000, y: height, z: (ys as i64) * 10000 };
                vertices.push(vertex);
                uvs.push(Uv { u: xs as u32, v: ys as u32 });
                proof {
                    assert(vertices@[k] == grid_vertex(
                        self.height_map,
                        self.height_scale,
                        inc as int,
                        k % (vpl as int),
                        k / (vpl as int),
                    ));
                }
                i += 1;
            }
            proof {
                assert(j * vpl + vpl == (j + 1) * vpl) by (nonlinear_arith);
            }
            j += 1;
        }
        let mut triangles: Vec<u32> = Vec::new();
        if vpl >= 2 {
            let quads = vpl - 1;
            let mut row: usize = 0;
            while row < quads
                invariant
                    2 <= vpl <= 0xffff,
                    quads == vpl - 1,
                    0 <= row <= quads,
                    triangles@.len() == 6 * (row * quads),
                    forall|t: int|
                        0 <= t < triangles@.len() ==> #[trigger] triangles@[t] == triangle_index(
                            vpl as int,
                            t,
                        ),
                    forall|t: int| 0 <= t < triangles@.len() ==> #[trigger] triangles@[t] < vpl * vpl,
                decreases quads - row,
            {
                let mut col: usize = 0;
                while col < quads
                    invariant
                        2 <= vpl <= 0xffff,
                        quads == vpl - 1,
                        0 <= row < quads,
                        0 <= col <= quads,
                        triangles@.len() == 6 * (row * quads + col),
                        forall|t: int|
                            0 <= t < triangles@.len() ==> #[trigger] triangles@[t] == triangle_index(
                                vpl as int,
                                t,
                            ),
                        forall|t: int|
                            0 <= t < triangles@.len() ==> #[trigger] triangles@[t] < vpl * vpl,
                    decreases quads - col,
                {
                    let ghost base = triangles@.len() as int;
                    proof {
                        lemma_triangle_slot(vpl as int, row as int, col as int, 0);
                        lemma_triangle_slot(vpl as int, row as int, col as int, 1);
                        lemma_triangle_slot(vpl as int, row as int, col as int, 2);
                        lemma_triangle_slot(vpl as int, row as int, col as int, 3);
                        lemma_triangle_slot(vpl as int, row as int, col as int, 4);
                        lemma_triangle_slot(vpl as int, row as int, col as int, 5);
                        assert(vpl * vpl <= 0xffff * 0xffff) by (nonlinear_arith)
                            requires
                                1 <= vpl <= 0xffff,
                        ;
                        assert(row * vpl + col + vpl + 1 < vpl * vpl) by (nonlinear_arith)
                            requires
                                0 <= row < vpl - 1,
                                0 <= col < vpl - 1,
                        ;
                    }
                    let top_left = (row * vpl + col) as u32;
                    let top_right = top_left + 1;
                    let bottom_left = top_left + vpl as u32;
                    let bottom_right = bottom_left + 1;
                    triangles.push(bottom_right);
                    triangles.push(top_left);
                    triangles.push(bottom_left);
                    triangles.push(top_left);
                    triangles.push(bottom_right);
                    triangles.push(top_right);
                    col += 1;
                }
                proof {
                    assert(6 * (row * quads + quads) == 6 * ((row + 1) * quads)) by (nonlinear_arith);
                }
                row += 1;
            }
        }
        proof {
            assert(vertices@.len() == vpl * vpl);
            assert(triangles@.len() == 6 * (vpl - 1) * (vpl - 1)) by (nonlinear_arith)
                requires
                    vpl >= 2 ==> triangles@.len() == 6 * ((vpl - 1) * (vpl - 1)),
                    vpl < 2 ==> triangles@.len() == 0,
                    vpl >= 1,
            ;
            assert(triangles@.len() % 3 == 0);
        }
        let normals = calculate_normals(&vertices, &triangles);
        self.vertices = vertices;
        self.uvs = uvs;
        self.triangles = triangles;
        self.normals = normals;
    }

    /// The collision height matrix at the grid's own resolution, whatever the
    /// level of detail: entry `y * map_width + x` is sample `(x, y)` times the
    /// height scale.
    pub fn collider_heights(&self) -> (r: Vec<i64>)
        requires
            self.wf(),
        ensures
            r@.len() == self.map_width * self.map_width,
            forall|k: int|
                0 <= k < r@.len() ==> #[trigger] r@[k] == self.height_map.data@[k
                    / (self.map_width as int)]@[k % (self.map_width as int)] * self.height_scale,
    {
        let w = self.map_width;
        let mut r: Vec<i64> = Vec::new();
        let mut y: usize = 0;
        while y < w
            invariant
                self.wf(),
                w == self.map_width,
                0 <= y <= w,
                r@.len() == y * w,
                forall|k: int|
                    0 <= k < r@.len() ==> #[trigger] r@[k] == self.height_map.data@[k
                        / (w as int)]@[k % (w as int)] * self.height_scale,
            decreases w - y,
        {
            let mut x: usize = 0;
            while x < w
                invariant
                    self.wf(),
                    w == self.map_width,
                    0 <= y < w,
                    0 <= x <= w,
                    r@.len() == y * w + x,
                    forall|k: int|
                        0 <= k < r@.len() ==> #[trigger] r@[k] == self.height_map.data@[k
                            / (w as int)]@[k % (w as int)] * self.height_scale,
                decreases w - x,
            {
                let h = self.height_map.data[y][x];
                proof {
                    assert(0 <= (h as int) * (self.height_scale as int) <= 10000 * 0xffff_ffff)
                        by (nonlinear_arith)
                        requires
                            0 <= h <= 10000,
                            0 <= self.height_scale <= 0xffff_ffff,
                    ;
                    lemma_row_major_index(r@.len() as int, y as int, x as int, w as int);
                }
                r.push((h as i64) * (self.height_scale as i64));
                x += 1;
            }
            proof {
                assert(y * w + w == (y + 1) * w) by (nonlinear_arith);
            }
            y += 1;
        }
        r
    }
}

} // verus!
