//! Surface extraction: face culling over a region's block grid and
//! assembly of the culled faces into an indexed geometry batch.

use crate::block::{atlas_tile, spec_atlas_tile, BlockType, FaceDir};
use crate::region::{
    lemma_cell_index_bounds, lemma_cell_index_decompose, lemma_cell_index_recompose,
    spec_cell_index, Region,
};
use vstd::arithmetic::div_mod::{
    lemma_mod_division_less_than_divisor, lemma_multiply_divide_lt,
};
use vstd::prelude::*;
use vstd::seq_lib::lemma_seq_concat_contains_all_elements;

verus! {

/// One emitted quad: the face of the block at local cell `(x, y, z)`
/// toward `dir`, carrying that block's material.
#[derive(Clone, Copy, PartialEq, Eq, Hash, Debug, Structural)]
pub struct Face {
    pub x: u8,
    pub y: u16,
    pub z: u8,
    pub dir: FaceDir,
    pub btype: BlockType,
}

/// Whether extraction emits the face of cell `(x, y, z)` toward `d`: the
/// cell must hold a block, and the neighboring cell on that side must be
/// absent — empty, or outside the region's grid.
pub open spec fn face_emitted(r: Region, x: int, y: int, z: int, d: FaceDir) -> bool {
    &&& r.in_bounds(x, y, z)
    &&& r.block_at(x, y, z).spec_is_solid()
    &&& !r.present(x + d.spec_offset().0, y + d.spec_offset().1, z + d.spec_offset().2)
}

/// The face value emitted for cell `(x, y, z)` toward `d`.
pub open spec fn spec_face(r: Region, x: int, y: int, z: int, d: FaceDir) -> Face {
    Face { x: x as u8, y: y as u16, z: z as u8, dir: d, btype: r.block_at(x, y, z) }
}

/// Zero or one face of cell `(x, y, z)` toward `d`.
pub open spec fn spec_maybe_face(r: Region, x: int, y: int, z: int, d: FaceDir) -> Seq<Face> {
    if face_emitted(r, x, y, z, d) {
        seq![spec_face(r, x, y, z, d)]
    } else {
        Seq::empty()
    }
}

/// The faces of one cell, in the fixed direction order.
pub open spec fn spec_cell_dir_faces(r: Region, x: int, y: int, z: int) -> Seq<Face> {
    spec_maybe_face(r, x, y, z, FaceDir::XNeg) + spec_maybe_face(r, x, y, z, FaceDir::XPos)
        + spec_maybe_face(r, x, y, z, FaceDir::YNeg) + spec_maybe_face(r, x, y, z, FaceDir::YPos)
        + spec_maybe_face(r, x, y, z, FaceDir::ZNeg) + spec_maybe_face(r, x, y, z, FaceDir::ZPos)
}

/// The faces of the cell with flat index `j`.
pub open spec fn spec_cell_faces(r: Region, j: int) -> Seq<Face> {
    let s = r.size as int;
    spec_cell_dir_faces(r, j % s, j / (s * s), (j / s) % s)
}

/// The faces of the first `n` cells, in cell order.
pub open spec fn spec_faces_up_to(r: Region, n: int) -> Seq<Face>
    decreases n,
{
    if n <= 0 {
        Seq::empty()
    } else {
        spec_faces_up_to(r, n - 1) + spec_cell_faces(r, n - 1)
    }
}

/// Every face the region's surface extraction emits, in cell order with
/// the fixed direction order within a cell.
pub open spec fn spec_faces(r: Region) -> Seq<Face> {
    spec_faces_up_to(r, r.blocks@.len() as int)
}

fn push_maybe_face(r: &Region, x: usize, y: usize, z: usize, d: FaceDir, b: BlockType, out: &mut Vec<Face>)
    requires
        r.wf(),
        r.in_bounds(x as int, y as int, z as int),
        b == r.block_at(x as int, y as int, z as int),
    ensures
        final(out)@ == old(out)@ + spec_maybe_face(*r, x as int, y as int, z as int, d),
{
    let ofs: (i64, i64, i64) = match d {
        FaceDir::XNeg => (-1, 0, 0),
        FaceDir::XPos => (1, 0, 0),
        FaceDir::YNeg => (0, -1, 0),
        FaceDir::YPos => (0, 1, 0),
        FaceDir::ZNeg => (0, 0, -1),
        FaceDir::ZPos => (0, 0, 1),
    };
    let emit = b.is_solid() && !r.present_at(x as i64 + ofs.0, y as i64 + ofs.1, z as i64 + ofs.2);
    proof {
        assert(emit == face_emitted(*r, x as int, y as int, z as int, d));
    }
    if emit {
        out.push(Face { x: x as u8, y: y as u16, z: z as u8, dir: d, btype: b });
        proof {
            assert(out@ =~= old(out)@ + spec_maybe_face(*r, x as int, y as int, z as int, d));
        }
    } else {
        proof {
            assert(out@ =~= old(out)@ + spec_maybe_face(*r, x as int, y as int, z as int, d));
        }
    }
}

fn push_cell_faces(r: &Region, x: usize, y: usize, z: usize, out: &mut Vec<Face>)
    requires
        r.wf(),
        r.in_bounds(x as int, y as int, z as int),
    ensures
        final(out)@ == old(out)@ + spec_cell_dir_faces(*r, x as int, y as int, z as int),
{
    let b = r.block(x, y, z);
    let ghost base = old(out)@;
    push_maybe_face(r, x, y, z, FaceDir::XNeg, b, out);
    push_maybe_face(r, x, y, z, FaceDir::XPos, b, out);
    push_maybe_face(r, x, y, z, FaceDir::YNeg, b, out);
    push_maybe_face(r, x, y, z, FaceDir::YPos, b, out);
    push_maybe_face(r, x, y, z, FaceDir::ZNeg, b, out);
    push_maybe_face(r, x, y, z, FaceDir::ZPos, b, out);
    proof {
        assert(out@ =~= base + spec_cell_dir_faces(*r, x as int, y as int, z as int));
    }
}

/// Face culling over the whole grid. The result is pinned exactly: the
/// faces of each cell in flat-index order, a face emitted if and only if
/// the cell holds a block and its neighbor on that side is absent.
pub fn extract_faces(r: &Region) -> (faces: Vec<Face>)
    requires
        r.wf(),
    ensures
        faces@ == spec_faces(*r),
{
    let s = r.size as usize;
    let total = r.blocks.len();
    let mut faces: Vec<Face> = Vec::new();
    let mut j: usize = 0;
    while j < total
        invariant
            r.wf(),
            s == r.size,
            total == r.blocks@.len(),
            j <= total,
            faces@ == spec_faces_up_to(*r, j as int),
        decreases total - j,
    {
        proof {
            assert(1 <= (s as int) * (s as int) <= 65025) by (nonlinear_arith)
                requires
                    1 <= s <= 255,
            ;
        }
        let x = j % s;
        let z = (j / s) % s;
        let y = j / (s * s);
        proof {
            lemma_mod_division_less_than_divisor(j as int, s as int);
            lemma_mod_division_less_than_divisor(j as int / s as int, s as int);
            lemma_multiply_divide_lt(j as int, (s as int) * (s as int), r.height as int);
        }
        push_cell_faces(r, x, y, z, &mut faces);
        proof {
            assert(spec_cell_faces(*r, j as int) == spec_cell_dir_faces(
                *r,
                x as int,
                y as int,
                z as int,
            ));
            assert(faces@ =~= spec_faces_up_to(*r, j as int + 1));
        }
        j = j + 1;
    }
    faces
}

#[verifier::rlimit(50)]
proof fn lemma_up_to_contains(r: Region, n: int, f: Face)
    requires
        r.wf(),
        0 <= n,
    ensures
        spec_faces_up_to(r, n).contains(f) <==> exists|j: int|
            0 <= j < n && #[trigger] spec_cell_faces(r, j).contains(f),
    decreases n,
{
    if n <= 0 {
        assert(!spec_faces_up_to(r, n).contains(f));
    } else {
        lemma_up_to_contains(r, n - 1, f);
        lemma_seq_concat_contains_all_elements(
            spec_faces_up_to(r, n - 1),
            spec_cell_faces(r, n - 1),
            f,
        );
        if spec_faces_up_to(r, n).contains(f) {
            if spec_cell_faces(r, n - 1).contains(f) {
                assert(0 <= n - 1 < n && spec_cell_faces(r, n - 1).contains(f));
            } else {
                let j0 = choose|j: int|
                    0 <= j < n - 1 && #[trigger] spec_cell_faces(r, j).contains(f);
                assert(0 <= j0 < n && spec_cell_faces(r, j0).contains(f));
            }
        }
        if exists|j: int| 0 <= j < n && #[trigger] spec_cell_faces(r, j).contains(f) {
            let j0 = choose|j: int| 0 <= j < n && #[trigger] spec_cell_faces(r, j).contains(f);
            if j0 < n - 1 {
                assert(0 <= j0 < n - 1 && spec_cell_faces(r, j0).contains(f));
            }
            assert(spec_faces_up_to(r, n).contains(f));
        }
    }
}

proof fn lemma_maybe_face_contains(r: Region, x: int, y: int, z: int, d: FaceDir, f: Face)
    ensures
        spec_maybe_face(r, x, y, z, d).contains(f) <==> face_emitted(r, x, y, z, d) && f
            == spec_face(r, x, y, z, d),
{
    if face_emitted(r, x, y, z, d) && f == spec_face(r, x, y, z, d) {
        assert(spec_maybe_face(r, x, y, z, d)[0] == f);
    }
}

proof fn lemma_cell_faces_contains(r: Region, j: int, f: Face)
    requires
        r.wf(),
        0 <= j < r.blocks@.len(),
    ensures
        spec_cell_faces(r, j).contains(f) <==> {
            let s = r.size as int;
            &&& face_emitted(r, j % s, j / (s * s), (j / s) % s, f.dir)
            &&& f == spec_face(r, j % s, j / (s * s), (j / s) % s, f.dir)
        },
{
    let s = r.size as int;
    let x = j % s;
    let y = j / (s * s);
    let z = (j / s) % s;
    let m1 = spec_maybe_face(r, x, y, z, FaceDir::XNeg);
    let m2 = spec_maybe_face(r, x, y, z, FaceDir::XPos);
    let m3 = spec_maybe_face(r, x, y, z, FaceDir::YNeg);
    let m4 = spec_maybe_face(r, x, y, z, FaceDir::YPos);
    let m5 = spec_maybe_face(r, x, y, z, FaceDir::ZNeg);
    let m6 = spec_maybe_face(r, x, y, z, FaceDir::ZPos);
    lemma_seq_concat_contains_all_elements(m1, m2, f);
    lemma_seq_concat_contains_all_elements(m1 + m2, m3, f);
    lemma_seq_concat_contains_all_elements(m1 + m2 + m3, m4, f);
    lemma_seq_concat_contains_all_elements(m1 + m2 + m3 + m4, m5, f);
    lemma_seq_concat_contains_all_elements(m1 + m2 + m3 + m4 + m5, m6, f);
    lemma_maybe_face_contains(r, x, y, z, FaceDir::XNeg, f);
    lemma_maybe_face_contains(r, x, y, z, FaceDir::XPos, f);
    lemma_maybe_face_contains(r, x, y, z, FaceDir::YNeg, f);
    lemma_maybe_face_contains(r, x, y, z, FaceDir::YPos, f);
    lemma_maybe_face_contains(r, x, y, z, FaceDir::ZNeg, f);
    lemma_maybe_face_contains(r, x, y, z, FaceDir::ZPos, f);
}

/// Exactly which faces extraction emits: `f` is among the region's faces
/// if and only if the face of the block at `f`'s cell toward `f.dir` is
/// emitted and `f` carries that block's material.
pub proof fn lemma_faces_characterization(r: Region, f: Face)
    requires
        r.wf(),
    ensures
        spec_faces(r).contains(f) <==> face_emitted(r, f.x as int, f.y as int, f.z as int, f.dir)
            && f.btype == r.block_at(f.x as int, f.y as int, f.z as int),
{
    let s = r.size as int;
    let len = r.blocks@.len() as int;
    lemma_up_to_contains(r, len, f);
    if spec_faces(r).contains(f) {
        let j0 = choose|j: int| 0 <= j < len && #[trigger] spec_cell_faces(r, j).contains(f);
        lemma_cell_faces_contains(r, j0, f);
        lemma_cell_index_recompose(s, r.height as int, j0);
    }
    if face_emitted(r, f.x as int, f.y as int, f.z as int, f.dir) && f.btype == r.block_at(
        f.x as int,
        f.y as int,
        f.z as int,
    ) {
        let x = f.x as int;
        let y = f.y as int;
        let z = f.z as int;
        let j = spec_cell_index(s, x, y, z);
        lemma_cell_index_bounds(s, r.height as int, x, y, z);
        lemma_cell_index_decompose(s, r.height as int, x, y, z);
        lemma_cell_faces_contains(r, j, f);
        assert(f == spec_face(r, x, y, z, f.dir));
        assert(0 <= j < len && spec_cell_faces(r, j).contains(f));
    }
}

/// Interior culling: a block whose six neighbors are all present emits no
/// face — no emitted face names its cell.
pub proof fn lemma_interior_culling(r: Region, x: int, y: int, z: int)
    requires
        r.wf(),
        r.present(x, y, z),
        r.present(x - 1, y, z),
        r.present(x + 1, y, z),
        r.present(x, y - 1, z),
        r.present(x, y + 1, z),
        r.present(x, y, z - 1),
        r.present(x, y, z + 1),
    ensures
        forall|f: Face|
            #[trigger] spec_faces(r).contains(f) ==> !(f.x as int == x && f.y as int == y
                && f.z as int == z),
{
    assert forall|f: Face|
        #[trigger] spec_faces(r).contains(f) implies !(f.x as int == x && f.y as int == y
        && f.z as int == z) by {
        lemma_faces_characterization(r, f);
    }
}

proof fn lemma_lone_block_count(r: Region, n: int, x: int, y: int, z: int)
    requires
        r.wf(),
        0 <= n <= r.blocks@.len(),
        r.in_bounds(x, y, z),
        r.block_at(x, y, z).spec_is_solid(),
        forall|x2: int, y2: int, z2: int|
            r.in_bounds(x2, y2, z2) && !(x2 == x && y2 == y && z2 == z) ==> !(
            #[trigger] r.block_at(x2, y2, z2)).spec_is_solid(),
    ensures
        spec_faces_up_to(r, n).len() == if n > spec_cell_index(r.size as int, x, y, z) {
            6int
        } else {
            0int
        },
    decreases n,
{
    let s = r.size as int;
    let jp = spec_cell_index(s, x, y, z);
    lemma_cell_index_bounds(s, r.height as int, x, y, z);
    lemma_cell_index_decompose(s, r.height as int, x, y, z);
    if n > 0 {
        lemma_lone_block_count(r, n - 1, x, y, z);
        let j = n - 1;
        lemma_cell_index_recompose(s, r.height as int, j);
        let xj = j % s;
        let yj = j / (s * s);
        let zj = (j / s) % s;
        if xj == x && yj == y && zj == z {
            assert(j == jp);
            assert(face_emitted(r, x, y, z, FaceDir::XNeg));
            assert(face_emitted(r, x, y, z, FaceDir::XPos));
            assert(face_emitted(r, x, y, z, FaceDir::YNeg));
            assert(face_emitted(r, x, y, z, FaceDir::YPos));
            assert(face_emitted(r, x, y, z, FaceDir::ZNeg));
            assert(face_emitted(r, x, y, z, FaceDir::ZPos));
            assert(spec_cell_faces(r, j).len() == 6);
        } else {
            assert(j != jp);
            assert(!r.block_at(xj, yj, zj).spec_is_solid());
            assert(spec_cell_faces(r, j).len() == 0);
        }
    }
}

/// Boundary emission: in a region holding exactly one block, extraction
/// emits exactly that block's six faces — 24 vertices and 36 indices once
/// assembled.
pub proof fn lemma_boundary_emission(r: Region, x: int, y: int, z: int)
    requires
        r.wf(),
        r.in_bounds(x, y, z),
        r.block_at(x, y, z).spec_is_solid(),
        forall|x2: int, y2: int, z2: int|
            r.in_bounds(x2, y2, z2) && !(x2 == x && y2 == y && z2 == z) ==> !(
            #[trigger] r.block_at(x2, y2, z2)).spec_is_solid(),
    ensures
        spec_faces(r).len() == 6,
        spec_batch_vertices(spec_faces(r)).len() == 24,
        spec_batch_indices(spec_faces(r).len() as int).len() == 36,
{
    lemma_cell_index_bounds(r.size as int, r.height as int, x, y, z);
    lemma_lone_block_count(r, r.blocks@.len() as int, x, y, z);
    lemma_batch_vertices_len(spec_faces(r));
    lemma_batch_indices_len(6);
}

/// One vertex of an emitted quad: a region-local integer corner position
/// and the face's atlas tile. Every vertex's normal is the unit up vector;
/// it is not stored per vertex.
#[derive(Clone, Copy, PartialEq, Eq, Hash, Debug, Structural)]
pub struct FaceVertex {
    pub x: i32,
    pub y: i32,
    pub z: i32,
    pub tile_u: u8,
    pub tile_v: u8,
}

/// Geometry of one region: a flat vertex list and a flat triangle index
/// list, six indices (two triangles) per quad, each index referring to
/// this batch's own vertex list.
#[derive(Debug)]
pub struct SurfaceBatch {
    pub vertices: Vec<FaceVertex>,
    pub indices: Vec<u32>,
}

/// The four corners of a face, in quad order. The block at cell
/// `(x, y, z)` spans the unit cube from `(x, y, z)` to
/// `(x + 1, y + 1, z + 1)`; each face lists its corners
/// counterclockwise as seen from outside the block.
pub open spec fn spec_face_vertices(f: Face) -> Seq<FaceVertex> {
    let x0 = f.x as int;
    let y0 = f.y as int;
    let z0 = f.z as int;
    let x1 = x0 + 1;
    let y1 = y0 + 1;
    let z1 = z0 + 1;
    let t = spec_atlas_tile(f.btype, f.dir);
    match f.dir {
        FaceDir::XNeg => seq![
            face_vertex(x0, y0, z0, t),
            face_vertex(x0, y0, z1, t),
            face_vertex(x0, y1, z1, t),
            face_vertex(x0, y1, z0, t),
        ],
        FaceDir::XPos => seq![
            face_vertex(x1, y0, z1, t),
            face_vertex(x1, y0, z0, t),
            face_vertex(x1, y1, z0, t),
            face_vertex(x1, y1, z1, t),
        ],
        FaceDir::YNeg => seq![
            face_vertex(x0, y0, z0, t),
            face_vertex(x1, y0, z0, t),
            face_vertex(x1, y0, z1, t),
            face_vertex(x0, y0, z1, t),
        ],
        FaceDir::YPos => seq![
            face_vertex(x0, y1, z1, t),
            face_vertex(x1, y1, z1, t),
            face_vertex(x1, y1, z0, t),
            face_vertex(x0, y1, z0, t),
        ],
        FaceDir::ZNeg => seq![
            face_vertex(x1, y0, z0, t),
            face_vertex(x0, y0, z0, t),
            face_vertex(x0, y1, z0, t),
            face_vertex(x1, y1, z0, t),
        ],
        FaceDir::ZPos => seq![
            face_vertex(x0, y0, z1, t),
            face_vertex(x1, y0, z1, t),
            face_vertex(x1, y1, z1, t),
            face_vertex(x0, y1, z1, t),
        ],
    }
}

/// A vertex at integer corner `(x, y, z)` with atlas tile `t`.
pub open spec fn face_vertex(x: int, y: int, z: int, t: (u8, u8)) -> FaceVertex {
    FaceVertex { x: x as i32, y: y as i32, z: z as i32, tile_u: t.0, tile_v: t.1 }
}

/// The vertices of a face list, four per face, in face order.
pub open spec fn spec_batch_vertices(faces: Seq<Face>) -> Seq<FaceVertex>
    decreases faces.len(),
{
    if faces.len() == 0 {
        Seq::empty()
    } else {
        spec_batch_vertices(faces.drop_last()) + spec_face_vertices(faces.last())
    }
}

/// The six indices of quad `i`: two triangles in the fixed fan pattern
/// 0-1-3, 3-1-2 over the quad's own four vertices.
pub open spec fn spec_face_indices(i: int) -> Seq<u32> {
    seq![
        (4 * i) as u32,
        (4 * i + 1) as u32,
        (4 * i + 3) as u32,
        (4 * i + 3) as u32,
        (4 * i + 1) as u32,
        (4 * i + 2) as u32,
    ]
}

/// The triangle indices of `n` quads, in quad order.
pub open spec fn spec_batch_indices(n: int) -> Seq<u32>
    decreases n,
{
    if n <= 0 {
        Seq::empty()
    } else {
        spec_batch_indices(n - 1) + spec_face_indices(n - 1)
    }
}

/// Four vertices for every face.
pub proof fn lemma_batch_vertices_len(faces: Seq<Face>)
    ensures
        spec_batch_vertices(faces).len() == 4 * faces.len(),
    decreases faces.len(),
{
    if faces.len() > 0 {
        lemma_batch_vertices_len(faces.drop_last());
        assert(spec_face_vertices(faces.last()).len() == 4);
    }
}

/// Six indices for every face.
pub proof fn lemma_batch_indices_len(n: int)
    requires
        0 <= n,
    ensures
        spec_batch_indices(n).len() == 6 * n,
    decreases n,
{
    if n > 0 {
        lemma_batch_indices_len(n - 1);
    }
}

/// Every index of an `n`-quad batch refers to one of its `4 * n` vertices.
pub proof fn lemma_batch_indices_range(n: int)
    requires
        0 <= n,
        4 * n <= 0xFFFF_FFFF,
    ensures
        forall|k: int|
            0 <= k < spec_batch_indices(n).len() ==> (#[trigger] spec_batch_indices(n)[k]
                as int) < 4 * n,
    decreases n,
{
    if n > 0 {
        lemma_batch_indices_range(n - 1);
        lemma_batch_indices_len(n - 1);
        assert forall|k: int|
            0 <= k < spec_batch_indices(n).len() implies (#[trigger] spec_batch_indices(n)[k]
            as int) < 4 * n by {
            if k < 6 * (n - 1) {
                assert(spec_batch_indices(n)[k] == spec_batch_indices(n - 1)[k]);
            } else {
                assert(spec_batch_indices(n)[k] == spec_face_indices(n - 1)[k - 6 * (n - 1)]);
            }
        }
    }
}

fn push_face_vertices(out: &mut Vec<FaceVertex>, f: &Face)
    ensures
        final(out)@ == old(out)@ + spec_face_vertices(*f),
{
    let x0 = f.x as i32;
    let y0 = f.y as i32;
    let z0 = f.z as i32;
    let x1 = x0 + 1;
    let y1 = y0 + 1;
    let z1 = z0 + 1;
    let t = atlas_tile(f.btype, f.dir);
    let ghost base = old(out)@;
    match f.dir {
        FaceDir::XNeg => {
            out.push(FaceVertex { x: x0, y: y0, z: z0, tile_u: t.0, tile_v: t.1 });
            out.push(FaceVertex { x: x0, y: y0, z: z1, tile_u: t.0, tile_v: t.1 });
            out.push(FaceVertex { x: x0, y: y1, z: z1, tile_u: t.0, tile_v: t.1 });
            out.push(FaceVertex { x: x0, y: y1, z: z0, tile_u: t.0, tile_v: t.1 });
        },
        FaceDir::XPos => {
            out.push(FaceVertex { x: x1, y: y0, z: z1, tile_u: t.0, tile_v: t.1 });
            out.push(FaceVertex { x: x1, y: y0, z: z0, tile_u: t.0, tile_v: t.1 });
            out.push(FaceVertex { x: x1, y: y1, z: z0, tile_u: t.0, tile_v: t.1 });
            out.push(FaceVertex { x: x1, y: y1, z: z1, tile_u: t.0, tile_v: t.1 });
        },
        FaceDir::YNeg => {
            out.push(FaceVertex { x: x0, y: y0, z: z0, tile_u: t.0, tile_v: t.1 });
            out.push(FaceVertex { x: x1, y: y0, z: z0, tile_u: t.0, tile_v: t.1 });
            out.push(FaceVertex { x: x1, y: y0, z: z1, tile_u: t.0, tile_v: t.1 });
            out.push(FaceVertex { x: x0, y: y0, z: z1, tile_u: t.0, tile_v: t.1 });
        },
        FaceDir::YPos => {
            out.push(FaceVertex { x: x0, y: y1, z: z1, tile_u: t.0, tile_v: t.1 });
            out.push(FaceVertex { x: x1, y: y1, z: z1, tile_u: t.0, tile_v: t.1 });
            out.push(FaceVertex { x: x1, y: y1, z: z0, tile_u: t.0, tile_v: t.1 });
            out.push(FaceVertex { x: x0, y: y1, z: z0, tile_u: t.0, tile_v: t.1 });
        },
        FaceDir::ZNeg => {
            out.push(FaceVertex { x: x1, y: y0, z: z0, tile_u: t.0, tile_v: t.1 });
            out.push(FaceVertex { x: x0, y: y0, z: z0, tile_u: t.0, tile_v: t.1 });
            out.push(FaceVertex { x: x0, y: y1, z: z0, tile_u: t.0, tile_v: t.1 });
            out.push(FaceVertex { x: x1, y: y1, z: z0, tile_u: t.0, tile_v: t.1 });
        },
        FaceDir::ZPos => {
            out.push(FaceVertex { x: x0, y: y0, z: z1, tile_u: t.0, tile_v: t.1 });
            out.push(FaceVertex { x: x1, y: y0, z: z1, tile_u: t.0, tile_v: t.1 });
            out.push(FaceVertex { x: x1, y: y1, z: z1, tile_u: t.0, tile_v: t.1 });
            out.push(FaceVertex { x: x0, y: y1, z: z1, tile_u: t.0, tile_v: t.1 });
        },
    }
    proof {
        assert(out@ =~= base + spec_face_vertices(*f));
    }
}

/// Merges a face list into one indexed geometry batch: four vertices and
/// six indices per face, indices offset so that each face's triangles
/// reference its own four vertices.
pub fn assemble_batch(faces: &Vec<Face>) -> (batch: SurfaceBatch)
    requires
        faces@.len() <= 0x0FFF_FFFF,
    ensures
        batch.vertices@ == spec_batch_vertices(faces@),
        batch.indices@ == spec_batch_indices(faces@.len() as int),
        batch.vertices@.len() == 4 * faces@.len(),
        batch.indices@.len() == 6 * faces@.len(),
        forall|k: int|
            0 <= k < batch.indices@.len() ==> (#[trigger] batch.indices@[k] as int)
                < batch.vertices@.len(),
{
    let mut vertices: Vec<FaceVertex> = Vec::new();
    let mut indices: Vec<u32> = Vec::new();
    let mut i: usize = 0;
    while i < faces.len()
        invariant
            faces@.len() <= 0x0FFF_FFFF,
            i <= faces@.len(),
            vertices@ == spec_batch_vertices(faces@.take(i as int)),
            indices@ == spec_batch_indices(i as int),
        decreases faces@.len() - i,
    {
        proof {
            assert(faces@.take(i + 1).drop_last() =~= faces@.take(i as int));
            assert(faces@.take(i + 1).last() == faces@[i as int]);
        }
        push_face_vertices(&mut vertices, &faces[i]);
        let base = 4 * i;
        let ghost ibase = indices@;
        indices.push(base as u32);
        indices.push((base + 1) as u32);
        indices.push((base + 3) as u32);
        indices.push((base + 3) as u32);
        indices.push((base + 1) as u32);
        indices.push((base + 2) as u32);
        proof {
            assert(indices@ =~= ibase + spec_face_indices(i as int));
        }
        i = i + 1;
    }
    proof {
        assert(faces@.take(faces@.len() as int) =~= faces@);
        lemma_batch_vertices_len(faces@);
        lemma_batch_indices_len(faces@.len() as int);
        lemma_batch_indices_range(faces@.len() as int);
    }
    SurfaceBatch { vertices, indices }
}

/// The faces of one material, in emission order: the per-material grouping
/// under which a region's geometry is handed to the renderer.
pub fn faces_of_material(faces: &Vec<Face>, b: BlockType) -> (out: Vec<Face>)
    ensures
        out@ == faces@.filter(|f: Face| f.btype == b),
{
    let mut out: Vec<Face> = Vec::new();
    let mut i: usize = 0;
    while i < faces.len()
        invariant
            i <= faces@.len(),
            out@ == faces@.take(i as int).filter(|f: Face| f.btype == b),
        decreases faces@.len() - i,
    {
        proof {
            reveal(Seq::filter);
            assert(faces@.take(i + 1).drop_last() =~= faces@.take(i as int));
            assert(faces@.take(i + 1).last() == faces@[i as int]);
        }
        if faces[i].btype == b {
            out.push(faces[i]);
        }
        i = i + 1;
    }
    proof {
        assert(faces@.take(faces@.len() as int) =~= faces@);
    }
    out
}

proof fn lemma_faces_len_bound(r: Region, n: int)
    requires
        r.wf(),
        0 <= n,
    ensures
        spec_faces_up_to(r, n).len() <= 6 * n,
    decreases n,
{
    if n > 0 {
        lemma_faces_len_bound(r, n - 1);
    }
}

/// Extracts a region's whole surface: face culling followed by batch
/// assembly. The height bound keeps the quad count within the index
/// range; every region built by [`crate::region::generate`] from byte
/// heights obeys it.
pub fn extract_surface(r: &Region) -> (batch: SurfaceBatch)
    requires
        r.wf(),
        r.height <= 256,
    ensures
        batch.vertices@ == spec_batch_vertices(spec_faces(*r)),
        batch.indices@ == spec_batch_indices(spec_faces(*r).len() as int),
        batch.vertices@.len() == 4 * spec_faces(*r).len(),
        batch.indices@.len() == 6 * spec_faces(*r).len(),
{
    let faces = extract_faces(r);
    proof {
        lemma_faces_len_bound(*r, r.blocks@.len() as int);
        assert((r.size as int) * (r.size as int) * (r.height as int) <= 16646400)
            by (nonlinear_arith)
            requires
                r.size <= 255,
                r.height <= 256,
        ;
    }
    assemble_batch(&faces)
}

} // verus!
