//! Chunk meshing: which block faces are drawn, and the vertex, texture
//! corner and light data of each drawn face.
use vstd::prelude::*;
use crate::coords::{Face, face_offset};

verus! {

/// What meshing reads of a block. Two blocks are the same block exactly
/// when their `ident`s are equal.
#[derive(Clone, Copy, Debug)]
pub struct MeshBlock {
    pub ident: u64,
    pub transparent: bool,
    pub semi_transparent: bool,
    pub group_transparent: bool,
    pub no_render: bool,
    pub texture: (usize, usize, usize),
}

/// A chunk and the layer of blocks around it: 18 x 18 x 18 blocks with
/// chunk-local coordinates in `-1..17`, and the block light level of each.
pub struct MeshRegion {
    pub blocks: Vec<MeshBlock>,
    pub light: Vec<u8>,
}

/// The number of blocks in a mesh region.
pub const REGION_LEN: usize = 5832;

impl MeshRegion {
    /// One block and one light level per position of the region.
    pub open spec fn wf(&self) -> bool {
        self.blocks.len() == REGION_LEN && self.light.len() == REGION_LEN
    }
}

/// Where the block with chunk-local coordinates `(x, y, z)` is stored.
pub open spec fn region_index(x: int, y: int, z: int) -> int {
    (x + 1) * 324 + (y + 1) * 18 + (z + 1)
}

/// The block at chunk-local `(x, y, z)`.
pub open spec fn region_block(r: &MeshRegion, x: int, y: int, z: int) -> MeshBlock {
    r.blocks@[region_index(x, y, z)]
}

/// The block light level at chunk-local `(x, y, z)`.
pub open spec fn region_light(r: &MeshRegion, x: int, y: int, z: int) -> u8 {
    r.light@[region_index(x, y, z)]
}

/// The block across face `f` from `(x, y, z)`.
pub open spec fn neighbor_block(r: &MeshRegion, x: int, y: int, z: int, f: Face) -> MeshBlock {
    region_block(r, x + face_offset(f).0, y + face_offset(f).1, z + face_offset(f).2)
}

/// The light level of the block across face `f` from `(x, y, z)`.
pub open spec fn neighbor_light(r: &MeshRegion, x: int, y: int, z: int, f: Face) -> u8 {
    region_light(r, x + face_offset(f).0, y + face_offset(f).1, z + face_offset(f).2)
}

/// The faces of a mesh: 18 vertex coordinates, 12 texture corner
/// selectors (0 for the low and 1 for the high corner of the texture
/// cell, alternating u and v), one texture per face and one light level
/// per vertex.
#[verifier::ext_equal]
pub ghost struct MeshData {
    pub verts: Seq<isize>,
    pub uvs: Seq<u8>,
    pub textures: Seq<usize>,
    pub light: Seq<u8>,
}

/// Every face has 18 vertex coordinates, 12 texture corners and 6 light
/// levels: the vertex, texture and light buffers describe the same
/// vertices.
pub open spec fn well_shaped(m: MeshData) -> bool {
    &&& m.verts.len() == 18 * m.textures.len()
    &&& m.uvs.len() == 12 * m.textures.len()
    &&& m.light.len() == 6 * m.textures.len()
}

/// A mesh with no face.
pub open spec fn mesh_empty() -> MeshData {
    MeshData { verts: Seq::empty(), uvs: Seq::empty(), textures: Seq::empty(), light: Seq::empty() }
}

/// The faces of `a` followed by those of `b`.
pub open spec fn mesh_concat(a: MeshData, b: MeshData) -> MeshData {
    MeshData {
        verts: a.verts + b.verts,
        uvs: a.uvs + b.uvs,
        textures: a.textures + b.textures,
        light: a.light + b.light,
    }
}

/// The two triangles of face `f` of the block at `(x, y, z)`.
pub open spec fn face_verts(f: Face, x: isize, y: isize, z: isize) -> Seq<isize> {
    let (x1, y1, z1) = ((x + 1) as isize, (y + 1) as isize, (z + 1) as isize);
    match f {
        Face::YPos => seq![x, y1, z, x, y1, z1, x1, y1, z, x, y1, z1, x1, y1, z1, x1, y1, z],
        Face::YNeg => seq![x, y, z, x1, y, z, x, y, z1, x, y, z1, x1, y, z, x1, y, z1],
        Face::XNeg => seq![x, y1, z, x, y, z, x, y1, z1, x, y, z, x, y, z1, x, y1, z1],
        Face::XPos => seq![x1, y1, z, x1, y1, z1, x1, y, z, x1, y, z, x1, y1, z1, x1, y, z1],
        Face::ZNeg => seq![x, y, z, x, y1, z, x1, y, z, x1, y, z, x, y1, z, x1, y1, z],
        Face::ZPos => seq![x, y, z1, x1, y, z1, x, y1, z1, x1, y, z1, x1, y1, z1, x, y1, z1],
    }
}

/// The texture corners of the six vertices of face `f`.
pub open spec fn face_uvs(f: Face) -> Seq<u8> {
    match f {
        Face::YPos => seq![0u8, 0, 0, 1, 1, 0, 0, 1, 1, 1, 1, 0],
        Face::XNeg => seq![0u8, 0, 0, 1, 1, 0, 0, 1, 1, 1, 1, 0],
        Face::YNeg => seq![0u8, 0, 1, 0, 0, 1, 0, 1, 1, 0, 1, 1],
        Face::XPos => seq![0u8, 0, 1, 0, 0, 1, 0, 1, 1, 0, 1, 1],
        Face::ZNeg => seq![1u8, 1, 1, 0, 0, 1, 0, 1, 1, 0, 0, 0],
        Face::ZPos => seq![1u8, 1, 0, 1, 1, 0, 0, 1, 0, 0, 1, 0],
    }
}

/// The top texture is on the top face, the bottom texture on the bottom
/// face and the side texture on the four sides.
pub open spec fn face_texture(b: MeshBlock, f: Face) -> usize {
    match f {
        Face::YPos => b.texture.0,
        Face::YNeg => b.texture.2,
        _ => b.texture.1,
    }
}

/// The mesh data of one face.
pub open spec fn face_data(f: Face, x: isize, y: isize, z: isize, tex: usize, light: u8) -> MeshData {
    MeshData {
        verts: face_verts(f, x, y, z),
        uvs: face_uvs(f),
        textures: seq![tex],
        light: seq![light, light, light, light, light, light],
    }
}

/// Buffers that faces are appended to.
pub struct MeshBuffers {
    pub verts: Vec<isize>,
    pub uvs: Vec<u8>,
    pub textures: Vec<usize>,
    pub light: Vec<u8>,
}

impl View for MeshBuffers {
    type V = MeshData;

    open spec fn view(&self) -> MeshData {
        MeshData { verts: self.verts@, uvs: self.uvs@, textures: self.textures@, light: self.light@ }
    }
}

impl MeshBuffers {
    /// Empty buffers.
    pub fn new() -> (r: Self)
        ensures
            r@ == mesh_empty(),
            well_shaped(r@),
    {
        let r = MeshBuffers { verts: Vec::new(), uvs: Vec::new(), textures: Vec::new(), light: Vec::new() };
        assert(r@ =~= mesh_empty());
        r
    }

    /// Appends face `f` of the block at `(x, y, z)`.
    fn push_face(&mut self, f: Face, x: isize, y: isize, z: isize, tex: usize, light: u8)
        requires
            0 <= x < 16,
            0 <= y < 16,
            0 <= z < 16,
        ensures
            final(self)@ == mesh_concat(old(self)@, face_data(f, x, y, z, tex, light)),
            well_shaped(old(self)@) ==> well_shaped(final(self)@),
    {
        let (x1, y1, z1) = (x + 1, y + 1, z + 1);
        let v: [isize; 18] = match f {
            Face::YPos => [x, y1, z, x, y1, z1, x1, y1, z, x, y1, z1, x1, y1, z1, x1, y1, z],
            Face::YNeg => [x, y, z, x1, y, z, x, y, z1, x, y, z1, x1, y, z, x1, y, z1],
            Face::XNeg => [x, y1, z, x, y, z, x, y1, z1, x, y, z, x, y, z1, x, y1, z1],
            Face::XPos => [x1, y1, z, x1, y1, z1, x1, y, z, x1, y, z, x1, y1, z1, x1, y, z1],
            Face::ZNeg => [x, y, z, x, y1, z, x1, y, z, x1, y, z, x, y1, z, x1, y1, z],
            Face::ZPos => [x, y, z1, x1, y, z1, x, y1, z1, x1, y, z1, x1, y1, z1, x, y1, z1],
        };
        let u: [u8; 12] = match f {
            Face::YPos => [0, 0, 0, 1, 1, 0, 0, 1, 1, 1, 1, 0],
            Face::XNeg => [0, 0, 0, 1, 1, 0, 0, 1, 1, 1, 1, 0],
            Face::YNeg => [0, 0, 1, 0, 0, 1, 0, 1, 1, 0, 1, 1],
            Face::XPos => [0, 0, 1, 0, 0, 1, 0, 1, 1, 0, 1, 1],
            Face::ZNeg => [1, 1, 1, 0, 0, 1, 0, 1, 1, 0, 0, 0],
            Face::ZPos => [1, 1, 0, 1, 1, 0, 0, 1, 0, 0, 1, 0],
        };
        assert(v@ =~= face_verts(f, x, y, z));
        assert(u@ =~= face_uvs(f));
        let ghost v0 = self.verts@;
        let mut i: usize = 0;
        while i < 18
            invariant
                0 <= i <= 18,
                self.verts@ == v0 + v@.subrange(0, i as int),
                v0 == old(self).verts@,
                self.uvs@ == old(self).uvs@,
                self.textures@ == old(self).textures@,
                self.light@ == old(self).light@,
            decreases 18 - i,
        {
            self.verts.push(v[i]);
            assert(v@.subrange(0, i + 1) =~= v@.subrange(0, i as int).push(v@[i as int]));
            i += 1;
        }
        assert(v@.subrange(0, 18) =~= v@);
        assert(self.verts@ =~= old(self).verts@ + face_verts(f, x, y, z));
        let ghost u0 = self.uvs@;
        let mut j: usize = 0;
        while j < 12
            invariant
                0 <= j <= 12,
                self.uvs@ == u0 + u@.subrange(0, j as int),
                u0 == old(self).uvs@,
                self.verts@ == old(self).verts@ + face_verts(f, x, y, z),
                self.textures@ == old(self).textures@,
                self.light@ == old(self).light@,
            decreases 12 - j,
        {
            self.uvs.push(u[j]);
            assert(u@.subrange(0, j + 1) =~= u@.subrange(0, j as int).push(u@[j as int]));
            j += 1;
        }
        assert(u@.subrange(0, 12) =~= u@);
        assert(self.uvs@ =~= old(self).uvs@ + face_uvs(f));
        let ghost t0 = self.textures@;
        self.textures.push(tex);
        assert(self.textures@ =~= t0 + seq![tex]);
        let ghost l0 = self.light@;
        let mut k: usize = 0;
        while k < 6
            invariant
                0 <= k <= 6,
                self.light@ == l0 + Seq::new(k as nat, |_i: int| light),
                l0 == old(self).light@,
                self.verts@ == old(self).verts@ + face_verts(f, x, y, z),
                self.uvs@ == old(self).uvs@ + face_uvs(f),
                self.textures@ == old(self).textures@ + seq![tex],
            decreases 6 - k,
        {
            self.light.push(light);
            assert(Seq::new((k + 1) as nat, |_i: int| light) =~= Seq::new(k as nat, |_i: int| light).push(light));
            k += 1;
        }
        assert(Seq::new(6, |_i: int| light) =~= seq![light, light, light, light, light, light]);
        assert(self.verts@ =~= old(self).verts@ + face_verts(f, x, y, z));
        assert(self.uvs@ =~= old(self).uvs@ + face_uvs(f));
        assert(self.light@ =~= old(self).light@ + seq![light, light, light, light, light, light]);
        assert(self@ =~= mesh_concat(old(self)@, face_data(f, x, y, z, tex, light)));
    }
}

} // verus!

verus! {

/// The order in which the faces of a block are meshed.
pub open spec fn mesh_order() -> Seq<Face> {
    seq![Face::YPos, Face::YNeg, Face::XNeg, Face::XPos, Face::ZNeg, Face::ZPos]
}

/// Appending meshes is associative.
pub proof fn lemma_concat_assoc(a: MeshData, b: MeshData, c: MeshData)
    ensures
        mesh_concat(mesh_concat(a, b), c) == mesh_concat(a, mesh_concat(b, c)),
{
    assert((a.verts + b.verts) + c.verts =~= a.verts + (b.verts + c.verts));
    assert((a.uvs + b.uvs) + c.uvs =~= a.uvs + (b.uvs + c.uvs));
    assert((a.textures + b.textures) + c.textures =~= a.textures + (b.textures + c.textures));
    assert((a.light + b.light) + c.light =~= a.light + (b.light + c.light));
}

/// The empty mesh appends nothing.
pub proof fn lemma_concat_empty(a: MeshData)
    ensures
        mesh_concat(a, mesh_empty()) == a,
        mesh_concat(mesh_empty(), a) == a,
{
    assert(a.verts + Seq::<isize>::empty() =~= a.verts);
    assert(a.uvs + Seq::<u8>::empty() =~= a.uvs);
    assert(a.textures + Seq::<usize>::empty() =~= a.textures);
    assert(a.light + Seq::<u8>::empty() =~= a.light);
    assert(Seq::<isize>::empty() + a.verts =~= a.verts);
    assert(Seq::<u8>::empty() + a.uvs =~= a.uvs);
    assert(Seq::<usize>::empty() + a.textures =~= a.textures);
    assert(Seq::<u8>::empty() + a.light =~= a.light);
}

/// Whether face `f` of the block at `(x, y, z)` is drawn: the block across
/// it is transparent and is not the same block in a group that hides its
/// inner faces.
pub open spec fn shows_face(r: &MeshRegion, x: int, y: int, z: int, f: Face) -> bool {
    let b = neighbor_block(r, x, y, z, f);
    b.transparent && !(b.group_transparent && b.ident == region_block(r, x, y, z).ident)
}

/// Face `f` of the block at `(x, y, z)`, lit by the block across it, when
/// it is drawn.
pub open spec fn lit_face(r: &MeshRegion, x: int, y: int, z: int, f: Face) -> MeshData {
    if shows_face(r, x, y, z, f) {
        face_data(
            f,
            x as isize,
            y as isize,
            z as isize,
            face_texture(region_block(r, x, y, z), f),
            neighbor_light(r, x, y, z, f),
        )
    } else {
        mesh_empty()
    }
}

/// Whether the block across face `f` from `(x, y, z)` lies outside the chunk.
pub open spec fn at_border(x: int, y: int, z: int, f: Face) -> bool {
    let (nx, ny, nz) = (x + face_offset(f).0, y + face_offset(f).1, z + face_offset(f).2);
    !(0 <= nx < 16 && 0 <= ny < 16 && 0 <= nz < 16)
}

/// Face `f` of the block at `(x, y, z)` at full light.
pub open spec fn bright_face(r: &MeshRegion, x: int, y: int, z: int, f: Face) -> MeshData {
    face_data(f, x as isize, y as isize, z as isize, face_texture(region_block(r, x, y, z), f), 15u8)
}

/// Face `f` of the block at `(x, y, z)` under one of the meshing rules:
/// rule 0 draws it as `lit_face` does; rule 1, from the chunk alone, draws
/// it at full light when it is on the chunk border or the block across it
/// is transparent; rule 2 draws it at full light when it is inside the
/// chunk and the block across it is transparent.
pub open spec fn rule_face(r: &MeshRegion, x: int, y: int, z: int, f: Face, rule: int) -> MeshData {
    if rule == 0 {
        lit_face(r, x, y, z, f)
    } else if rule == 1 {
        if at_border(x, y, z, f) || neighbor_block(r, x, y, z, f).transparent {
            bright_face(r, x, y, z, f)
        } else {
            mesh_empty()
        }
    } else {
        if !at_border(x, y, z, f) && neighbor_block(r, x, y, z, f).transparent {
            bright_face(r, x, y, z, f)
        } else {
            mesh_empty()
        }
    }
}

/// The first `k` faces, in mesh order, of the block at `(x, y, z)` under a rule.
pub open spec fn rule_faces(r: &MeshRegion, x: int, y: int, z: int, k: int, rule: int) -> MeshData
    decreases k,
{
    if k <= 0 {
        mesh_empty()
    } else {
        mesh_concat(rule_faces(r, x, y, z, k - 1, rule), rule_face(r, x, y, z, mesh_order()[k - 1], rule))
    }
}

/// The drawn faces of the block at `(x, y, z)` under a rule; none when it
/// is not rendered.
pub open spec fn rule_cell(r: &MeshRegion, x: int, y: int, z: int, rule: int) -> MeshData {
    if region_block(r, x, y, z).no_render {
        mesh_empty()
    } else {
        rule_faces(r, x, y, z, 6, rule)
    }
}

/// The drawn faces of the block at `(x, y, z)`, lit by their neighbours.
pub open spec fn lit_cell(r: &MeshRegion, x: int, y: int, z: int) -> MeshData {
    rule_cell(r, x, y, z, 0)
}

/// The chunk-local coordinates of the `n`-th block of a chunk, x slowest.
pub open spec fn cell_of(n: int) -> (int, int, int) {
    (n / 256, (n / 16) % 16, n % 16)
}

/// Numbering the cells `x` slowest and `z` fastest is undone by `cell_of`.
pub proof fn lemma_cell_of(x: int, y: int, z: int)
    requires
        0 <= x < 16,
        0 <= y < 16,
        0 <= z < 16,
    ensures
        cell_of(x * 256 + y * 16 + z) == (x, y, z),
{
    assert((x * 256 + y * 16 + z) / 256 == x) by (nonlinear_arith)
        requires
            0 <= x < 16,
            0 <= y < 16,
            0 <= z < 16,
    ;
    assert((x * 256 + y * 16 + z) / 16 == x * 16 + y) by (nonlinear_arith)
        requires
            0 <= x < 16,
            0 <= y < 16,
            0 <= z < 16,
    ;
    assert((x * 16 + y) % 16 == y) by (nonlinear_arith)
        requires
            0 <= x < 16,
            0 <= y < 16,
    ;
    assert((x * 256 + y * 16 + z) % 16 == z) by (nonlinear_arith)
        requires
            0 <= x < 16,
            0 <= y < 16,
            0 <= z < 16,
    ;
}

/// The faces of the first `n` blocks of the chunk whose semi-transparency
/// is `semi`, lit by their neighbours.
pub open spec fn lit_mesh(r: &MeshRegion, n: int, semi: bool) -> MeshData
    decreases n,
{
    if n <= 0 {
        mesh_empty()
    } else {
        let (x, y, z) = cell_of(n - 1);
        let prev = lit_mesh(r, n - 1, semi);
        if region_block(r, x, y, z).semi_transparent == semi {
            mesh_concat(prev, lit_cell(r, x, y, z))
        } else {
            prev
        }
    }
}

/// Face `j` of mesh `m` is face `f` of the rendered block at chunk-local
/// `(x, y, z)`, whose semi-transparency is `semi`: the block across the
/// face lets it show, its vertices are those of that face, its texture is
/// the block's texture for that face, and each of its six vertices has the
/// block light level of the block across the face.
pub open spec fn face_of_cell(
    r: &MeshRegion,
    m: MeshData,
    j: int,
    semi: bool,
    x: int,
    y: int,
    z: int,
    f: Face,
) -> bool {
    &&& 0 <= x < 16 && 0 <= y < 16 && 0 <= z < 16
    &&& !region_block(r, x, y, z).no_render
    &&& region_block(r, x, y, z).semi_transparent == semi
    &&& shows_face(r, x, y, z, f)
    &&& m.verts.subrange(18 * j, 18 * j + 18) == face_verts(f, x as isize, y as isize, z as isize)
    &&& m.textures[j] == face_texture(region_block(r, x, y, z), f)
    &&& ({
        let l = region_light(r, x + face_offset(f).0, y + face_offset(f).1, z + face_offset(f).2);
        m.light.subrange(6 * j, 6 * j + 6) == seq![l, l, l, l, l, l]
    })
}

/// Face `j` of `m` is a face of some rendered block of the chunk, as
/// `face_of_cell` describes.
pub open spec fn face_drawn_lit(r: &MeshRegion, m: MeshData, j: int, semi: bool) -> bool {
    exists|x: int, y: int, z: int, f: Face| #[trigger] face_of_cell(r, m, j, semi, x, y, z, f)
}

/// Every face of `m` is a face of a rendered block of the chunk, with
/// semi-transparency `semi`, that shows, lit on all six vertices by the
/// block across it.
pub open spec fn faces_lit_by_neighbours(r: &MeshRegion, m: MeshData, semi: bool) -> bool {
    &&& well_shaped(m)
    &&& forall|j: int| 0 <= j < m.textures.len() ==> #[trigger] face_drawn_lit(r, m, j, semi)
}

/// Appending keeps every face a lit face of a block.
proof fn lemma_concat_lit(r: &MeshRegion, a: MeshData, b: MeshData, semi: bool)
    requires
        faces_lit_by_neighbours(r, a, semi),
        faces_lit_by_neighbours(r, b, semi),
    ensures
        faces_lit_by_neighbours(r, mesh_concat(a, b), semi),
{
    let c = mesh_concat(a, b);
    let na = a.textures.len() as int;
    assert forall|j: int| 0 <= j < c.textures.len() implies #[trigger] face_drawn_lit(r, c, j, semi) by {
        if j < na {
            assert(face_drawn_lit(r, a, j, semi));
            let (x, y, z, f) = choose|x: int, y: int, z: int, f: Face| #[trigger] face_of_cell(r, a, j, semi, x, y, z, f);
            assert(c.verts.subrange(18 * j, 18 * j + 18) =~= a.verts.subrange(18 * j, 18 * j + 18));
            assert(c.light.subrange(6 * j, 6 * j + 6) =~= a.light.subrange(6 * j, 6 * j + 6));
            assert(face_of_cell(r, c, j, semi, x, y, z, f));
        } else {
            let jb = j - na;
            assert(face_drawn_lit(r, b, jb, semi));
            let (x, y, z, f) = choose|x: int, y: int, z: int, f: Face| #[trigger] face_of_cell(r, b, jb, semi, x, y, z, f);
            assert(c.verts.subrange(18 * j, 18 * j + 18) =~= b.verts.subrange(18 * jb, 18 * jb + 18));
            assert(c.light.subrange(6 * j, 6 * j + 6) =~= b.light.subrange(6 * jb, 6 * jb + 6));
            assert(c.textures[j] == b.textures[jb]);
            assert(face_of_cell(r, c, j, semi, x, y, z, f));
        }
    }
}

/// The faces of one block, taken under the lit rule, are lit by the
/// blocks across them.
proof fn lemma_faces_lit(r: &MeshRegion, x: int, y: int, z: int, k: int, semi: bool)
    requires
        0 <= x < 16 && 0 <= y < 16 && 0 <= z < 16,
        !region_block(r, x, y, z).no_render,
        region_block(r, x, y, z).semi_transparent == semi,
        0 <= k <= 6,
    ensures
        faces_lit_by_neighbours(r, rule_faces(r, x, y, z, k, 0), semi),
    decreases k,
{
    if k > 0 {
        lemma_faces_lit(r, x, y, z, k - 1, semi);
        let f = mesh_order()[k - 1];
        let m = lit_face(r, x, y, z, f);
        if shows_face(r, x, y, z, f) {
            assert(m.verts.subrange(0, 18) =~= m.verts);
            assert(m.light.subrange(0, 6) =~= m.light);
            assert(face_of_cell(r, m, 0, semi, x, y, z, f));
            assert(face_drawn_lit(r, m, 0, semi));
        }
        assert(faces_lit_by_neighbours(r, m, semi));
        lemma_concat_lit(r, rule_faces(r, x, y, z, k - 1, 0), m, semi);
    }
}

/// Every face that meshing a chunk draws, in either buffer, is a face of a
/// rendered block of the chunk that shows, lit on all six vertices by the
/// block light level of the block across that face.
pub proof fn lemma_mesh_lit_by_neighbours(r: &MeshRegion, n: int, semi: bool)
    requires
        0 <= n <= 4096,
    ensures
        faces_lit_by_neighbours(r, lit_mesh(r, n, semi), semi),
    decreases n,
{
    if n > 0 {
        lemma_mesh_lit_by_neighbours(r, n - 1, semi);
        let c = n - 1;
        assert(0 <= c / 256 < 16 && 0 <= (c / 16) % 16 < 16 && 0 <= c % 16 < 16) by (nonlinear_arith)
            requires
                0 <= c < 4096,
        ;
        let (x, y, z) = cell_of(c);
        if region_block(r, x, y, z).semi_transparent == semi {
            if !region_block(r, x, y, z).no_render {
                lemma_faces_lit(r, x, y, z, 6, semi);
            }
            lemma_concat_lit(r, lit_mesh(r, n - 1, semi), lit_cell(r, x, y, z), semi);
        }
    }
}

/// Face `f` of the block at `(x, y, z)` is one of the faces of `m`.
pub open spec fn face_in_mesh(r: &MeshRegion, m: MeshData, semi: bool, x: int, y: int, z: int, f: Face) -> bool {
    exists|j: int| 0 <= j < m.textures.len() && #[trigger] face_of_cell(r, m, j, semi, x, y, z, f)
}

/// Every face that shows, of every rendered block among the first `n`
/// blocks of the chunk whose semi-transparency is `semi`, is a face of `m`.
pub open spec fn shown_faces_drawn(r: &MeshRegion, m: MeshData, semi: bool, n: int) -> bool {
    forall|x: int, y: int, z: int, f: Face|
        0 <= x < 16 && 0 <= y < 16 && 0 <= z < 16 && x * 256 + y * 16 + z < n && !region_block(
            r,
            x,
            y,
            z,
        ).no_render && region_block(r, x, y, z).semi_transparent == semi && #[trigger] shows_face(r, x, y, z, f)
            ==> face_in_mesh(r, m, semi, x, y, z, f)
}

/// A face of `a` stays a face once `b` is appended, and a face of `b`
/// becomes one.
proof fn lemma_concat_keeps_faces(
    r: &MeshRegion,
    a: MeshData,
    b: MeshData,
    semi: bool,
    x: int,
    y: int,
    z: int,
    f: Face,
)
    requires
        well_shaped(a),
        well_shaped(b),
        face_in_mesh(r, a, semi, x, y, z, f) || face_in_mesh(r, b, semi, x, y, z, f),
    ensures
        face_in_mesh(r, mesh_concat(a, b), semi, x, y, z, f),
{
    let c = mesh_concat(a, b);
    let na = a.textures.len() as int;
    if face_in_mesh(r, a, semi, x, y, z, f) {
        let j = choose|j: int| 0 <= j < a.textures.len() && #[trigger] face_of_cell(r, a, j, semi, x, y, z, f);
        assert(c.verts.subrange(18 * j, 18 * j + 18) =~= a.verts.subrange(18 * j, 18 * j + 18));
        assert(c.light.subrange(6 * j, 6 * j + 6) =~= a.light.subrange(6 * j, 6 * j + 6));
        assert(face_of_cell(r, c, j, semi, x, y, z, f));
    } else {
        let jb = choose|j: int| 0 <= j < b.textures.len() && #[trigger] face_of_cell(r, b, j, semi, x, y, z, f);
        let j = na + jb;
        assert(c.verts.subrange(18 * j, 18 * j + 18) =~= b.verts.subrange(18 * jb, 18 * jb + 18));
        assert(c.light.subrange(6 * j, 6 * j + 6) =~= b.light.subrange(6 * jb, 6 * jb + 6));
        assert(c.textures[j] == b.textures[jb]);
        assert(face_of_cell(r, c, j, semi, x, y, z, f));
    }
}

/// Each of the first `k` faces, in mesh order, of a rendered block that
/// shows is among the faces meshed for it.
proof fn lemma_faces_drawn(r: &MeshRegion, x: int, y: int, z: int, k: int, semi: bool, i: int)
    requires
        0 <= x < 16 && 0 <= y < 16 && 0 <= z < 16,
        !region_block(r, x, y, z).no_render,
        region_block(r, x, y, z).semi_transparent == semi,
        0 <= i < k <= 6,
        shows_face(r, x, y, z, mesh_order()[i]),
    ensures
        face_in_mesh(r, rule_faces(r, x, y, z, k, 0), semi, x, y, z, mesh_order()[i]),
    decreases k,
{
    let f = mesh_order()[i];
    let g = mesh_order()[k - 1];
    let m = lit_face(r, x, y, z, g);
    lemma_faces_lit(r, x, y, z, k - 1, semi);
    lemma_faces_lit(r, x, y, z, k, semi);
    assert(faces_lit_by_neighbours(r, m, semi)) by {
        if shows_face(r, x, y, z, g) {
            assert(m.verts.subrange(0, 18) =~= m.verts);
            assert(m.light.subrange(0, 6) =~= m.light);
            assert(face_of_cell(r, m, 0, semi, x, y, z, g));
            assert(face_drawn_lit(r, m, 0, semi));
        }
    }
    if i == k - 1 {
        assert(m.verts.subrange(0, 18) =~= m.verts);
        assert(m.light.subrange(0, 6) =~= m.light);
        assert(face_of_cell(r, m, 0, semi, x, y, z, f));
        lemma_concat_keeps_faces(r, rule_faces(r, x, y, z, k - 1, 0), m, semi, x, y, z, f);
    } else {
        lemma_faces_drawn(r, x, y, z, k - 1, semi, i);
        lemma_concat_keeps_faces(r, rule_faces(r, x, y, z, k - 1, 0), m, semi, x, y, z, f);
    }
}

/// Every face in mesh order is one of the six faces.
proof fn lemma_mesh_order_all(f: Face)
    ensures
        exists|i: int| 0 <= i < 6 && #[trigger] mesh_order()[i] == f,
{
    match f {
        Face::YPos => assert(mesh_order()[0] == f),
        Face::YNeg => assert(mesh_order()[1] == f),
        Face::XNeg => assert(mesh_order()[2] == f),
        Face::XPos => assert(mesh_order()[3] == f),
        Face::ZNeg => assert(mesh_order()[4] == f),
        Face::ZPos => assert(mesh_order()[5] == f),
    }
}

/// Meshing a chunk draws every face that shows: each face of a rendered
/// block of the chunk whose block across lets it show is among the faces
/// of the buffer for the block's semi-transparency.
pub proof fn lemma_mesh_draws_shown_faces(r: &MeshRegion, n: int, semi: bool)
    requires
        0 <= n <= 4096,
    ensures
        shown_faces_drawn(r, lit_mesh(r, n, semi), semi, n),
    decreases n,
{
    if n > 0 {
        lemma_mesh_draws_shown_faces(r, n - 1, semi);
        lemma_mesh_lit_by_neighbours(r, n - 1, semi);
        let c = n - 1;
        assert(0 <= c / 256 < 16 && 0 <= (c / 16) % 16 < 16 && 0 <= c % 16 < 16) by (nonlinear_arith)
            requires
                0 <= c < 4096,
        ;
        assert(c / 256 * 256 + (c / 16) % 16 * 16 + c % 16 == c) by (nonlinear_arith)
            requires
                0 <= c < 4096,
        ;
        let (cx, cy, cz) = cell_of(c);
        let prev = lit_mesh(r, n - 1, semi);
        let cell = lit_cell(r, cx, cy, cz);
        let here = region_block(r, cx, cy, cz).semi_transparent == semi;
        if here && !region_block(r, cx, cy, cz).no_render {
            lemma_faces_lit(r, cx, cy, cz, 6, semi);
        }
        assert forall|x: int, y: int, z: int, f: Face|
            0 <= x < 16 && 0 <= y < 16 && 0 <= z < 16 && x * 256 + y * 16 + z < n && !region_block(
                r,
                x,
                y,
                z,
            ).no_render && region_block(r, x, y, z).semi_transparent == semi && #[trigger] shows_face(
                r,
                x,
                y,
                z,
                f,
            ) implies face_in_mesh(r, lit_mesh(r, n, semi), semi, x, y, z, f) by {
            if x * 256 + y * 16 + z < c {
                if here {
                    lemma_concat_keeps_faces(r, prev, cell, semi, x, y, z, f);
                }
            } else {
                lemma_cell_of(x, y, z);
                assert(x == cx && y == cy && z == cz);
                lemma_mesh_order_all(f);
                let i = choose|i: int| 0 <= i < 6 && #[trigger] mesh_order()[i] == f;
                lemma_faces_drawn(r, x, y, z, 6, semi, i);
                lemma_concat_keeps_faces(r, prev, cell, semi, x, y, z, f);
            }
        }
    }
}

/// The unit offset of a face.
fn face_step(f: Face) -> (r: (isize, isize, isize))
    ensures
        r.0 as int == face_offset(f).0,
        r.1 as int == face_offset(f).1,
        r.2 as int == face_offset(f).2,
{
    match f {
        Face::XPos => (1, 0, 0),
        Face::XNeg => (-1, 0, 0),
        Face::YPos => (0, 1, 0),
        Face::YNeg => (0, -1, 0),
        Face::ZPos => (0, 0, 1),
        Face::ZNeg => (0, 0, -1),
    }
}

/// The faces in the order meshing visits them.
fn mesh_faces_in_order() -> (r: [Face; 6])
    ensures
        r@ == mesh_order(),
{
    let r = [Face::YPos, Face::YNeg, Face::XNeg, Face::XPos, Face::ZNeg, Face::ZPos];
    assert(r@ =~= mesh_order());
    r
}

/// Where the block at chunk-local `(x, y, z)` is stored, for coordinates in `-1..17`.
fn region_at(x: isize, y: isize, z: isize) -> (r: usize)
    requires
        -1 <= x <= 16,
        -1 <= y <= 16,
        -1 <= z <= 16,
    ensures
        r as int == region_index(x as int, y as int, z as int),
        r < REGION_LEN,
{
    ((x + 1) * 324 + (y + 1) * 18 + (z + 1)) as usize
}

/// Appends the drawn faces of the block at `(x, y, z)`.
fn mesh_cell(r: &MeshRegion, x: isize, y: isize, z: isize, rule: u8, buf: &mut MeshBuffers)
    requires
        r.wf(),
        0 <= x < 16,
        0 <= y < 16,
        0 <= z < 16,
        rule <= 2,
    ensures
        final(buf)@ == mesh_concat(old(buf)@, rule_cell(r, x as int, y as int, z as int, rule as int)),
        well_shaped(old(buf)@) ==> well_shaped(final(buf)@),
{
    let block = r.blocks[region_at(x, y, z)];
    if block.no_render {
        proof {
            lemma_concat_empty(buf@);
        }
        return;
    }
    let order = mesh_faces_in_order();
    proof {
        lemma_concat_empty(buf@);
    }
    let mut k: usize = 0;
    while k < 6
        invariant
            0 <= k <= 6,
            r.wf(),
            0 <= x < 16,
            0 <= y < 16,
            0 <= z < 16,
            block == region_block(r, x as int, y as int, z as int),
            order@ == mesh_order(),
            rule <= 2,
            buf@ == mesh_concat(old(buf)@, rule_faces(r, x as int, y as int, z as int, k as int, rule as int)),
            well_shaped(old(buf)@) ==> well_shaped(buf@),
        decreases 6 - k,
    {
        let f = order[k];
        let (dx, dy, dz) = face_step(f);
        let ni = region_at(x + dx, y + dy, z + dz);
        let nb = r.blocks[ni];
        let inside = 0 <= x + dx && x + dx < 16 && 0 <= y + dy && y + dy < 16 && 0 <= z + dz && z + dz < 16;
        let show = if rule == 0 {
            nb.transparent && !(nb.group_transparent && nb.ident == block.ident)
        } else if rule == 1 {
            !inside || nb.transparent
        } else {
            inside && nb.transparent
        };
        if show {
            let tex = match f {
                Face::YPos => block.texture.0,
                Face::YNeg => block.texture.2,
                _ => block.texture.1,
            };
            let light = if rule == 0 {
                r.light[ni]
            } else {
                15
            };
            buf.push_face(f, x, y, z, tex, light);
        } else {
            proof {
                lemma_concat_empty(buf@);
            }
        }
        proof {
            lemma_concat_assoc(
                old(buf)@,
                rule_faces(r, x as int, y as int, z as int, k as int, rule as int),
                rule_face(r, x as int, y as int, z as int, f, rule as int),
            );
        }
        k += 1;
    }
}

/// Meshes a chunk: for each block of the chunk (x slowest, z fastest) that
/// is rendered, each of its faces, in the order top, bottom, -x, +x, -z,
/// +z, is drawn when the block across it is transparent and is not the
/// same block in a group that hides its inner faces. Each drawn face is
/// lit by the block light level of the block across it. Faces of
/// semi-transparent blocks go to the second buffers, the others to the first.
pub fn make_mesh(r: &MeshRegion) -> (res: (MeshBuffers, MeshBuffers))
    requires
        r.wf(),
    ensures
        res.0@ == lit_mesh(r, 4096, false),
        res.1@ == lit_mesh(r, 4096, true),
        well_shaped(res.0@),
        well_shaped(res.1@),
        faces_lit_by_neighbours(r, res.0@, false),
        faces_lit_by_neighbours(r, res.1@, true),
        shown_faces_drawn(r, res.0@, false, 4096),
        shown_faces_drawn(r, res.1@, true, 4096),
{
    proof {
        lemma_mesh_lit_by_neighbours(r, 4096, false);
        lemma_mesh_lit_by_neighbours(r, 4096, true);
        lemma_mesh_draws_shown_faces(r, 4096, false);
        lemma_mesh_draws_shown_faces(r, 4096, true);
    }
    let mut opaque = MeshBuffers::new();
    let mut semi = MeshBuffers::new();
    let mut x: isize = 0;
    while x < 16
        invariant
            0 <= x <= 16,
            r.wf(),
            opaque@ == lit_mesh(r, x * 256, false),
            well_shaped(opaque@),
            well_shaped(semi@),
            semi@ == lit_mesh(r, x * 256, true),
        decreases 16 - x,
    {
        let mut y: isize = 0;
        while y < 16
            invariant
                0 <= x < 16,
                0 <= y <= 16,
                r.wf(),
                opaque@ == lit_mesh(r, x * 256 + y * 16, false),
                well_shaped(opaque@),
                well_shaped(semi@),
                semi@ == lit_mesh(r, x * 256 + y * 16, true),
            decreases 16 - y,
        {
            let mut z: isize = 0;
            while z < 16
                invariant
                    0 <= x < 16,
                    0 <= y < 16,
                    0 <= z <= 16,
                    r.wf(),
                    opaque@ == lit_mesh(r, x * 256 + y * 16 + z, false),
                    well_shaped(opaque@),
                    well_shaped(semi@),
                    semi@ == lit_mesh(r, x * 256 + y * 16 + z, true),
                decreases 16 - z,
            {
                proof {
                    lemma_cell_of(x as int, y as int, z as int);
                }
                let block = r.blocks[region_at(x, y, z)];
                if block.semi_transparent {
                    mesh_cell(r, x, y, z, 0, &mut semi);
                } else {
                    mesh_cell(r, x, y, z, 0, &mut opaque);
                }
                z += 1;
            }
            y += 1;
        }
        x += 1;
    }
    (opaque, semi)
}

} // verus!

verus! {

/// The faces of the first `n` blocks of the chunk under a rule.
pub open spec fn rule_mesh(r: &MeshRegion, n: int, rule: int) -> MeshData
    decreases n,
{
    if n <= 0 {
        mesh_empty()
    } else {
        let (x, y, z) = cell_of(n - 1);
        mesh_concat(rule_mesh(r, n - 1, rule), rule_cell(r, x, y, z, rule))
    }
}

/// Appends the faces of all blocks of the chunk under a rule.
fn mesh_chunk_cells(r: &MeshRegion, rule: u8, buf: &mut MeshBuffers)
    requires
        r.wf(),
        rule <= 2,
    ensures
        final(buf)@ == mesh_concat(old(buf)@, rule_mesh(r, 4096, rule as int)),
        well_shaped(old(buf)@) ==> well_shaped(final(buf)@),
{
    proof {
        lemma_concat_empty(buf@);
    }
    let mut x: isize = 0;
    while x < 16
        invariant
            0 <= x <= 16,
            r.wf(),
            rule <= 2,
            buf@ == mesh_concat(old(buf)@, rule_mesh(r, x * 256, rule as int)),
            well_shaped(old(buf)@) ==> well_shaped(buf@),
        decreases 16 - x,
    {
        let mut y: isize = 0;
        while y < 16
            invariant
                0 <= x < 16,
                0 <= y <= 16,
                r.wf(),
                rule <= 2,
                buf@ == mesh_concat(old(buf)@, rule_mesh(r, x * 256 + y * 16, rule as int)),
                well_shaped(old(buf)@) ==> well_shaped(buf@),
            decreases 16 - y,
        {
            let mut z: isize = 0;
            while z < 16
                invariant
                    0 <= x < 16,
                    0 <= y < 16,
                    0 <= z <= 16,
                    r.wf(),
                    rule <= 2,
                    buf@ == mesh_concat(old(buf)@, rule_mesh(r, x * 256 + y * 16 + z, rule as int)),
                    well_shaped(old(buf)@) ==> well_shaped(buf@),
                decreases 16 - z,
            {
                proof {
                    lemma_cell_of(x as int, y as int, z as int);
                    lemma_concat_assoc(
                        old(buf)@,
                        rule_mesh(r, x * 256 + y * 16 + z, rule as int),
                        rule_cell(r, x as int, y as int, z as int, rule as int),
                    );
                }
                mesh_cell(r, x, y, z, rule, buf);
                z += 1;
            }
            y += 1;
        }
        x += 1;
    }
}

/// Meshes a chunk from its own blocks alone: for each rendered block (x
/// slowest, z fastest), each face in the order top, bottom, -x, +x, -z, +z
/// is drawn at full light when it is on the chunk border or the block
/// across it is transparent.
pub fn make_mesh_old(r: &MeshRegion) -> (res: MeshBuffers)
    requires
        r.wf(),
    ensures
        res@ == rule_mesh(r, 4096, 1),
        well_shaped(res@),
{
    let mut buf = MeshBuffers::new();
    mesh_chunk_cells(r, 1, &mut buf);
    proof {
        lemma_concat_empty(rule_mesh(r, 4096, 1));
    }
    buf
}

/// Face `f` of the block at `(x, y, z)` at full light when the block is
/// rendered and the block across `f` is transparent.
pub open spec fn border_face(r: &MeshRegion, x: int, y: int, z: int, f: Face) -> MeshData {
    if !region_block(r, x, y, z).no_render && neighbor_block(r, x, y, z, f).transparent {
        bright_face(r, x, y, z, f)
    } else {
        mesh_empty()
    }
}

/// The two border faces visited at step `(a, b)` of a border pass: pass 0
/// visits the top face of `(a, 15, b)` and the bottom face of `(a, 0, b)`;
/// pass 1 the +z face of `(a, b, 15)` and the -z face of `(a, b, 0)`; pass
/// 2 the +x face of `(15, a, b)` and the -x face of `(0, a, b)`.
pub open spec fn border_pair(r: &MeshRegion, pass: int, a: int, b: int) -> MeshData {
    if pass == 0 {
        mesh_concat(border_face(r, a, 15, b, Face::YPos), border_face(r, a, 0, b, Face::YNeg))
    } else if pass == 1 {
        mesh_concat(border_face(r, a, b, 15, Face::ZPos), border_face(r, a, b, 0, Face::ZNeg))
    } else {
        mesh_concat(border_face(r, 15, a, b, Face::XPos), border_face(r, 0, a, b, Face::XNeg))
    }
}

/// The faces of the first `n` steps of a border pass, `a` slowest.
pub open spec fn border_mesh(r: &MeshRegion, pass: int, n: int) -> MeshData
    decreases n,
{
    if n <= 0 {
        mesh_empty()
    } else {
        mesh_concat(border_mesh(r, pass, n - 1), border_pair(r, pass, (n - 1) / 16, (n - 1) % 16))
    }
}

/// The mesh of a chunk that reads its neighbouring chunks at its faces:
/// the three border passes, then the faces inside the chunk.
pub open spec fn hybrid_mesh(r: &MeshRegion) -> MeshData {
    mesh_concat(
        mesh_concat(mesh_concat(border_mesh(r, 0, 256), border_mesh(r, 1, 256)), border_mesh(r, 2, 256)),
        rule_mesh(r, 4096, 2),
    )
}

/// Appends face `f` of the block at `(x, y, z)` when it is drawn on the
/// chunk border.
fn mesh_border_face(r: &MeshRegion, x: isize, y: isize, z: isize, f: Face, buf: &mut MeshBuffers)
    requires
        r.wf(),
        0 <= x < 16,
        0 <= y < 16,
        0 <= z < 16,
    ensures
        final(buf)@ == mesh_concat(old(buf)@, border_face(r, x as int, y as int, z as int, f)),
        well_shaped(old(buf)@) ==> well_shaped(final(buf)@),
{
    let block = r.blocks[region_at(x, y, z)];
    let (dx, dy, dz) = face_step(f);
    let nb = r.blocks[region_at(x + dx, y + dy, z + dz)];
    if !block.no_render && nb.transparent {
        let tex = match f {
            Face::YPos => block.texture.0,
            Face::YNeg => block.texture.2,
            _ => block.texture.1,
        };
        buf.push_face(f, x, y, z, tex, 15);
    } else {
        proof {
            lemma_concat_empty(buf@);
        }
    }
}

/// Numbering two coordinates below 16 as `a * 16 + b` is undone by
/// division and remainder.
proof fn lemma_pair_of(a: int, b: int)
    requires
        0 <= a < 16,
        0 <= b < 16,
    ensures
        (a * 16 + b) / 16 == a,
        (a * 16 + b) % 16 == b,
{
    assert((a * 16 + b) / 16 == a) by (nonlinear_arith)
        requires
            0 <= a < 16,
            0 <= b < 16,
    ;
    assert((a * 16 + b) % 16 == b) by (nonlinear_arith)
        requires
            0 <= a < 16,
            0 <= b < 16,
    ;
}

/// Appends the faces of one border pass.
fn mesh_border_pass(r: &MeshRegion, pass: u8, buf: &mut MeshBuffers)
    requires
        r.wf(),
        pass <= 2,
    ensures
        final(buf)@ == mesh_concat(old(buf)@, border_mesh(r, pass as int, 256)),
        well_shaped(old(buf)@) ==> well_shaped(final(buf)@),
{
    proof {
        lemma_concat_empty(buf@);
    }
    let mut a: isize = 0;
    while a < 16
        invariant
            0 <= a <= 16,
            r.wf(),
            pass <= 2,
            buf@ == mesh_concat(old(buf)@, border_mesh(r, pass as int, a * 16)),
            well_shaped(old(buf)@) ==> well_shaped(buf@),
        decreases 16 - a,
    {
        let mut b: isize = 0;
        while b < 16
            invariant
                0 <= a < 16,
                0 <= b <= 16,
                r.wf(),
                pass <= 2,
                buf@ == mesh_concat(old(buf)@, border_mesh(r, pass as int, a * 16 + b)),
                well_shaped(old(buf)@) ==> well_shaped(buf@),
            decreases 16 - b,
        {
            proof {
                lemma_pair_of(a as int, b as int);
            }
            let ghost before = buf@;
            if pass == 0 {
                mesh_border_face(r, a, 15, b, Face::YPos, buf);
                mesh_border_face(r, a, 0, b, Face::YNeg, buf);
            } else if pass == 1 {
                mesh_border_face(r, a, b, 15, Face::ZPos, buf);
                mesh_border_face(r, a, b, 0, Face::ZNeg, buf);
            } else {
                mesh_border_face(r, 15, a, b, Face::XPos, buf);
                mesh_border_face(r, 0, a, b, Face::XNeg, buf);
            }
            proof {
                let p = border_pair(r, pass as int, a as int, b as int);
                let prev = border_mesh(r, pass as int, a * 16 + b);
                if pass == 0 {
                    lemma_concat_assoc(
                        before,
                        border_face(r, a as int, 15, b as int, Face::YPos),
                        border_face(r, a as int, 0, b as int, Face::YNeg),
                    );
                } else if pass == 1 {
                    lemma_concat_assoc(
                        before,
                        border_face(r, a as int, b as int, 15, Face::ZPos),
                        border_face(r, a as int, b as int, 0, Face::ZNeg),
                    );
                } else {
                    lemma_concat_assoc(
                        before,
                        border_face(r, 15, a as int, b as int, Face::XPos),
                        border_face(r, 0, a as int, b as int, Face::XNeg),
                    );
                }
                lemma_concat_assoc(old(buf)@, prev, p);
            }
            b += 1;
        }
        a += 1;
    }
}

/// Meshes a chunk reading its neighbouring chunks at its faces, at full
/// light: first the faces on the chunk border, visited in three passes
/// (top and bottom, then +z and -z, then +x and -x) and drawn when the
/// block is rendered and the block across, in the neighbouring chunk, is
/// transparent; then, for each rendered block, its faces inside the chunk
/// whose neighbour is transparent.
pub fn make_mesh_hybrid(r: &MeshRegion) -> (res: MeshBuffers)
    requires
        r.wf(),
    ensures
        res@ == hybrid_mesh(r),
        well_shaped(res@),
{
    let mut buf = MeshBuffers::new();
    proof {
        lemma_concat_empty(border_mesh(r, 0, 256));
    }
    mesh_border_pass(r, 0, &mut buf);
    mesh_border_pass(r, 1, &mut buf);
    mesh_border_pass(r, 2, &mut buf);
    mesh_chunk_cells(r, 2, &mut buf);
    buf
}

} // verus!

verus! {

/// The first `k` faces, in mesh order, of a unit cube at the origin.
pub open spec fn cube_faces(k: int) -> MeshData
    decreases k,
{
    if k <= 0 {
        mesh_empty()
    } else {
        mesh_concat(cube_faces(k - 1), face_data(mesh_order()[k - 1], 0, 0, 0, 0, 15))
    }
}

/// The vertices and the texture corners (0 or 1) of a unit cube at the
/// origin, used to draw a single block: its six faces in mesh order.
pub fn cube_mesh() -> (r: (Vec<isize>, Vec<u8>))
    ensures
        r.0@ == cube_faces(6).verts,
        r.1@ == cube_faces(6).uvs,
        r.0@.len() == 108,
        r.1@.len() == 72,
{
    let order = mesh_faces_in_order();
    let mut buf = MeshBuffers::new();
    let mut k: usize = 0;
    while k < 6
        invariant
            0 <= k <= 6,
            order@ == mesh_order(),
            buf@ == cube_faces(k as int),
            well_shaped(buf@),
            buf.textures@.len() == k,
        decreases 6 - k,
    {
        buf.push_face(order[k], 0, 0, 0, 0, 15);
        k += 1;
    }
    (buf.verts, buf.uvs)
}

} // verus!
