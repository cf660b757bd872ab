//! What a vertex buffer draws: triangles or lines, and how many.
use vstd::prelude::*;

verus! {

/// The primitives a vertex buffer is drawn as.
#[derive(Clone, Copy, Debug, PartialEq, Eq, Structural)]
pub enum RenderKind {
    Triangles,
    Lines,
}

impl RenderKind {
    /// The vertices of one primitive: 3 for a triangle, 2 for a line.
    pub fn vertices_per_primitive(&self) -> (r: i32)
        ensures
            r == match self {
                RenderKind::Triangles => 3i32,
                RenderKind::Lines => 2i32,
            },
    {
        match self {
            RenderKind::Triangles => 3,
            RenderKind::Lines => 2,
        }
    }
}

/// The count given to the draw call of a `kind` buffer that holds
/// `float_count` vertex coordinates (three per vertex). For triangles it is
/// the coordinates divided by 3, the number of vertices drawn. For lines it
/// is the coordinates divided by 2: the game's line buffers hold three
/// coordinates per vertex too, so this count is more vertices than the
/// buffer has.
pub fn draw_count(kind: RenderKind, float_count: i32) -> (r: i32)
    requires
        float_count >= 0,
    ensures
        r == float_count / match kind {
            RenderKind::Triangles => 3i32,
            RenderKind::Lines => 2i32,
        },
{
    float_count / kind.vertices_per_primitive()
}

/// The count a buffer of `float_count` vertex coordinates reports as its
/// triangles: the coordinates divided by 3, which is its number of
/// vertices.
pub fn triangle_count(float_count: i32) -> (r: i32)
    requires
        float_count >= 0,
    ensures
        r == float_count / 3,
{
    float_count / 3
}

/// Whether `verts` vertex coordinates (three per vertex) and `uvs` texture
/// coordinates (two per vertex) describe as many vertices, as a buffer of
/// textured triangles needs.
pub fn counts_match(verts: usize, uvs: usize) -> (r: bool)
    ensures
        r == (verts / 3 == uvs / 2),
{
    verts / 3 == uvs / 2
}

} // verus!
