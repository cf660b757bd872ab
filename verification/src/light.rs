//! Light levels: a packed byte per block, the queues of pending light
//! changes, and flood-fill propagation of block light and sky light.
use vstd::prelude::*;
use crate::coords::{BlockPos, Face, face_offset, face_order};
use std::collections::VecDeque;

verus! {

/// A block's light: the block light level in the low nibble and the
/// sky light level in the high nibble.
#[derive(Clone, Copy, Debug)]
pub struct Light(pub u8);

/// The block light level stored in a light byte.
pub open spec fn block_level(l: Light) -> u8 {
    l.0 & 0xf
}

/// The sky light level stored in a light byte.
pub open spec fn sky_level(l: Light) -> u8 {
    l.0 >> 4u8
}

/// Both nibbles of a byte are at most 15, and a byte is determined by them.
pub proof fn lemma_light_levels(b: u8)
    ensures
        b & 0xf <= 15,
        b >> 4u8 <= 15,
        b == (b & 0xf) | ((b >> 4u8) << 4u8),
{
    assert(b & 0xf <= 15) by (bit_vector);
    assert(b >> 4u8 <= 15) by (bit_vector);
    assert(b == (b & 0xf) | ((b >> 4u8) << 4u8)) by (bit_vector);
}

impl Default for Light {
    fn default() -> (r: Self)
        ensures
            r.0 == 0,
    {
        Light(0)
    }
}

impl Light {
    /// The block light level (the low nibble).
    pub fn block(&self) -> (r: u8)
        ensures
            r == block_level(*self),
            r <= 15,
    {
        proof {
            lemma_light_levels(self.0);
        }
        self.0 & 0xf
    }

    /// Replaces the low nibble by `val`. For `val < 16` the block level
    /// becomes `val` and the sky level is kept.
    pub fn set_block(&mut self, val: u8)
        ensures
            final(self).0 == (old(self).0 & 0xf0) | val,
            val < 16 ==> block_level(*final(self)) == val,
            val < 16 ==> sky_level(*final(self)) == sky_level(*old(self)),
    {
        let b = self.0;
        let n = (b & 0xf0) | val;
        assert(val < 16 ==> n & 0xf == val) by (bit_vector)
            requires
                n == (b & 0xf0) | val,
        ;
        assert(val < 16 ==> n >> 4u8 == b >> 4u8) by (bit_vector)
            requires
                n == (b & 0xf0) | val,
        ;
        self.0 = n;
    }

    /// The sky light level (the high nibble).
    pub fn sky(&self) -> (r: u8)
        ensures
            r == sky_level(*self),
            r <= 15,
    {
        proof {
            lemma_light_levels(self.0);
        }
        self.0 >> 4
    }

    /// Replaces the high nibble by `val` (its low four bits). For `val < 16`
    /// the sky level becomes `val` and the block level is kept.
    pub fn set_sky(&mut self, val: u8)
        ensures
            final(self).0 == (old(self).0 & 0xf) | (val << 4u8),
            val < 16 ==> sky_level(*final(self)) == val,
            val < 16 ==> block_level(*final(self)) == block_level(*old(self)),
    {
        let b = self.0;
        let n = (b & 0xf) | (val << 4u8);
        assert(val < 16 ==> n >> 4u8 == val) by (bit_vector)
            requires
                n == (b & 0xf) | (val << 4u8),
        ;
        assert(val < 16 ==> n & 0xf == b & 0xf) by (bit_vector)
            requires
                n == (b & 0xf) | (val << 4u8),
        ;
        self.0 = n;
    }
}

/// Setting one level and reading the other gives back what was there, and
/// reading the level just set gives back what was written.
pub proof fn lemma_set_then_get(l: Light, v: u8)
    requires
        v < 16,
    ensures
        block_level(Light((l.0 & 0xf0) | v)) == v,
        sky_level(Light((l.0 & 0xf0) | v)) == sky_level(l),
        sky_level(Light((l.0 & 0xf) | (v << 4u8))) == v,
        block_level(Light((l.0 & 0xf) | (v << 4u8))) == block_level(l),
{
    let b = l.0;
    assert(((b & 0xf0) | v) & 0xf == v) by (bit_vector)
        requires
            v < 16,
    ;
    assert(((b & 0xf0) | v) >> 4u8 == b >> 4u8) by (bit_vector)
        requires
            v < 16,
    ;
    assert(((b & 0xf) | (v << 4u8)) >> 4u8 == v) by (bit_vector)
        requires
            v < 16,
    ;
    assert(((b & 0xf) | (v << 4u8)) & 0xf == b & 0xf) by (bit_vector);
}

} // verus!

verus! {

/// Light changes waiting to be propagated: block positions whose light rose
/// (`block`, `sky`), and positions whose light fell, with the level they
/// had before (`block_rem`, `sky_rem`).
#[derive(Debug)]
pub struct LightUpdates {
    pub block: VecDeque<BlockPos>,
    pub block_rem: VecDeque<(BlockPos, u8)>,
    pub sky: VecDeque<BlockPos>,
    pub sky_rem: VecDeque<(BlockPos, u8)>,
}

impl Default for LightUpdates {
    fn default() -> (r: Self)
        ensures
            r.block@.len() == 0,
            r.block_rem@.len() == 0,
            r.sky@.len() == 0,
            r.sky_rem@.len() == 0,
    {
        LightUpdates {
            block: VecDeque::new(),
            block_rem: VecDeque::new(),
            sky: VecDeque::new(),
            sky_rem: VecDeque::new(),
        }
    }
}

/// `after` is `before` with the change of block light at `pos` from `prev`
/// to `new` queued: a fall for removal with its previous level, a rise (or
/// no change) for propagation, and a sky light removal with level 0.
pub open spec fn queued_change(before: LightUpdates, after: LightUpdates, pos: BlockPos, prev: u8, new: u8) -> bool {
    &&& new < prev ==> after.block_rem@ == before.block_rem@.push((pos, prev)) && after.block@ == before.block@
    &&& new >= prev ==> after.block@ == before.block@.push(pos) && after.block_rem@ == before.block_rem@
    &&& after.sky_rem@ == before.sky_rem@.push((pos, 0u8))
    &&& after.sky@ == before.sky@
}

impl LightUpdates {
    /// Records that the block light at `pos` changed from `prev` to `new`:
    /// a fall is queued for removal with its previous level, a rise (or no
    /// change) for propagation. A sky light removal with level 0 is always
    /// queued as well.
    pub fn reg_block(&mut self, pos: &BlockPos, prev: u8, new: u8)
        ensures
            new < prev ==> final(self).block_rem@ == old(self).block_rem@.push((*pos, prev)),
            new < prev ==> final(self).block@ == old(self).block@,
            new >= prev ==> final(self).block@ == old(self).block@.push(*pos),
            new >= prev ==> final(self).block_rem@ == old(self).block_rem@,
            final(self).sky_rem@ == old(self).sky_rem@.push((*pos, 0u8)),
            final(self).sky@ == old(self).sky@,
            queued_change(*old(self), *final(self), *pos, prev, new),
    {
        if new < prev {
            self.block_rem.push_back((*pos, prev));
        } else {
            self.block.push_back(*pos);
        }
        self.sky_rem.push_back((*pos, 0));
    }
}

} // verus!

verus! {

/// A box of loaded blocks in which light is stored and propagated: its
/// lowest corner, its size, and per block (x fastest, then y, then z) the
/// light byte and whether light passes through the block.
pub struct LightVolume {
    pub origin: BlockPos,
    pub size_x: usize,
    pub size_y: usize,
    pub size_z: usize,
    pub light: Vec<Light>,
    pub transparent: Vec<bool>,
}

impl LightVolume {
    /// The vectors hold one entry per block of the box, and every block of
    /// the box has coordinates that fit in an `i32`.
    pub open spec fn wf(&self) -> bool {
        &&& self.light.len() == self.size_x * self.size_y * self.size_z
        &&& self.transparent.len() == self.light.len()
        &&& self.origin.x + self.size_x <= i32::MAX + 1
        &&& self.origin.y + self.size_y <= i32::MAX + 1
        &&& self.origin.z + self.size_z <= i32::MAX + 1
    }

    /// Whether the block at `(x, y, z)` lies in the box.
    pub open spec fn contains(&self, x: int, y: int, z: int) -> bool {
        &&& self.origin.x <= x < self.origin.x + self.size_x
        &&& self.origin.y <= y < self.origin.y + self.size_y
        &&& self.origin.z <= z < self.origin.z + self.size_z
    }

    /// The index in `light` and `transparent` of the block at `(x, y, z)`.
    pub open spec fn index(&self, x: int, y: int, z: int) -> int {
        (x - self.origin.x) + self.size_x * ((y - self.origin.y) + self.size_y * (z - self.origin.z))
    }

    /// The box, size and transparency of `other` are those of `self`.
    pub open spec fn same_shape(&self, other: &LightVolume) -> bool {
        &&& self.origin == other.origin
        &&& self.size_x == other.size_x
        &&& self.size_y == other.size_y
        &&& self.size_z == other.size_z
        &&& self.transparent@ == other.transparent@
        &&& self.light.len() == other.light.len()
    }
}

/// Local coordinates inside the box give an index inside the vectors.
proof fn lemma_index_bounds(lx: int, ly: int, lz: int, sx: int, sy: int, sz: int)
    requires
        0 <= lx < sx,
        0 <= ly < sy,
        0 <= lz < sz,
    ensures
        0 <= ly + sy * lz < sy * sz,
        0 <= lx + sx * (ly + sy * lz) < sx * (sy * sz),
        sx * (sy * sz) == sx * sy * sz,
        sy * lz <= sy * sz,
        sy * sz <= sx * (sy * sz),
        sx * (ly + sy * lz) <= sx * (sy * sz),
{
    assert(sy * lz <= sy * sz) by (nonlinear_arith)
        requires
            0 <= ly < sy,
            0 <= lz < sz,
    ;
    assert(sy * sz <= sx * (sy * sz)) by (nonlinear_arith)
        requires
            0 <= lx < sx,
            0 <= ly < sy,
            0 <= lz < sz,
    ;
    assert(0 <= ly + sy * lz < sy * sz) by (nonlinear_arith)
        requires
            0 <= ly < sy,
            0 <= lz < sz,
    ;
    let m = ly + sy * lz;
    assert(0 <= lx + sx * m < sx * (sy * sz)) by (nonlinear_arith)
        requires
            0 <= lx < sx,
            0 <= m < sy * sz,
    ;
    assert(sx * m <= sx * (sy * sz)) by (nonlinear_arith)
        requires
            0 <= lx < sx,
            0 <= m < sy * sz,
    ;
    assert(sx * (sy * sz) == sx * sy * sz) by (nonlinear_arith);
}

/// Distinct blocks of the box have distinct indices.
proof fn lemma_index_injective(v: &LightVolume, a: (int, int, int), b: (int, int, int))
    requires
        v.contains(a.0, a.1, a.2),
        v.contains(b.0, b.1, b.2),
        v.index(a.0, a.1, a.2) == v.index(b.0, b.1, b.2),
    ensures
        a == b,
{
    let sx = v.size_x as int;
    let sy = v.size_y as int;
    let ax = a.0 - v.origin.x;
    let ay = a.1 - v.origin.y;
    let az = a.2 - v.origin.z;
    let bx = b.0 - v.origin.x;
    let by_ = b.1 - v.origin.y;
    let bz = b.2 - v.origin.z;
    let ma = ay + sy * az;
    let mb = by_ + sy * bz;
    assert(ax == bx && ma == mb) by (nonlinear_arith)
        requires
            0 <= ax < sx,
            0 <= bx < sx,
            0 <= ma,
            0 <= mb,
            ax + sx * ma == bx + sx * mb,
    ;
    assert(ay == by_ && az == bz) by (nonlinear_arith)
        requires
            0 <= ay < sy,
            0 <= by_ < sy,
            0 <= az,
            0 <= bz,
            ay + sy * az == by_ + sy * bz,
    ;
}

/// The block across face `f` from `(x, y, z)`, with its index, when it lies
/// in the box.
pub open spec fn neighbor_spec(v: &LightVolume, p: BlockPos, f: Face) -> Option<(BlockPos, int)> {
    let x = p.x + face_offset(f).0;
    let y = p.y + face_offset(f).1;
    let z = p.z + face_offset(f).2;
    if v.contains(x, y, z) {
        Some((BlockPos { x: x as i32, y: y as i32, z: z as i32 }, v.index(x, y, z)))
    } else {
        None
    }
}

impl LightVolume {
    /// The index of the block at `(x, y, z)` when it lies in the box.
    fn index_of(&self, x: i64, y: i64, z: i64) -> (r: Option<usize>)
        requires
            self.wf(),
            i32::MIN - 1 <= x <= i32::MAX + 1,
            i32::MIN - 1 <= y <= i32::MAX + 1,
            i32::MIN - 1 <= z <= i32::MAX + 1,
        ensures
            r.is_some() == self.contains(x as int, y as int, z as int),
            r.is_some() ==> r.unwrap() as int == self.index(x as int, y as int, z as int),
            r.is_some() ==> r.unwrap() < self.light.len(),
    {
        let lx = x - self.origin.x as i64;
        let ly = y - self.origin.y as i64;
        let lz = z - self.origin.z as i64;
        if lx < 0 || ly < 0 || lz < 0 {
            return None;
        }
        if lx >= self.size_x as i64 || ly >= self.size_y as i64 || lz >= self.size_z as i64 {
            return None;
        }
        let lx = lx as usize;
        let ly = ly as usize;
        let lz = lz as usize;
        proof {
            lemma_index_bounds(
                lx as int,
                ly as int,
                lz as int,
                self.size_x as int,
                self.size_y as int,
                self.size_z as int,
            );
        }
        let m = ly + self.size_y * lz;
        Some(lx + self.size_x * m)
    }

    /// The block across face `f` from `p`, with its index, when it lies in
    /// the box.
    fn neighbor(&self, p: BlockPos, f: Face) -> (r: Option<(BlockPos, usize)>)
        requires
            self.wf(),
        ensures
            match (r, neighbor_spec(self, p, f)) {
                (Some((q, i)), Some((sq, si))) => q == sq && i as int == si && i < self.light.len(),
                (None, None) => true,
                _ => false,
            },
    {
        let (dx, dy, dz): (i64, i64, i64) = match f {
            Face::XPos => (1, 0, 0),
            Face::XNeg => (-1, 0, 0),
            Face::YPos => (0, 1, 0),
            Face::YNeg => (0, -1, 0),
            Face::ZPos => (0, 0, 1),
            Face::ZNeg => (0, 0, -1),
        };
        let x = p.x as i64 + dx;
        let y = p.y as i64 + dy;
        let z = p.z as i64 + dz;
        match self.index_of(x, y, z) {
            Some(i) => Some((BlockPos { x: x as i32, y: y as i32, z: z as i32 }, i)),
            None => None,
        }
    }
}

} // verus!

verus! {

/// The sum of `f` over the light bytes of `s`.
pub open spec fn light_sum(s: Seq<Light>, f: spec_fn(Light) -> nat) -> nat
    decreases s.len(),
{
    if s.len() == 0 {
        0
    } else {
        light_sum(s.drop_last(), f) + f(s.last())
    }
}

/// Replacing one entry changes the sum by the difference of the two terms.
proof fn lemma_sum_update(s: Seq<Light>, i: int, v: Light, f: spec_fn(Light) -> nat)
    requires
        0 <= i < s.len(),
    ensures
        light_sum(s.update(i, v), f) + f(s[i]) == light_sum(s, f) + f(v),
    decreases s.len(),
{
    if i == s.len() - 1 {
        assert(s.update(i, v).drop_last() =~= s.drop_last());
    } else {
        lemma_sum_update(s.drop_last(), i, v, f);
        assert(s.update(i, v).drop_last() =~= s.drop_last().update(i, v));
    }
}

/// The number of queued removals whose previous level is positive.
pub open spec fn positive_entries(q: Seq<(BlockPos, u8)>) -> nat
    decreases q.len(),
{
    if q.len() == 0 {
        0
    } else {
        (if q[0].1 > 0 { 1nat } else { 0nat }) + positive_entries(q.subrange(1, q.len() as int))
    }
}

/// Appending an entry adds one to the count of lit entries when it is lit.
proof fn lemma_positive_push(q: Seq<(BlockPos, u8)>, e: (BlockPos, u8))
    ensures
        positive_entries(q.push(e)) == positive_entries(q) + (if e.1 > 0 { 1nat } else { 0nat }),
    decreases q.len(),
{
    if q.len() > 0 {
        lemma_positive_push(q.subrange(1, q.len() as int), e);
        assert(q.push(e).subrange(1, q.push(e).len() as int) =~= q.subrange(1, q.len() as int).push(e));
        assert(q.push(e)[0] == q[0]);
    } else {
        assert(q.push(e).subrange(1, 1) =~= Seq::<(BlockPos, u8)>::empty());
        assert(q.push(e)[0] == e);
        assert(positive_entries(Seq::<(BlockPos, u8)>::empty()) == 0);
    }
}

} // verus!

verus! {

/// The sky level of a byte when `sky`, else its block level.
pub open spec fn level(l: Light, sky: bool) -> u8 {
    if sky {
        sky_level(l)
    } else {
        block_level(l)
    }
}

/// 1 for a byte whose level (sky or block) is lit, else 0.
pub open spec fn lit(sky: bool) -> spec_fn(Light) -> nat {
    |l: Light| if level(l, sky) != 0 { 1nat } else { 0nat }
}

/// How far the level (sky or block) of a byte is below 15.
pub open spec fn dark(sky: bool) -> spec_fn(Light) -> nat {
    |l: Light| (15 - level(l, sky)) as nat
}

impl Light {
    /// The sky level when `sky`, else the block level.
    fn level(&self, sky: bool) -> (r: u8)
        ensures
            r == level(*self, sky),
            r <= 15,
    {
        if sky {
            self.sky()
        } else {
            self.block()
        }
    }

    /// Sets the sky level when `sky`, else the block level.
    fn set_level(&mut self, sky: bool, val: u8)
        requires
            val < 16,
        ensures
            level(*final(self), sky) == val,
            level(*final(self), !sky) == level(*old(self), !sky),
    {
        if sky {
            self.set_sky(val);
        } else {
            self.set_block(val);
        }
    }
}

/// Light (sky or block) has spread from `p` across face `f`: when `p` is in
/// the box with a level above 2 and the block across `f` is in the box and
/// transparent, that block's level is at least one less than `p`'s.
pub open spec fn spreads_to(w: LightVolume, p: BlockPos, f: Face, sky: bool) -> bool {
    w.contains(p.x as int, p.y as int, p.z as int) ==> match neighbor_spec(&w, p, f) {
        Some((q, qi)) => {
            let pl = level(w.light@[w.index(p.x as int, p.y as int, p.z as int)], sky);
            w.transparent@[qi] && pl > 2 ==> level(w.light@[qi], sky) + 2 > pl
        },
        None => true,
    }
}

/// Light has spread from every block of the box that is not in `pending`.
pub open spec fn settled_except(w: LightVolume, sky: bool, pending: Seq<BlockPos>) -> bool {
    forall|p: BlockPos, f: Face| !pending.contains(p) ==> #[trigger] spreads_to(w, p, f, sky)
}

/// Light has spread from every block of the box.
pub open spec fn settled(w: LightVolume, sky: bool) -> bool {
    forall|p: BlockPos, f: Face| #[trigger] spreads_to(w, p, f, sky)
}

/// The face opposite `f`.
pub open spec fn opposite(f: Face) -> Face {
    match f {
        Face::XPos => Face::XNeg,
        Face::XNeg => Face::XPos,
        Face::YPos => Face::YNeg,
        Face::YNeg => Face::YPos,
        Face::ZPos => Face::ZNeg,
        Face::ZNeg => Face::ZPos,
    }
}

/// Across face `f`, block `p` of the box has a neighbour in the box whose
/// level (sky or block) is at least one above `p`'s, or, for sky light and
/// the block above, at least `p`'s.
pub open spec fn supports(w: LightVolume, p: BlockPos, f: Face, sky: bool) -> bool {
    match neighbor_spec(&w, p, f) {
        Some((q, qi)) => {
            let pl = level(w.light@[w.index(p.x as int, p.y as int, p.z as int)], sky);
            level(w.light@[qi], sky) >= pl + 1 || (sky && f == Face::YPos && level(w.light@[qi], sky) >= pl)
        },
        None => false,
    }
}

/// Some neighbour of `p` supports its level.
pub open spec fn supported(w: LightVolume, p: BlockPos, sky: bool) -> bool {
    exists|f: Face| #[trigger] supports(w, p, f, sky)
}

/// Block `p` lies in the box and its level rose from `before` to `w`.
pub open spec fn raised(before: LightVolume, w: LightVolume, p: BlockPos, sky: bool) -> bool {
    &&& w.contains(p.x as int, p.y as int, p.z as int)
    &&& level(w.light@[w.index(p.x as int, p.y as int, p.z as int)], sky) > level(
        before.light@[w.index(p.x as int, p.y as int, p.z as int)],
        sky,
    )
}

/// Every block whose level rose from `before` to `w` lets light through
/// and has its level supported by a neighbour.
pub open spec fn rises_supported(before: LightVolume, w: LightVolume, sky: bool) -> bool {
    forall|p: BlockPos|
        #[trigger] raised(before, w, p, sky) ==> w.transparent@[w.index(p.x as int, p.y as int, p.z as int)]
            && supported(w, p, sky)
}

/// Block `p` lies in the box and its level differs between `before` and
/// `w`.
pub open spec fn changed(before: LightVolume, w: LightVolume, p: BlockPos, sky: bool) -> bool {
    &&& w.contains(p.x as int, p.y as int, p.z as int)
    &&& level(w.light@[w.index(p.x as int, p.y as int, p.z as int)], sky) != level(
        before.light@[w.index(p.x as int, p.y as int, p.z as int)],
        sky,
    )
}

/// Every block whose level changed from `before` to `w` is dark in `w`, or
/// lets light through and has its level supported by a neighbour.
pub open spec fn changes_supported(before: LightVolume, w: LightVolume, sky: bool) -> bool {
    forall|p: BlockPos|
        #[trigger] changed(before, w, p, sky) ==> level(w.light@[w.index(p.x as int, p.y as int, p.z as int)], sky)
            == 0 || (w.transparent@[w.index(p.x as int, p.y as int, p.z as int)] && supported(w, p, sky))
}

/// Going back across the opposite face returns to where one came from.
proof fn lemma_back_across(w: LightVolume, p: BlockPos, f: Face)
    requires
        w.wf(),
        w.contains(p.x as int, p.y as int, p.z as int),
        neighbor_spec(&w, p, f) is Some,
    ensures
        neighbor_spec(&w, neighbor_spec(&w, p, f).unwrap().0, opposite(f)) == Some(
            (p, w.index(p.x as int, p.y as int, p.z as int)),
        ),
{
}

/// Raising the level of block `q` keeps the support of every other raised
/// block.
proof fn lemma_raise_keeps_support(
    base: LightVolume,
    w: LightVolume,
    w2: LightVolume,
    sky: bool,
    idx: int,
    nl: Light,
    q: BlockPos,
    p: BlockPos,
)
    requires
        w.wf(),
        w2.origin == w.origin,
        w2.size_x == w.size_x,
        w2.size_y == w.size_y,
        w2.size_z == w.size_z,
        w2.transparent@ == w.transparent@,
        0 <= idx < w.light@.len(),
        w2.light@ == w.light@.update(idx, nl),
        level(nl, sky) >= level(w.light@[idx], sky),
        w.contains(q.x as int, q.y as int, q.z as int),
        idx == w.index(q.x as int, q.y as int, q.z as int),
        p != q,
        raised(base, w, p, sky) ==> w.transparent@[w.index(p.x as int, p.y as int, p.z as int)] && supported(
            w,
            p,
            sky,
        ),
    ensures
        raised(base, w2, p, sky) ==> w2.transparent@[w2.index(p.x as int, p.y as int, p.z as int)] && supported(
            w2,
            p,
            sky,
        ),
{
    if w.contains(p.x as int, p.y as int, p.z as int) {
        let pi = w.index(p.x as int, p.y as int, p.z as int);
        lemma_index_bounds(
            p.x - w.origin.x,
            p.y - w.origin.y,
            p.z - w.origin.z,
            w.size_x as int,
            w.size_y as int,
            w.size_z as int,
        );
        if pi == idx {
            lemma_index_injective(&w, (p.x as int, p.y as int, p.z as int), (q.x as int, q.y as int, q.z as int));
        }
        assert(w2.light@[pi] == w.light@[pi]);
        if raised(base, w2, p, sky) {
            assert(raised(base, w, p, sky));
            let g = choose|g: Face| #[trigger] supports(w, p, g, sky);
            match neighbor_spec(&w, p, g) {
                Some((n, ni)) => {
                    let o = face_offset(g);
                    lemma_index_bounds(
                        p.x + o.0 - w.origin.x,
                        p.y + o.1 - w.origin.y,
                        p.z + o.2 - w.origin.z,
                        w.size_x as int,
                        w.size_y as int,
                        w.size_z as int,
                    );
                    assert(level(w2.light@[ni], sky) >= level(w.light@[ni], sky));
                    assert(supports(w2, p, g, sky));
                },
                None => {},
            }
        }
    }
}

/// Raising the level of one block keeps every spread relation, except the
/// one from that block itself when its new level is above 2.
proof fn lemma_raise_keeps(
    w: LightVolume,
    w2: LightVolume,
    sky: bool,
    idx: int,
    nl: Light,
    q: BlockPos,
    p: BlockPos,
    f: Face,
)
    requires
        w.wf(),
        w2.origin == w.origin,
        w2.size_x == w.size_x,
        w2.size_y == w.size_y,
        w2.size_z == w.size_z,
        w2.transparent@ == w.transparent@,
        0 <= idx < w.light@.len(),
        w2.light@ == w.light@.update(idx, nl),
        level(nl, sky) >= level(w.light@[idx], sky),
        w.contains(q.x as int, q.y as int, q.z as int),
        idx == w.index(q.x as int, q.y as int, q.z as int),
        spreads_to(w, p, f, sky),
        p != q || level(nl, sky) <= 2,
    ensures
        spreads_to(w2, p, f, sky),
{
    if w.contains(p.x as int, p.y as int, p.z as int) {
        let pi = w.index(p.x as int, p.y as int, p.z as int);
        lemma_index_bounds(
            p.x - w.origin.x,
            p.y - w.origin.y,
            p.z - w.origin.z,
            w.size_x as int,
            w.size_y as int,
            w.size_z as int,
        );
        if pi == idx {
            lemma_index_injective(&w, (p.x as int, p.y as int, p.z as int), (q.x as int, q.y as int, q.z as int));
        }
        match neighbor_spec(&w, p, f) {
            Some((n, ni)) => {
                let o = face_offset(f);
                lemma_index_bounds(
                    p.x + o.0 - w.origin.x,
                    p.y + o.1 - w.origin.y,
                    p.z + o.2 - w.origin.z,
                    w.size_x as int,
                    w.size_y as int,
                    w.size_z as int,
                );
            },
            None => {},
        }
    }
}

/// The position of face `f` in the order in which faces are enumerated.
pub open spec fn face_index(f: Face) -> int {
    match f {
        Face::XNeg => 0,
        Face::XPos => 1,
        Face::YNeg => 2,
        Face::YPos => 3,
        Face::ZNeg => 4,
        Face::ZPos => 5,
    }
}

/// Block `n` has an entry in the removal queue `q`.
pub open spec fn pending_removal(q: Seq<(BlockPos, u8)>, n: BlockPos) -> bool {
    exists|k: int| 0 <= k < q.len() && #[trigger] q[k].0 == n
}

/// Every spread of light that has not happened starts at a block queued in
/// `prop` to spread, or ends at a block with an entry in the removal queue
/// `rem`.
pub open spec fn settled_modulo(w: LightVolume, sky: bool, rem: Seq<(BlockPos, u8)>, prop: Seq<BlockPos>) -> bool {
    forall|p: BlockPos, f: Face|
        #[trigger] spreads_to(w, p, f, sky) || prop.contains(p) || match neighbor_spec(&w, p, f) {
            Some((n, ni)) => pending_removal(rem, n),
            None => false,
        }
}

/// Lowering the level of block `q` to 0 keeps every spread relation that
/// does not end at `q`.
proof fn lemma_clear_keeps(
    w: LightVolume,
    w2: LightVolume,
    sky: bool,
    idx: int,
    nl: Light,
    q: BlockPos,
    p: BlockPos,
    f: Face,
)
    requires
        w.wf(),
        w2.origin == w.origin,
        w2.size_x == w.size_x,
        w2.size_y == w.size_y,
        w2.size_z == w.size_z,
        w2.transparent@ == w.transparent@,
        0 <= idx < w.light@.len(),
        w2.light@ == w.light@.update(idx, nl),
        level(nl, sky) == 0,
        w.contains(q.x as int, q.y as int, q.z as int),
        idx == w.index(q.x as int, q.y as int, q.z as int),
        spreads_to(w, p, f, sky),
        match neighbor_spec(&w, p, f) {
            Some((n, ni)) => n != q,
            None => true,
        },
    ensures
        spreads_to(w2, p, f, sky),
{
    if w.contains(p.x as int, p.y as int, p.z as int) {
        let pi = w.index(p.x as int, p.y as int, p.z as int);
        lemma_index_bounds(
            p.x - w.origin.x,
            p.y - w.origin.y,
            p.z - w.origin.z,
            w.size_x as int,
            w.size_y as int,
            w.size_z as int,
        );
        if pi != idx {
            match neighbor_spec(&w, p, f) {
                Some((n, ni)) => {
                    let o = face_offset(f);
                    lemma_index_bounds(
                        p.x + o.0 - w.origin.x,
                        p.y + o.1 - w.origin.y,
                        p.z + o.2 - w.origin.z,
                        w.size_x as int,
                        w.size_y as int,
                        w.size_z as int,
                    );
                    if ni == idx {
                        lemma_index_injective(
                            &w,
                            (n.x as int, n.y as int, n.z as int),
                            (q.x as int, q.y as int, q.z as int),
                        );
                    }
                },
                None => {},
            }
        }
    }
}

/// An entry of a queue is still there after another is appended.
proof fn lemma_pending_push(q: Seq<(BlockPos, u8)>, e: (BlockPos, u8), n: BlockPos)
    ensures
        pending_removal(q.push(e), n) <==> (pending_removal(q, n) || e.0 == n),
{
    if pending_removal(q, n) {
        let k = choose|k: int| 0 <= k < q.len() && #[trigger] q[k].0 == n;
        assert(q.push(e)[k].0 == n);
    }
    if e.0 == n {
        assert(q.push(e)[q.len() as int].0 == n);
    }
    if pending_removal(q.push(e), n) && e.0 != n {
        let k = choose|k: int| 0 <= k < q.push(e).len() && #[trigger] q.push(e)[k].0 == n;
        assert(q[k].0 == n);
    }
}

/// An entry of a queue is its first, or an entry of the rest.
proof fn lemma_pending_pop(q: Seq<(BlockPos, u8)>, n: BlockPos)
    requires
        q.len() > 0,
        pending_removal(q, n),
    ensures
        q[0].0 == n || pending_removal(q.subrange(1, q.len() as int), n),
{
    let k = choose|k: int| 0 <= k < q.len() && #[trigger] q[k].0 == n;
    if k > 0 {
        assert(q.subrange(1, q.len() as int)[k - 1].0 == n);
    }
}

/// The face at position `i` of the enumeration order has position `i`.
proof fn lemma_face_order_index(i: int)
    requires
        0 <= i < 6,
    ensures
        face_index(face_order()[i]) == i,
{
    if i == 0 {
        assert(face_order()[0] == Face::XNeg);
    } else if i == 1 {
        assert(face_order()[1] == Face::XPos);
    } else if i == 2 {
        assert(face_order()[2] == Face::YNeg);
    } else if i == 3 {
        assert(face_order()[3] == Face::YPos);
    } else if i == 4 {
        assert(face_order()[4] == Face::ZNeg);
    } else {
        assert(face_order()[5] == Face::ZPos);
    }
}

/// While the removal entry of `pos` is being handled, with the faces before
/// `i` done: every spread that has not happened starts at a block queued to
/// spread, or ends at a block queued for removal, or ends at `pos` coming
/// from a face of `pos` not yet looked at.
pub open spec fn settled_while_removing(
    w: LightVolume,
    sky: bool,
    rem: Seq<(BlockPos, u8)>,
    prop: Seq<BlockPos>,
    pos: BlockPos,
    i: int,
) -> bool {
    forall|p: BlockPos, f: Face|
        #[trigger] spreads_to(w, p, f, sky) || prop.contains(p) || match neighbor_spec(&w, p, f) {
            Some((n, ni)) => pending_removal(rem, n) || (n == pos && face_index(opposite(f)) >= i),
            None => false,
        }
}

/// The block at `(x, y, z)` lies in the box and its level (sky or block)
/// is lower in `w` than in `before`.
pub open spec fn dropped_at(before: LightVolume, w: LightVolume, x: int, y: int, z: int, sky: bool) -> bool {
    &&& w.contains(x, y, z)
    &&& level(w.light@[w.index(x, y, z)], sky) < level(before.light@[w.index(x, y, z)], sky)
}

/// Block `q` lies in the box and its level is lower in `w` than in
/// `before`.
pub open spec fn dropped(before: LightVolume, w: LightVolume, q: BlockPos, sky: bool) -> bool {
    dropped_at(before, w, q.x as int, q.y as int, q.z as int, sky)
}

/// A removed level `x` next to a block of level `l`, across face `f` of
/// that block, clears it: `x` is above `l`, or, for sky light, it is a 15
/// coming from the block above.
pub open spec fn clears(x: int, l: int, f: Face, sky: bool) -> bool {
    x > l || (sky && f == Face::YPos && x == 15)
}

/// The drop of block `q` is fed across face `f`: the block there lies in
/// the box and dropped from a level that clears `q`'s, or it has an entry
/// in the removal queue `rem` with such a level.
pub open spec fn feeds(
    before: LightVolume,
    w: LightVolume,
    q: BlockPos,
    f: Face,
    sky: bool,
    rem: Seq<(BlockPos, u8)>,
) -> bool {
    let ql = level(before.light@[w.index(q.x as int, q.y as int, q.z as int)], sky) as int;
    let rx = q.x + face_offset(f).0;
    let ry = q.y + face_offset(f).1;
    let rz = q.z + face_offset(f).2;
    ||| dropped_at(before, w, rx, ry, rz, sky) && clears(
        level(before.light@[w.index(rx, ry, rz)], sky) as int,
        ql,
        f,
        sky,
    )
    ||| exists|k: int|
        0 <= k < rem.len() && rem[k].0.x == rx && rem[k].0.y == ry && rem[k].0.z == rz && #[trigger] clears(
            rem[k].1 as int,
            ql,
            f,
            sky,
        )
}

/// Every block whose level dropped from `before` to `w` was cleared by a
/// neighbour: one queued for removal in `rem` with a level that clears it,
/// or one that dropped itself from such a level. Following the neighbours
/// back, the levels rise strictly (but for sky light coming straight down
/// at 15) until they reach a queued removal.
pub open spec fn drops_fed(before: LightVolume, w: LightVolume, sky: bool, rem: Seq<(BlockPos, u8)>) -> bool {
    forall|q: BlockPos| #[trigger] dropped(before, w, q, sky) ==> exists|f: Face| #[trigger] feeds(before, w, q, f, sky, rem)
}

/// A removal queue entry as `remove_light` keeps it: one of the entries it
/// started with, an entry of level 0, or a block that dropped, with the
/// level it had.
pub open spec fn entry_ok(
    before: LightVolume,
    w: LightVolume,
    e: (BlockPos, u8),
    sky: bool,
    rem: Seq<(BlockPos, u8)>,
) -> bool {
    ||| rem.contains(e)
    ||| e.1 == 0
    ||| dropped(before, w, e.0, sky) && e.1 == level(
        before.light@[w.index(e.0.x as int, e.0.y as int, e.0.z as int)],
        sky,
    )
}

/// `mid` is `before` with some levels of one kind cleared, each drop fed by
/// a removal queued in `rem`.
pub open spec fn cleared_from(before: LightVolume, mid: LightVolume, sky: bool, rem: Seq<(BlockPos, u8)>) -> bool {
    &&& mid.same_shape(&before)
    &&& forall|k: int|
        0 <= k < mid.light@.len() ==> level(#[trigger] mid.light@[k], sky) == level(before.light@[k], sky) || level(
            mid.light@[k],
            sky,
        ) == 0
    &&& drops_fed(before, mid, sky, rem)
}

/// After a removal of level `x` at `r` was handled, the block across face
/// `g` of `r`, when it lies in the box, is dark or was kept: its level is
/// at least `x`, and it is not the block below a removed sky level 15.
pub open spec fn done_face(w: LightVolume, r: BlockPos, x: u8, g: Face, sky: bool) -> bool {
    let nx = r.x + face_offset(g).0;
    let ny = r.y + face_offset(g).1;
    let nz = r.z + face_offset(g).2;
    w.contains(nx, ny, nz) ==> {
        let l = level(w.light@[w.index(nx, ny, nz)], sky);
        l == 0 || (l >= x && !(sky && x == 15 && g == Face::YNeg))
    }
}

/// The removal of level `x` at `r` has been handled on every face of `r`.
pub open spec fn removal_done(w: LightVolume, r: BlockPos, x: u8, sky: bool) -> bool {
    forall|g: Face| #[trigger] done_face(w, r, x, g, sky)
}

/// Every block that a removal feeds (see `feeds`) is dark in `mid`: the
/// removals were carried through completely.
pub open spec fn removal_complete(before: LightVolume, mid: LightVolume, sky: bool, rem: Seq<(BlockPos, u8)>) -> bool {
    forall|q: BlockPos, f: Face|
        mid.contains(q.x as int, q.y as int, q.z as int) && #[trigger] feeds(before, mid, q, f, sky, rem) ==> level(
            mid.light@[mid.index(q.x as int, q.y as int, q.z as int)],
            sky,
        ) == 0
}

/// `w` is what spreading gives from a `mid` in which the removals queued
/// in `rem` have been carried out, for light of one kind: `mid` is `before`
/// with some levels cleared, each drop fed by a queued removal
/// (`cleared_from`); every block that a queued removal, or a block cleared
/// by one, feeds is dark in `mid` (`removal_complete`); and from `mid` to
/// `w` levels only rise, each rise in a block that lets light through and
/// supported by a neighbour.
pub open spec fn cleared_then_spread(before: LightVolume, w: LightVolume, sky: bool, rem: Seq<(BlockPos, u8)>) -> bool {
    exists|mid: LightVolume|
        #[trigger] cleared_from(before, mid, sky, rem) && removal_complete(before, mid, sky, rem) && rises_supported(
            mid,
            w,
            sky,
        ) && forall|k: int| 0 <= k < w.light@.len() ==> level(#[trigger] w.light@[k], sky) >= level(mid.light@[k], sky)
}

/// A removal entry is handled, waits in the queue `rq`, or is the one being
/// handled now.
pub open spec fn pending_or_done(
    w: LightVolume,
    rq: Seq<(BlockPos, u8)>,
    cur: Option<(BlockPos, u8)>,
    e: (BlockPos, u8),
    sky: bool,
) -> bool {
    removal_done(w, e.0, e.1, sky) || rq.contains(e) || cur == Some(e)
}

/// Every removal there is to handle, those queued at the start and those of
/// the blocks that dropped, with the level they had, is handled, waiting,
/// or being handled.
pub open spec fn sources_ok(
    before: LightVolume,
    w: LightVolume,
    rq: Seq<(BlockPos, u8)>,
    cur: Option<(BlockPos, u8)>,
    sky: bool,
    rem: Seq<(BlockPos, u8)>,
) -> bool {
    &&& forall|k: int| 0 <= k < rem.len() ==> pending_or_done(w, rq, cur, #[trigger] rem[k], sky)
    &&& forall|q: BlockPos|
        #[trigger] dropped(before, w, q, sky) ==> pending_or_done(
            w,
            rq,
            cur,
            (q, level(before.light@[w.index(q.x as int, q.y as int, q.z as int)], sky)),
            sky,
        )
}

/// Every face is in the enumeration order.
proof fn lemma_face_in_order(g: Face)
    ensures
        0 <= face_index(g) < 6,
        face_order()[face_index(g)] == g,
{
}

/// An entry of a queue is its first or an entry of the rest.
proof fn lemma_entry_pop(s: Seq<(BlockPos, u8)>, e: (BlockPos, u8))
    requires
        s.len() > 0,
        s.contains(e),
    ensures
        e == s[0] || s.subrange(1, s.len() as int).contains(e),
{
    let k = choose|k: int| 0 <= k < s.len() && s[k] == e;
    if k > 0 {
        assert(s.subrange(1, s.len() as int)[k - 1] == e);
    }
}

/// An entry of a queue is still there after another is appended.
proof fn lemma_entry_push(s: Seq<(BlockPos, u8)>, x: (BlockPos, u8), e: (BlockPos, u8))
    ensures
        s.contains(e) ==> s.push(x).contains(e),
        s.push(x).contains(x),
{
    if s.contains(e) {
        let k = choose|k: int| 0 <= k < s.len() && s[k] == e;
        assert(s.push(x)[k] == e);
    }
    assert(s.push(x)[s.len() as int] == x);
}

/// Lowering one block to 0 keeps every handled face handled.
proof fn lemma_done_lower(w: LightVolume, w2: LightVolume, sky: bool, idx: int, l: Light, r: BlockPos, x: u8, g: Face)
    requires
        w.wf(),
        w2.same_shape(&w),
        0 <= idx < w.light@.len(),
        w2.light@ == w.light@.update(idx, l),
        level(l, sky) == 0,
        done_face(w, r, x, g, sky),
    ensures
        done_face(w2, r, x, g, sky),
{
    let nx = r.x + face_offset(g).0;
    let ny = r.y + face_offset(g).1;
    let nz = r.z + face_offset(g).2;
    if w.contains(nx, ny, nz) {
        lemma_index_bounds(
            nx - w.origin.x,
            ny - w.origin.y,
            nz - w.origin.z,
            w.size_x as int,
            w.size_y as int,
            w.size_z as int,
        );
    }
}

/// Lowering one block to 0 keeps every removal handled.
proof fn lemma_removal_done_lower(w: LightVolume, w2: LightVolume, sky: bool, idx: int, l: Light, r: BlockPos, x: u8)
    requires
        w.wf(),
        w2.same_shape(&w),
        0 <= idx < w.light@.len(),
        w2.light@ == w.light@.update(idx, l),
        level(l, sky) == 0,
        removal_done(w, r, x, sky),
    ensures
        removal_done(w2, r, x, sky),
{
    assert forall|g: Face| #[trigger] done_face(w2, r, x, g, sky) by {
        lemma_done_lower(w, w2, sky, idx, l, r, x, g);
    }
}

/// When every removal there is to handle has been handled, every block
/// that a removal feeds is dark.
proof fn lemma_removal_complete(before: LightVolume, mid: LightVolume, sky: bool, rem: Seq<(BlockPos, u8)>)
    requires
        mid.wf(),
        mid.same_shape(&before),
        forall|k: int|
            0 <= k < mid.light@.len() ==> level(#[trigger] mid.light@[k], sky) == level(before.light@[k], sky) || level(
                mid.light@[k],
                sky,
            ) == 0,
        sources_ok(before, mid, Seq::empty(), None, sky, rem),
    ensures
        removal_complete(before, mid, sky, rem),
{
    assert forall|q: BlockPos, f: Face|
        mid.contains(q.x as int, q.y as int, q.z as int) && #[trigger] feeds(before, mid, q, f, sky, rem) implies level(
        mid.light@[mid.index(q.x as int, q.y as int, q.z as int)],
        sky,
    ) == 0 by {
        lemma_index_bounds(
            q.x - mid.origin.x,
            q.y - mid.origin.y,
            q.z - mid.origin.z,
            mid.size_x as int,
            mid.size_y as int,
            mid.size_z as int,
        );
        let qi = mid.index(q.x as int, q.y as int, q.z as int);
        let ql = level(before.light@[qi], sky);
        let g = opposite(f);
        let rx = q.x + face_offset(f).0;
        let ry = q.y + face_offset(f).1;
        let rz = q.z + face_offset(f).2;
        if level(mid.light@[qi], sky) != 0 {
            assert(level(mid.light@[qi], sky) == ql);
            if dropped_at(before, mid, rx, ry, rz, sky) && clears(
                level(before.light@[mid.index(rx, ry, rz)], sky) as int,
                ql as int,
                f,
                sky,
            ) {
                let rb = BlockPos { x: rx as i32, y: ry as i32, z: rz as i32 };
                assert(rb.x as int == rx && rb.y as int == ry && rb.z as int == rz);
                assert(dropped(before, mid, rb, sky));
                let x = level(before.light@[mid.index(rx, ry, rz)], sky);
                assert(pending_or_done(mid, Seq::empty(), None, (rb, x), sky));
                assert(!Seq::<(BlockPos, u8)>::empty().contains((rb, x)));
                assert(done_face(mid, rb, x, g, sky));
            } else {
                let k = choose|k: int|
                    0 <= k < rem.len() && rem[k].0.x == rx && rem[k].0.y == ry && rem[k].0.z == rz && #[trigger] clears(
                        rem[k].1 as int,
                        ql as int,
                        f,
                        sky,
                    );
                assert(pending_or_done(mid, Seq::empty(), None, rem[k], sky));
                assert(!Seq::<(BlockPos, u8)>::empty().contains(rem[k]));
                assert(done_face(mid, rem[k].0, rem[k].1, g, sky));
            }
        }
    }
}

/// Clearing one block, and queueing its removal when it was lit, keeps
/// every removal there is to handle handled, waiting or being handled.
proof fn lemma_sources_after_clear(
    before: LightVolume,
    w: LightVolume,
    w2: LightVolume,
    sky: bool,
    rem: Seq<(BlockPos, u8)>,
    rq: Seq<(BlockPos, u8)>,
    cur: Option<(BlockPos, u8)>,
    npos: BlockPos,
    idx: int,
    l: Light,
)
    requires
        w.wf(),
        w.same_shape(&before),
        w2.same_shape(&w),
        0 <= idx < w.light@.len(),
        w2.light@ == w.light@.update(idx, l),
        level(l, sky) == 0,
        forall|k: int|
            0 <= k < w.light@.len() ==> level(#[trigger] w.light@[k], sky) == level(before.light@[k], sky) || level(
                w.light@[k],
                sky,
            ) == 0,
        w.contains(npos.x as int, npos.y as int, npos.z as int),
        idx == w.index(npos.x as int, npos.y as int, npos.z as int),
        sources_ok(before, w, rq, cur, sky, rem),
    ensures
        sources_ok(before, w2, rq.push((npos, level(w.light@[idx], sky))), cur, sky, rem),
{
    let e = (npos, level(w.light@[idx], sky));
    let rq2 = rq.push(e);
    assert forall|k: int| 0 <= k < rem.len() implies pending_or_done(w2, rq2, cur, #[trigger] rem[k], sky) by {
        assert(pending_or_done(w, rq, cur, rem[k], sky));
        lemma_entry_push(rq, e, rem[k]);
        if removal_done(w, rem[k].0, rem[k].1, sky) {
            lemma_removal_done_lower(w, w2, sky, idx, l, rem[k].0, rem[k].1);
        }
    }
    assert forall|q: BlockPos| #[trigger] dropped(before, w2, q, sky) implies pending_or_done(
        w2,
        rq2,
        cur,
        (q, level(before.light@[w2.index(q.x as int, q.y as int, q.z as int)], sky)),
        sky,
    ) by {
        lemma_index_bounds(
            q.x - w.origin.x,
            q.y - w.origin.y,
            q.z - w.origin.z,
            w.size_x as int,
            w.size_y as int,
            w.size_z as int,
        );
        let qi = w.index(q.x as int, q.y as int, q.z as int);
        let eq = (q, level(before.light@[qi], sky));
        lemma_entry_push(rq, e, eq);
        if qi == idx && level(w.light@[idx], sky) != 0 {
            lemma_index_injective(
                &w,
                (q.x as int, q.y as int, q.z as int),
                (npos.x as int, npos.y as int, npos.z as int),
            );
            assert(q == npos);
            assert(level(w.light@[idx], sky) == level(before.light@[idx], sky));
            assert(eq == e);
        } else {
            assert(dropped(before, w, q, sky));
            assert(pending_or_done(w, rq, cur, eq, sky));
            if removal_done(w, q, eq.1, sky) {
                lemma_removal_done_lower(w, w2, sky, idx, l, q, eq.1);
            }
        }
    }
}

/// Clearing one block that a removal entry feeds keeps every drop fed and
/// every kept entry valid.
proof fn lemma_clear_step(
    before: LightVolume,
    w: LightVolume,
    w2: LightVolume,
    sky: bool,
    rem: Seq<(BlockPos, u8)>,
    pos: BlockPos,
    old_light: u8,
    f: Face,
    npos: BlockPos,
    idx: int,
    l: Light,
)
    requires
        w.wf(),
        w.same_shape(&before),
        w2.same_shape(&w),
        0 <= idx < w.light@.len(),
        w2.light@ == w.light@.update(idx, l),
        level(l, sky) == 0,
        forall|k: int|
            0 <= k < w.light@.len() ==> level(#[trigger] w.light@[k], sky) == level(before.light@[k], sky) || level(
                w.light@[k],
                sky,
            ) == 0,
        w.contains(npos.x as int, npos.y as int, npos.z as int),
        idx == w.index(npos.x as int, npos.y as int, npos.z as int),
        npos.x == pos.x + face_offset(f).0,
        npos.y == pos.y + face_offset(f).1,
        npos.z == pos.z + face_offset(f).2,
        drops_fed(before, w, sky, rem),
        entry_ok(before, w, (pos, old_light), sky, rem),
        (level(w.light@[idx], sky) != 0 && level(w.light@[idx], sky) < old_light) || (sky && old_light == 15 && f
            == Face::YNeg),
    ensures
        drops_fed(before, w2, sky, rem),
        forall|e: (BlockPos, u8)| entry_ok(before, w, e, sky, rem) ==> #[trigger] entry_ok(before, w2, e, sky, rem),
        level(w.light@[idx], sky) != 0 ==> entry_ok(before, w2, (npos, level(w.light@[idx], sky)), sky, rem),
{
    let g = opposite(f);
    assert(pos.x == npos.x + face_offset(g).0 && pos.y == npos.y + face_offset(g).1 && pos.z == npos.z
        + face_offset(g).2);
    assert(clears(old_light as int, level(before.light@[idx], sky) as int, g, sky) || old_light == 0) by {
        if !(sky && old_light == 15 && f == Face::YNeg) {
            assert(level(w.light@[idx], sky) == level(before.light@[idx], sky));
        }
    }
    // A drop in `w` is still a drop in `w2`.
    assert forall|x: int, y: int, z: int| #[trigger] dropped_at(before, w, x, y, z, sky) implies dropped_at(
        before,
        w2,
        x,
        y,
        z,
        sky,
    ) by {
        lemma_index_bounds(
            x - w.origin.x,
            y - w.origin.y,
            z - w.origin.z,
            w.size_x as int,
            w.size_y as int,
            w.size_z as int,
        );
    }
    // The new drop, at `npos`, is fed by the entry of `pos` across `g`.
    if old_light != 0 {
        assert(feeds(before, w2, npos, g, sky, rem)) by {
            let e = (pos, old_light);
            let ql = level(before.light@[w2.index(npos.x as int, npos.y as int, npos.z as int)], sky) as int;
            assert(w2.index(npos.x as int, npos.y as int, npos.z as int) == idx);
            assert(clears(old_light as int, ql, g, sky));
            if rem.contains(e) {
                let k = choose|k: int| 0 <= k < rem.len() && rem[k] == e;
                assert(rem[k].0.x == pos.x && rem[k].0.y == pos.y && rem[k].0.z == pos.z);
                assert(clears(rem[k].1 as int, ql, g, sky));
            } else {
                assert(dropped_at(before, w, pos.x as int, pos.y as int, pos.z as int, sky));
                assert(dropped_at(before, w2, pos.x as int, pos.y as int, pos.z as int, sky));
                assert(w2.index(pos.x as int, pos.y as int, pos.z as int) == w.index(pos.x as int, pos.y as int, pos.z as int));
                assert(clears(level(before.light@[w2.index(pos.x as int, pos.y as int, pos.z as int)], sky) as int, ql, g, sky));
            }
        }
    }
    assert forall|q: BlockPos| #[trigger] dropped(before, w2, q, sky) implies exists|h: Face|
        #[trigger] feeds(before, w2, q, h, sky, rem) by {
        lemma_index_bounds(
            q.x - w.origin.x,
            q.y - w.origin.y,
            q.z - w.origin.z,
            w.size_x as int,
            w.size_y as int,
            w.size_z as int,
        );
        let qi = w.index(q.x as int, q.y as int, q.z as int);
        if qi == idx {
            lemma_index_injective(
                &w,
                (q.x as int, q.y as int, q.z as int),
                (npos.x as int, npos.y as int, npos.z as int),
            );
            assert(old_light != 0);
            assert(feeds(before, w2, npos, g, sky, rem));
            assert(q == npos);
        } else {
            assert(dropped(before, w, q, sky));
            let h = choose|h: Face| #[trigger] feeds(before, w, q, h, sky, rem);
            let rx = q.x + face_offset(h).0;
            let ry = q.y + face_offset(h).1;
            let rz = q.z + face_offset(h).2;
            if dropped_at(before, w, rx, ry, rz, sky) {
                assert(dropped_at(before, w2, rx, ry, rz, sky));
            }
            assert(feeds(before, w2, q, h, sky, rem));
        }
    }
    assert forall|e: (BlockPos, u8)| entry_ok(before, w, e, sky, rem) implies #[trigger] entry_ok(
        before,
        w2,
        e,
        sky,
        rem,
    ) by {
        if dropped(before, w, e.0, sky) {
            assert(dropped_at(before, w, e.0.x as int, e.0.y as int, e.0.z as int, sky));
        }
    }
    if level(w.light@[idx], sky) != 0 {
        assert(level(w.light@[idx], sky) == level(before.light@[idx], sky));
        assert(dropped(before, w2, npos, sky));
    }
}

/// Runs one removal queue to exhaustion: a neighbour whose level is lit and
/// below the removed level is cleared and queued for removal in turn (for
/// sky light, so is the block below a removed level 15); a neighbour whose
/// level is at least the removed level is queued in `prop` to spread again.
/// When every missing spread started at a block queued to spread or ended
/// at a block queued for removal, afterwards every missing spread starts at
/// a block queued to spread. Every block that a queued removal, or a block
/// cleared on the way, feeds ends dark.
#[verifier::rlimit(60)]
#[verifier::spinoff_prover]
fn remove_light(
    removal: &mut VecDeque<(BlockPos, u8)>,
    prop: &mut VecDeque<BlockPos>,
    world: &mut LightVolume,
    sky: bool,
)
    requires
        old(world).wf(),
    ensures
        final(world).wf(),
        final(world).same_shape(old(world)),
        final(removal)@.len() == 0,
        forall|k: int|
            0 <= k < final(world).light@.len() ==> level(#[trigger] final(world).light@[k], sky) == level(
                old(world).light@[k],
                sky,
            ) || level(final(world).light@[k], sky) == 0,
        forall|k: int|
            0 <= k < final(world).light@.len() ==> level(#[trigger] final(world).light@[k], !sky) == level(
                old(world).light@[k],
                !sky,
            ),
        old(removal)@.len() == 0 ==> final(world).light@ == old(world).light@ && final(prop)@ == old(prop)@,
        settled_modulo(*old(world), sky, old(removal)@, old(prop)@) ==> settled_except(
            *final(world),
            sky,
            final(prop)@,
        ),
        drops_fed(*old(world), *final(world), sky, old(removal)@),
        removal_complete(*old(world), *final(world), sky, old(removal)@),
{
    let faces = Face::iter_all();
    let ghost tracking = settled_modulo(*world, sky, removal@, prop@);
    while removal.len() > 0
        invariant
            world.wf(),
            world.same_shape(old(world)),
            faces@ == face_order(),
            forall|k: int|
                0 <= k < world.light@.len() ==> level(#[trigger] world.light@[k], sky) == level(
                    old(world).light@[k],
                    sky,
                ) || level(world.light@[k], sky) == 0,
            forall|k: int|
                0 <= k < world.light@.len() ==> level(#[trigger] world.light@[k], !sky) == level(
                    old(world).light@[k],
                    !sky,
                ),
            old(removal)@.len() == 0 ==> world.light@ == old(world).light@ && removal@.len() == 0
                && prop@ == old(prop)@,
            tracking == settled_modulo(*old(world), sky, old(removal)@, old(prop)@),
            tracking ==> settled_modulo(*world, sky, removal@, prop@),
            drops_fed(*old(world), *world, sky, old(removal)@),
            forall|k: int|
                0 <= k < removal@.len() ==> entry_ok(*old(world), *world, #[trigger] removal@[k], sky, old(removal)@),
            sources_ok(*old(world), *world, removal@, None, sky, old(removal)@),
        decreases light_sum(world.light@, lit(sky)), positive_entries(removal@), removal@.len(),
    {
        let ghost before = removal@;
        let (pos, old_light) = removal.pop_front().unwrap();
        assert(removal@ =~= before.subrange(1, before.len() as int));
        assert(entry_ok(*old(world), *world, before[0], sky, old(removal)@));
        assert forall|k: int| 0 <= k < removal@.len() implies entry_ok(*old(world), *world, #[trigger] removal@[k], sky, old(removal)@) by {
            assert(removal@[k] == before[k + 1]);
        }
        proof {
            let cur = Some((pos, old_light));
            assert forall|k: int| 0 <= k < old(removal)@.len() implies pending_or_done(
                *world,
                removal@,
                cur,
                #[trigger] old(removal)@[k],
                sky,
            ) by {
                assert(pending_or_done(*world, before, None, old(removal)@[k], sky));
                if before.contains(old(removal)@[k]) {
                    lemma_entry_pop(before, old(removal)@[k]);
                }
            }
            assert forall|q: BlockPos| #[trigger] dropped(*old(world), *world, q, sky) implies pending_or_done(
                *world,
                removal@,
                cur,
                (q, level(old(world).light@[world.index(q.x as int, q.y as int, q.z as int)], sky)),
                sky,
            ) by {
                let e = (q, level(old(world).light@[world.index(q.x as int, q.y as int, q.z as int)], sky));
                assert(pending_or_done(*world, before, None, e, sky));
                if before.contains(e) {
                    lemma_entry_pop(before, e);
                }
            }
        }
        proof {
            if tracking {
                assert forall|p: BlockPos, f: Face|
                    #[trigger] spreads_to(*world, p, f, sky) || prop@.contains(p) || match neighbor_spec(
                        &*world,
                        p,
                        f,
                    ) {
                        Some((n, ni)) => pending_removal(removal@, n) || (n == pos && face_index(opposite(f)) >= 0),
                        None => false,
                    } by {
                    match neighbor_spec(&*world, p, f) {
                        Some((n, ni)) => {
                            if !spreads_to(*world, p, f, sky) && !prop@.contains(p) {
                                lemma_pending_pop(before, n);
                            }
                        },
                        None => {},
                    }
                }
                assert(settled_while_removing(*world, sky, removal@, prop@, pos, 0));
            }
        }
        let ghost c0 = light_sum(world.light@, lit(sky));
        let ghost p0 = positive_entries(removal@);
        let ghost q0 = removal@.len();
        let ghost mut lit_pushes: nat = 0;
        let ghost mut dark_pushes: nat = 0;
        let mut i: usize = 0;
        while i < 6
            invariant
                0 <= i <= 6,
                world.wf(),
                world.same_shape(old(world)),
                faces@ == face_order(),
                forall|k: int|
                    0 <= k < world.light@.len() ==> level(#[trigger] world.light@[k], sky) == level(
                        old(world).light@[k],
                        sky,
                    ) || level(world.light@[k], sky) == 0,
                forall|k: int|
                    0 <= k < world.light@.len() ==> level(#[trigger] world.light@[k], !sky) == level(
                        old(world).light@[k],
                        !sky,
                    ),
                light_sum(world.light@, lit(sky)) + lit_pushes == c0,
                positive_entries(removal@) == p0 + lit_pushes,
                removal@.len() == q0 + lit_pushes + dark_pushes,
                dark_pushes <= 1,
                dark_pushes == 1 ==> old_light == 15,
                drops_fed(*old(world), *world, sky, old(removal)@),
                forall|k: int|
                    0 <= k < removal@.len() ==> entry_ok(*old(world), *world, #[trigger] removal@[k], sky, old(removal)@),
                entry_ok(*old(world), *world, (pos, old_light), sky, old(removal)@),
                sources_ok(*old(world), *world, removal@, Some((pos, old_light)), sky, old(removal)@),
                forall|j: int| 0 <= j < i ==> done_face(*world, pos, old_light, #[trigger] faces@[j], sky),
                i <= 2 ==> dark_pushes == 0,
                tracking == settled_modulo(*old(world), sky, old(removal)@, old(prop)@),
                tracking ==> settled_while_removing(*world, sky, removal@, prop@, pos, i as int),
            decreases 6 - i,
        {
            let f = faces[i];
            let down = i == 2;
            let ghost w_before = *world;
            let ghost rem_before = removal@;
            let ghost prop_before = prop@;
            proof {
                lemma_face_order_index(i as int);
            }
            match world.neighbor(pos, f) {
                Some((npos, idx)) => {
                    proof {
                        lemma_index_bounds(
                            npos.x - world.origin.x,
                            npos.y - world.origin.y,
                            npos.z - world.origin.z,
                            world.size_x as int,
                            world.size_y as int,
                            world.size_z as int,
                        );
                    }
                    let mut l = world.light[idx];
                    let new_light = l.level(sky);
                    if new_light != 0 && new_light < old_light || sky && old_light == 15 && down {
                        l.set_level(sky, 0);
                        proof {
                            lemma_sum_update(world.light@, idx as int, l, lit(sky));
                            lemma_positive_push(removal@, (npos, new_light));
                        }
                        world.light.set(idx, l);
                        removal.push_back((npos, new_light));
                        proof {
                            assert(down ==> f == Face::YNeg);
                            lemma_sources_after_clear(
                                *old(world),
                                w_before,
                                *world,
                                sky,
                                old(removal)@,
                                rem_before,
                                Some((pos, old_light)),
                                npos,
                                idx as int,
                                l,
                            );
                            assert forall|j: int| 0 <= j < i implies done_face(
                                *world,
                                pos,
                                old_light,
                                #[trigger] faces@[j],
                                sky,
                            ) by {
                                lemma_done_lower(w_before, *world, sky, idx as int, l, pos, old_light, faces@[j]);
                            }
                            assert(done_face(*world, pos, old_light, f, sky));
                            lemma_clear_step(
                                *old(world),
                                w_before,
                                *world,
                                sky,
                                old(removal)@,
                                pos,
                                old_light,
                                f,
                                npos,
                                idx as int,
                                l,
                            );
                            assert forall|k: int| 0 <= k < removal@.len() implies entry_ok(
                                *old(world),
                                *world,
                                #[trigger] removal@[k],
                                sky,
                                old(removal)@,
                            ) by {
                                if k < rem_before.len() {
                                    assert(removal@[k] == rem_before[k]);
                                    assert(entry_ok(*old(world), w_before, rem_before[k], sky, old(removal)@));
                                }
                            }
                            if new_light != 0 {
                                lit_pushes = lit_pushes + 1;
                            } else {
                                dark_pushes = dark_pushes + 1;
                            }
                            if tracking {
                                assert forall|p: BlockPos, g: Face|
                                    #[trigger] spreads_to(*world, p, g, sky) || prop@.contains(p) || match neighbor_spec(
                                        &*world,
                                        p,
                                        g,
                                    ) {
                                        Some((n, ni)) => pending_removal(removal@, n) || (n == pos && face_index(
                                            opposite(g),
                                        ) >= i + 1),
                                        None => false,
                                    } by {
                                    assert(spreads_to(w_before, p, g, sky) || prop_before.contains(p) || match neighbor_spec(
                                        &w_before,
                                        p,
                                        g,
                                    ) {
                                        Some((n, ni)) => pending_removal(rem_before, n) || (n == pos && face_index(
                                            opposite(g),
                                        ) >= i),
                                        None => false,
                                    });
                                    if p != npos {
                                        match neighbor_spec(&w_before, p, g) {
                                            Some((n, ni)) => {
                                                lemma_pending_push(rem_before, (npos, new_light), n);
                                                if n != npos {
                                                    if spreads_to(w_before, p, g, sky) {
                                                        lemma_clear_keeps(w_before, *world, sky, idx as int, l, npos, p, g);
                                                    } else if !prop_before.contains(p) && !pending_removal(rem_before, n) {
                                                        lemma_back_across(w_before, p, g);
                                                    }
                                                }
                                            },
                                            None => {},
                                        }
                                    }
                                }
                            }
                        }
                    } else if new_light >= old_light {
                        prop.push_back(npos);
                        proof {
                            assert(f == Face::YNeg ==> down);
                            assert(done_face(*world, pos, old_light, f, sky));
                            if tracking {
                                assert forall|p: BlockPos, g: Face|
                                    #[trigger] spreads_to(*world, p, g, sky) || prop@.contains(p) || match neighbor_spec(
                                        &*world,
                                        p,
                                        g,
                                    ) {
                                        Some((n, ni)) => pending_removal(removal@, n) || (n == pos && face_index(
                                            opposite(g),
                                        ) >= i + 1),
                                        None => false,
                                    } by {
                                    lemma_contains_push(prop_before, npos, p);
                                    if p != npos {
                                        match neighbor_spec(&*world, p, g) {
                                            Some((n, ni)) => {
                                                if !spreads_to(*world, p, g, sky) && !prop_before.contains(p)
                                                    && !pending_removal(removal@, n) {
                                                    lemma_back_across(*world, p, g);
                                                }
                                            },
                                            None => {},
                                        }
                                    }
                                }
                            }
                        }
                    } else {
                        proof {
                            assert(done_face(*world, pos, old_light, f, sky));
                            if tracking {
                                assert(level(world.light@[idx as int], sky) == 0);
                                assert forall|p: BlockPos, g: Face|
                                    #[trigger] spreads_to(*world, p, g, sky) || prop@.contains(p) || match neighbor_spec(
                                        &*world,
                                        p,
                                        g,
                                    ) {
                                        Some((n, ni)) => pending_removal(removal@, n) || (n == pos && face_index(
                                            opposite(g),
                                        ) >= i + 1),
                                        None => false,
                                    } by {
                                    if p != npos {
                                        match neighbor_spec(&*world, p, g) {
                                            Some((n, ni)) => {
                                                if !spreads_to(*world, p, g, sky) && !prop@.contains(p)
                                                    && !pending_removal(removal@, n) {
                                                    lemma_back_across(*world, p, g);
                                                }
                                            },
                                            None => {},
                                        }
                                    }
                                }
                            }
                        }
                    }
                },
                None => {
                    proof {
                        assert(done_face(*world, pos, old_light, f, sky));
                        if tracking {
                            assert forall|p: BlockPos, g: Face|
                                #[trigger] spreads_to(*world, p, g, sky) || prop@.contains(p) || match neighbor_spec(
                                    &*world,
                                    p,
                                    g,
                                ) {
                                    Some((n, ni)) => pending_removal(removal@, n) || (n == pos && face_index(
                                        opposite(g),
                                    ) >= i + 1),
                                    None => false,
                                } by {
                                match neighbor_spec(&*world, p, g) {
                                    Some((n, ni)) => {
                                        if !spreads_to(*world, p, g, sky) && !prop@.contains(p)
                                            && !pending_removal(removal@, n) {
                                            lemma_back_across(*world, p, g);
                                        }
                                    },
                                    None => {},
                                }
                            }
                        }
                    }
                },
            }
            i += 1;
        }
        proof {
            let cur = Some((pos, old_light));
            assert forall|g: Face| #[trigger] done_face(*world, pos, old_light, g, sky) by {
                lemma_face_in_order(g);
                assert(faces@[face_index(g)] == g);
            }
            assert forall|k: int| 0 <= k < old(removal)@.len() implies pending_or_done(
                *world,
                removal@,
                None,
                #[trigger] old(removal)@[k],
                sky,
            ) by {
                assert(pending_or_done(*world, removal@, cur, old(removal)@[k], sky));
            }
            assert forall|q: BlockPos| #[trigger] dropped(*old(world), *world, q, sky) implies pending_or_done(
                *world,
                removal@,
                None,
                (q, level(old(world).light@[world.index(q.x as int, q.y as int, q.z as int)], sky)),
                sky,
            ) by {
                assert(pending_or_done(
                    *world,
                    removal@,
                    cur,
                    (q, level(old(world).light@[world.index(q.x as int, q.y as int, q.z as int)], sky)),
                    sky,
                ));
            }
        }
    }
    proof {
        assert(removal@ =~= Seq::<(BlockPos, u8)>::empty());
        lemma_removal_complete(*old(world), *world, sky, old(removal)@);
    }
}

/// An appended element is contained, and so is every element before.
proof fn lemma_contains_push(s: Seq<BlockPos>, e: BlockPos, p: BlockPos)
    ensures
        s.push(e).contains(p) <==> (s.contains(p) || p == e),
{
    if s.contains(p) {
        let k = choose|k: int| 0 <= k < s.len() && s[k] == p;
        assert(s.push(e)[k] == p);
    }
    if p == e {
        assert(s.push(e)[s.len() as int] == e);
    }
    if s.push(e).contains(p) && p != e {
        let k = choose|k: int| 0 <= k < s.push(e).len() && s.push(e)[k] == p;
        assert(s[k] == p);
    }
}

/// What the rest of a sequence contains, the sequence contains.
proof fn lemma_contains_pop(s: Seq<BlockPos>, p: BlockPos)
    requires
        s.len() > 0,
    ensures
        s.contains(p) <==> (p == s[0] || s.subrange(1, s.len() as int).contains(p)),
{
    let r = s.subrange(1, s.len() as int);
    if s.contains(p) && p != s[0] {
        let k = choose|k: int| 0 <= k < s.len() && s[k] == p;
        assert(r[k - 1] == p);
    }
    if r.contains(p) {
        let k = choose|k: int| 0 <= k < r.len() && r[k] == p;
        assert(s[k + 1] == p);
    }
    if p == s[0] {
        assert(s[0] == p);
    }
}

/// Runs one propagation queue to exhaustion: from each queued block with a
/// lit level `l` in the box, every transparent neighbour whose level is at
/// most `l - 2` is raised to `l - 1` (for sky light, the block below is
/// raised to `l`), and queued in turn when `l > 2`.
fn spread_light(prop: &mut VecDeque<BlockPos>, world: &mut LightVolume, sky: bool)
    requires
        old(world).wf(),
    ensures
        final(world).wf(),
        final(world).same_shape(old(world)),
        final(prop)@.len() == 0,
        forall|k: int|
            0 <= k < final(world).light@.len() ==> level(#[trigger] final(world).light@[k], sky) >= level(
                old(world).light@[k],
                sky,
            ),
        forall|k: int|
            0 <= k < final(world).light@.len() ==> level(#[trigger] final(world).light@[k], !sky) == level(
                old(world).light@[k],
                !sky,
            ),
        settled_except(*old(world), sky, old(prop)@) ==> settled(*final(world), sky),
        rises_supported(*old(world), *final(world), sky),
{
    let faces = Face::iter_all();
    let ghost tracking = settled_except(*world, sky, prop@);
    while prop.len() > 0
        invariant
            world.wf(),
            world.same_shape(old(world)),
            faces@ == face_order(),
            forall|k: int|
                0 <= k < world.light@.len() ==> level(#[trigger] world.light@[k], sky) >= level(
                    old(world).light@[k],
                    sky,
                ),
            forall|k: int|
                0 <= k < world.light@.len() ==> level(#[trigger] world.light@[k], !sky) == level(
                    old(world).light@[k],
                    !sky,
                ),
            tracking == settled_except(*old(world), sky, old(prop)@),
            tracking ==> settled_except(*world, sky, prop@),
            rises_supported(*old(world), *world, sky),
        decreases light_sum(world.light@, dark(sky)), prop@.len(),
    {
        let ghost before = prop@;
        let pos = prop.pop_front().unwrap();
        assert(prop@ =~= before.subrange(1, before.len() as int));
        proof {
            if tracking {
                assert forall|p: BlockPos, f: Face| p != pos && !prop@.contains(p) implies #[trigger] spreads_to(
                    *world,
                    p,
                    f,
                    sky,
                ) by {
                    lemma_contains_pop(before, p);
                }
            }
        }
        let ghost d0 = light_sum(world.light@, dark(sky));
        let ghost q0 = prop@.len();
        let ghost mut pushes: nat = 0;
        match world.index_of(pos.x as i64, pos.y as i64, pos.z as i64) {
            Some(pidx) => {
                let pos_light = world.light[pidx].level(sky);
                if pos_light != 0 {
                    let mut i: usize = 0;
                    while i < 6
                        invariant
                            0 <= i <= 6,
                            world.wf(),
                            world.same_shape(old(world)),
                            faces@ == face_order(),
                            1 <= pos_light <= 15,
                            world.contains(pos.x as int, pos.y as int, pos.z as int),
                            pidx as int == world.index(pos.x as int, pos.y as int, pos.z as int),
                            pidx < world.light@.len(),
                            level(world.light@[pidx as int], sky) == pos_light,
                            forall|k: int|
                                0 <= k < world.light@.len() ==> level(#[trigger] world.light@[k], sky) >= level(
                                    old(world).light@[k],
                                    sky,
                                ),
                            forall|k: int|
                                0 <= k < world.light@.len() ==> level(#[trigger] world.light@[k], !sky)
                                    == level(old(world).light@[k], !sky),
                            light_sum(world.light@, dark(sky)) + pushes <= d0,
                            prop@.len() == q0 + pushes,
                            tracking == settled_except(*old(world), sky, old(prop)@),
                            tracking ==> forall|p: BlockPos, f: Face|
                                p != pos && !prop@.contains(p) ==> #[trigger] spreads_to(*world, p, f, sky),
                            tracking ==> forall|j: int|
                                0 <= j < i ==> #[trigger] spreads_to(*world, pos, faces@[j], sky),
                            rises_supported(*old(world), *world, sky),
                        decreases 6 - i,
                    {
                        let f = faces[i];
                        let down = i == 2;
                        let ghost w_before = *world;
                        let ghost prop_before = prop@;
                        match world.neighbor(pos, f) {
                            Some((npos, idx)) => {
                                proof {
                                    let o = face_offset(f);
                                    lemma_index_bounds(
                                        npos.x - world.origin.x,
                                        npos.y - world.origin.y,
                                        npos.z - world.origin.z,
                                        world.size_x as int,
                                        world.size_y as int,
                                        world.size_z as int,
                                    );
                                    if idx == pidx {
                                        lemma_index_injective(
                                            world,
                                            (pos.x as int, pos.y as int, pos.z as int),
                                            (npos.x as int, npos.y as int, npos.z as int),
                                        );
                                    }
                                }
                                if world.transparent[idx] {
                                    let mut l = world.light[idx];
                                    if l.level(sky) + 2 <= pos_light {
                                        let new_light = if sky && down {
                                            pos_light
                                        } else {
                                            pos_light - 1
                                        };
                                        l.set_level(sky, new_light);
                                        proof {
                                            lemma_sum_update(world.light@, idx as int, l, dark(sky));
                                        }
                                        world.light.set(idx, l);
                                        proof {
                                            assert(down ==> f == Face::YNeg);
                                            assert forall|p: BlockPos| #[trigger] raised(
                                                *old(world),
                                                *world,
                                                p,
                                                sky,
                                            ) implies world.transparent@[world.index(p.x as int, p.y as int, p.z as int)]
                                                && supported(*world, p, sky) by {
                                                if p == npos {
                                                    lemma_back_across(w_before, pos, f);
                                                    assert(supports(*world, npos, opposite(f), sky));
                                                } else {
                                                    assert(raised(*old(world), w_before, p, sky) ==> w_before.transparent@[
                                                        w_before.index(p.x as int, p.y as int, p.z as int)]
                                                        && supported(w_before, p, sky));
                                                    lemma_raise_keeps_support(
                                                        *old(world),
                                                        w_before,
                                                        *world,
                                                        sky,
                                                        idx as int,
                                                        l,
                                                        npos,
                                                        p,
                                                    );
                                                }
                                            }
                                        }
                                        if pos_light > 2 {
                                            proof {
                                                lemma_contains_push(prop@, npos, npos);
                                            }
                                            prop.push_back(npos);
                                            proof {
                                                pushes = pushes + 1;
                                            }
                                        }
                                        proof {
                                            if tracking {
                                                assert forall|p: BlockPos, g: Face|
                                                    p != pos && !prop@.contains(p) implies #[trigger] spreads_to(
                                                    *world,
                                                    p,
                                                    g,
                                                    sky,
                                                ) by {
                                                    if pos_light > 2 {
                                                        lemma_contains_push(prop_before, npos, p);
                                                    }
                                                    lemma_raise_keeps(
                                                        w_before,
                                                        *world,
                                                        sky,
                                                        idx as int,
                                                        l,
                                                        npos,
                                                        p,
                                                        g,
                                                    );
                                                }
                                                assert forall|j: int| 0 <= j < i implies #[trigger] spreads_to(
                                                    *world,
                                                    pos,
                                                    faces@[j],
                                                    sky,
                                                ) by {
                                                    lemma_raise_keeps(
                                                        w_before,
                                                        *world,
                                                        sky,
                                                        idx as int,
                                                        l,
                                                        npos,
                                                        pos,
                                                        faces@[j],
                                                    );
                                                }
                                            }
                                        }
                                    }
                                }
                            },
                            None => {},
                        }
                        proof {
                            if tracking {
                                assert(spreads_to(*world, pos, faces@[i as int], sky));
                            }
                        }
                        i += 1;
                    }
                }
            },
            None => {},
        }
        proof {
            if tracking {
                assert forall|p: BlockPos, f: Face| !prop@.contains(p) implies #[trigger] spreads_to(
                    *world,
                    p,
                    f,
                    sky,
                ) by {
                    if p == pos {
                        assert(face_order().contains(f)) by {
                            match f {
                                Face::XNeg => assert(face_order()[0] == f),
                                Face::XPos => assert(face_order()[1] == f),
                                Face::YNeg => assert(face_order()[2] == f),
                                Face::YPos => assert(face_order()[3] == f),
                                Face::ZNeg => assert(face_order()[4] == f),
                                Face::ZPos => assert(face_order()[5] == f),
                            }
                        }
                    }
                }
            }
        }
    }
}


/// Two boxes with the same shape and the same levels of one kind have the
/// same spread relations for that kind.
proof fn lemma_spread_same_levels(w1: LightVolume, w2: LightVolume, sky: bool)
    requires
        w1.wf(),
        w2.same_shape(&w1),
        forall|k: int| 0 <= k < w1.light@.len() ==> level(#[trigger] w1.light@[k], sky) == level(w2.light@[k], sky),
    ensures
        forall|p: BlockPos, f: Face|
            #![trigger spreads_to(w1, p, f, sky)]
            #![trigger spreads_to(w2, p, f, sky)]
            spreads_to(w1, p, f, sky) == spreads_to(w2, p, f, sky),
{
    assert forall|p: BlockPos, f: Face| #[trigger] spreads_to(w1, p, f, sky) == spreads_to(w2, p, f, sky) by {
        if w1.contains(p.x as int, p.y as int, p.z as int) {
            lemma_index_bounds(
                p.x - w1.origin.x,
                p.y - w1.origin.y,
                p.z - w1.origin.z,
                w1.size_x as int,
                w1.size_y as int,
                w1.size_z as int,
            );
            let pi = w1.index(p.x as int, p.y as int, p.z as int);
            assert(level(w1.light@[pi], sky) == level(w2.light@[pi], sky));
            match neighbor_spec(&w1, p, f) {
                Some((n, ni)) => {
                    let o = face_offset(f);
                    lemma_index_bounds(
                        p.x + o.0 - w1.origin.x,
                        p.y + o.1 - w1.origin.y,
                        p.z + o.2 - w1.origin.z,
                        w1.size_x as int,
                        w1.size_y as int,
                        w1.size_z as int,
                    );
                    assert(level(w1.light@[ni], sky) == level(w2.light@[ni], sky));
                },
                None => {},
            }
        }
    }
}

/// Whether every missing spread is pending depends only on the shape of
/// the box and the levels of its kind.
proof fn lemma_modulo_same_levels(
    w1: LightVolume,
    w2: LightVolume,
    sky: bool,
    rem: Seq<(BlockPos, u8)>,
    prop: Seq<BlockPos>,
)
    requires
        w1.wf(),
        w2.same_shape(&w1),
        forall|k: int| 0 <= k < w1.light@.len() ==> level(#[trigger] w1.light@[k], sky) == level(w2.light@[k], sky),
        settled_modulo(w1, sky, rem, prop),
    ensures
        settled_modulo(w2, sky, rem, prop),
{
    lemma_spread_same_levels(w1, w2, sky);
    assert forall|p: BlockPos, f: Face|
        #[trigger] spreads_to(w2, p, f, sky) || prop.contains(p) || match neighbor_spec(&w2, p, f) {
            Some((n, ni)) => pending_removal(rem, n),
            None => false,
        } by {
        assert(spreads_to(w1, p, f, sky) == spreads_to(w2, p, f, sky));
        assert(neighbor_spec(&w1, p, f) == neighbor_spec(&w2, p, f));
    }
}

/// Registering a change of block light keeps the missing spreads covered:
/// if, before the change, every spread of light that had not happened
/// started at a block queued to spread or ended at a block queued for
/// removal, this still holds once the block light of `pos` is changed (its
/// sky light and every block's transparency staying as they were) and the
/// change is registered with `reg_block`. Running `calc_light` on the
/// queues then leaves the light settled.
pub proof fn lemma_registered_change_covered(
    w: LightVolume,
    w2: LightVolume,
    pos: BlockPos,
    l: Light,
    before: LightUpdates,
    after: LightUpdates,
)
    requires
        w.wf(),
        w.contains(pos.x as int, pos.y as int, pos.z as int),
        w2.origin == w.origin,
        w2.size_x == w.size_x,
        w2.size_y == w.size_y,
        w2.size_z == w.size_z,
        w2.transparent@ == w.transparent@,
        w2.light@ == w.light@.update(w.index(pos.x as int, pos.y as int, pos.z as int), l),
        sky_level(l) == sky_level(w.light@[w.index(pos.x as int, pos.y as int, pos.z as int)]),
        queued_change(
            before,
            after,
            pos,
            block_level(w.light@[w.index(pos.x as int, pos.y as int, pos.z as int)]),
            block_level(l),
        ),
        settled_modulo(w, false, before.block_rem@, before.block@),
        settled_modulo(w, true, before.sky_rem@, before.sky@),
    ensures
        settled_modulo(w2, false, after.block_rem@, after.block@),
        settled_modulo(w2, true, after.sky_rem@, after.sky@),
{
    let idx = w.index(pos.x as int, pos.y as int, pos.z as int);
    lemma_index_bounds(
        pos.x - w.origin.x,
        pos.y - w.origin.y,
        pos.z - w.origin.z,
        w.size_x as int,
        w.size_y as int,
        w.size_z as int,
    );
    let prev = block_level(w.light@[idx]);
    let new = block_level(l);
    assert forall|k: int| 0 <= k < w.light@.len() implies level(#[trigger] w.light@[k], true) == level(
        w2.light@[k],
        true,
    ) by {}
    lemma_modulo_same_levels(w, w2, true, before.sky_rem@, before.sky@);
    assert forall|p: BlockPos, f: Face|
        #[trigger] spreads_to(w2, p, f, true) || after.sky@.contains(p) || match neighbor_spec(&w2, p, f) {
            Some((n, ni)) => pending_removal(after.sky_rem@, n),
            None => false,
        } by {
        match neighbor_spec(&w2, p, f) {
            Some((n, ni)) => {
                lemma_pending_push(before.sky_rem@, (pos, 0u8), n);
            },
            None => {},
        }
    }
    assert forall|p: BlockPos, f: Face|
        #[trigger] spreads_to(w2, p, f, false) || after.block@.contains(p) || match neighbor_spec(&w2, p, f) {
            Some((n, ni)) => pending_removal(after.block_rem@, n),
            None => false,
        } by {
        assert(spreads_to(w, p, f, false) || before.block@.contains(p) || match neighbor_spec(&w, p, f) {
            Some((n, ni)) => pending_removal(before.block_rem@, n),
            None => false,
        });
        if new < prev {
            assert(after.block@ == before.block@);
        } else {
            lemma_contains_push(before.block@, pos, p);
        }
        match neighbor_spec(&w, p, f) {
            Some((n, ni)) => {
                if new < prev {
                    lemma_pending_push(before.block_rem@, (pos, prev), n);
                } else {
                    assert(after.block_rem@ == before.block_rem@);
                }
                if spreads_to(w, p, f, false) && w.contains(p.x as int, p.y as int, p.z as int) {
                    let pi = w.index(p.x as int, p.y as int, p.z as int);
                    lemma_index_bounds(
                        p.x - w.origin.x,
                        p.y - w.origin.y,
                        p.z - w.origin.z,
                        w.size_x as int,
                        w.size_y as int,
                        w.size_z as int,
                    );
                    let o = face_offset(f);
                    lemma_index_bounds(
                        p.x + o.0 - w.origin.x,
                        p.y + o.1 - w.origin.y,
                        p.z + o.2 - w.origin.z,
                        w.size_x as int,
                        w.size_y as int,
                        w.size_z as int,
                    );
                    if pi == idx {
                        lemma_index_injective(
                            &w,
                            (p.x as int, p.y as int, p.z as int),
                            (pos.x as int, pos.y as int, pos.z as int),
                        );
                    }
                    if ni == idx {
                        lemma_index_injective(
                            &w,
                            (n.x as int, n.y as int, n.z as int),
                            (pos.x as int, pos.y as int, pos.z as int),
                        );
                    }
                }
            },
            None => {},
        }
    }
}

/// Whether the drops from `b1` are fed depends only on the levels of their
/// kind in `b1`.
proof fn lemma_drops_fed_same_levels(
    b1: LightVolume,
    b2: LightVolume,
    w: LightVolume,
    sky: bool,
    rem: Seq<(BlockPos, u8)>,
)
    requires
        w.wf(),
        b1.same_shape(&w),
        b2.same_shape(&w),
        forall|k: int| 0 <= k < b1.light@.len() ==> level(#[trigger] b1.light@[k], sky) == level(b2.light@[k], sky),
        drops_fed(b1, w, sky, rem),
    ensures
        drops_fed(b2, w, sky, rem),
{
    assert forall|q: BlockPos| #[trigger] dropped(b2, w, q, sky) implies exists|f: Face|
        #[trigger] feeds(b2, w, q, f, sky, rem) by {
        lemma_index_bounds(
            q.x - w.origin.x,
            q.y - w.origin.y,
            q.z - w.origin.z,
            w.size_x as int,
            w.size_y as int,
            w.size_z as int,
        );
        let qi = w.index(q.x as int, q.y as int, q.z as int);
        assert(level(b1.light@[qi], sky) == level(b2.light@[qi], sky));
        assert(dropped(b1, w, q, sky));
        let f = choose|f: Face| #[trigger] feeds(b1, w, q, f, sky, rem);
        let rx = q.x + face_offset(f).0;
        let ry = q.y + face_offset(f).1;
        let rz = q.z + face_offset(f).2;
        if w.contains(rx, ry, rz) {
            lemma_index_bounds(
                rx - w.origin.x,
                ry - w.origin.y,
                rz - w.origin.z,
                w.size_x as int,
                w.size_y as int,
                w.size_z as int,
            );
            let ri = w.index(rx, ry, rz);
            assert(level(b1.light@[ri], sky) == level(b2.light@[ri], sky));
        }
        assert(feeds(b2, w, q, f, sky, rem));
    }
}

/// Whether the removals were carried through from `b1` depends only on the
/// levels of their kind in `b1`.
proof fn lemma_removal_complete_same_levels(
    b1: LightVolume,
    b2: LightVolume,
    w: LightVolume,
    sky: bool,
    rem: Seq<(BlockPos, u8)>,
)
    requires
        w.wf(),
        b1.same_shape(&w),
        b2.same_shape(&w),
        forall|k: int| 0 <= k < b1.light@.len() ==> level(#[trigger] b1.light@[k], sky) == level(b2.light@[k], sky),
        removal_complete(b1, w, sky, rem),
    ensures
        removal_complete(b2, w, sky, rem),
{
    assert forall|q: BlockPos, f: Face|
        w.contains(q.x as int, q.y as int, q.z as int) && #[trigger] feeds(b2, w, q, f, sky, rem) implies level(
        w.light@[w.index(q.x as int, q.y as int, q.z as int)],
        sky,
    ) == 0 by {
        lemma_index_bounds(
            q.x - w.origin.x,
            q.y - w.origin.y,
            q.z - w.origin.z,
            w.size_x as int,
            w.size_y as int,
            w.size_z as int,
        );
        let qi = w.index(q.x as int, q.y as int, q.z as int);
        assert(level(b1.light@[qi], sky) == level(b2.light@[qi], sky));
        let rx = q.x + face_offset(f).0;
        let ry = q.y + face_offset(f).1;
        let rz = q.z + face_offset(f).2;
        if w.contains(rx, ry, rz) {
            lemma_index_bounds(
                rx - w.origin.x,
                ry - w.origin.y,
                rz - w.origin.z,
                w.size_x as int,
                w.size_y as int,
                w.size_z as int,
            );
            let ri = w.index(rx, ry, rz);
            assert(level(b1.light@[ri], sky) == level(b2.light@[ri], sky));
        }
        assert(feeds(b1, w, q, f, sky, rem));
    }
}

/// Support depends only on the shape of the box and the levels of its
/// kind.
proof fn lemma_support_same_levels(w1: LightVolume, w2: LightVolume, p: BlockPos, sky: bool)
    requires
        w1.wf(),
        w2.same_shape(&w1),
        forall|k: int| 0 <= k < w1.light@.len() ==> level(#[trigger] w1.light@[k], sky) == level(w2.light@[k], sky),
        w1.contains(p.x as int, p.y as int, p.z as int),
        supported(w1, p, sky),
    ensures
        supported(w2, p, sky),
{
    let g = choose|g: Face| #[trigger] supports(w1, p, g, sky);
    lemma_index_bounds(
        p.x - w1.origin.x,
        p.y - w1.origin.y,
        p.z - w1.origin.z,
        w1.size_x as int,
        w1.size_y as int,
        w1.size_z as int,
    );
    let pi = w1.index(p.x as int, p.y as int, p.z as int);
    assert(level(w1.light@[pi], sky) == level(w2.light@[pi], sky));
    match neighbor_spec(&w1, p, g) {
        Some((n, ni)) => {
            let o = face_offset(g);
            lemma_index_bounds(
                p.x + o.0 - w1.origin.x,
                p.y + o.1 - w1.origin.y,
                p.z + o.2 - w1.origin.z,
                w1.size_x as int,
                w1.size_y as int,
                w1.size_z as int,
            );
            assert(level(w1.light@[ni], sky) == level(w2.light@[ni], sky));
            assert(supports(w2, p, g, sky));
        },
        None => {},
    }
}

/// Takes the pending light changes out of `updates` and propagates them
/// through `world`: the falls of block light, then of sky light, clear the
/// levels that they fed; then the rises of block light, then of sky light,
/// spread, one level less per step through transparent blocks (sky light
/// keeps its full level going down). Blocks outside the box are neither
/// read nor written.
///
/// Every block whose level changed is left dark, or lets light through and
/// has a neighbour whose level is one higher (for sky light, or the block
/// above with the same level). When no fall of a kind is pending, light of
/// that kind only rises. If every spread of a kind that had not happened
/// started at a block queued to spread or ended at a block queued for
/// removal, light of that kind has spread from every block afterwards.
/// For each kind, the result is the spread of a complete clearing: there is
/// a box, `before` with some levels of that kind set to 0, in which every
/// level that fell lies next to a queued removal, or a cleared block, of a
/// higher level (for sky light, or the block above at 15), and every block
/// that lies next to such a removal or cleared block is dark; levels at or
/// above the removed level are kept. From that box to the result, levels
/// only rise, each rise in a block that lets light through and supported
/// by a neighbour.
pub fn calc_light(updates: &mut LightUpdates, world: &mut LightVolume)
    requires
        old(world).wf(),
    ensures
        final(world).wf(),
        final(world).same_shape(old(world)),
        final(updates).block@.len() == 0,
        final(updates).block_rem@.len() == 0,
        final(updates).sky@.len() == 0,
        final(updates).sky_rem@.len() == 0,
        old(updates).block_rem@.len() == 0 ==> forall|k: int|
            0 <= k < final(world).light@.len() ==> level(#[trigger] final(world).light@[k], false) >= level(
                old(world).light@[k],
                false,
            ),
        old(updates).sky_rem@.len() == 0 ==> forall|k: int|
            0 <= k < final(world).light@.len() ==> level(#[trigger] final(world).light@[k], true) >= level(
                old(world).light@[k],
                true,
            ),
        settled_modulo(*old(world), false, old(updates).block_rem@, old(updates).block@) ==> settled(
            *final(world),
            false,
        ),
        settled_modulo(*old(world), true, old(updates).sky_rem@, old(updates).sky@) ==> settled(
            *final(world),
            true,
        ),
        changes_supported(*old(world), *final(world), false),
        changes_supported(*old(world), *final(world), true),
        cleared_then_spread(*old(world), *final(world), false, old(updates).block_rem@),
        cleared_then_spread(*old(world), *final(world), true, old(updates).sky_rem@),
{
    let mut block_removal: VecDeque<(BlockPos, u8)> = VecDeque::new();
    let mut block_prop: VecDeque<BlockPos> = VecDeque::new();
    let mut sky_removal: VecDeque<(BlockPos, u8)> = VecDeque::new();
    let mut sky_prop: VecDeque<BlockPos> = VecDeque::new();
    std::mem::swap(&mut block_removal, &mut updates.block_rem);
    std::mem::swap(&mut block_prop, &mut updates.block);
    std::mem::swap(&mut sky_removal, &mut updates.sky_rem);
    std::mem::swap(&mut sky_prop, &mut updates.sky);

    let ghost w0 = *world;
    let ghost brem = block_removal@;
    let ghost srem = sky_removal@;
    let ghost block_modulo = settled_modulo(w0, false, block_removal@, block_prop@);
    let ghost sky_modulo = settled_modulo(w0, true, sky_removal@, sky_prop@);
    remove_light(&mut block_removal, &mut block_prop, world, false);
    let ghost w1 = *world;
    proof {
        if sky_modulo {
            lemma_modulo_same_levels(w0, w1, true, sky_removal@, sky_prop@);
        }
    }
    remove_light(&mut sky_removal, &mut sky_prop, world, true);
    let ghost w2 = *world;
    let ghost bq = block_prop@;
    proof {
        if block_modulo {
            lemma_spread_same_levels(w1, w2, false);
            assert(settled_except(w2, false, bq));
        }
    }
    spread_light(&mut block_prop, world, false);
    let ghost w3 = *world;
    let ghost sq = sky_prop@;
    proof {
        if sky_modulo {
            lemma_spread_same_levels(w2, w3, true);
            assert(settled_except(w3, true, sq));
        }
    }
    spread_light(&mut sky_prop, world, true);
    proof {
        assert forall|p: BlockPos| #[trigger] changed(w0, *world, p, false) implies level(
            world.light@[world.index(p.x as int, p.y as int, p.z as int)],
            false,
        ) == 0 || (world.transparent@[world.index(p.x as int, p.y as int, p.z as int)] && supported(
            *world,
            p,
            false,
        )) by {
            lemma_index_bounds(
                p.x - w0.origin.x,
                p.y - w0.origin.y,
                p.z - w0.origin.z,
                w0.size_x as int,
                w0.size_y as int,
                w0.size_z as int,
            );
            let k = w0.index(p.x as int, p.y as int, p.z as int);
            assert(level(w3.light@[k], false) == level(world.light@[k], false));
            assert(level(w2.light@[k], false) == level(w1.light@[k], false));
            if level(world.light@[k], false) > level(w2.light@[k], false) {
                assert(raised(w2, w3, p, false));
                lemma_support_same_levels(w3, *world, p, false);
            }
        }
        assert forall|p: BlockPos| #[trigger] changed(w0, *world, p, true) implies level(
            world.light@[world.index(p.x as int, p.y as int, p.z as int)],
            true,
        ) == 0 || (world.transparent@[world.index(p.x as int, p.y as int, p.z as int)] && supported(
            *world,
            p,
            true,
        )) by {
            lemma_index_bounds(
                p.x - w0.origin.x,
                p.y - w0.origin.y,
                p.z - w0.origin.z,
                w0.size_x as int,
                w0.size_y as int,
                w0.size_z as int,
            );
            let k = w0.index(p.x as int, p.y as int, p.z as int);
            assert(level(w1.light@[k], true) == level(w0.light@[k], true));
            assert(level(w3.light@[k], true) == level(w2.light@[k], true));
            if level(world.light@[k], true) > level(w3.light@[k], true) {
                assert(raised(w3, *world, p, true));
            }
        }
        assert(cleared_from(w0, w1, false, brem));
        assert forall|k: int| 0 <= k < world.light@.len() implies level(#[trigger] world.light@[k], false) >= level(
            w1.light@[k],
            false,
        ) by {
            assert(level(w2.light@[k], false) == level(w1.light@[k], false));
            assert(level(w3.light@[k], false) >= level(w2.light@[k], false));
        }
        assert forall|p: BlockPos| #[trigger] raised(w1, *world, p, false) implies world.transparent@[world.index(
            p.x as int,
            p.y as int,
            p.z as int,
        )] && supported(*world, p, false) by {
            lemma_index_bounds(
                p.x - w0.origin.x,
                p.y - w0.origin.y,
                p.z - w0.origin.z,
                w0.size_x as int,
                w0.size_y as int,
                w0.size_z as int,
            );
            let k = w0.index(p.x as int, p.y as int, p.z as int);
            assert(level(w3.light@[k], false) == level(world.light@[k], false));
            assert(level(w2.light@[k], false) == level(w1.light@[k], false));
            assert(raised(w2, w3, p, false));
            lemma_support_same_levels(w3, *world, p, false);
        }
        assert(cleared_then_spread(w0, *world, false, brem));
        lemma_drops_fed_same_levels(w1, w0, w2, true, srem);
        assert(cleared_from(w0, w2, true, srem));
        assert forall|k: int| 0 <= k < world.light@.len() implies level(#[trigger] world.light@[k], true) >= level(
            w2.light@[k],
            true,
        ) by {
            assert(level(w3.light@[k], true) == level(w2.light@[k], true));
        }
        lemma_removal_complete_same_levels(w1, w0, w2, true, srem);
        assert forall|p: BlockPos| #[trigger] raised(w2, *world, p, true) implies world.transparent@[world.index(
            p.x as int,
            p.y as int,
            p.z as int,
        )] && supported(*world, p, true) by {
            lemma_index_bounds(
                p.x - w0.origin.x,
                p.y - w0.origin.y,
                p.z - w0.origin.z,
                w0.size_x as int,
                w0.size_y as int,
                w0.size_z as int,
            );
            let k = w0.index(p.x as int, p.y as int, p.z as int);
            assert(level(w3.light@[k], true) == level(w2.light@[k], true));
            assert(raised(w3, *world, p, true));
        }
        assert(cleared_then_spread(w0, *world, true, srem));
        lemma_spread_same_levels(w3, *world, false);
        if block_modulo {
            assert(settled(w3, false));
            assert(settled(*world, false));
        }
    }
}

} // verus!
