//! Chunks: 16×16×16 blocks with their light, the stage of generation
//! they reached and their pending light changes.
use vstd::prelude::*;
use rand::Rng;
use crate::coords::{BlockPos, ChunkPos, sub16};
use crate::item::Block;
use crate::light::{Light, LightUpdates, block_level, queued_change};
use std::cmp::Ordering;

verus! {

/// How far the generation of a chunk has come.
#[derive(Clone, Copy, Debug, PartialEq, Eq, Structural)]
pub enum ChunkState {
    /// No data has been filled in.
    Empty,
    /// Terrain generation done.
    Filled,
    /// Detailing done.
    Detailed,
    /// Rendered and interactable.
    Rendered,
}

impl ChunkState {
    /// The stage before this one; `Empty` stays `Empty`.
    pub fn prev(self) -> (r: Self)
        ensures
            r == match self {
                ChunkState::Rendered => ChunkState::Detailed,
                ChunkState::Detailed => ChunkState::Filled,
                ChunkState::Filled => ChunkState::Empty,
                ChunkState::Empty => ChunkState::Empty,
            },
    {
        match self {
            ChunkState::Rendered => ChunkState::Detailed,
            ChunkState::Detailed => ChunkState::Filled,
            ChunkState::Filled => ChunkState::Empty,
            ChunkState::Empty => ChunkState::Empty,
        }
    }
}

/// The load levels of a chunk: the one spread to it from its neighbours
/// and the one set on it as a source.
#[derive(Clone, Copy, Debug, Default, PartialEq, Eq, Structural)]
pub struct ChunkLoadLevel {
    pub spread: u8,
    pub source: u8,
}

/// The number of blocks of a chunk.
pub const CHUNK_VOLUME: usize = 4096;

/// Where the block at chunk-local `(x, y, z)` is stored: `x` slowest, `z`
/// fastest.
pub open spec fn sub_index(x: int, y: int, z: int) -> int {
    x * 256 + y * 16 + z
}

/// Where the block at `p` is stored in the chunk that holds it.
pub open spec fn pos_index(p: BlockPos) -> int {
    sub_index(sub16(p.x as int), sub16(p.y as int), sub16(p.z as int))
}

/// The chunk-local position of `p` is in range, so its index is too.
pub proof fn lemma_pos_index(p: BlockPos)
    ensures
        0 <= pos_index(p) < CHUNK_VOLUME,
{
}

/// The order of chunk positions: by `x`, then `y`, then `z`.
pub open spec fn position_order(a: ChunkPos, b: ChunkPos) -> Ordering {
    if a.x != b.x {
        if a.x < b.x { Ordering::Less } else { Ordering::Greater }
    } else if a.y != b.y {
        if a.y < b.y { Ordering::Less } else { Ordering::Greater }
    } else if a.z != b.z {
        if a.z < b.z { Ordering::Less } else { Ordering::Greater }
    } else {
        Ordering::Equal
    }
}

/// Two positions share a storage index exactly when they have the same
/// chunk-local position.
pub proof fn lemma_pos_index_injective(p: BlockPos, q: BlockPos)
    ensures
        pos_index(p) == pos_index(q) <==> (sub16(p.x as int) == sub16(q.x as int) && sub16(p.y as int)
            == sub16(q.y as int) && sub16(p.z as int) == sub16(q.z as int)),
{
}

/// Writing block `b` for position `p` and reading the block for `q`
/// gives `b` when `q` has `p`'s chunk-local position, and the block that
/// was there before otherwise.
pub proof fn lemma_write_then_read(before: Seq<Block>, p: BlockPos, b: Block, q: BlockPos)
    requires
        before.len() == CHUNK_VOLUME,
    ensures
        before.update(pos_index(p), b)[pos_index(q)] == if sub16(p.x as int) == sub16(q.x as int) && sub16(
            p.y as int,
        ) == sub16(q.y as int) && sub16(p.z as int) == sub16(q.z as int) {
            b
        } else {
            before[pos_index(q)]
        },
{
    lemma_pos_index_injective(p, q);
}

/// The storage index of a chunk-local position.
fn index_of(p: &BlockPos) -> (r: usize)
    ensures
        r as int == pos_index(*p),
        r < CHUNK_VOLUME,
{
    let (x, y, z) = p.as_sub();
    x * 256 + y * 16 + z
}

/// A chunk: its blocks and their light, stored by `sub_index`.
#[derive(Debug)]
pub struct Chunk {
    pub load_level_spread: u8,
    pub load_level_set: u8,
    pub chunk_state: ChunkState,
    pub needs_refresh: bool,
    pub pos: ChunkPos,
    pub data: Vec<Block>,
    pub light: Vec<Light>,
    pub light_updates: LightUpdates,
}

impl Chunk {
    /// The block and light vectors hold one entry per block.
    pub open spec fn wf(&self) -> bool {
        self.data@.len() == CHUNK_VOLUME && self.light@.len() == CHUNK_VOLUME
    }

    /// A chunk at `pos` full of `air`, dark, empty and with no pending
    /// light changes.
    pub fn new(pos: ChunkPos, air: &Block) -> (r: Self)
        ensures
            r.wf(),
            r.pos == pos,
            forall|i: int| 0 <= i < CHUNK_VOLUME ==> r.data@[i] == *air,
            forall|i: int| 0 <= i < CHUNK_VOLUME ==> r.light@[i].0 == 0,
            r.chunk_state == ChunkState::Empty,
            !r.needs_refresh,
            r.load_level_spread == 0,
            r.load_level_set == 0,
            r.light_updates.block@.len() == 0,
            r.light_updates.block_rem@.len() == 0,
            r.light_updates.sky@.len() == 0,
            r.light_updates.sky_rem@.len() == 0,
    {
        let mut data: Vec<Block> = Vec::new();
        let mut light: Vec<Light> = Vec::new();
        let mut i: usize = 0;
        while i < CHUNK_VOLUME
            invariant
                i <= CHUNK_VOLUME,
                data@.len() == i,
                light@.len() == i,
                forall|k: int| 0 <= k < i ==> data@[k] == *air,
                forall|k: int| 0 <= k < i ==> light@[k].0 == 0,
            decreases CHUNK_VOLUME - i,
        {
            data.push(air.clone());
            light.push(Light::default());
            i = i + 1;
        }
        Chunk {
            light_updates: LightUpdates::default(),
            chunk_state: ChunkState::Empty,
            data,
            pos,
            needs_refresh: false,
            light,
            load_level_spread: 0,
            load_level_set: 0,
        }
    }

    /// The world position of the chunk's lowest corner.
    pub fn world_pos_i32(&self) -> (r: (i32, i32, i32))
        requires
            i32::MIN <= 16 * self.pos.x <= i32::MAX,
            i32::MIN <= 16 * self.pos.y <= i32::MAX,
            i32::MIN <= 16 * self.pos.z <= i32::MAX,
        ensures
            r.0 == 16 * self.pos.x,
            r.1 == 16 * self.pos.y,
            r.2 == 16 * self.pos.z,
    {
        (self.pos.x * 16, self.pos.y * 16, self.pos.z * 16)
    }

    /// The block stored for the chunk-local position of `pos`.
    pub fn block_at(&self, pos: &BlockPos) -> (r: &Block)
        requires
            self.wf(),
        ensures
            *r == self.data@[pos_index(*pos)],
    {
        let i = index_of(pos);
        &self.data[i]
    }

    /// The light stored for the chunk-local position of `pos`.
    pub fn light_at(&self, pos: &BlockPos) -> (r: Light)
        requires
            self.wf(),
        ensures
            r == self.light@[pos_index(*pos)],
    {
        let i = index_of(pos);
        self.light[i]
    }

    /// Mutable access to the light stored for the chunk-local position of
    /// `pos`.
    pub fn light_at_mut(&mut self, pos: &BlockPos) -> (r: &mut Light)
        requires
            old(self).wf(),
        ensures
            *r == old(self).light@[pos_index(*pos)],
            final(self).light@ == old(self).light@.update(pos_index(*pos), *final(r)),
            final(self).data@ == old(self).data@,
            final(self).pos == old(self).pos,
            final(self).chunk_state == old(self).chunk_state,
            final(self).needs_refresh == old(self).needs_refresh,
            final(self).light_updates == old(self).light_updates,
    {
        let i = index_of(pos);
        &mut self.light[i]
    }

    /// Brings the block light at `pos` to the light its block emits: when
    /// they differ, the change is queued, the level set and the chunk marked
    /// for a refresh; otherwise nothing changes.
    pub fn light_update(&mut self, pos: &BlockPos)
        requires
            old(self).wf(),
        ensures
            final(self).wf(),
            final(self).data@ == old(self).data@,
            final(self).pos == old(self).pos,
            final(self).chunk_state == old(self).chunk_state,
            ({
                let i = pos_index(*pos);
                let was = old(self).light@[i];
                let emits = old(self).data@[i]@.0.light;
                if block_level(was) != emits {
                    &&& final(self).light@ == old(self).light@.update(i, Light((was.0 & 0xf0) | emits))
                    &&& queued_change(old(self).light_updates, final(self).light_updates, *pos, block_level(was), emits)
                    &&& final(self).needs_refresh
                } else {
                    &&& final(self).light@ == old(self).light@
                    &&& final(self).light_updates == old(self).light_updates
                    &&& final(self).needs_refresh == old(self).needs_refresh
                }
            }),
    {
        let i = index_of(pos);
        let old_level = self.light[i].block();
        let emits = self.data[i].data().light;
        if old_level != emits {
            self.light_updates.reg_block(pos, old_level, emits);
            self.light[i].set_block(emits);
            self.needs_refresh = true;
        }
    }

    /// Puts `block` at the chunk-local position of `pos`. Returns `false`,
    /// changing nothing, exactly when that very block instance is already
    /// there; otherwise stores it, updates the light there and marks the chunk for
    /// a refresh.
    pub fn set_at(&mut self, pos: &BlockPos, block: &Block) -> (r: bool)
        requires
            old(self).wf(),
        ensures
            final(self).wf(),
            final(self).pos == old(self).pos,
            final(self).chunk_state == old(self).chunk_state,
            r == (old(self).data@[pos_index(*pos)].instance() != block.instance()),
            !r ==> *final(self) == *old(self),
            r ==> {
                let i = pos_index(*pos);
                let was = old(self).light@[i];
                &&& final(self).data@ == old(self).data@.update(i, *block)
                &&& final(self).needs_refresh
                &&& block_level(was) != block@.0.light ==> final(self).light@ == old(self).light@.update(
                    i,
                    Light((was.0 & 0xf0) | block@.0.light),
                ) && queued_change(
                    old(self).light_updates,
                    final(self).light_updates,
                    *pos,
                    block_level(was),
                    block@.0.light,
                )
                &&& block_level(was) == block@.0.light ==> final(self).light@ == old(self).light@
                    && final(self).light_updates == old(self).light_updates
            },
    {
        let i = index_of(pos);
        if !self.data[i].ptr_eq(block) {
            self.data[i] = block.clone();
            self.light_update(pos);
            self.needs_refresh = true;
            true
        } else {
            false
        }
    }

    /// Orders chunks by position: by `x`, then `y`, then `z`.
    pub fn compare_position(&self, rhs: &Self) -> (r: Ordering)
        ensures
            r == position_order(self.pos, rhs.pos),
    {
        let (a, b) = (self.pos, rhs.pos);
        if a.x < b.x {
            Ordering::Less
        } else if a.x > b.x {
            Ordering::Greater
        } else if a.y < b.y {
            Ordering::Less
        } else if a.y > b.y {
            Ordering::Greater
        } else if a.z < b.z {
            Ordering::Less
        } else if a.z > b.z {
            Ordering::Greater
        } else {
            Ordering::Equal
        }
    }

    /// Whether the chunk is rendered and interactable.
    pub fn renderable(&self) -> (r: bool)
        ensures
            r == (self.chunk_state == ChunkState::Rendered),
    {
        match self.chunk_state {
            ChunkState::Rendered => true,
            _ => false,
        }
    }
}

/// A random triple of integers.
///
/// Trusted: `rand::thread_rng().gen()` returns some triple; nothing is
/// stated of which.
#[verifier::external_body]
fn random_triple() -> (r: (i32, i32, i32)) {
    rand::thread_rng().gen::<(i32, i32, i32)>()
}

/// The chunk-local offset drawn from a random integer: its absolute value
/// modulo 16.
pub open spec fn tick_offset(v: int) -> int {
    (if v < 0 { -v } else { v }) % 16
}

/// The block of chunk `cp` that a random triple `r` picks for a random
/// tick: the chunk's corner moved by the absolute value of each component
/// modulo 16.
pub fn random_tick_target(cp: &ChunkPos, r: (i32, i32, i32)) -> (p: BlockPos)
    requires
        i32::MIN <= 16 * cp.x <= i32::MAX - 15,
        i32::MIN <= 16 * cp.y <= i32::MAX - 15,
        i32::MIN <= 16 * cp.z <= i32::MAX - 15,
    ensures
        p.x == 16 * cp.x + tick_offset(r.0 as int),
        p.y == 16 * cp.y + tick_offset(r.1 as int),
        p.z == 16 * cp.z + tick_offset(r.2 as int),
{
    let corner = cp.as_block();
    BlockPos {
        x: corner.x + offset16(r.0),
        y: corner.y + offset16(r.1),
        z: corner.z + offset16(r.2),
    }
}

/// `|v| % 16` of an `i32`, in `0..16`.
fn offset16(v: i32) -> (r: i32)
    ensures
        r == tick_offset(v as int),
        0 <= r < 16,
{
    let m = v % 16;
    if m < 0 {
        -m
    } else {
        m
    }
}

/// Picks a random block of chunk `cp` for a random tick.
pub fn random_tick_pos(cp: &ChunkPos) -> (p: BlockPos)
    requires
        i32::MIN <= 16 * cp.x <= i32::MAX - 15,
        i32::MIN <= 16 * cp.y <= i32::MAX - 15,
        i32::MIN <= 16 * cp.z <= i32::MAX - 15,
    ensures
        16 * cp.x <= p.x < 16 * cp.x + 16,
        16 * cp.y <= p.y < 16 * cp.y + 16,
        16 * cp.z <= p.z < 16 * cp.z + 16,
{
    let r = random_triple();
    random_tick_target(cp, r)
}

} // verus!
