use rustcraft::chunk::{random_tick_pos, random_tick_target, Chunk, ChunkLoadLevel, ChunkState};
use rustcraft::coords::{BlockPos, ChunkPos, Face};
use rustcraft::gen::{ChunkGenerator, MultiDeque};
use rustcraft::item::{Block, BlockData};
use rustcraft::light::Light;
use rustcraft::mesh::{cube_mesh, make_mesh, make_mesh_hybrid, make_mesh_old, MeshBlock, MeshRegion, REGION_LEN};
use std::cmp::Ordering;
use std::collections::HashSet;

fn block_data(id: &str, light: u8) -> BlockData {
    BlockData {
        id: id.to_string(),
        name: id.to_string(),
        solid: true,
        transparent: false,
        semi_transparent: false,
        group_transparent: false,
        replacable: false,
        flammable: false,
        light,
        no_render: false,
        texture: (0, 0, 0),
        has_gravity: false,
        drops: None,
    }
}

#[test]
fn faces_in_order_and_neighbours() {
    assert_eq!(Face::iter_all(), vec![Face::XNeg, Face::XPos, Face::YNeg, Face::YPos, Face::ZNeg, Face::ZPos]);
    let p = BlockPos::new(1, 2, 3);
    assert_eq!(p.shifted(Face::YNeg), BlockPos::new(1, 1, 3));
    assert_eq!(p.shifted(Face::ZPos), BlockPos::new(1, 2, 4));
    assert!(p.adjacent_to(&BlockPos::new(0, 2, 3)));
    assert!(!p.adjacent_to(&BlockPos::new(0, 1, 3)));
    assert!(!p.adjacent_to(&p));
    assert_eq!(BlockPos::new(-3, 4, -5).abs(), BlockPos::new(3, 4, 5));
    assert_eq!(p.as_tuple(), (1, 2, 3));
    assert_eq!(BlockPos::zero(), BlockPos::new(0, 0, 0));
}

#[test]
fn sub_coordinates_wrap_into_the_chunk() {
    assert_eq!(BlockPos::new(17, -1, -16).as_sub(), (1, 15, 0));
    assert!(BlockPos::new(15, 3, 3).is_on_chunk_border());
    assert!(!BlockPos::new(5, 3, 3).is_on_chunk_border());
    let c = ChunkPos::new(-2, 0, 3);
    assert_eq!(c.as_block(), BlockPos::new(-32, 0, 48));
    assert_eq!(c.as_sub(), (0, 0, 0));
    assert!(c.is_on_chunk_border());
    assert_eq!(ChunkPos::new(-1, 2, -3).abs(), ChunkPos::new(1, 2, 3));
}

#[test]
fn chunk_states_step_back() {
    assert_eq!(ChunkState::Rendered.prev(), ChunkState::Detailed);
    assert_eq!(ChunkState::Detailed.prev(), ChunkState::Filled);
    assert_eq!(ChunkState::Filled.prev(), ChunkState::Empty);
    assert_eq!(ChunkState::Empty.prev(), ChunkState::Empty);
    let l = ChunkLoadLevel::default();
    assert_eq!((l.spread, l.source), (0, 0));
}

#[test]
fn new_chunk_is_air_and_dark() {
    let air = Block::new_registered_as_shared(block_data("air", 0));
    let c = Chunk::new(ChunkPos::new(1, 2, 3), &air);
    assert_eq!(c.data.len(), 4096);
    assert!(c.block_at(&BlockPos::new(20, 40, 50)).ptr_eq(&air));
    assert_eq!(c.light_at(&BlockPos::new(0, 0, 0)).0, 0);
    assert_eq!(c.chunk_state, ChunkState::Empty);
    assert!(!c.renderable());
    assert_eq!(c.world_pos_i32(), (16, 32, 48));
}

#[test]
fn set_at_places_a_block_and_its_light() {
    let air = Block::new_registered_as_shared(block_data("air", 0));
    let lamp = Block::new_registered_as_shared(block_data("lamp", 12));
    let mut c = Chunk::new(ChunkPos::new(0, 0, 0), &air);
    let p = BlockPos::new(4, 5, 6);
    assert!(c.set_at(&p, &lamp));
    assert!(c.needs_refresh);
    assert!(c.block_at(&p).ptr_eq(&lamp));
    assert_eq!(c.light_at(&p).block(), 12);
    assert_eq!(c.light_updates.block.len(), 1);
    assert_eq!(c.light_updates.block[0], p);
    assert_eq!(c.light_updates.sky_rem.len(), 1);
    c.needs_refresh = false;
    assert!(!c.set_at(&p, &lamp));
    assert!(!c.needs_refresh);
    assert!(c.set_at(&p, &air));
    assert_eq!(c.light_at(&p).block(), 0);
    assert_eq!(c.light_updates.block_rem.len(), 1);
    assert_eq!(c.light_updates.block_rem[0], (p, 12));
}

#[test]
fn light_update_without_change_does_nothing() {
    let air = Block::new_registered_as_shared(block_data("air", 0));
    let mut c = Chunk::new(ChunkPos::new(0, 0, 0), &air);
    c.light_update(&BlockPos::new(1, 1, 1));
    assert!(!c.needs_refresh);
    assert!(c.light_updates.sky_rem.is_empty());
    c.light[0] = Light(0x35);
    c.light_update(&BlockPos::new(0, 0, 0));
    assert_eq!(c.light[0].0, 0x30);
    assert!(c.needs_refresh);
}

#[test]
fn random_ticks_stay_in_the_chunk() {
    let cp = ChunkPos::new(-1, 0, 2);
    assert_eq!(random_tick_target(&cp, (-5, 17, i32::MIN)), BlockPos::new(-16 + 5, 1, 32));
    for _ in 0..100 {
        let p = random_tick_pos(&cp);
        assert!(-16 <= p.x && p.x < 0);
        assert!(0 <= p.y && p.y < 16);
        assert!(32 <= p.z && p.z < 48);
    }
}

#[test]
fn multi_deque_lowest_rank_first() {
    let mut q: MultiDeque<u32> = MultiDeque::new();
    assert!(q.empty());
    assert_eq!(q.get_rank(), 0);
    q.push(5, 50);
    q.push(2, 20);
    q.push(5, 51);
    q.push(2, 21);
    assert_eq!(q.get_rank(), 2);
    assert_eq!(q.poll(), Some(20));
    assert_eq!(q.poll(), Some(21));
    assert_eq!(q.get_rank(), 5);
    assert_eq!(q.poll(), Some(50));
    assert_eq!(q.poll(), Some(51));
    assert!(q.empty());
    assert_eq!(q.poll(), None);
}

#[test]
fn generator_drains_its_queue() {
    let mut g = ChunkGenerator { srcs: HashSet::new(), deque: MultiDeque::new(), done: false, last_rank: 0 };
    g.deque.push(1, (ChunkPos::new(0, 0, 0), 0));
    g.deque.push(3, (ChunkPos::new(1, 0, 0), 1));
    g.step_n(1);
    assert!(!g.done);
    assert_eq!(g.last_rank, 1);
    g.step_n(5);
    assert!(g.done);
    assert!(g.deque.empty());
    assert_eq!(g.last_rank, 3);
}

fn air_block() -> MeshBlock {
    MeshBlock { ident: 0, transparent: true, semi_transparent: false, group_transparent: false, no_render: true, texture: (0, 0, 0) }
}

fn stone_block() -> MeshBlock {
    MeshBlock { ident: 1, transparent: false, semi_transparent: false, group_transparent: false, no_render: false, texture: (7, 8, 9) }
}

fn region_with_stone_at(x: i32, y: i32, z: i32) -> MeshRegion {
    let mut blocks = vec![air_block(); REGION_LEN];
    let i = ((x + 1) * 324 + (y + 1) * 18 + (z + 1)) as usize;
    blocks[i] = stone_block();
    MeshRegion { blocks, light: vec![9; REGION_LEN] }
}

#[test]
fn a_lone_block_shows_six_lit_faces() {
    let r = region_with_stone_at(5, 5, 5);
    let (opaque, semi) = make_mesh(&r);
    assert_eq!(opaque.textures, vec![7, 9, 8, 8, 8, 8]);
    assert_eq!(opaque.verts.len(), 6 * 18);
    assert_eq!(opaque.uvs.len(), 6 * 12);
    assert_eq!(opaque.light, vec![9; 36]);
    assert_eq!(&opaque.verts[0..18], &[5, 6, 5, 5, 6, 6, 6, 6, 5, 5, 6, 6, 6, 6, 6, 6, 6, 5]);
    assert_eq!(&opaque.uvs[0..12], &[0, 0, 0, 1, 1, 0, 0, 1, 1, 1, 1, 0]);
    assert!(semi.textures.is_empty() && semi.verts.is_empty());
}

#[test]
fn hidden_faces_are_not_drawn() {
    let mut r = region_with_stone_at(5, 5, 5);
    r.blocks[(7 * 324 + 6 * 18 + 6) as usize] = stone_block();
    let (opaque, _) = make_mesh(&r);
    assert_eq!(opaque.textures.len(), 10);
}

#[test]
fn older_meshers_draw_at_full_light() {
    let r = region_with_stone_at(0, 5, 5);
    let old = make_mesh_old(&r);
    assert_eq!(old.textures.len(), 6);
    assert_eq!(old.light, vec![15; 36]);
    let hybrid = make_mesh_hybrid(&r);
    assert_eq!(hybrid.textures.len(), 6);
    assert_eq!(hybrid.light, vec![15; 36]);
}

#[test]
fn cube_mesh_is_a_unit_cube() {
    let (verts, uvs) = cube_mesh();
    assert_eq!(verts.len(), 108);
    assert_eq!(uvs.len(), 72);
    assert!(verts.iter().all(|v| *v == 0 || *v == 1));
    assert_eq!(&verts[0..9], &[0, 1, 0, 0, 1, 1, 1, 1, 0]);
}

#[test]
fn blocks_belong_to_the_chunk_below_them() {
    assert_eq!(BlockPos::new(-1, 16, -17).as_chunk(), ChunkPos::new(-1, 1, -2));
    assert_eq!(BlockPos::new(0, 15, 31).as_chunk(), ChunkPos::new(0, 0, 1));
    assert_eq!(BlockPos::new(i32::MIN, -16, 16).as_chunk(), ChunkPos::new(i32::MIN / 16, -1, 1));
}

#[test]
fn chunks_order_by_position() {
    let air = Block::new_registered_as_shared(block_data("air", 0));
    let a = Chunk::new(ChunkPos::new(0, 5, 0), &air);
    let b = Chunk::new(ChunkPos::new(1, 0, 0), &air);
    let c = Chunk::new(ChunkPos::new(0, 5, -1), &air);
    assert_eq!(a.compare_position(&b), Ordering::Less);
    assert_eq!(b.compare_position(&a), Ordering::Greater);
    assert_eq!(a.compare_position(&c), Ordering::Greater);
    assert_eq!(a.compare_position(&a), Ordering::Equal);
    assert!(BlockPos::new(0, 1, 2) < BlockPos::new(0, 2, 0));
}
