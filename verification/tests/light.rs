use rustcraft::coords::BlockPos;
use rustcraft::light::{calc_light, Light, LightUpdates, LightVolume};

fn line_volume(len: usize, transparent: bool) -> LightVolume {
    LightVolume {
        origin: BlockPos::new(0, 0, 0),
        size_x: len,
        size_y: 1,
        size_z: 1,
        light: vec![Light(0); len],
        transparent: vec![transparent; len],
    }
}

#[test]
fn light_nibbles_read_back() {
    let mut l = Light::default();
    assert_eq!(l.0, 0);
    l.set_block(13);
    l.set_sky(6);
    assert_eq!(l.block(), 13);
    assert_eq!(l.sky(), 6);
    assert_eq!(l.0, 0x6d);
}

#[test]
fn setting_one_level_keeps_the_other() {
    let mut l = Light(0xa3);
    l.set_block(7);
    assert_eq!(l.sky(), 0xa);
    assert_eq!(l.block(), 7);
    l.set_sky(1);
    assert_eq!(l.block(), 7);
    assert_eq!(l.sky(), 1);
}

#[test]
fn reg_block_queues_falls_and_rises() {
    let mut u = LightUpdates::default();
    let p = BlockPos::new(1, 2, 3);
    u.reg_block(&p, 10, 4);
    assert_eq!(u.block_rem.len(), 1);
    assert_eq!(u.block.len(), 0);
    assert_eq!(u.block_rem[0], (p, 10));
    u.reg_block(&p, 4, 12);
    assert_eq!(u.block.len(), 1);
    assert_eq!(u.block[0], p);
    assert_eq!(u.sky_rem.len(), 2);
    assert_eq!(u.sky_rem[1], (p, 0));
    assert_eq!(u.sky.len(), 0);
}

#[test]
fn block_light_spreads_one_less_per_step() {
    let mut w = line_volume(5, true);
    w.light[2].set_block(15);
    let mut u = LightUpdates::default();
    u.block.push_back(BlockPos::new(2, 0, 0));
    calc_light(&mut u, &mut w);
    let levels: Vec<u8> = w.light.iter().map(|l| l.block()).collect();
    assert_eq!(levels, vec![13, 14, 15, 14, 13]);
    assert!(u.block.is_empty() && u.block_rem.is_empty() && u.sky.is_empty() && u.sky_rem.is_empty());
}

#[test]
fn light_stops_at_opaque_blocks() {
    let mut w = line_volume(4, true);
    w.transparent[1] = false;
    w.light[0].set_block(10);
    let mut u = LightUpdates::default();
    u.block.push_back(BlockPos::new(0, 0, 0));
    calc_light(&mut u, &mut w);
    let levels: Vec<u8> = w.light.iter().map(|l| l.block()).collect();
    assert_eq!(levels, vec![10, 0, 0, 0]);
}

#[test]
fn removed_light_goes_dark() {
    let mut w = line_volume(5, true);
    w.light[2].set_block(15);
    let mut u = LightUpdates::default();
    u.block.push_back(BlockPos::new(2, 0, 0));
    calc_light(&mut u, &mut w);
    w.light[2].set_block(0);
    u.block_rem.push_back((BlockPos::new(2, 0, 0), 15));
    calc_light(&mut u, &mut w);
    let levels: Vec<u8> = w.light.iter().map(|l| l.block()).collect();
    assert_eq!(levels, vec![0, 0, 0, 0, 0]);
}

#[test]
fn sky_light_keeps_its_level_going_down() {
    let mut w = LightVolume {
        origin: BlockPos::new(0, 0, 0),
        size_x: 1,
        size_y: 4,
        size_z: 1,
        light: vec![Light(0); 4],
        transparent: vec![true; 4],
    };
    w.light[3].set_sky(15);
    let mut u = LightUpdates::default();
    u.sky.push_back(BlockPos::new(0, 3, 0));
    calc_light(&mut u, &mut w);
    let levels: Vec<u8> = w.light.iter().map(|l| l.sky()).collect();
    assert_eq!(levels, vec![15, 15, 15, 15]);
    let blocks: Vec<u8> = w.light.iter().map(|l| l.block()).collect();
    assert_eq!(blocks, vec![0, 0, 0, 0]);
}

#[test]
fn removing_a_light_lets_the_other_light_refill() {
    let mut w = line_volume(7, true);
    w.light[0].set_block(15);
    w.light[6].set_block(10);
    let mut u = LightUpdates::default();
    u.block.push_back(BlockPos::new(0, 0, 0));
    u.block.push_back(BlockPos::new(6, 0, 0));
    calc_light(&mut u, &mut w);
    let levels: Vec<u8> = w.light.iter().map(|l| l.block()).collect();
    assert_eq!(levels, vec![15, 14, 13, 12, 11, 10, 10]);
    w.light[0].set_block(0);
    u.reg_block(&BlockPos::new(0, 0, 0), 15, 0);
    calc_light(&mut u, &mut w);
    let levels: Vec<u8> = w.light.iter().map(|l| l.block()).collect();
    assert_eq!(levels, vec![4, 5, 6, 7, 8, 9, 10]);
}

#[test]
fn a_registered_light_spreads_and_settles() {
    let mut w = line_volume(4, true);
    let mut u = LightUpdates::default();
    w.light[3].set_block(12);
    u.reg_block(&BlockPos::new(3, 0, 0), 0, 12);
    calc_light(&mut u, &mut w);
    let levels: Vec<u8> = w.light.iter().map(|l| l.block()).collect();
    assert_eq!(levels, vec![9, 10, 11, 12]);
    let skies: Vec<u8> = w.light.iter().map(|l| l.sky()).collect();
    assert_eq!(skies, vec![0, 0, 0, 0]);
}

#[test]
fn a_removed_torch_leaves_no_stale_light() {
    let mut w = line_volume(5, true);
    w.light[2].set_block(14);
    let mut u = LightUpdates::default();
    u.reg_block(&BlockPos::new(2, 0, 0), 0, 14);
    calc_light(&mut u, &mut w);
    let levels: Vec<u8> = w.light.iter().map(|l| l.block()).collect();
    assert_eq!(levels, vec![12, 13, 14, 13, 12]);
    w.light[2].set_block(0);
    u.reg_block(&BlockPos::new(2, 0, 0), 14, 0);
    calc_light(&mut u, &mut w);
    let levels: Vec<u8> = w.light.iter().map(|l| l.block()).collect();
    assert_eq!(levels, vec![0, 0, 0, 0, 0]);
}
