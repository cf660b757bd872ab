use rustcraft::cmd::{parse, Cmd};
use rustcraft::component::{falls, ItemCmp, PathFinding};
use rustcraft::coords::BlockPos;
use rustcraft::item::{Item, ItemData, ItemLike, ItemStack};
use rustcraft::player::{PlayerData, PlayerInventory};

fn item(id: &str) -> ItemLike {
    ItemLike::Item(Item::new_registered_as_shared(ItemData {
        id: id.to_string(),
        name: id.to_string(),
        texture: 0,
    }))
}

fn total(inv: &PlayerInventory) -> usize {
    inv.data.iter().map(|s| s.as_ref().map(|s| s.count).unwrap_or(0)).sum()
}

#[test]
fn new_player_has_an_empty_inventory() {
    let p = PlayerData::new();
    assert_eq!(p.inventory.data.len(), 36);
    assert!(p.inventory.data.iter().all(|s| s.is_none()));
}

#[test]
fn merge_tops_up_stacks_before_empty_slots() {
    let mut inv = PlayerInventory::default();
    inv.data[3] = Some(ItemStack::of(item("apple"), 60));
    let mut s = Some(ItemStack::of(item("apple"), 10));
    inv.merge(&mut s);
    assert!(s.is_none());
    assert_eq!(inv.data[3].as_ref().unwrap().count, 64);
    assert_eq!(inv.data[0].as_ref().unwrap().count, 6);
    assert_eq!(total(&inv), 70);
}

#[test]
fn merge_uses_the_first_empty_slot() {
    let mut inv = PlayerInventory::default();
    inv.data[0] = Some(ItemStack::of(item("stone"), 5));
    let mut s = Some(ItemStack::of(item("apple"), 10));
    inv.merge(&mut s);
    assert!(s.is_none());
    assert_eq!(inv.data[0].as_ref().unwrap().count, 5);
    assert_eq!(inv.data[1].as_ref().unwrap().count, 10);
    assert_eq!(inv.data[1].as_ref().unwrap().item.id(), "apple");
}

#[test]
fn merge_into_a_full_inventory_keeps_the_rest() {
    let mut inv = PlayerInventory::default();
    for slot in inv.data.iter_mut() {
        *slot = Some(ItemStack::of(item("stone"), 64));
    }
    let mut s = Some(ItemStack::of(item("apple"), 3));
    inv.merge(&mut s);
    assert_eq!(s.unwrap().count, 3);
    assert_eq!(total(&inv), 36 * 64);
}

#[test]
fn merge_of_nothing_changes_nothing() {
    let mut inv = PlayerInventory::default();
    let mut s: Option<ItemStack> = None;
    inv.merge(&mut s);
    assert!(s.is_none());
    assert_eq!(total(&inv), 0);
}

#[test]
fn give_hands_out_full_stacks() {
    let mut inv = PlayerInventory::default();
    let lost = inv.give(&item("apple"), 150);
    assert_eq!(lost, 0);
    assert_eq!(inv.data[0].as_ref().unwrap().count, 64);
    assert_eq!(inv.data[1].as_ref().unwrap().count, 64);
    assert_eq!(inv.data[2].as_ref().unwrap().count, 22);
    assert_eq!(total(&inv), 150);
}

#[test]
fn give_reports_what_found_no_room() {
    let mut inv = PlayerInventory::default();
    let lost = inv.give(&item("apple"), 36 * 64 + 10);
    assert_eq!(lost, 10);
    assert_eq!(total(&inv), 36 * 64);
}

#[test]
fn parse_give_with_and_without_count() {
    match parse("give stone 12") {
        Ok(Cmd::Give { id, count }) => {
            assert_eq!(id, "stone");
            assert_eq!(count, 12);
        },
        _ => panic!("not a give"),
    }
    match parse("give stone") {
        Ok(Cmd::Give { id, count }) => {
            assert_eq!(id, "stone");
            assert_eq!(count, 1);
        },
        _ => panic!("not a give"),
    }
}

#[test]
fn parse_summon() {
    match "summon pig".parse::<Cmd>() {
        Ok(Cmd::Summon { id }) => assert_eq!(id, "pig"),
        _ => panic!("not a summon"),
    }
}

#[test]
fn parse_refuses_bad_lines() {
    assert!(parse("give stone -3").is_err());
    assert!(parse("fly").is_err());
    assert!(parse("").is_err());
    assert!(parse("give").is_err());
    assert!(parse("summon 5").is_err());
    assert!("teleport".parse::<Cmd>().is_err());
}

#[test]
fn exec_give_fills_the_inventory() {
    let mut inv = PlayerInventory::default();
    let cmd = Cmd::Give { id: "apple".to_string(), count: 70 };
    assert_eq!(cmd.exec_give(&mut inv, &item("apple")), Some(0));
    assert_eq!(total(&inv), 70);
    let summon = Cmd::Summon { id: "pig".to_string() };
    assert_eq!(summon.exec_give(&mut inv, &item("apple")), None);
    assert_eq!(total(&inv), 70);
}

#[test]
fn dropped_item_ages_and_expires() {
    let mut it = ItemCmp::from(ItemStack::of(item("apple"), 2));
    assert_eq!(it.age, 0);
    assert!(!it.pickable());
    for _ in 0..4 {
        assert!(!it.tick_age());
    }
    assert!(it.pickable());
    for _ in 4..200 {
        assert!(!it.tick_age());
    }
    assert!(it.tick_age());
    assert_eq!(it.age, 201);
}

#[test]
fn picking_up_moves_the_stack() {
    let mut inv = PlayerInventory::default();
    let mut it = ItemCmp::from(ItemStack::of(item("apple"), 5));
    assert!(it.pick_up(&mut inv));
    assert_eq!(total(&inv), 5);
    let mut full = PlayerInventory::default();
    for slot in full.data.iter_mut() {
        *slot = Some(ItemStack::of(item("stone"), 64));
    }
    let mut it = ItemCmp::from(ItemStack::of(item("apple"), 5));
    assert!(!it.pick_up(&mut full));
    assert_eq!(it.item.count, 5);
}

#[test]
fn path_search_waits_between_attempts() {
    let mut pf = PathFinding::new();
    assert_eq!(pf.tick(), None);
    let target = BlockPos::new(3, 4, 5);
    pf.retarget(target);
    assert_eq!(pf.tick(), Some(target));
    assert_eq!(pf.search_delay, 40);
    for _ in 0..40 {
        assert_eq!(pf.tick(), None);
    }
    assert_eq!(pf.tick(), Some(target));
    pf.set_path(Some(vec![target]));
    assert_eq!(pf.tick(), None);
    assert_eq!(pf.search_delay, 40);
}

#[test]
fn stacks_fit_checks_every_slot() {
    let mut inv = PlayerInventory::default();
    assert!(inv.stacks_fit());
    inv.data[5] = Some(ItemStack::of(item("apple"), 65));
    assert!(!inv.stacks_fit());
}

#[test]
fn give_within_empty_slots_loses_nothing() {
    let mut inv = PlayerInventory::default();
    for slot in inv.data.iter_mut().skip(2) {
        *slot = Some(ItemStack::of(item("stone"), 64));
    }
    assert_eq!(inv.give(&item("apple"), 128), 0);
    assert_eq!(inv.give(&item("apple"), 1), 1);
}

#[test]
fn picking_up_with_an_empty_slot_always_succeeds() {
    let mut inv = PlayerInventory::default();
    for slot in inv.data.iter_mut().skip(1) {
        *slot = Some(ItemStack::of(item("stone"), 64));
    }
    let mut it = ItemCmp::from(ItemStack::of(item("apple"), 64));
    assert!(it.pick_up(&mut inv));
    assert_eq!(inv.data[0].as_ref().unwrap().count, 64);
}

#[test]
fn give_leaves_stacks_of_other_kinds_alone() {
    let mut inv = PlayerInventory::default();
    inv.data[0] = Some(ItemStack::of(item("stone"), 10));
    let lost = inv.give(&item("dirt"), 5);
    assert_eq!(lost, 0);
    assert_eq!(inv.data[0].as_ref().unwrap().count, 10);
    assert_eq!(inv.data[0].as_ref().unwrap().item.id(), "stone");
    assert_eq!(inv.data[1].as_ref().unwrap().item.id(), "dirt");
    assert_eq!(inv.data[1].as_ref().unwrap().count, 5);
}

#[test]
fn a_block_falls_only_onto_a_loaded_non_solid_block() {
    assert!(falls(Some(false)));
    assert!(!falls(Some(true)));
    assert!(!falls(None));
}
