use rustcraft::item::{one, yes, Block, BlockData, Item, ItemData, ItemLike, ItemStack};

fn block_data(id: &str) -> BlockData {
    BlockData {
        id: id.to_string(),
        name: id.to_uppercase(),
        solid: true,
        transparent: false,
        semi_transparent: false,
        group_transparent: false,
        replacable: false,
        flammable: false,
        light: 0,
        no_render: false,
        texture: (1, 2, 3),
        has_gravity: false,
        drops: None,
    }
}

fn item_data(id: &str) -> ItemData {
    ItemData { id: id.to_string(), name: id.to_uppercase(), texture: 5 }
}

fn stick() -> ItemLike {
    ItemLike::Item(Item::new_registered_as_shared(item_data("stick")))
}

fn count(s: &Option<ItemStack>) -> usize {
    s.as_ref().map(|s| s.count).unwrap_or(0)
}

#[test]
fn serde_defaults() {
    assert!(yes());
    assert_eq!(one(), 1);
}

#[test]
fn item_sharing_flags() {
    let shared = Item::new_registered_as_shared(item_data("a"));
    let own = Item::new_not_shared(item_data("a"));
    assert!(shared.is_shared());
    assert!(!own.is_shared());
    let copy = shared.clone();
    assert!(copy.ptr_eq(&shared));
    assert!(!own.ptr_eq(&shared));
}

#[test]
fn mutating_an_item_unshares_it() {
    let shared = Item::new_registered_as_shared(item_data("a"));
    let mut mine = shared.clone();
    mine.mutate().texture = 9;
    assert!(!mine.is_shared());
    assert_eq!(mine.data().texture, 9);
    assert!(shared.is_shared());
    assert_eq!(shared.data().texture, 5);
    assert!(!mine.ptr_eq(&shared));
}

#[test]
fn mutating_a_block_unshares_it() {
    let shared = Block::new_registered_as_shared(block_data("stone"));
    let mut mine = shared.clone();
    mine.mutate().light = 7;
    assert!(!mine.is_shared());
    assert_eq!(mine.data().light, 7);
    assert_eq!(shared.data().light, 0);
    assert!(mine.render_eq(&shared));
}

#[test]
fn render_eq_compares_looks() {
    let a = block_data("a");
    let mut b = block_data("b");
    assert!(a.render_eq(&b));
    b.transparent = true;
    assert!(!a.render_eq(&b));
}

#[test]
fn item_like_kinds() {
    let b = ItemLike::Block(Block::new_registered_as_shared(block_data("dirt")));
    let i = stick();
    assert!(b.is_block() && !b.is_item());
    assert!(i.is_item() && !i.is_block());
    assert_eq!(b.id(), "dirt");
    assert_eq!(i.name(), "STICK");
    assert!(b.as_block().is_some() && b.as_item().is_none());
    assert!(i.to_item().is_some() && i.to_block().is_none());
    assert!(i.same_as(&stick()));
    assert!(!i.same_as(&b));
    assert!(b.same_as(&b.clone()));
}

#[test]
fn stack_constructors() {
    let s = ItemStack::of(stick(), 5);
    assert_eq!(s.count, 5);
    let full = ItemStack::stack_of(stick());
    assert_eq!(full.count, 64);
}

#[test]
fn deduct_takes_items_and_empties() {
    let mut s = Some(ItemStack::of(stick(), 5));
    ItemStack::deduct(&mut s, 2);
    assert_eq!(count(&s), 3);
    ItemStack::deduct(&mut s, 10);
    assert!(s.is_none());
    ItemStack::deduct(&mut s, 1);
    assert!(s.is_none());
}

#[test]
fn split_halves_a_stack() {
    let mut s = Some(ItemStack::of(stick(), 7));
    let other = ItemStack::split(&mut s);
    assert_eq!(count(&s), 3);
    assert_eq!(count(&other), 4);
    let mut one_item = Some(ItemStack::of(stick(), 1));
    let taken = ItemStack::split(&mut one_item);
    assert!(one_item.is_none());
    assert_eq!(count(&taken), 1);
    let mut none: Option<ItemStack> = None;
    assert!(ItemStack::split(&mut none).is_none());
}

#[test]
fn merge_fills_up_to_a_full_stack() {
    let mut from = Some(ItemStack::of(stick(), 40));
    let mut into = Some(ItemStack::of(stick(), 30));
    ItemStack::merge(&mut from, &mut into);
    assert_eq!(count(&into), 64);
    assert_eq!(count(&from), 6);
    let mut empty: Option<ItemStack> = None;
    ItemStack::merge(&mut from, &mut empty);
    assert_eq!(count(&empty), 6);
    assert!(from.is_none());
}

#[test]
fn merge_leaves_other_kinds_alone() {
    let dirt = ItemLike::Block(Block::new_registered_as_shared(block_data("dirt")));
    let mut from = Some(ItemStack::of(stick(), 3));
    let mut into = Some(ItemStack::of(dirt, 4));
    ItemStack::merge(&mut from, &mut into);
    assert_eq!(count(&from), 3);
    assert_eq!(count(&into), 4);
    assert!(into.unwrap().item.is_block());
}

#[test]
fn transfer_or_swap_swaps_other_kinds() {
    let dirt = ItemLike::Block(Block::new_registered_as_shared(block_data("dirt")));
    let mut from = Some(ItemStack::of(stick(), 3));
    let mut into = Some(ItemStack::of(dirt, 4));
    ItemStack::transfer_or_swap(&mut from, &mut into);
    assert_eq!(count(&from), 4);
    assert!(from.as_ref().unwrap().item.is_block());
    assert_eq!(count(&into), 3);
}

#[test]
fn transfer_or_swap_merges_same_kind() {
    let mut from = Some(ItemStack::of(stick(), 10));
    let mut into = Some(ItemStack::of(stick(), 60));
    ItemStack::transfer_or_swap(&mut from, &mut into);
    assert_eq!(count(&into), 64);
    assert_eq!(count(&from), 6);
}

#[test]
fn transfer_moves_into_an_empty_slot() {
    let mut from = Some(ItemStack::of(stick(), 10));
    let mut into: Option<ItemStack> = None;
    ItemStack::transfer(&mut from, &mut into);
    assert!(from.is_none());
    assert_eq!(count(&into), 10);
    let mut nothing: Option<ItemStack> = None;
    ItemStack::transfer(&mut nothing, &mut into);
    assert_eq!(count(&into), 10);
}

#[test]
fn transfer_keeps_items_in_total() {
    let mut from = Some(ItemStack::of(stick(), 50));
    let mut into = Some(ItemStack::of(stick(), 50));
    ItemStack::transfer(&mut from, &mut into);
    assert_eq!(count(&from) + count(&into), 100);
    assert_eq!(count(&into), 64);
}

#[test]
fn mutable_access_to_the_kind() {
    let mut b = ItemLike::Block(Block::new_registered_as_shared(block_data("sand")));
    assert!(b.as_item_mut().is_none());
    b.as_block_mut().unwrap().mutate().has_gravity = true;
    assert!(b.as_block().unwrap().data().has_gravity);
    let mut i = stick();
    assert!(i.as_block_mut().is_none());
    i.as_item_mut().unwrap().mutate().texture = 11;
    assert_eq!(i.as_item().unwrap().data().texture, 11);
}

#[test]
fn transfer_no_swap_is_transfer() {
    let mut from = Some(ItemStack::of(stick(), 50));
    let mut into = Some(ItemStack::of(stick(), 20));
    ItemStack::transfer_no_swap(&mut from, &mut into);
    assert_eq!(count(&into), 64);
    assert_eq!(count(&from), 6);
}
