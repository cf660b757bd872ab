use rustcraft::crafting::{CraftingRegistry, Node};
use rustcraft::item::{Block, BlockData, Item, ItemData, ItemLike, ItemStack};

fn item(id: &str) -> ItemLike {
    ItemLike::Item(Item::new_registered_as_shared(ItemData { id: id.to_string(), name: id.to_string(), texture: 0 }))
}

fn plank_block() -> Block {
    Block::new_registered_as_shared(BlockData {
        id: "plank".to_string(),
        name: "Plank".to_string(),
        solid: true,
        transparent: false,
        semi_transparent: false,
        group_transparent: false,
        replacable: false,
        flammable: true,
        light: 0,
        no_render: false,
        texture: (4, 4, 4),
        has_gravity: false,
        drops: None,
    })
}

fn grid(slots: &[Option<ItemLike>]) -> Vec<Option<ItemStack>> {
    slots.iter().map(|s| s.clone().map(|i| ItemStack::of(i, 1))).collect()
}

fn torch_pattern() -> Vec<Option<ItemLike>> {
    vec![Some(item("coal")), None, None, Some(item("stick")), None, None, None, None, None]
}

#[test]
fn registered_recipe_is_found() {
    let mut reg = CraftingRegistry::new();
    reg.register(true, &torch_pattern(), ItemStack::of(item("torch"), 4));
    let found = reg.search(&grid(&torch_pattern()));
    let out = found.expect("recipe");
    assert_eq!(out.count, 4);
    assert_eq!(out.item.id(), "torch");
}

#[test]
fn other_grids_find_nothing() {
    let mut reg = CraftingRegistry::new();
    reg.register(true, &torch_pattern(), ItemStack::of(item("torch"), 4));
    let mut moved = torch_pattern();
    moved.swap(0, 1);
    assert!(reg.search(&grid(&moved)).is_none());
    let mut other = torch_pattern();
    other[3] = Some(item("coal"));
    assert!(reg.search(&grid(&other)).is_none());
    assert!(reg.search(&grid(&vec![None; 9])).is_none());
}

#[test]
fn several_recipes_share_the_trie() {
    let mut reg = CraftingRegistry::new();
    reg.register(true, &torch_pattern(), ItemStack::of(item("torch"), 4));
    let mut ladder = torch_pattern();
    ladder[4] = Some(item("stick"));
    reg.register(true, &ladder, ItemStack::of(item("ladder"), 3));
    assert_eq!(reg.search(&grid(&torch_pattern())).unwrap().item.id(), "torch");
    assert_eq!(reg.search(&grid(&ladder)).unwrap().item.id(), "ladder");
}

#[test]
fn block_keys_match_the_same_block() {
    let plank = ItemLike::Block(plank_block());
    let pattern = vec![Some(plank.clone()), Some(plank.clone()), None];
    let mut trie = Node::Branch(Vec::new(), None);
    trie.register(&pattern, ItemStack::of(item("stick"), 4));
    let found = trie.search(&grid(&pattern));
    assert_eq!(found.unwrap().count, 4);
    let other_plank = ItemLike::Block(plank_block());
    assert!(trie.search(&grid(&[Some(other_plank.clone()), Some(other_plank), None])).is_none());
}

#[test]
fn longer_grids_match_nothing() {
    let mut trie = Node::Branch(Vec::new(), None);
    trie.register(&[Some(item("a"))], ItemStack::of(item("b"), 1));
    assert!(trie.search(&grid(&[Some(item("a")), None])).is_none());
    assert_eq!(trie.search(&grid(&[Some(item("a"))])).unwrap().item.id(), "b");
}

#[test]
fn recipes_of_different_lengths_share_the_trie() {
    let mut trie = Node::Branch(Vec::new(), None);
    trie.register(&[Some(item("a"))], ItemStack::of(item("short"), 1));
    trie.register(&[None, Some(item("a")), Some(item("a"))], ItemStack::of(item("long"), 2));
    assert_eq!(trie.search(&grid(&[Some(item("a"))])).unwrap().item.id(), "short");
    let long = trie.search(&grid(&[None, Some(item("a")), Some(item("a"))])).unwrap();
    assert_eq!(long.item.id(), "long");
    assert_eq!(long.count, 2);
}

#[test]
fn try_register_refuses_a_clash() {
    let mut reg = CraftingRegistry::new();
    assert!(reg.try_register(true, &torch_pattern(), ItemStack::of(item("torch"), 4)));
    assert!(!reg.try_register(true, &torch_pattern(), ItemStack::of(item("torch"), 1)));
    assert_eq!(reg.search(&grid(&torch_pattern())).unwrap().count, 4);
    let mut ladder = torch_pattern();
    ladder[4] = Some(item("stick"));
    assert!(reg.try_register(true, &ladder, ItemStack::of(item("ladder"), 3)));
    assert!(!reg.try_register(true, &torch_pattern()[..5], ItemStack::of(item("x"), 1)));
}
