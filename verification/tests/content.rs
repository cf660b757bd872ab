use rustcraft::content::{grid_pattern, BaseMod, GRID_SLOTS};
use rustcraft::item::{Item, ItemData, ItemLike};
use rustcraft::vao::{counts_match, draw_count, triangle_count, RenderKind};

fn item(id: &str) -> ItemLike {
    ItemLike::Item(Item::new_registered_as_shared(ItemData { id: id.to_string(), name: id.to_string(), texture: 0 }))
}

#[test]
fn base_mod_name() {
    assert_eq!(BaseMod.name(), "rustcraft");
}

#[test]
fn grid_pattern_drops_air_and_pads() {
    let slots = vec![Some(item("coal")), Some(item("air")), None, Some(item("stick"))];
    let p = grid_pattern(&slots);
    assert_eq!(p.len(), GRID_SLOTS);
    assert_eq!(p[0].as_ref().unwrap().id(), "coal");
    assert!(p[1].is_none());
    assert!(p[2].is_none());
    assert_eq!(p[3].as_ref().unwrap().id(), "stick");
    assert!(p[4..].iter().all(|s| s.is_none()));
}

#[test]
fn grid_pattern_cuts_long_lists() {
    let slots: Vec<Option<ItemLike>> = (0..12).map(|_| Some(item("dirt"))).collect();
    let p = grid_pattern(&slots);
    assert_eq!(p.len(), 9);
    assert!(p.iter().all(|s| s.is_some()));
}

#[test]
fn draw_counts_per_primitive() {
    assert_eq!(RenderKind::Triangles.vertices_per_primitive(), 3);
    assert_eq!(RenderKind::Lines.vertices_per_primitive(), 2);
    assert_eq!(draw_count(RenderKind::Triangles, 108), 36);
    assert_eq!(draw_count(RenderKind::Lines, 72), 36);
    assert_eq!(triangle_count(10), 3);
    assert!(counts_match(108, 72));
    assert!(!counts_match(108, 70));
}
