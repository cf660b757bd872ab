use rustcraft::gui::{
    chest_slots, corner_slot, crafting_slots, determine_hovered_slot, hotbar_slots, player_inventory_slot_at,
    player_inventory_slots, scroll_selection, slot_at, PixelPos,
};
use rustcraft::input::{Button, Input, InputEvent, MoveKey};
use rustcraft::state::{handle_event, Return, ScreenKind, UiEvent, UiKey};

fn xy(p: &PixelPos) -> (i32, i32) {
    p.0
}

#[test]
fn hotbar_row_of_nine() {
    let s = hotbar_slots();
    assert_eq!(s.len(), 9);
    assert_eq!(xy(&s[0]), (4, 4));
    assert_eq!(xy(&s[8]), (164, 4));
}

#[test]
fn inventory_slots_above_the_hotbar() {
    let s = player_inventory_slots();
    assert_eq!(s.len(), 36);
    assert_eq!(xy(&s[8]), (164, 4));
    assert_eq!(xy(&s[9]), (4, 69));
    assert_eq!(xy(&s[17]), (164, 69));
    assert_eq!(xy(&s[18]), (4, 49));
    assert_eq!(xy(&s[35]), (164, 29));
}

#[test]
fn chest_and_crafting_slots() {
    let c = chest_slots();
    assert_eq!(c.len(), 27);
    assert_eq!(xy(&c[0]), (4, 44));
    assert_eq!(xy(&c[26]), (164, 4));
    let k = crafting_slots();
    assert_eq!(k.len(), 10);
    assert_eq!(xy(&k[0]), (44, 59));
    assert_eq!(xy(&k[9]), (124, 38));
}

#[test]
fn slot_lookup_by_pixel() {
    let s = player_inventory_slots();
    assert_eq!(slot_at(&s, PixelPos((5, 5))), Some(0));
    assert_eq!(slot_at(&s, PixelPos((24 + 15, 4 + 15))), Some(1));
    assert_eq!(slot_at(&s, PixelPos((20, 5))), None);
    assert_eq!(slot_at(&s, PixelPos((4, 69))), Some(9));
    for (i, p) in s.iter().enumerate() {
        assert_eq!(player_inventory_slot_at(*p), Some(i));
    }
    assert_eq!(player_inventory_slot_at(PixelPos((3, 4))), None);
    assert_eq!(player_inventory_slot_at(PixelPos((4, 24))), None);
}

#[test]
fn corner_slot_scales_and_centres() {
    let s = player_inventory_slots();
    // a 176 x 166 texture is centred at (450 - 264, 350 - 249)
    let m = PixelPos((450 - 264 + 3 * 5, 350 - 249 + 3 * 5));
    assert_eq!(corner_slot(&s, 176, 166, m), Some(0));
}

#[test]
fn scrolling_wraps_around_the_hotbar() {
    assert_eq!(scroll_selection(8, 1), 0);
    assert_eq!(scroll_selection(0, -1), 8);
    assert_eq!(scroll_selection(4, -13), 0);
    assert_eq!(scroll_selection(3, 2), 5);
}

#[test]
fn hovered_hotbar_slot() {
    assert_eq!(determine_hovered_slot((186, 694)), Some(0));
    assert_eq!(determine_hovered_slot((186 + 3 * 45, 694)), Some(2));
    assert_eq!(determine_hovered_slot((186 + 3 * 17, 694)), None);
}

#[test]
fn movement_keys_are_bounded() {
    let mut i = Input::default();
    i.update(InputEvent::KeyDown(MoveKey::W));
    assert_eq!(i.forward, 1);
    i.update(InputEvent::KeyDown(MoveKey::W));
    assert_eq!(i.forward, 1);
    i.update(InputEvent::KeyUp(MoveKey::W));
    assert_eq!(i.forward, 0);
    i.update(InputEvent::KeyDown(MoveKey::A));
    assert_eq!(i.rightward, -1);
    i.update(InputEvent::KeyUp(MoveKey::A));
    assert_eq!(i.rightward, 0);
}

#[test]
fn buttons_count_held_frames() {
    let mut i = Input::default();
    i.update(InputEvent::MouseButtonDown(Button::Left));
    assert!(i.clicked_primary());
    assert!(i.holding_primary());
    i.start_new_frame();
    assert!(!i.clicked_primary());
    assert!(i.holding_primary());
    i.update(InputEvent::MouseButtonUp(Button::Left));
    assert!(!i.holding_primary());
    i.update(InputEvent::KeyDown(MoveKey::Space));
    assert!(i.clicked_jump() && i.holding_jump());
    i.update_scancodes(true);
    i.update_scancodes(true);
    assert!(i.holding_sneak());
    assert_eq!(i.sneak, 2);
    i.update_scancodes(false);
    assert!(!i.holding_sneak());
}

#[test]
fn mouse_motion_and_wheel_add_up() {
    let mut i = Input::default();
    i.update(InputEvent::MouseMotion { x: 10, y: 20, xrel: 3, yrel: -2 });
    i.update(InputEvent::MouseMotion { x: 13, y: 18, xrel: 3, yrel: -2 });
    assert_eq!(i.mouse, (13, 18));
    assert_eq!((i.mouse_x(), i.mouse_y()), (6, -4));
    i.update(InputEvent::MouseWheel { y: 2 });
    i.update(InputEvent::MouseWheel { y: -1 });
    assert_eq!(i.scroll(), 1);
    i.start_new_frame();
    assert_eq!(i.scroll(), 0);
    assert_eq!(i.mouse_rel, (0, 0));
    i.reset();
    assert_eq!(i.mouse, (0, 0));
}

fn key(k: UiKey) -> UiEvent {
    UiEvent::KeyDown { key: k, repeat: false }
}

#[test]
fn escape_pauses_and_resumes() {
    let mut ret = Return::default();
    let r = handle_event(ScreenKind::Playing, key(UiKey::Escape), &mut ret);
    assert_eq!(r.next, Some(ScreenKind::Paused));
    assert_eq!(r.capture_mouse, Some(false));
    let r = handle_event(ScreenKind::Paused, key(UiKey::Escape), &mut ret);
    assert_eq!(r.next, Some(ScreenKind::Playing));
    assert_eq!(r.capture_mouse, Some(true));
    let r = handle_event(ScreenKind::Playing, UiEvent::KeyDown { key: UiKey::Escape, repeat: true }, &mut ret);
    assert_eq!(r.next, None);
}

#[test]
fn e_toggles_the_inventory() {
    let mut ret = Return::default();
    let r = handle_event(ScreenKind::Playing, key(UiKey::E), &mut ret);
    assert_eq!(r.next, Some(ScreenKind::Inventory));
    let r = handle_event(ScreenKind::Inventory, key(UiKey::E), &mut ret);
    assert_eq!(r.next, Some(ScreenKind::Playing));
    let r = handle_event(ScreenKind::Paused, key(UiKey::E), &mut ret);
    assert_eq!(r.next, None);
    assert!(ScreenKind::Inventory.show_inventory());
}

#[test]
fn chat_opens_types_and_runs() {
    let mut ret = Return::default();
    let r = handle_event(ScreenKind::Playing, key(UiKey::T), &mut ret);
    assert_eq!(r.next, Some(ScreenKind::Chat));
    assert!(!handle_event(ScreenKind::Chat, UiEvent::TextInput { later_frame: false }, &mut ret).append_chat_text);
    assert!(handle_event(ScreenKind::Chat, UiEvent::TextInput { later_frame: true }, &mut ret).append_chat_text);
    assert!(handle_event(ScreenKind::Chat, key(UiKey::Backspace), &mut ret).pop_chat_char);
    let r = handle_event(ScreenKind::Chat, key(UiKey::Return), &mut ret);
    assert!(r.run_chat_command);
    assert_eq!(r.next, Some(ScreenKind::Playing));
    assert!(ScreenKind::Chat.is_chat() && ScreenKind::Playing.is_playing() && ScreenKind::Paused.is_paused());
}

#[test]
fn quit_and_reload_are_recorded() {
    let mut ret = Return::default();
    handle_event(ScreenKind::Playing, key(UiKey::R), &mut ret);
    assert!(ret.do_chunk_load && !ret.do_quit);
    handle_event(ScreenKind::Paused, UiEvent::Quit, &mut ret);
    assert!(ret.do_quit);
    let r = handle_event(ScreenKind::Playing, key(UiKey::F5), &mut ret);
    assert!(r.toggle_third_person);
    assert!(handle_event(ScreenKind::Playing, key(UiKey::F11), &mut ret).toggle_fullscreen);
    assert!(handle_event(ScreenKind::Playing, UiEvent::Resized, &mut ret).refresh_display);
}

#[test]
fn can_count_guards_the_counters() {
    let mut i = Input::default();
    assert!(i.can_count());
    i.primary = u32::MAX;
    assert!(!i.can_count());
}

#[test]
fn every_inventory_slot_pixel_maps_back() {
    let slots = rustcraft::gui::player_inventory_slots();
    for (k, s) in slots.iter().enumerate() {
        for dx in 0..16 {
            for dy in 0..16 {
                let p = rustcraft::gui::PixelPos((s.0 .0 + dx, s.0 .1 + dy));
                assert_eq!(rustcraft::gui::player_inventory_slot_at(p), Some(k));
            }
        }
    }
}
