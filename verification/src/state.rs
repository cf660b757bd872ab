//! The screens of the game (playing, paused, inventory, chat) and how key
//! presses move between them.
use vstd::prelude::*;

verus! {

/// The screen the game shows.
#[derive(Clone, Copy, Debug, PartialEq, Eq, Structural)]
pub enum ScreenKind {
    Inventory,
    Playing,
    Paused,
    Chat,
}

/// The keys that switch screens or act on them.
#[derive(Clone, Copy, Debug, PartialEq, Eq, Structural)]
pub enum UiKey {
    Escape,
    F5,
    F11,
    R,
    E,
    Return,
    T,
    Backspace,
    Other,
}

/// An event as the screen logic reads it. `TextInput` carries whether it
/// arrived on a later frame than the one the chat opened on.
#[derive(Clone, Copy, Debug, PartialEq, Eq, Structural)]
pub enum UiEvent {
    Quit,
    KeyDown { key: UiKey, repeat: bool },
    TextInput { later_frame: bool },
    Resized,
    Other,
}

/// What an input pass asks of the game loop besides the screen change.
#[derive(Clone, Copy, Debug, Default)]
pub struct Return {
    pub do_chunk_load: bool,
    pub do_quit: bool,
}

/// What one event asks for: the screen to switch to (none to stay), whether
/// to capture or release the mouse, and the other effects.
#[derive(Clone, Copy, Debug, PartialEq, Eq, Structural)]
pub struct Reaction {
    pub next: Option<ScreenKind>,
    pub capture_mouse: Option<bool>,
    pub toggle_third_person: bool,
    pub toggle_fullscreen: bool,
    pub append_chat_text: bool,
    pub pop_chat_char: bool,
    pub run_chat_command: bool,
    pub refresh_display: bool,
}

/// The reaction that changes nothing.
pub open spec fn no_reaction() -> Reaction {
    Reaction {
        next: None,
        capture_mouse: None,
        toggle_third_person: false,
        toggle_fullscreen: false,
        append_chat_text: false,
        pop_chat_char: false,
        run_chat_command: false,
        refresh_display: false,
    }
}

/// The reaction to one event on screen `s`:
/// - Escape (not repeated) leaves pause or chat for play and captures the
///   mouse, and from any other screen pauses and releases it;
/// - F5 and F11 (not repeated) toggle the third-person view and full screen;
/// - E (not repeated) opens the inventory from play (releasing the mouse)
///   and closes it back to play (capturing it);
/// - Return (not repeated) in chat runs the typed command and returns to play;
/// - T opens the chat from play and releases the mouse;
/// - Backspace in chat deletes the last character;
/// - text typed into the chat after the frame it opened on is appended;
/// - a resize refreshes the display.
pub open spec fn reaction_spec(s: ScreenKind, e: UiEvent) -> Reaction {
    let n = no_reaction();
    match e {
        UiEvent::TextInput { later_frame } => if s == ScreenKind::Chat && later_frame {
            Reaction { append_chat_text: true, ..n }
        } else {
            n
        },
        UiEvent::KeyDown { key: UiKey::Escape, repeat: false } => match s {
            ScreenKind::Paused => Reaction { next: Some(ScreenKind::Playing), capture_mouse: Some(true), ..n },
            ScreenKind::Chat => Reaction { next: Some(ScreenKind::Playing), capture_mouse: Some(true), ..n },
            _ => Reaction { next: Some(ScreenKind::Paused), capture_mouse: Some(false), ..n },
        },
        UiEvent::KeyDown { key: UiKey::F5, repeat: false } => Reaction { toggle_third_person: true, ..n },
        UiEvent::KeyDown { key: UiKey::F11, repeat: false } => Reaction { toggle_fullscreen: true, ..n },
        UiEvent::KeyDown { key: UiKey::E, repeat: false } => match s {
            ScreenKind::Playing => Reaction { next: Some(ScreenKind::Inventory), capture_mouse: Some(false), ..n },
            ScreenKind::Inventory => Reaction { next: Some(ScreenKind::Playing), capture_mouse: Some(true), ..n },
            _ => n,
        },
        UiEvent::KeyDown { key: UiKey::Return, repeat: false } => match s {
            ScreenKind::Chat => Reaction {
                next: Some(ScreenKind::Playing),
                capture_mouse: Some(true),
                run_chat_command: true,
                ..n
            },
            _ => n,
        },
        UiEvent::KeyDown { key: UiKey::T, .. } => match s {
            ScreenKind::Playing => Reaction { next: Some(ScreenKind::Chat), capture_mouse: Some(false), ..n },
            _ => n,
        },
        UiEvent::KeyDown { key: UiKey::Backspace, .. } => match s {
            ScreenKind::Chat => Reaction { pop_chat_char: true, ..n },
            _ => n,
        },
        UiEvent::Resized => Reaction { refresh_display: true, ..n },
        _ => n,
    }
}

/// Reacts to one event on screen `state`; quitting and R (chunk reload)
/// are recorded in `ret`.
pub fn handle_event(state: ScreenKind, event: UiEvent, ret: &mut Return) -> (r: Reaction)
    ensures
        r == reaction_spec(state, event),
        final(ret).do_quit == (old(ret).do_quit || event == UiEvent::Quit),
        final(ret).do_chunk_load == (old(ret).do_chunk_load || event matches UiEvent::KeyDown {
            key: UiKey::R,
            ..
        }),
{
    let n = Reaction {
        next: None,
        capture_mouse: None,
        toggle_third_person: false,
        toggle_fullscreen: false,
        append_chat_text: false,
        pop_chat_char: false,
        run_chat_command: false,
        refresh_display: false,
    };
    match event {
        UiEvent::TextInput { later_frame } => {
            if state == ScreenKind::Chat && later_frame {
                Reaction { append_chat_text: true, ..n }
            } else {
                n
            }
        },
        UiEvent::Quit => {
            ret.do_quit = true;
            n
        },
        UiEvent::KeyDown { key: UiKey::Escape, repeat: false } => match state {
            ScreenKind::Paused => Reaction { next: Some(ScreenKind::Playing), capture_mouse: Some(true), ..n },
            ScreenKind::Chat => Reaction { next: Some(ScreenKind::Playing), capture_mouse: Some(true), ..n },
            _ => Reaction { next: Some(ScreenKind::Paused), capture_mouse: Some(false), ..n },
        },
        UiEvent::KeyDown { key: UiKey::F5, repeat: false } => Reaction { toggle_third_person: true, ..n },
        UiEvent::KeyDown { key: UiKey::F11, repeat: false } => Reaction { toggle_fullscreen: true, ..n },
        UiEvent::KeyDown { key: UiKey::R, .. } => {
            ret.do_chunk_load = true;
            n
        },
        UiEvent::KeyDown { key: UiKey::E, repeat: false } => match state {
            ScreenKind::Playing => Reaction { next: Some(ScreenKind::Inventory), capture_mouse: Some(false), ..n },
            ScreenKind::Inventory => Reaction { next: Some(ScreenKind::Playing), capture_mouse: Some(true), ..n },
            _ => n,
        },
        UiEvent::KeyDown { key: UiKey::Return, repeat: false } => match state {
            ScreenKind::Chat => Reaction {
                next: Some(ScreenKind::Playing),
                capture_mouse: Some(true),
                run_chat_command: true,
                ..n
            },
            _ => n,
        },
        UiEvent::KeyDown { key: UiKey::T, .. } => match state {
            ScreenKind::Playing => Reaction { next: Some(ScreenKind::Chat), capture_mouse: Some(false), ..n },
            _ => n,
        },
        UiEvent::KeyDown { key: UiKey::Backspace, .. } => match state {
            ScreenKind::Chat => Reaction { pop_chat_char: true, ..n },
            _ => n,
        },
        UiEvent::Resized => Reaction { refresh_display: true, ..n },
        _ => n,
    }
}

impl ScreenKind {
    /// Whether the screen is the game being played.
    pub fn is_playing(&self) -> (r: bool)
        ensures
            r == (*self == ScreenKind::Playing),
    {
        *self == ScreenKind::Playing
    }

    /// Whether the game is paused.
    pub fn is_paused(&self) -> (r: bool)
        ensures
            r == (*self == ScreenKind::Paused),
    {
        *self == ScreenKind::Paused
    }

    /// Whether the chat is open.
    pub fn is_chat(&self) -> (r: bool)
        ensures
            r == (*self == ScreenKind::Chat),
    {
        *self == ScreenKind::Chat
    }

    /// Whether the inventory is open.
    pub fn show_inventory(&self) -> (r: bool)
        ensures
            r == (*self == ScreenKind::Inventory),
    {
        *self == ScreenKind::Inventory
    }
}

/// The screen an event on screen `s` leads to.
pub open spec fn next_screen(s: ScreenKind, e: UiEvent) -> ScreenKind {
    match reaction_spec(s, e).next {
        Some(k) => k,
        None => s,
    }
}

/// Escape (not repeated) pauses the game and releases the mouse from every
/// screen but the pause screen and the chat, and from those two it returns
/// to play and captures the mouse; it does nothing else.
pub proof fn lemma_escape_pauses(s: ScreenKind)
    ensures
        ({
            let r = reaction_spec(s, UiEvent::KeyDown { key: UiKey::Escape, repeat: false });
            &&& s != ScreenKind::Paused && s != ScreenKind::Chat ==> r.next == Some(ScreenKind::Paused)
                && r.capture_mouse == Some(false)
            &&& s == ScreenKind::Paused || s == ScreenKind::Chat ==> r.next == Some(ScreenKind::Playing)
                && r.capture_mouse == Some(true)
            &&& !r.toggle_third_person && !r.toggle_fullscreen && !r.append_chat_text && !r.pop_chat_char
                && !r.run_chat_command && !r.refresh_display
        }),
{
}

/// The screen each key leads to from each screen: E opens the inventory
/// from play and closes it back to play, T opens the chat from play,
/// Return leaves the chat for play running the typed command; on any other
/// screen these keys leave the screen as it is. F5, F11, Backspace, text,
/// resizing and quitting never change the screen.
pub proof fn lemma_key_screens(s: ScreenKind, repeat: bool)
    ensures
        next_screen(s, UiEvent::KeyDown { key: UiKey::E, repeat: false }) == (if s == ScreenKind::Playing {
            ScreenKind::Inventory
        } else if s == ScreenKind::Inventory {
            ScreenKind::Playing
        } else {
            s
        }),
        next_screen(s, UiEvent::KeyDown { key: UiKey::T, repeat }) == (if s == ScreenKind::Playing {
            ScreenKind::Chat
        } else {
            s
        }),
        next_screen(s, UiEvent::KeyDown { key: UiKey::Return, repeat: false }) == (if s == ScreenKind::Chat {
            ScreenKind::Playing
        } else {
            s
        }),
        reaction_spec(s, UiEvent::KeyDown { key: UiKey::Return, repeat: false }).run_chat_command == (s
            == ScreenKind::Chat),
        reaction_spec(s, UiEvent::KeyDown { key: UiKey::Backspace, repeat }).pop_chat_char == (s == ScreenKind::Chat),
        reaction_spec(s, UiEvent::KeyDown { key: UiKey::F5, repeat: false }).toggle_third_person,
        reaction_spec(s, UiEvent::KeyDown { key: UiKey::F11, repeat: false }).toggle_fullscreen,
        reaction_spec(s, UiEvent::Resized).refresh_display,
        reaction_spec(s, UiEvent::TextInput { later_frame: repeat }).append_chat_text == (s == ScreenKind::Chat
            && repeat),
        next_screen(s, UiEvent::KeyDown { key: UiKey::F5, repeat }) == s,
        next_screen(s, UiEvent::KeyDown { key: UiKey::F11, repeat }) == s,
        next_screen(s, UiEvent::KeyDown { key: UiKey::Backspace, repeat }) == s,
        next_screen(s, UiEvent::KeyDown { key: UiKey::R, repeat }) == s,
        next_screen(s, UiEvent::TextInput { later_frame: repeat }) == s,
        next_screen(s, UiEvent::Resized) == s,
        next_screen(s, UiEvent::Quit) == s,
{
}

/// Each effect comes from its own event only: the third-person view
/// toggles on F5, full screen on F11 (neither repeated), the chat command
/// runs on Return in the chat, a character is deleted on Backspace in the
/// chat, text is appended when typed into the chat after the frame it
/// opened on, and the display is refreshed on a resize. Only Escape, E and
/// Return (not repeated) and T change the screen, and a reaction that
/// names a screen names another screen than the current one.
pub proof fn lemma_effects_from_their_events(s: ScreenKind, e: UiEvent)
    ensures
        ({
            let r = reaction_spec(s, e);
            &&& r.toggle_third_person == (e == UiEvent::KeyDown { key: UiKey::F5, repeat: false })
            &&& r.toggle_fullscreen == (e == UiEvent::KeyDown { key: UiKey::F11, repeat: false })
            &&& r.run_chat_command == (s == ScreenKind::Chat && e == UiEvent::KeyDown {
                key: UiKey::Return,
                repeat: false,
            })
            &&& r.pop_chat_char == (s == ScreenKind::Chat && e matches UiEvent::KeyDown { key: UiKey::Backspace, .. })
            &&& r.append_chat_text == (s == ScreenKind::Chat && e == UiEvent::TextInput { later_frame: true })
            &&& r.refresh_display == (e == UiEvent::Resized)
            &&& r.next != Some(s)
            &&& r.next is Some == (next_screen(s, e) != s)
            &&& r.next is Some ==> e == UiEvent::KeyDown { key: UiKey::Escape, repeat: false } || e
                == UiEvent::KeyDown { key: UiKey::E, repeat: false } || e == UiEvent::KeyDown {
                key: UiKey::Return,
                repeat: false,
            } || e matches UiEvent::KeyDown { key: UiKey::T, .. }
        }),
{
}

/// Escape, E and T lead away from play and a second key press leads back:
/// Escape twice, E twice, and T followed by Escape or Return.
pub proof fn lemma_screens_toggle_back()
    ensures
        ({
            let esc = UiEvent::KeyDown { key: UiKey::Escape, repeat: false };
            let e = UiEvent::KeyDown { key: UiKey::E, repeat: false };
            let t = UiEvent::KeyDown { key: UiKey::T, repeat: false };
            let ret = UiEvent::KeyDown { key: UiKey::Return, repeat: false };
            let p = ScreenKind::Playing;
            &&& next_screen(next_screen(p, esc), esc) == p
            &&& next_screen(next_screen(p, e), e) == p
            &&& next_screen(next_screen(p, t), esc) == p
            &&& next_screen(next_screen(p, t), ret) == p
            &&& next_screen(p, esc) != p && next_screen(p, e) != p && next_screen(p, t) != p
        }),
{
}

/// The mouse is captured exactly when the game is being played: every
/// screen change captures the mouse when it goes to play and releases it
/// otherwise, and no reaction touches the mouse without changing screen.
pub proof fn lemma_capture_follows_screen(s: ScreenKind, e: UiEvent)
    ensures
        match reaction_spec(s, e).next {
            Some(k) => reaction_spec(s, e).capture_mouse == Some(k == ScreenKind::Playing),
            None => reaction_spec(s, e).capture_mouse is None,
        },
{
}

} // verus!
