//! Per-frame input state: movement keys, held-button counters, mouse and
//! scroll, updated from input events.
use vstd::prelude::*;

verus! {

/// The keys that the movement input reads.
#[derive(Clone, Copy, Debug, PartialEq, Eq, Structural)]
pub enum MoveKey {
    W,
    S,
    A,
    D,
    Space,
    Other,
}

/// The mouse buttons that the input reads.
#[derive(Clone, Copy, Debug, PartialEq, Eq, Structural)]
pub enum Button {
    Left,
    Right,
    Other,
}

/// An input event, as far as the input state reads it.
#[derive(Clone, Copy, Debug, PartialEq, Eq, Structural)]
pub enum InputEvent {
    KeyDown(MoveKey),
    KeyUp(MoveKey),
    MouseButtonDown(Button),
    MouseButtonUp(Button),
    MouseMotion { x: i32, y: i32, xrel: i32, yrel: i32 },
    MouseWheel { y: i32 },
    Other,
}

/// The input state. `forward` and `rightward` are movement directions in
/// `-1..=1`; `jump`, `sneak`, `primary` and `secondary` count the frames a
/// key or button has been held (0 when released, 1 on the frame it went
/// down).
#[derive(Clone, Copy, Debug, Default)]
pub struct Input {
    pub forward: i32,
    pub rightward: i32,
    pub jump: u32,
    pub sneak: u32,
    pub primary: u32,
    pub secondary: u32,
    pub scroll: i32,
    pub mouse_rel: (i32, i32),
    pub mouse: (i32, i32),
}

/// `v` bounded to `-1..=1`.
pub open spec fn clamp_unit(v: int) -> int {
    if v > 1 {
        1
    } else if v < -1 {
        -1
    } else {
        v
    }
}

/// The counters of an input state may grow by one more.
pub open spec fn counters_below_max(i: Input) -> bool {
    &&& i.jump < u32::MAX
    &&& i.primary < u32::MAX
    &&& i.secondary < u32::MAX
    &&& i32::MIN < i.forward < i32::MAX
    &&& i32::MIN < i.rightward < i32::MAX
}

/// Pressing a movement key and releasing it restores the direction, unless
/// the press was cut off at the bound: W or D from `-1..=0`, S or A from
/// `0..=1`.
pub proof fn lemma_press_release(f: int)
    ensures
        -1 <= f <= 0 ==> clamp_unit(clamp_unit(f + 1) - 1) == f,
        0 <= f <= 1 ==> clamp_unit(clamp_unit(f - 1) + 1) == f,
{
}

impl Input {
    /// Whether every counter and direction can count one more, as applying
    /// an event needs.
    pub fn can_count(&self) -> (r: bool)
        ensures
            r == counters_below_max(*self),
    {
        self.jump < u32::MAX && self.primary < u32::MAX && self.secondary < u32::MAX && i32::MIN < self.forward
            && self.forward < i32::MAX && i32::MIN < self.rightward && self.rightward < i32::MAX
    }

    /// The primary button went down this frame.
    pub fn clicked_primary(&self) -> (r: bool)
        ensures
            r == (self.primary == 1),
    {
        self.primary == 1
    }

    /// The secondary button went down this frame.
    pub fn clicked_secondary(&self) -> (r: bool)
        ensures
            r == (self.secondary == 1),
    {
        self.secondary == 1
    }

    /// The primary button is held.
    pub fn holding_primary(&self) -> (r: bool)
        ensures
            r == (self.primary >= 1),
    {
        self.primary >= 1
    }

    /// The sneak key is held.
    pub fn holding_sneak(&self) -> (r: bool)
        ensures
            r == (self.sneak >= 1),
    {
        self.sneak >= 1
    }

    /// The secondary button is held.
    pub fn holding_secondary(&self) -> (r: bool)
        ensures
            r == (self.secondary >= 1),
    {
        self.secondary >= 1
    }

    /// The jump key went down this frame.
    pub fn clicked_jump(&self) -> (r: bool)
        ensures
            r == (self.jump == 1),
    {
        self.jump == 1
    }

    /// The jump key is held.
    pub fn holding_jump(&self) -> (r: bool)
        ensures
            r == (self.jump >= 1),
    {
        self.jump >= 1
    }

    /// The wheel motion of this frame.
    pub fn scroll(&self) -> (r: i32)
        ensures
            r == self.scroll,
    {
        self.scroll
    }

    /// The horizontal mouse motion of this frame.
    pub fn mouse_x(&self) -> (r: i32)
        ensures
            r == self.mouse_rel.0,
    {
        self.mouse_rel.0
    }

    /// The vertical mouse motion of this frame.
    pub fn mouse_y(&self) -> (r: i32)
        ensures
            r == self.mouse_rel.1,
    {
        self.mouse_rel.1
    }

    /// Where the mouse is.
    pub fn mouse_pos(&self) -> (r: (i32, i32))
        ensures
            r == self.mouse,
    {
        self.mouse
    }

    /// Starts a frame: the relative mouse motion and the scroll are reset,
    /// and each held key or button counts one more frame.
    pub fn start_new_frame(&mut self)
        requires
            old(self).primary < u32::MAX,
            old(self).secondary < u32::MAX,
            old(self).jump < u32::MAX,
        ensures
            final(self).mouse_rel == (0i32, 0i32),
            final(self).scroll == 0,
            final(self).primary == if old(self).primary > 0 { old(self).primary + 1 } else { 0 },
            final(self).secondary == if old(self).secondary > 0 { old(self).secondary + 1 } else { 0 },
            final(self).jump == if old(self).jump > 0 { old(self).jump + 1 } else { 0 },
            final(self).forward == old(self).forward,
            final(self).rightward == old(self).rightward,
            final(self).sneak == old(self).sneak,
            final(self).mouse == old(self).mouse,
    {
        self.mouse_rel = (0, 0);
        self.scroll = 0;
        if self.primary > 0 {
            self.primary += 1
        }
        if self.secondary > 0 {
            self.secondary += 1
        }
        if self.jump > 0 {
            self.jump += 1
        }
    }

    /// Forgets all input.
    pub fn reset(&mut self)
        ensures
            final(self).forward == 0 && final(self).rightward == 0 && final(self).jump == 0,
            final(self).sneak == 0 && final(self).primary == 0 && final(self).secondary == 0,
            final(self).scroll == 0 && final(self).mouse_rel == (0i32, 0i32) && final(self).mouse == (0i32, 0i32),
    {
        *self = Input {
            forward: 0,
            rightward: 0,
            jump: 0,
            sneak: 0,
            primary: 0,
            secondary: 0,
            scroll: 0,
            mouse_rel: (0, 0),
            mouse: (0, 0),
        };
    }

    /// Counts the frames the sneak key is held: one more while pressed, 0
    /// when released.
    pub fn update_scancodes(&mut self, sneak_pressed: bool)
        requires
            sneak_pressed ==> old(self).sneak < u32::MAX,
        ensures
            final(self).sneak == if sneak_pressed { old(self).sneak + 1 } else { 0 },
            final(self).forward == old(self).forward && final(self).rightward == old(self).rightward,
            final(self).jump == old(self).jump && final(self).primary == old(self).primary,
            final(self).secondary == old(self).secondary && final(self).scroll == old(self).scroll,
            final(self).mouse == old(self).mouse && final(self).mouse_rel == old(self).mouse_rel,
    {
        if sneak_pressed {
            self.sneak += 1;
        } else {
            self.sneak = 0;
        }
    }

    /// Applies an event: W and S move forward and back, A and D left and
    /// right (a release undoes its press), space and the mouse buttons
    /// start counting when pressed and reset when released, mouse motion
    /// sets the position and adds up the relative motion, and the wheel
    /// adds up the scroll. The movement directions are then bounded to
    /// `-1..=1`.
    pub fn update(&mut self, event: InputEvent)
        requires
            counters_below_max(*old(self)),
            event matches InputEvent::MouseMotion { xrel, yrel, .. } ==> i32::MIN <= old(self).mouse_rel.0 + xrel
                <= i32::MAX && i32::MIN <= old(self).mouse_rel.1 + yrel <= i32::MAX,
            event matches InputEvent::MouseWheel { y } ==> i32::MIN <= old(self).scroll + y <= i32::MAX,
        ensures
            final(self).forward == clamp_unit(
                old(self).forward + match event {
                    InputEvent::KeyDown(MoveKey::W) => 1int,
                    InputEvent::KeyDown(MoveKey::S) => -1,
                    InputEvent::KeyUp(MoveKey::W) => -1,
                    InputEvent::KeyUp(MoveKey::S) => 1,
                    _ => 0,
                },
            ),
            final(self).rightward == clamp_unit(
                old(self).rightward + match event {
                    InputEvent::KeyDown(MoveKey::D) => 1int,
                    InputEvent::KeyDown(MoveKey::A) => -1,
                    InputEvent::KeyUp(MoveKey::D) => -1,
                    InputEvent::KeyUp(MoveKey::A) => 1,
                    _ => 0,
                },
            ),
            final(self).jump == match event {
                InputEvent::KeyDown(MoveKey::Space) => (old(self).jump + 1) as u32,
                InputEvent::KeyUp(MoveKey::Space) => 0,
                _ => old(self).jump,
            },
            final(self).primary == match event {
                InputEvent::MouseButtonDown(Button::Left) => (old(self).primary + 1) as u32,
                InputEvent::MouseButtonUp(Button::Left) => 0,
                _ => old(self).primary,
            },
            final(self).secondary == match event {
                InputEvent::MouseButtonDown(Button::Right) => (old(self).secondary + 1) as u32,
                InputEvent::MouseButtonUp(Button::Right) => 0,
                _ => old(self).secondary,
            },
            final(self).mouse == match event {
                InputEvent::MouseMotion { x, y, .. } => (x, y),
                _ => old(self).mouse,
            },
            final(self).mouse_rel == match event {
                InputEvent::MouseMotion { xrel, yrel, .. } => (
                    (old(self).mouse_rel.0 + xrel) as i32,
                    (old(self).mouse_rel.1 + yrel) as i32,
                ),
                _ => old(self).mouse_rel,
            },
            final(self).scroll == match event {
                InputEvent::MouseWheel { y } => (old(self).scroll + y) as i32,
                _ => old(self).scroll,
            },
            final(self).sneak == old(self).sneak,
    {
        match event {
            InputEvent::KeyDown(MoveKey::W) => self.forward += 1,
            InputEvent::KeyDown(MoveKey::S) => self.forward -= 1,
            InputEvent::KeyDown(MoveKey::A) => self.rightward -= 1,
            InputEvent::KeyDown(MoveKey::D) => self.rightward += 1,
            InputEvent::KeyDown(MoveKey::Space) => self.jump += 1,
            InputEvent::KeyUp(MoveKey::W) => self.forward += -1,
            InputEvent::KeyUp(MoveKey::S) => self.forward -= -1,
            InputEvent::KeyUp(MoveKey::A) => self.rightward -= -1,
            InputEvent::KeyUp(MoveKey::D) => self.rightward += -1,
            InputEvent::KeyUp(MoveKey::Space) => self.jump = 0,
            InputEvent::MouseButtonDown(Button::Left) => self.primary += 1,
            InputEvent::MouseButtonDown(Button::Right) => self.secondary += 1,
            InputEvent::MouseButtonUp(Button::Left) => self.primary = 0,
            InputEvent::MouseButtonUp(Button::Right) => self.secondary = 0,
            InputEvent::MouseMotion { x, y, xrel, yrel } => {
                self.mouse.0 = x;
                self.mouse.1 = y;
                self.mouse_rel.0 += xrel;
                self.mouse_rel.1 += yrel;
            },
            InputEvent::MouseWheel { y } => self.scroll += y,
            _ => {},
        }
        self.forward = if self.forward < 1 {
            self.forward
        } else {
            1
        };
        self.forward = if self.forward > -1 {
            self.forward
        } else {
            -1
        };
        self.rightward = if self.rightward < 1 {
            self.rightward
        } else {
            1
        };
        self.rightward = if self.rightward > -1 {
            self.rightward
        } else {
            -1
        };
    }
}

} // verus!
