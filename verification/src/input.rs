//! Keyboard and mouse state, kept apart from the window system.
//!
//! The window layer hands every key and mouse event to an `InputManager`,
//! which records what is pressed and how far the mouse has moved. Capturing
//! and releasing the mouse is the window layer's work as well: the manager
//! decides when it is due and says so with a `CaptureAction`.

use vstd::prelude::*;

verus! {

pub const VK_W: u32 = 0x57;

pub const VK_A: u32 = 0x41;

pub const VK_S: u32 = 0x53;

pub const VK_D: u32 = 0x44;

pub const VK_SPACE: u32 = 0x20;

pub const VK_LSHIFT: u32 = 0xA0;

pub const VK_ESCAPE: u32 = 0x1B;

/// The number of virtual key codes that are tracked: codes `0` to `255`.
pub const KEY_COUNT: u32 = 256;

/// What the window layer has to do after an event.
#[derive(Clone, Copy, Debug, PartialEq, Eq, Structural)]
pub enum CaptureAction {
    /// Nothing.
    Unchanged,
    /// Capture the mouse for the window with this handle, hide the cursor
    /// and move it to the middle of the window.
    Capture(isize),
    /// Release the mouse and show the cursor again.
    Release,
}

/// What an input manager holds, as mathematical values.
pub struct InputState {
    /// Which of the key codes `0` to `255` are pressed.
    pub keys: Seq<bool>,
    /// The mouse movement gathered while the mouse was captured.
    pub delta: (int, int),
    pub captured: bool,
    /// The handle of the window, once it is known.
    pub window: Option<isize>,
}

/// A coordinate kept within the range of `i64`.
pub open spec fn clamped(v: int) -> int {
    if v < i64::MIN {
        i64::MIN as int
    } else if v > i64::MAX {
        i64::MAX as int
    } else {
        v
    }
}

impl InputState {
    pub open spec fn wf(self) -> bool {
        &&& self.keys.len() == KEY_COUNT
        &&& i64::MIN <= self.delta.0 <= i64::MAX
        &&& i64::MIN <= self.delta.1 <= i64::MAX
    }

    /// The state after a change of the capture was asked for. Without a
    /// window nothing happens. A captured mouse is released. A free mouse is
    /// captured, and the movement gathered before is forgotten.
    pub open spec fn toggled(self) -> InputState {
        match self.window {
            None => self,
            Some(_) => if self.captured {
                InputState { captured: false, ..self }
            } else {
                InputState { captured: true, delta: (0, 0), ..self }
            },
        }
    }

    /// What the window layer has to do for `toggled`.
    pub open spec fn toggle_action(self) -> CaptureAction {
        match self.window {
            None => CaptureAction::Unchanged,
            Some(handle) => if self.captured {
                CaptureAction::Release
            } else {
                CaptureAction::Capture(handle)
            },
        }
    }

    /// The state with the key `vk_code` set to `pressed`; codes from
    /// `KEY_COUNT` on are not tracked.
    pub open spec fn with_key(self, vk_code: u32, pressed: bool) -> InputState {
        if vk_code < KEY_COUNT {
            InputState { keys: self.keys.update(vk_code as int, pressed), ..self }
        } else {
            self
        }
    }

    /// The state after the mouse has moved. The movement counts only
    /// while the mouse is captured.
    pub open spec fn moved(self, x_delta: int, y_delta: int) -> InputState {
        if self.captured {
            InputState {
                delta: (clamped(self.delta.0 + x_delta), clamped(self.delta.1 + y_delta)),
                ..self
            }
        } else {
            self
        }
    }
}

/// Keyboard and mouse state between two frames.
pub struct InputManager {
    keys_pressed: [bool; 256],
    mouse_delta_x: i64,
    mouse_delta_y: i64,
    mouse_captured: bool,
    window_handle: Option<isize>,
}

impl View for InputManager {
    type V = InputState;

    closed spec fn view(&self) -> InputState {
        InputState {
            keys: self.keys_pressed@,
            delta: (self.mouse_delta_x as int, self.mouse_delta_y as int),
            captured: self.mouse_captured,
            window: self.window_handle,
        }
    }
}

fn add_clamped(total: i64, step: i32) -> (sum: i64)
    ensures
        sum == clamped(total + step),
{
    match total.checked_add(step as i64) {
        Some(sum) => sum,
        None => if step < 0 {
            i64::MIN
        } else {
            i64::MAX
        },
    }
}

impl InputManager {
    /// No key is pressed, the mouse is free and has not moved, and no
    /// window is known.
    pub fn new() -> (input: InputManager)
        ensures
            input@.wf(),
            forall|k: int| 0 <= k < KEY_COUNT ==> !input@.keys[k],
            input@.delta == (0int, 0int),
            !input@.captured,
            input@.window is None,
    {
        InputManager {
            keys_pressed: [false; 256],
            mouse_delta_x: 0,
            mouse_delta_y: 0,
            mouse_captured: false,
            window_handle: None,
        }
    }

    /// Every manager is well formed: it tracks `KEY_COUNT` keys.
    pub proof fn lemma_wf(&self)
        ensures
            self@.wf(),
    {
    }

    /// Makes the window known whose mouse can be captured.
    pub fn set_window_handle(&mut self, handle: isize)
        ensures
            final(self)@ == (InputState { window: Some(handle), ..old(self)@ }),
    {
        self.window_handle = Some(handle);
    }

    /// Records that a key went down. The escape key also asks for a change
    /// of the mouse capture.
    pub fn on_key_down(&mut self, vk_code: u32) -> (action: CaptureAction)
        ensures
            vk_code != VK_ESCAPE ==> final(self)@ == old(self)@.with_key(vk_code, true) && action
                == CaptureAction::Unchanged,
            vk_code == VK_ESCAPE ==> final(self)@ == old(self)@.with_key(vk_code, true).toggled()
                && action == old(self)@.toggle_action(),
    {
        if vk_code < KEY_COUNT {
            self.keys_pressed[vk_code as usize] = true;
        }
        if vk_code == VK_ESCAPE {
            self.toggle_mouse_capture()
        } else {
            CaptureAction::Unchanged
        }
    }

    /// Records that a key went up.
    pub fn on_key_up(&mut self, vk_code: u32)
        ensures
            final(self)@ == old(self)@.with_key(vk_code, false),
    {
        if vk_code < KEY_COUNT {
            self.keys_pressed[vk_code as usize] = false;
        }
    }

    /// Adds a mouse movement to what has been gathered, while the mouse is
    /// captured.
    pub fn on_mouse_move(&mut self, x_delta: i32, y_delta: i32)
        ensures
            final(self)@ == old(self)@.moved(x_delta as int, y_delta as int),
    {
        if self.mouse_captured {
            self.mouse_delta_x = add_clamped(self.mouse_delta_x, x_delta);
            self.mouse_delta_y = add_clamped(self.mouse_delta_y, y_delta);
        }
    }

    /// Whether the key is pressed. Codes from `KEY_COUNT` on never are.
    pub fn is_key_pressed(&self, vk_code: u32) -> (pressed: bool)
        ensures
            pressed == (vk_code < KEY_COUNT && self@.keys[vk_code as int]),
    {
        if vk_code < KEY_COUNT {
            self.keys_pressed[vk_code as usize]
        } else {
            false
        }
    }

    pub fn is_mouse_captured(&self) -> (captured: bool)
        ensures
            captured == self@.captured,
    {
        self.mouse_captured
    }

    /// The mouse movement gathered since the mouse was captured.
    pub fn mouse_movement(&self) -> (delta: (i64, i64))
        ensures
            delta.0 == self@.delta.0,
            delta.1 == self@.delta.1,
    {
        (self.mouse_delta_x, self.mouse_delta_y)
    }

    /// Hands out the mouse movement gathered so far and starts to gather
    /// anew.
    pub fn take_mouse_movement(&mut self) -> (delta: (i64, i64))
        ensures
            delta.0 == old(self)@.delta.0,
            delta.1 == old(self)@.delta.1,
            final(self)@ == (InputState { delta: (0, 0), ..old(self)@ }),
    {
        let delta = (self.mouse_delta_x, self.mouse_delta_y);
        self.mouse_delta_x = 0;
        self.mouse_delta_y = 0;
        delta
    }

    /// Captures a free mouse and releases a captured one, if a window is
    /// known, and tells the window layer what to do.
    pub fn toggle_mouse_capture(&mut self) -> (action: CaptureAction)
        ensures
            final(self)@ == old(self)@.toggled(),
            action == old(self)@.toggle_action(),
    {
        match self.window_handle {
            None => CaptureAction::Unchanged,
            Some(handle) => {
                if self.mouse_captured {
                    self.mouse_captured = false;
                    CaptureAction::Release
                } else {
                    self.mouse_captured = true;
                    self.mouse_delta_x = 0;
                    self.mouse_delta_y = 0;
                    CaptureAction::Capture(handle)
                }
            },
        }
    }

    /// Releases the mouse if it is captured, whether or not a window is
    /// known.
    pub fn force_release_capture(&mut self) -> (action: CaptureAction)
        ensures
            final(self)@ == (InputState { captured: false, ..old(self)@ }),
            action == if old(self)@.captured {
                CaptureAction::Release
            } else {
                CaptureAction::Unchanged
            },
    {
        if self.mouse_captured {
            self.mouse_captured = false;
            CaptureAction::Release
        } else {
            CaptureAction::Unchanged
        }
    }
}

/// The signed 16-bit number in the lowest 16 bits of `word`.
pub open spec fn signed_word(word: int) -> int {
    if word % 0x1_0000 < 0x8000 {
        word % 0x1_0000
    } else {
        word % 0x1_0000 - 0x1_0000
    }
}

/// The horizontal position in a mouse message parameter: its low word,
/// read as a signed number.
pub fn lparam_get_x(lparam: u32) -> (x: i32)
    ensures
        x == signed_word(lparam as int),
{
    let low: u32 = lparam % 0x1_0000;
    if low < 0x8000 {
        low as i32
    } else {
        low as i32 - 0x1_0000
    }
}

/// The vertical position in a mouse message parameter: its high word, read
/// as a signed number.
pub fn lparam_get_y(lparam: u32) -> (y: i32)
    ensures
        y == signed_word(lparam as int / 0x1_0000),
{
    let high: u32 = (lparam / 0x1_0000) % 0x1_0000;
    if high < 0x8000 {
        high as i32
    } else {
        high as i32 - 0x1_0000
    }
}

} // verus!
