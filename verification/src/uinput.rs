//! Decision logic of the uinput input services: mouse button and wheel event
//! codes, scroll steps, keysym names, and the service lifecycle hooks.
use crate::text::str_eq;
use vstd::prelude::*;

verus! {

/// Event type of key and button events.
pub const EV_KEY: i32 = 0x01;
/// Event type of relative axis events.
pub const EV_REL: i32 = 0x02;
/// Event type of absolute axis events.
pub const EV_ABS: i32 = 0x03;
/// Relative axis code of the vertical wheel.
pub const REL_WHEEL: u32 = 0x08;
/// Relative axis code of the horizontal wheel.
pub const REL_HWHEEL: u32 = 0x06;
pub const BTN_LEFT: i32 = 0x110;
pub const BTN_RIGHT: i32 = 0x111;
pub const BTN_MIDDLE: i32 = 0x112;
pub const BTN_SIDE: i32 = 0x113;
pub const BTN_EXTRA: i32 = 0x114;
pub const BTN_FORWARD: i32 = 0x115;
pub const BTN_BACK: i32 = 0x116;
pub const BTN_TASK: i32 = 0x117;

/// A mouse button of the virtual uinput mouse.
#[derive(Debug, Copy, Clone)]
pub enum MouseButton {
    Left,
    Middle,
    Side,
    Extra,
    Right,
    Back,
    Forward,
    Task,
}

/// A wheel direction of the virtual uinput mouse.
#[derive(Debug, Copy, Clone)]
pub enum ScrollDirection {
    Up,
    Down,
    Right,
    Left,
}

/// The button code emitted for a mouse button.
pub open spec fn spec_btn_code(button: MouseButton) -> i32 {
    match button {
        MouseButton::Left => BTN_LEFT,
        MouseButton::Right => BTN_RIGHT,
        MouseButton::Middle => BTN_MIDDLE,
        MouseButton::Side => BTN_SIDE,
        MouseButton::Extra => BTN_EXTRA,
        MouseButton::Forward => BTN_FORWARD,
        MouseButton::Back => BTN_BACK,
        MouseButton::Task => BTN_TASK,
    }
}

/// The button code emitted for a mouse button.
pub fn map_btn(button: &MouseButton) -> (code: i32)
    ensures
        code == spec_btn_code(*button),
{
    match button {
        MouseButton::Left => BTN_LEFT,
        MouseButton::Right => BTN_RIGHT,
        MouseButton::Middle => BTN_MIDDLE,
        MouseButton::Side => BTN_SIDE,
        MouseButton::Extra => BTN_EXTRA,
        MouseButton::Forward => BTN_FORWARD,
        MouseButton::Back => BTN_BACK,
        MouseButton::Task => BTN_TASK,
    }
}

/// The relative axis code and value emitted for one wheel step: up and right
/// are +1, down and left are -1, on the vertical or horizontal wheel.
pub fn scroll_wheel_event(direction: &ScrollDirection) -> (ev: (u32, i32))
    ensures
        ev == match *direction {
            ScrollDirection::Up => (REL_WHEEL, 1i32),
            ScrollDirection::Down => (REL_WHEEL, -1i32),
            ScrollDirection::Left => (REL_HWHEEL, -1i32),
            ScrollDirection::Right => (REL_HWHEEL, 1i32),
        },
{
    match direction {
        ScrollDirection::Up => (REL_WHEEL, 1),
        ScrollDirection::Down => (REL_WHEEL, -1),
        ScrollDirection::Left => (REL_HWHEEL, -1),
        ScrollDirection::Right => (REL_HWHEEL, 1),
    }
}

/// Absolute value of a scroll length as a step count.
pub open spec fn spec_abs(length: i32) -> int {
    if length < 0 { -length } else { length as int }
}

/// A vertical scroll of `length`: wheel up steps for a negative length, down
/// steps otherwise, `|length|` of them.
pub fn scroll_y_steps(length: i32) -> (r: (ScrollDirection, u32))
    requires
        length != i32::MIN,
    ensures
        r.0 == (if length < 0 { ScrollDirection::Up } else { ScrollDirection::Down }),
        r.1 == spec_abs(length),
{
    if length < 0 {
        (ScrollDirection::Up, (-length) as u32)
    } else {
        (ScrollDirection::Down, length as u32)
    }
}

/// A horizontal scroll of `length`: left steps for a negative length, right
/// steps otherwise, `|length|` of them.
pub fn scroll_x_steps(length: i32) -> (r: (ScrollDirection, u32))
    requires
        length != i32::MIN,
    ensures
        r.0 == (if length < 0 { ScrollDirection::Left } else { ScrollDirection::Right }),
        r.1 == spec_abs(length),
{
    if length < 0 {
        (ScrollDirection::Left, (-length) as u32)
    } else {
        (ScrollDirection::Right, length as u32)
    }
}

/// The evdev key code of a raw X11 key code (X11 codes are offset by 8).
pub fn raw_key_code(code: u16) -> (r: u16)
    requires
        code >= 8,
    ensures
        r == code - 8,
{
    code - 8
}

/// Whether the mouse range `((minx, maxx), (miny, maxy))` allows creating the
/// virtual mouse: neither axis may be empty.
pub fn mouse_resolution_usable(resolution: ((i32, i32), (i32, i32))) -> (r: bool)
    ensures
        r == (resolution.0.0 != resolution.0.1 && resolution.1.0 != resolution.1.1),
{
    !(resolution.0.0 == resolution.0.1 || resolution.1.0 == resolution.1.1)
}

/// The ASCII character an XKB keysym name stands for: a one-character ASCII
/// name stands for itself, and the named punctuation keysyms for their
/// character. Dead keys and non-ASCII symbols stand for nothing.
pub open spec fn spec_xkb_sym_to_char(sym: Seq<char>) -> Option<char> {
    if sym.len() == 1 && (sym[0] as u32) < 128 {
        Some(sym[0])
    } else if sym == "space"@ {
        Some(' ')
    } else if sym == "exclam"@ {
        Some('!')
    } else if sym == "at"@ {
        Some('@')
    } else if sym == "numbersign"@ {
        Some('#')
    } else if sym == "dollar"@ {
        Some('$')
    } else if sym == "percent"@ {
        Some('%')
    } else if sym == "asciicircum"@ {
        Some('^')
    } else if sym == "ampersand"@ {
        Some('&')
    } else if sym == "asterisk"@ {
        Some('*')
    } else if sym == "parenleft"@ {
        Some('(')
    } else if sym == "parenright"@ {
        Some(')')
    } else if sym == "minus"@ {
        Some('-')
    } else if sym == "underscore"@ {
        Some('_')
    } else if sym == "equal"@ {
        Some('=')
    } else if sym == "plus"@ {
        Some('+')
    } else if sym == "bracketleft"@ {
        Some('[')
    } else if sym == "bracketright"@ {
        Some(']')
    } else if sym == "braceleft"@ {
        Some('{')
    } else if sym == "braceright"@ {
        Some('}')
    } else if sym == "backslash"@ {
        Some('\\')
    } else if sym == "bar"@ {
        Some('|')
    } else if sym == "semicolon"@ {
        Some(';')
    } else if sym == "colon"@ {
        Some(':')
    } else if sym == "apostrophe"@ {
        Some('\'')
    } else if sym == "quotedbl"@ {
        Some('"')
    } else if sym == "grave"@ {
        Some('`')
    } else if sym == "asciitilde"@ {
        Some('~')
    } else if sym == "comma"@ {
        Some(',')
    } else if sym == "period"@ {
        Some('.')
    } else if sym == "slash"@ {
        Some('/')
    } else if sym == "less"@ {
        Some('<')
    } else if sym == "greater"@ {
        Some('>')
    } else if sym == "question"@ {
        Some('?')
    } else {
        None
    }
}

/// Convert an XKB keysym name to an ASCII char.
/// Returns None for dead keys, non-ASCII symbols, or unknown keysyms.
pub fn xkb_sym_to_char(sym: &str) -> (r: Option<char>)
    ensures
        r == spec_xkb_sym_to_char(sym@),
{
    if sym.unicode_len() == 1 {
        let ch = sym.get_char(0);
        if (ch as u32) < 128 {
            return Some(ch);
        }
    }
    if str_eq(sym, "space") {
        Some(' ')
    } else if str_eq(sym, "exclam") {
        Some('!')
    } else if str_eq(sym, "at") {
        Some('@')
    } else if str_eq(sym, "numbersign") {
        Some('#')
    } else if str_eq(sym, "dollar") {
        Some('$')
    } else if str_eq(sym, "percent") {
        Some('%')
    } else if str_eq(sym, "asciicircum") {
        Some('^')
    } else if str_eq(sym, "ampersand") {
        Some('&')
    } else if str_eq(sym, "asterisk") {
        Some('*')
    } else if str_eq(sym, "parenleft") {
        Some('(')
    } else if str_eq(sym, "parenright") {
        Some(')')
    } else if str_eq(sym, "minus") {
        Some('-')
    } else if str_eq(sym, "underscore") {
        Some('_')
    } else if str_eq(sym, "equal") {
        Some('=')
    } else if str_eq(sym, "plus") {
        Some('+')
    } else if str_eq(sym, "bracketleft") {
        Some('[')
    } else if str_eq(sym, "bracketright") {
        Some(']')
    } else if str_eq(sym, "braceleft") {
        Some('{')
    } else if str_eq(sym, "braceright") {
        Some('}')
    } else if str_eq(sym, "backslash") {
        Some('\\')
    } else if str_eq(sym, "bar") {
        Some('|')
    } else if str_eq(sym, "semicolon") {
        Some(';')
    } else if str_eq(sym, "colon") {
        Some(':')
    } else if str_eq(sym, "apostrophe") {
        Some('\'')
    } else if str_eq(sym, "quotedbl") {
        Some('"')
    } else if str_eq(sym, "grave") {
        Some('`')
    } else if str_eq(sym, "asciitilde") {
        Some('~')
    } else if str_eq(sym, "comma") {
        Some(',')
    } else if str_eq(sym, "period") {
        Some('.')
    } else if str_eq(sym, "slash") {
        Some('/')
    } else if str_eq(sym, "less") {
        Some('<')
    } else if str_eq(sym, "greater") {
        Some('>')
    } else if str_eq(sym, "question") {
        Some('?')
    } else {
        None
    }
}

/// Stops the uinput keyboard service. The service ends with its IPC
/// connections; there is nothing to release here.
pub fn stop_service_keyboard() {
}

/// Stops the uinput mouse service. The service ends with its IPC
/// connections; there is nothing to release here.
pub fn stop_service_mouse() {
}

/// Stops the uinput control service. The service ends with its IPC
/// connections; there is nothing to release here.
pub fn stop_service_control() {
}

/// Key code of the left Shift key.
pub const KEY_LEFTSHIFT: u16 = 42;
/// Key code of the right Shift key.
pub const KEY_RIGHTSHIFT: u16 = 54;
/// Key code of the left Control key.
pub const KEY_LEFTCTRL: u16 = 29;
/// Key code of the right Control key.
pub const KEY_RIGHTCTRL: u16 = 97;
/// Key code of the left Alt key.
pub const KEY_LEFTALT: u16 = 56;
/// Key code of the right Alt key.
pub const KEY_RIGHTALT: u16 = 100;
/// Key code of the left Meta key.
pub const KEY_LEFTMETA: u16 = 125;
/// Key code of the right Meta key.
pub const KEY_RIGHTMETA: u16 = 126;

/// What a keyboard request does with a key.
#[derive(Debug, Copy, Clone)]
pub enum KeyAction {
    Down,
    Up,
    Click,
}

/// The `(code, value)` key events for a request on a mapped key `(code,
/// shift)`: a press that needs Shift is preceded by a Shift press; a
/// release is only the key's release; a click is a press and a release.
pub open spec fn key_events_spec(action: KeyAction, key: (u16, bool)) -> Seq<(u16, i32)> {
    match action {
        KeyAction::Down => if key.1 {
            seq![(KEY_LEFTSHIFT, 1i32), (key.0, 1i32)]
        } else {
            seq![(key.0, 1i32)]
        },
        KeyAction::Up => seq![(key.0, 0i32)],
        KeyAction::Click => seq![(key.0, 1i32), (key.0, 0i32)],
    }
}

/// The key events for a request on a mapped key.
pub fn key_events(action: KeyAction, key: (u16, bool)) -> (r: Vec<(u16, i32)>)
    ensures
        r@ == key_events_spec(action, key),
{
    let mut v: Vec<(u16, i32)> = Vec::new();
    match action {
        KeyAction::Down => {
            if key.1 {
                v.push((KEY_LEFTSHIFT, 1));
            }
            v.push((key.0, 1));
        },
        KeyAction::Up => {
            v.push((key.0, 0));
        },
        KeyAction::Click => {
            v.push((key.0, 1));
            v.push((key.0, 0));
        },
    }
    proof {
        assert(v@ =~= key_events_spec(action, key));
    }
    v
}

/// A modifier whose state a peer may ask for.
#[derive(Debug, Copy, Clone)]
pub enum Modifier {
    Shift,
    Control,
    Alt,
    Meta,
}

/// The left and right key codes of a modifier.
pub open spec fn modifier_codes(m: Modifier) -> (u16, u16) {
    match m {
        Modifier::Shift => (KEY_LEFTSHIFT, KEY_RIGHTSHIFT),
        Modifier::Control => (KEY_LEFTCTRL, KEY_RIGHTCTRL),
        Modifier::Alt => (KEY_LEFTALT, KEY_RIGHTALT),
        Modifier::Meta => (KEY_LEFTMETA, KEY_RIGHTMETA),
    }
}

/// Whether a modifier is held: its left or right key is among the pressed keys.
pub fn modifier_down(m: Modifier, pressed: &Vec<u16>) -> (r: bool)
    ensures
        r == (pressed@.contains(modifier_codes(m).0) || pressed@.contains(modifier_codes(m).1)),
{
    let (left, right) = match m {
        Modifier::Shift => (KEY_LEFTSHIFT, KEY_RIGHTSHIFT),
        Modifier::Control => (KEY_LEFTCTRL, KEY_RIGHTCTRL),
        Modifier::Alt => (KEY_LEFTALT, KEY_RIGHTALT),
        Modifier::Meta => (KEY_LEFTMETA, KEY_RIGHTMETA),
    };
    let mut i: usize = 0;
    while i < pressed.len()
        invariant
            i <= pressed@.len(),
            (left, right) == modifier_codes(m),
            forall|j: int| 0 <= j < i ==> pressed@[j] != left && pressed@[j] != right,
        decreases pressed@.len() - i,
    {
        if pressed[i] == left || pressed[i] == right {
            assert(pressed@.contains(pressed@[i as int]));
            return true;
        }
        i = i + 1;
    }
    false
}

} // verus!
