//! Keyboard and mouse input.
//!
//! What is pressed is kept, so that a key that is released without having been pressed
//! says nothing, and one that is pressed again is released first.

use ironrdp::input::{Database, MouseButton, MousePosition, Operation, Scancode, WheelRotations};
use ironrdp::pdu::input::fast_path::FastPathInputEvent;
use vstd::prelude::*;

verus! {

/// Key flag: the key goes up.
pub const KEY_RELEASE: u8 = 1;

/// Key flag: the key is an extended one.
pub const KEY_EXTENDED: u8 = 2;

/// Pointer flag: a button goes down.
pub const POINTER_DOWN: u16 = 0x8000;

/// Pointer flag: the pointer moves.
pub const POINTER_MOVE: u16 = 0x0800;

/// Pointer flag: the left button.
pub const POINTER_LEFT: u16 = 0x1000;

/// Pointer flag: the right button.
pub const POINTER_RIGHT: u16 = 0x2000;

/// Pointer flag: the middle button.
pub const POINTER_MIDDLE: u16 = 0x4000;

/// Pointer flag: the wheel turns.
pub const POINTER_VERTICAL_WHEEL: u16 = 0x0200;

/// Pointer flag: the wheel turns sideways.
pub const POINTER_HORIZONTAL_WHEEL: u16 = 0x0400;

/// Something that happens to a key.
#[derive(Debug, Clone, Copy, PartialEq, Eq)]
pub enum KeyOp {
    Pressed { extended: bool, code: u8 },
    Released { extended: bool, code: u8 },
}

/// How many mouse buttons are forwarded: left, middle and right. What a browser numbers
/// from here on, such as back and forward, stays in the browser.
pub const BUTTONS: u8 = 3;

/// Something that happens to a mouse button. Buttons are numbered as in a browser: left,
/// middle, right.
#[derive(Debug, Clone, Copy, PartialEq, Eq)]
pub enum ButtonOp {
    Pressed(u8),
    Released(u8),
}

/// A movement of the mouse or of its wheel.
#[derive(Debug, Clone, Copy, PartialEq, Eq)]
pub enum MotionOp {
    Move { x: u16, y: u16 },
    Wheel { is_vertical: bool, rotation_units: i16 },
}

/// An input event for the server.
#[derive(Debug, Clone, Copy, PartialEq, Eq)]
pub enum InputPdu {
    Key { state: u8, code: u8 },
    Mouse { flags: u16, wheel: i16, x: u16, y: u16 },
    Other,
}

#[verifier::external_type_specification]
#[verifier::external_body]
pub struct ExDatabase(Database);

/// The keys that an `ironrdp_input::Database` holds as pressed: whether extended, and
/// the scan code.
pub uninterp spec fn keys_down(db: Database) -> Set<(bool, u8)>;

/// The buttons that an `ironrdp_input::Database` holds as pressed.
pub uninterp spec fn buttons_down(db: Database) -> Set<u8>;

/// Where an `ironrdp_input::Database` holds the pointer to be.
pub uninterp spec fn pointer_at(db: Database) -> (u16, u16);

/// The flags of a key event.
pub open spec fn key_flags(extended: bool, release: bool) -> u8 {
    if extended && release {
        3
    } else if extended {
        KEY_EXTENDED
    } else if release {
        KEY_RELEASE
    } else {
        0
    }
}

/// What an operation on a key does to the keys that are down, and the events for it.
pub open spec fn key_step(down: Set<(bool, u8)>, op: KeyOp) -> (Set<(bool, u8)>, Seq<InputPdu>) {
    match op {
        KeyOp::Pressed { extended, code } => (
            down.insert((extended, code)),
            (if down.contains((extended, code)) {
                seq![InputPdu::Key { state: key_flags(extended, true), code }]
            } else {
                seq![]
            }) + seq![InputPdu::Key { state: key_flags(extended, false), code }],
        ),
        KeyOp::Released { extended, code } => (
            down.remove((extended, code)),
            if down.contains((extended, code)) {
                seq![InputPdu::Key { state: key_flags(extended, true), code }]
            } else {
                seq![]
            },
        ),
    }
}

/// The event for a button that goes down or up: the left one, the middle one, else the
/// right one.
pub open spec fn button_event(button: u8, down: bool, at: (u16, u16)) -> InputPdu {
    let press = if down {
        POINTER_DOWN as int
    } else {
        0
    };
    if button == 0 {
        InputPdu::Mouse { flags: (POINTER_LEFT + press) as u16, wheel: 0, x: at.0, y: at.1 }
    } else if button == 1 {
        InputPdu::Mouse { flags: (POINTER_MIDDLE + press) as u16, wheel: 0, x: at.0, y: at.1 }
    } else {
        InputPdu::Mouse { flags: (POINTER_RIGHT + press) as u16, wheel: 0, x: at.0, y: at.1 }
    }
}

/// What an operation on a button does to the buttons that are down, and the events for
/// it, with the pointer where it is.
pub open spec fn button_step(down: Set<u8>, at: (u16, u16), op: ButtonOp) -> (Set<u8>, Seq<InputPdu>) {
    match op {
        ButtonOp::Pressed(button) => (
            down.insert(button),
            if down.contains(button) {
                seq![]
            } else {
                seq![button_event(button, true, at)]
            },
        ),
        ButtonOp::Released(button) => (
            down.remove(button),
            if down.contains(button) {
                seq![button_event(button, false, at)]
            } else {
                seq![]
            },
        ),
    }
}

/// Where a movement leaves the pointer, and the events for it.
pub open spec fn motion_step(at: (u16, u16), op: MotionOp) -> ((u16, u16), Seq<InputPdu>) {
    match op {
        MotionOp::Move { x, y } => if at == (x, y) {
            (at, seq![])
        } else {
            ((x, y), seq![InputPdu::Mouse { flags: POINTER_MOVE, wheel: 0, x, y }])
        },
        MotionOp::Wheel { is_vertical, rotation_units } => (
            at,
            seq![
                InputPdu::Mouse {
                    flags: if is_vertical {
                        POINTER_VERTICAL_WHEEL
                    } else {
                        POINTER_HORIZONTAL_WHEEL
                    },
                    wheel: rotation_units,
                    x: at.0,
                    y: at.1,
                },
            ],
        ),
    }
}

/// The button that an operation is about.
pub open spec fn button_of(op: ButtonOp) -> u8 {
    match op {
        ButtonOp::Pressed(button) => button,
        ButtonOp::Released(button) => button,
    }
}

/// `ironrdp_input::Database::new`: nothing is pressed, and the pointer is at the origin.
#[verifier::external_body]
pub(crate) fn new_database() -> (db: Database)
    ensures
        keys_down(db) == Set::<(bool, u8)>::empty(),
        buttons_down(db) == Set::<u8>::empty(),
        pointer_at(db) == (0u16, 0u16),
{
    Database::new()
}

/// `ironrdp_input::Database::apply` with one operation on a key. Claimed: it is
/// [`key_step`] on the keys, and the mouse is left alone.
#[verifier::external_body]
pub(crate) fn apply_key(db: &mut Database, op: KeyOp) -> (events: Vec<InputPdu>)
    ensures
        (keys_down(*final(db)), events@) == key_step(keys_down(*old(db)), op),
        buttons_down(*final(db)) == buttons_down(*old(db)),
        pointer_at(*final(db)) == pointer_at(*old(db)),
{
    let operation = match op {
        KeyOp::Pressed { extended, code } => Operation::KeyPressed(Scancode::from_u8(extended, code)),
        KeyOp::Released { extended, code } => Operation::KeyReleased(Scancode::from_u8(extended, code)),
    };
    let event = |e: FastPathInputEvent| match e {
        FastPathInputEvent::KeyboardEvent(flags, code) => InputPdu::Key { state: flags.bits(), code },
        _ => InputPdu::Other,
    };
    db.apply([operation]).into_iter().map(event).collect()
}

/// `ironrdp_input::Database::apply` with one operation on a button. Claimed: it is
/// [`button_step`] on the buttons, and keys and pointer are left alone.
#[verifier::external_body]
pub(crate) fn apply_button(db: &mut Database, op: ButtonOp) -> (events: Vec<InputPdu>)
    requires
        button_of(op) < BUTTONS,
    ensures
        (buttons_down(*final(db)), events@) == button_step(buttons_down(*old(db)), pointer_at(*old(db)), op),
        pointer_at(*final(db)) == pointer_at(*old(db)),
        keys_down(*final(db)) == keys_down(*old(db)),
{
    let button = |b: u8| MouseButton::from_web_button(b).unwrap_or(MouseButton::Left);
    let operation = match op {
        ButtonOp::Pressed(b) => Operation::MouseButtonPressed(button(b)),
        ButtonOp::Released(b) => Operation::MouseButtonReleased(button(b)),
    };
    let event = |e: FastPathInputEvent| match e {
        FastPathInputEvent::MouseEvent(m) => InputPdu::Mouse { flags: m.flags.bits(), wheel: m.number_of_wheel_rotation_units, x: m.x_position, y: m.y_position },
        _ => InputPdu::Other,
    };
    db.apply([operation]).into_iter().map(event).collect()
}

/// `ironrdp_input::Database::apply` with one movement. Claimed: it is [`motion_step`] on
/// the pointer, and keys and buttons are left alone.
#[verifier::external_body]
pub(crate) fn apply_motion(db: &mut Database, op: MotionOp) -> (events: Vec<InputPdu>)
    ensures
        (pointer_at(*final(db)), events@) == motion_step(pointer_at(*old(db)), op),
        buttons_down(*final(db)) == buttons_down(*old(db)),
        keys_down(*final(db)) == keys_down(*old(db)),
{
    let operation = match op {
        MotionOp::Move { x, y } => Operation::MouseMove(MousePosition { x, y }),
        MotionOp::Wheel { is_vertical, rotation_units } => Operation::WheelRotations(WheelRotations { is_vertical, rotation_units }),
    };
    let event = |e: FastPathInputEvent| match e {
        FastPathInputEvent::MouseEvent(m) => InputPdu::Mouse { flags: m.flags.bits(), wheel: m.number_of_wheel_rotation_units, x: m.x_position, y: m.y_position },
        _ => InputPdu::Other,
    };
    db.apply([operation]).into_iter().map(event).collect()
}

/// Every press reaches the server, also of a key that is held down: the server sees it
/// released and pressed again.
pub proof fn law_every_press_is_sent(down: Set<(bool, u8)>, extended: bool, code: u8)
    ensures
        key_step(down, KeyOp::Pressed { extended, code }).1.last() == (InputPdu::Key {
            state: key_flags(extended, false),
            code,
        }),
        key_step(down, KeyOp::Pressed { extended, code }).0.contains((extended, code)),
{
}

/// A key that was pressed and released is up, and the server has been told; to release
/// it again says nothing.
pub proof fn law_released_key_stays_up(down: Set<(bool, u8)>, extended: bool, code: u8)
    ensures
        ({
            let pressed = key_step(down, KeyOp::Pressed { extended, code }).0;
            let (up, events) = key_step(pressed, KeyOp::Released { extended, code });
            &&& events == seq![InputPdu::Key { state: key_flags(extended, true), code }]
            &&& !up.contains((extended, code))
            &&& key_step(up, KeyOp::Released { extended, code }) == (up, Seq::<InputPdu>::empty())
        }),
{
    let pressed = key_step(down, KeyOp::Pressed { extended, code }).0;
    let up = key_step(pressed, KeyOp::Released { extended, code }).0;
    assert(up.remove((extended, code)) =~= up);
}

/// A button that is pressed is released where the pointer has got to, and only once.
pub proof fn law_button_goes_up_once(down: Set<u8>, at: (u16, u16), button: u8, x: u16, y: u16)
    ensures
        ({
            let pressed = button_step(down, at, ButtonOp::Pressed(button)).0;
            let there = motion_step(at, MotionOp::Move { x, y }).0;
            let (up, events) = button_step(pressed, there, ButtonOp::Released(button));
            &&& events == seq![button_event(button, false, (x, y))]
            &&& button_step(up, there, ButtonOp::Released(button)).1 == Seq::<InputPdu>::empty()
        }),
{
}

/// A key event says in its lowest bit whether the key goes up, in the next whether it is an
/// extended one, and nothing else.
pub proof fn law_key_flags(extended: bool, release: bool)
    ensures
        (key_flags(extended, release) % 2 == 1) == release,
        (key_flags(extended, release) / 2 == 1) == extended,
        key_flags(extended, release) < 4,
{
}

/// A button event names one button, by the number it has in a browser (left, middle, right),
/// says whether it goes down, and stands where the pointer is.
pub proof fn law_button_events(button: u8, down: bool, at: (u16, u16))
    requires
        button < 3,
    ensures
        button_event(button, down, at) matches InputPdu::Mouse { flags, wheel, x, y } && (x, y) == at && wheel == 0
            && flags == (if button == 0 {
            0x1000int
        } else if button == 1 {
            0x4000
        } else {
            0x2000
        }) + if down {
            0x8000int
        } else {
            0
        },
{
}

/// The wheel turns by as much as it was turned, upright or sideways, and moves nothing; a
/// movement goes to where it says, and says nothing if the pointer is there.
pub proof fn law_motion_events(at: (u16, u16), x: u16, y: u16, is_vertical: bool, units: i16)
    ensures
        motion_step(at, MotionOp::Move { x, y }).0 == (x, y),
        motion_step((x, y), MotionOp::Move { x, y }).1.len() == 0,
        at != (x, y) ==> motion_step(at, MotionOp::Move { x, y }).1 == seq![
            InputPdu::Mouse { flags: 0x800, wheel: 0, x, y },
        ],
        motion_step(at, MotionOp::Wheel { is_vertical, rotation_units: units }) == (
            at,
            seq![
                InputPdu::Mouse {
                    flags: if is_vertical {
                        0x200
                    } else {
                        0x400
                    },
                    wheel: units,
                    x: at.0,
                    y: at.1,
                },
            ],
        ),
{
}

} // verus!
