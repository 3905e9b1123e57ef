use gpu_ecs_sync::input::CursorIcon;
use gpu_ecs_sync::input::ElementState;
use gpu_ecs_sync::input::ModifiersState;
use gpu_ecs_sync::input::MouseButton;
use gpu_ecs_sync::input::MouseInput;
use gpu_ecs_sync::input::VirtualKeyCode;
use gpu_ecs_sync::input::MODIFIERS_ALT;
use gpu_ecs_sync::input::MODIFIERS_CTRL;
use gpu_ecs_sync::input::MODIFIERS_LOGO;
use gpu_ecs_sync::input::MODIFIERS_SHIFT;

#[test]
fn mouse_button_from_codes() {
    assert_eq!(MouseButton::from(0u32), MouseButton::Left);
    assert_eq!(MouseButton::from(1u32), MouseButton::Right);
    assert_eq!(MouseButton::from(2u32), MouseButton::Middle);
    assert_eq!(MouseButton::from(7u32), MouseButton::Other(7));
    // Codes beyond 16 bits are truncated into the device-specific range.
    assert_eq!(MouseButton::from(0x1_0005u32), MouseButton::Other(5));
}

#[test]
fn mouse_button_to_codes() {
    assert_eq!(u32::from(MouseButton::Left), 0);
    assert_eq!(u32::from(MouseButton::Right), 1);
    assert_eq!(u32::from(MouseButton::Middle), 2);
    assert_eq!(u32::from(MouseButton::Other(700)), 700);
}

#[test]
fn mouse_button_round_trip() {
    for code in [0u32, 1, 2, 3, 700, 65535] {
        assert_eq!(u32::from(MouseButton::from(code)), code);
    }
    for button in [
        MouseButton::Left,
        MouseButton::Right,
        MouseButton::Middle,
        MouseButton::Other(42),
    ] {
        assert_eq!(MouseButton::from(u32::from(button)), button);
    }
}

#[test]
fn modifier_bits_are_fixed() {
    assert_eq!(MODIFIERS_SHIFT, 0b100);
    assert_eq!(MODIFIERS_CTRL, 0b100 << 3);
    assert_eq!(MODIFIERS_ALT, 0b100 << 6);
    assert_eq!(MODIFIERS_LOGO, 0b100 << 9);
}

#[test]
fn modifiers_empty_has_none() {
    let m = ModifiersState::empty();
    assert!(!m.shift());
    assert!(!m.ctrl());
    assert!(!m.alt());
    assert!(!m.logo());
    assert_eq!(m.bits(), 0);
    assert_eq!(ModifiersState::default(), m);
}

#[test]
fn modifiers_each_flag() {
    let shift = ModifiersState::from_bits(MODIFIERS_SHIFT);
    assert!(shift.shift() && !shift.ctrl() && !shift.alt() && !shift.logo());
    let ctrl = ModifiersState::from_bits(MODIFIERS_CTRL);
    assert!(!ctrl.shift() && ctrl.ctrl() && !ctrl.alt() && !ctrl.logo());
    let alt = ModifiersState::from_bits(MODIFIERS_ALT);
    assert!(!alt.shift() && !alt.ctrl() && alt.alt() && !alt.logo());
    let logo = ModifiersState::from_bits(MODIFIERS_LOGO);
    assert!(!logo.shift() && !logo.ctrl() && !logo.alt() && logo.logo());
    let all = ModifiersState::from_bits(
        MODIFIERS_SHIFT | MODIFIERS_CTRL | MODIFIERS_ALT | MODIFIERS_LOGO,
    );
    assert!(all.shift() && all.ctrl() && all.alt() && all.logo());
}

#[test]
fn mouse_input_carries_its_parts() {
    let input = MouseInput {
        state: ElementState::Pressed,
        button: MouseButton::Left,
    };
    let copy = input.clone();
    assert_eq!(copy.state, ElementState::Pressed);
    assert_eq!(copy.button, MouseButton::Left);
}

#[test]
fn cursor_icon_defaults() {
    assert_eq!(CursorIcon::default(), CursorIcon::Default);
    assert_ne!(CursorIcon::Grab, CursorIcon::Grabbing);
}

#[test]
fn key_codes_are_distinct_values() {
    assert_ne!(VirtualKeyCode::A, VirtualKeyCode::B);
    assert_eq!(VirtualKeyCode::Escape, VirtualKeyCode::Escape);
    let code = VirtualKeyCode::F11;
    assert_eq!(code, code.clone());
}
