//! Input types shared between the engine and its guests: key codes,
//! mouse buttons, cursor icons and keyboard modifier state.  They are
//! plain values, so guest code can use them without dragging in any
//! windowing machinery.

use vstd::prelude::*;

verus! {

/// Whether a key or button went down or up.
#[derive(Clone, Copy, PartialEq, Eq, Structural, Debug, Hash)]
pub enum ElementState {
    /// The key or button was pressed.
    Pressed,
    /// The key or button was released.
    Released,
}

/// A button of a mouse.
#[derive(Clone, Copy, PartialEq, Eq, Structural, Debug, Hash)]
pub enum MouseButton {
    /// The left button.
    Left,
    /// The right button.
    Right,
    /// The middle (wheel) button.
    Middle,
    /// Another button, by device-specific number.
    Other(u16),
}

/// The button a numeric code denotes: 0, 1 and 2 are the left, right and
/// middle buttons; anything else is an `Other`, truncated to 16 bits.
pub open spec fn mouse_button_of_u32(value: u32) -> MouseButton {
    match value {
        0u32 => MouseButton::Left,
        1u32 => MouseButton::Right,
        2u32 => MouseButton::Middle,
        x => MouseButton::Other(x as u16),
    }
}

/// The numeric code of a button: the inverse of [`mouse_button_of_u32`]
/// on codes below 3 and on `Other` values of 3 and above.
pub open spec fn u32_of_mouse_button(value: MouseButton) -> u32 {
    match value {
        MouseButton::Left => 0u32,
        MouseButton::Right => 1u32,
        MouseButton::Middle => 2u32,
        MouseButton::Other(x) => x as u32,
    }
}

impl From<u32> for MouseButton {
    fn from(value: u32) -> (r: Self) {
        match value {
            0u32 => MouseButton::Left,
            1u32 => MouseButton::Right,
            2u32 => MouseButton::Middle,
            x => MouseButton::Other(#[verifier::truncate] (x as u16)),
        }
    }
}

impl vstd::std_specs::convert::FromSpecImpl<u32> for MouseButton {
    open spec fn obeys_from_spec() -> bool {
        true
    }

    open spec fn from_spec(value: u32) -> Self {
        mouse_button_of_u32(value)
    }
}

impl From<MouseButton> for u32 {
    fn from(value: MouseButton) -> (r: Self) {
        match value {
            MouseButton::Left => 0,
            MouseButton::Right => 1,
            MouseButton::Middle => 2,
            MouseButton::Other(x) => x as u32,
        }
    }
}

impl vstd::std_specs::convert::FromSpecImpl<MouseButton> for u32 {
    open spec fn obeys_from_spec() -> bool {
        true
    }

    open spec fn from_spec(value: MouseButton) -> Self {
        u32_of_mouse_button(value)
    }
}

/// One mouse button transition.
#[derive(Clone)]
pub struct MouseInput {
    /// Whether the button went down or up.
    pub state: ElementState,
    /// Which button moved.
    pub button: MouseButton,
}

/// Bit for the shift key in a modifier word.
pub const MODIFIERS_SHIFT: u32 = 0b100;

/// Bit for the control key in a modifier word.
pub const MODIFIERS_CTRL: u32 = 0b100 << 3;

/// Bit for the alt key in a modifier word.
pub const MODIFIERS_ALT: u32 = 0b100 << 6;

/// Bit for the logo ("windows"/"command") key in a modifier word.
pub const MODIFIERS_LOGO: u32 = 0b100 << 9;

/// The current state of the keyboard modifiers, as a word of bits: one
/// per modifier, set while that modifier is active.
#[derive(Clone, Copy, PartialEq, Eq, Structural, Debug, Hash)]
pub struct ModifiersState {
    bits: u32,
}

impl View for ModifiersState {
    type V = u32;

    closed spec fn view(&self) -> u32 {
        self.bits
    }
}

impl ModifiersState {
    /// No modifier pressed.
    pub fn empty() -> (r: Self)
        ensures
            r@ == 0u32,
    {
        ModifiersState { bits: 0 }
    }

    /// The state a raw modifier word denotes.
    pub fn from_bits(bits: u32) -> (r: Self)
        ensures
            r@ == bits,
    {
        ModifiersState { bits }
    }

    /// The raw modifier word.
    pub fn bits(&self) -> (r: u32)
        ensures
            r == self@,
    {
        self.bits
    }

    /// Returns `true` if the shift key is pressed.
    pub fn shift(&self) -> (r: bool)
        ensures
            r == (self@ & MODIFIERS_SHIFT != 0),
    {
        self.bits & MODIFIERS_SHIFT != 0
    }

    /// Returns `true` if the control key is pressed.
    pub fn ctrl(&self) -> (r: bool)
        ensures
            r == (self@ & MODIFIERS_CTRL != 0),
    {
        self.bits & MODIFIERS_CTRL != 0
    }

    /// Returns `true` if the alt key is pressed.
    pub fn alt(&self) -> (r: bool)
        ensures
            r == (self@ & MODIFIERS_ALT != 0),
    {
        self.bits & MODIFIERS_ALT != 0
    }

    /// Returns `true` if the logo key is pressed.
    pub fn logo(&self) -> (r: bool)
        ensures
            r == (self@ & MODIFIERS_LOGO != 0),
    {
        self.bits & MODIFIERS_LOGO != 0
    }
}

impl Default for ModifiersState {
    /// No modifier pressed.
    fn default() -> (r: Self)
        ensures
            r@ == 0u32,
    {
        ModifiersState { bits: 0 }
    }
}

/// Describes the appearance of the mouse cursor.
#[derive(Clone, Copy, PartialEq, Eq, Structural, Debug, Hash)]
pub enum CursorIcon {
    /// The platform-dependent default cursor.
    Default,
    /// A simple crosshair.
    Crosshair,
    /// A hand (often used to indicate links in web browsers).
    Hand,
    /// A plain arrow.
    Arrow,
    /// Indicates something is to be moved.
    Move,
    /// Indicates text that may be selected or edited.
    Text,
    /// Program busy indicator.
    Wait,
    /// Help indicator (often rendered as a "?").
    Help,
    /// Progress indicator; the user may still interact with the program.
    Progress,
    /// Cursor showing that something cannot be done.
    NotAllowed,
    /// A context menu is available.
    ContextMenu,
    /// A cell of a table may be selected.
    Cell,
    /// Vertical text may be selected.
    VerticalText,
    /// An alias or shortcut is to be made.
    Alias,
    /// Something is to be copied.
    Copy,
    /// The dragged item cannot be dropped here.
    NoDrop,
    /// Indicates something can be grabbed.
    Grab,
    /// Indicates something is grabbed.
    Grabbing,
    /// Something can be scrolled in any direction.
    AllScroll,
    /// Something can be zoomed in.
    ZoomIn,
    /// Something can be zoomed out.
    ZoomOut,
    /// The east edge is to be moved.
    EResize,
    /// The north edge is to be moved.
    NResize,
    /// The north-east corner is to be moved.
    NeResize,
    /// The north-west corner is to be moved.
    NwResize,
    /// The south edge is to be moved.
    SResize,
    /// The south-east corner is to be moved.
    SeResize,
    /// The south-west corner is to be moved.
    SwResize,
    /// The west edge is to be moved.
    WResize,
    /// The east and west edges are to be moved.
    EwResize,
    /// The north and south edges are to be moved.
    NsResize,
    /// The north-east and south-west corners are to be moved.
    NeswResize,
    /// The north-west and south-east corners are to be moved.
    NwseResize,
    /// A column boundary is to be moved.
    ColResize,
    /// A row boundary is to be moved.
    RowResize,
}

impl Default for CursorIcon {
    /// The platform-dependent default cursor.
    fn default() -> (r: Self)
        ensures
            r == CursorIcon::Default,
    {
        CursorIcon::Default
    }
}

/// Symbolic name of a keyboard key.
#[derive(Clone, Copy, PartialEq, Eq, Structural, Debug, Hash)]
pub enum VirtualKeyCode {
    /// The '1' key over the letters.
    Key1,
    /// The '2' key over the letters.
    Key2,
    /// The '3' key over the letters.
    Key3,
    /// The '4' key over the letters.
    Key4,
    /// The '5' key over the letters.
    Key5,
    /// The '6' key over the letters.
    Key6,
    /// The '7' key over the letters.
    Key7,
    /// The '8' key over the letters.
    Key8,
    /// The '9' key over the letters.
    Key9,
    /// The '0' key over the 'O' and 'P' keys.
    Key0,
    A,
    B,
    C,
    D,
    E,
    F,
    G,
    H,
    I,
    J,
    K,
    L,
    M,
    N,
    O,
    P,
    Q,
    R,
    S,
    T,
    U,
    V,
    W,
    X,
    Y,
    Z,
    /// The Escape key, next to F1.
    Escape,
    F1,
    F2,
    F3,
    F4,
    F5,
    F6,
    F7,
    F8,
    F9,
    F10,
    F11,
    F12,
    F13,
    F14,
    F15,
    F16,
    F17,
    F18,
    F19,
    F20,
    F21,
    F22,
    F23,
    F24,
    /// Print Screen/SysRq.
    Snapshot,
    /// Scroll Lock.
    Scroll,
    /// Pause/Break key, next to Scroll lock.
    Pause,
    /// `Insert`, next to Backspace.
    Insert,
    Home,
    Delete,
    End,
    PageDown,
    PageUp,
    Left,
    Up,
    Right,
    Down,
    /// The Backspace key, right over Enter.
    Back,
    /// The Enter key.
    Return,
    /// The space bar.
    Space,
    /// The "Compose" key on Linux.
    Compose,
    Caret,
    Numlock,
    Numpad0,
    Numpad1,
    Numpad2,
    Numpad3,
    Numpad4,
    Numpad5,
    Numpad6,
    Numpad7,
    Numpad8,
    Numpad9,
    NumpadAdd,
    NumpadDivide,
    NumpadDecimal,
    NumpadComma,
    NumpadEnter,
    NumpadEquals,
    NumpadMultiply,
    NumpadSubtract,
    AbntC1,
    AbntC2,
    Apostrophe,
    Apps,
    Asterisk,
    At,
    Ax,
    Backslash,
    Calculator,
    Capital,
    Colon,
    Comma,
    Convert,
    Equals,
    Grave,
    Kana,
    Kanji,
    LAlt,
    LBracket,
    LControl,
    LShift,
    LWin,
    Mail,
    MediaSelect,
    MediaStop,
    Minus,
    Mute,
    MyComputer,
    NavigateForward,
    NavigateBackward,
    NextTrack,
    NoConvert,
    OEM102,
    Period,
    PlayPause,
    Plus,
    Power,
    PrevTrack,
    RAlt,
    RBracket,
    RControl,
    RShift,
    RWin,
    Semicolon,
    Slash,
    Sleep,
    Stop,
    Sysrq,
    Tab,
    Underline,
    Unlabeled,
    VolumeDown,
    VolumeUp,
    Wake,
    WebBack,
    WebFavorites,
    WebForward,
    WebHome,
    WebRefresh,
    WebSearch,
    WebStop,
    Yen,
    Copy,
    Paste,
    Cut,
}

} // verus!
