use vstd::prelude::*;

verus! {

// The closed, platform-independent event schema that guests receive.
// Floating-point payloads are carried as their IEEE-754 bit patterns.

/// A physical input device, numbered by the [`crate::device::DeviceStore`].
#[derive(Clone, Copy, Debug, PartialEq, Eq, Structural)]
pub struct Device(pub usize);

#[derive(Clone, Copy, Debug, PartialEq, Eq)]
pub enum ElementState {
    Pressed,
    Released,
}

#[derive(Clone, Copy, Debug, PartialEq, Eq)]
pub enum TouchPhase {
    Started,
    Moved,
    Ended,
    Cancelled,
}

#[derive(Clone, Copy, Debug, PartialEq, Eq)]
pub enum Theme {
    Light,
    Dark,
}

#[derive(Clone, Copy, Debug, PartialEq, Eq)]
pub enum MouseButton {
    Left,
    Right,
    Middle,
    Other(u8),
}

#[derive(Clone, Copy, Debug, PartialEq, Eq)]
pub enum MouseScrollDelta {
    /// Lines and rows scrolled, as `f32` bits.
    LineDelta(u32, u32),
    /// Pixels scrolled, as `f64` bits.
    PixelDelta { logical_position: (u64, u64) },
}

#[derive(Clone, Copy, Debug, PartialEq, Eq)]
pub enum Force {
    /// Force values as `f64` bits.
    Calibrated { force: u64, max_possible_force: u64, altitude_angle: Option<u64> },
    /// A force in 0..1, as `f64` bits.
    Normalized(u64),
}

#[derive(Clone, Copy, Debug, PartialEq, Eq)]
pub struct Touch {
    pub device_id: Device,
    pub phase: TouchPhase,
    /// The location in physical pixels, as `f64` bits.
    pub physical_location: (u64, u64),
    pub force: Option<Force>,
    pub id: u64,
}

#[derive(Clone, Copy, Debug, PartialEq, Eq)]
pub struct ModifiersState {
    pub shift: bool,
    pub ctrl: bool,
    pub alt: bool,
    pub logo: bool,
}

#[derive(Clone, Copy, Debug, PartialEq, Eq)]
pub struct KeyboardInput {
    pub scancode: u32,
    pub state: ElementState,
    pub virtual_keycode: Option<VirtualKeyCode>,
}

/// The symbolic name of a key.
#[derive(Clone, Copy, Debug, PartialEq, Eq)]
pub enum VirtualKeyCode {
    Key1,
    Key2,
    Key3,
    Key4,
    Key5,
    Key6,
    Key7,
    Key8,
    Key9,
    Key0,
    A,
    B,
    C,
    D,
    E,
    F,
    G,
    H,
    I,
    J,
    K,
    L,
    M,
    N,
    O,
    P,
    Q,
    R,
    S,
    T,
    U,
    V,
    W,
    X,
    Y,
    Z,
    Escape,
    F1,
    F2,
    F3,
    F4,
    F5,
    F6,
    F7,
    F8,
    F9,
    F10,
    F11,
    F12,
    F13,
    F14,
    F15,
    F16,
    F17,
    F18,
    F19,
    F20,
    F21,
    F22,
    F23,
    F24,
    Snapshot,
    Scroll,
    Pause,
    Insert,
    Home,
    Delete,
    End,
    PageDown,
    PageUp,
    Left,
    Up,
    Right,
    Down,
    Back,
    Return,
    Space,
    Compose,
    Caret,
    Numlock,
    Numpad0,
    Numpad1,
    Numpad2,
    Numpad3,
    Numpad4,
    Numpad5,
    Numpad6,
    Numpad7,
    Numpad8,
    Numpad9,
    AbntC1,
    AbntC2,
    Add,
    Apostrophe,
    Apps,
    At,
    Ax,
    Backslash,
    Calculator,
    Capital,
    Colon,
    Comma,
    Convert,
    Decimal,
    Divide,
    Equals,
    Grave,
    Kana,
    Kanji,
    LAlt,
    LBracket,
    LControl,
    LShift,
    LWin,
    Mail,
    MediaSelect,
    MediaStop,
    Minus,
    Multiply,
    Mute,
    MyComputer,
    NavigateForward,
    NavigateBackward,
    NextTrack,
    NoConvert,
    NumpadComma,
    NumpadEnter,
    NumpadEquals,
    OEM102,
    Period,
    PlayPause,
    Power,
    PrevTrack,
    RAlt,
    RBracket,
    RControl,
    RShift,
    RWin,
    Semicolon,
    Slash,
    Sleep,
    Stop,
    Subtract,
    Sysrq,
    Tab,
    Underline,
    Unlabeled,
    VolumeDown,
    VolumeUp,
    Wake,
    WebBack,
    WebFavorites,
    WebForward,
    WebHome,
    WebRefresh,
    WebSearch,
    WebStop,
    Yen,
    Copy,
    Paste,
    Cut,
}

#[derive(Clone, Copy, Debug, PartialEq, Eq)]
pub enum WindowEvent {
    Resized { physical_size: (u32, u32) },
    Moved { physical_position: (i32, i32) },
    CloseRequested,
    Destroyed,
    ReceivedCharacter(char),
    Focused(bool),
    KeyboardInput { device_id: Device, input: KeyboardInput, is_synthetic: bool },
    ModifiersChanged(ModifiersState),
    /// The cursor position in physical pixels, as `f64` bits.
    CursorMoved { device_id: Device, physical_position: (u64, u64) },
    CursorEntered { device_id: Device },
    CursorLeft { device_id: Device },
    MouseWheel { device_id: Device, delta: MouseScrollDelta, phase: TouchPhase },
    MouseInput { device_id: Device, state: ElementState, button: MouseButton },
    /// The pressure as `f32` bits.
    TouchpadPressure { device_id: Device, pressure: u32, stage: i64 },
    /// The value as `f64` bits.
    AxisMotion { device_id: Device, axis: u32, value: u64 },
    Touch(Touch),
    /// The scale factor as `f64` bits.
    ScaleFactorChanged { scale_factor: u64, new_inner_physical_size: (u32, u32) },
    ThemeChanged(Theme),
}

#[derive(Clone, Copy, Debug, PartialEq, Eq)]
pub enum DeviceEvent {
    Added,
    Removed,
    /// The motion as `f64` bits.
    MouseMotion { delta: (u64, u64) },
    MouseWheel { delta: MouseScrollDelta },
    /// The value as `f64` bits.
    Motion { axis: u32, value: u64 },
    Button { button: u32, state: ElementState },
    Key(KeyboardInput),
    Text { codepoint: char },
}

#[derive(Clone, Copy, Debug, PartialEq, Eq)]
pub enum XrSessionState {
    Unknown,
    Idle,
    Ready,
    Synchronized,
    Visible,
    Focused,
    Stopping,
    LossPending,
    Exiting,
}

#[derive(Clone, Copy, Debug, PartialEq, Eq)]
pub enum XrEvent {
    EventsLost { lost_event_count: u32 },
    InstanceLossPending { loss_time_nanos: i64 },
    SessionStateChanged { state: XrSessionState, time_nanos: i64 },
}

/// An input or lifecycle event as guests see it.
#[derive(Clone, Copy, Debug, PartialEq, Eq)]
pub enum Event {
    Window(WindowEvent),
    Device { device_id: Device, event: DeviceEvent },
    Xr(XrEvent),
}

} // verus!
