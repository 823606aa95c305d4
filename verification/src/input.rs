//! The keybinding data model: serializable names for keys and mouse
//! buttons, the actions they can be bound to, and the recognition of the
//! key names the game knows.
use vstd::prelude::*;

verus! {

/// The key codes a stored key name can resolve to.
#[derive(Clone, Copy, Debug, PartialEq, Eq, Structural)]
pub enum KnownKey {
    KeyH,
    KeyS,
    KeyM,
    KeyT,
    KeyE,
    ShiftLeft,
    Space,
    Backspace,
}

/// The mouse buttons a stored button name can resolve to.
#[derive(Clone, Copy, Debug, PartialEq, Eq, Structural)]
pub enum KnownMouseButton {
    Left,
    Right,
    Forward,
    Middle,
    Back,
}

/// A key code stored by name, the form a configuration file carries.
#[derive(Clone, Debug, PartialEq, Eq, Hash)]
pub struct SerdeKeyCode(pub String);

/// A mouse button stored by name, the form a configuration file carries.
#[derive(Clone, Debug, PartialEq, Eq, Hash)]
pub struct SerdeMouseCode(pub String);

/// Which key a stored name resolves to, if the game knows it.
pub open spec fn spec_key_of(s: Seq<char>) -> Option<KnownKey> {
    if s == "KeyH"@ {
        Some(KnownKey::KeyH)
    } else if s == "KeyS"@ {
        Some(KnownKey::KeyS)
    } else if s == "KeyM"@ {
        Some(KnownKey::KeyM)
    } else if s == "KeyT"@ {
        Some(KnownKey::KeyT)
    } else if s == "KeyE"@ {
        Some(KnownKey::KeyE)
    } else if s == "ShiftLeft"@ {
        Some(KnownKey::ShiftLeft)
    } else if s == "Space"@ {
        Some(KnownKey::Space)
    } else if s == "Backspace"@ {
        Some(KnownKey::Backspace)
    } else {
        None
    }
}

/// Which mouse button a stored name resolves to, if the game knows it.
pub open spec fn spec_mouse_of(s: Seq<char>) -> Option<KnownMouseButton> {
    if s == "MouseLeft"@ {
        Some(KnownMouseButton::Left)
    } else if s == "MouseRight"@ {
        Some(KnownMouseButton::Right)
    } else if s == "MouseForward"@ {
        Some(KnownMouseButton::Forward)
    } else if s == "MouseMiddle"@ {
        Some(KnownMouseButton::Middle)
    } else if s == "MouseBack"@ {
        Some(KnownMouseButton::Back)
    } else {
        None
    }
}

impl View for SerdeKeyCode {
    type V = Seq<char>;

    open spec fn view(&self) -> Seq<char> {
        self.0@
    }
}

impl View for SerdeMouseCode {
    type V = Seq<char>;

    open spec fn view(&self) -> Seq<char> {
        self.0@
    }
}

impl SerdeKeyCode {
    /// Resolve the stored name. Yields the key exactly when the name is
    /// one the game knows; an unrecognized name resolves to nothing and
    /// the caller decides whether that is fatal.
    pub fn key_code(&self) -> (r: Option<KnownKey>)
        ensures
            r == spec_key_of(self@),
    {
        if self.0 == String::from_str("KeyH") {
            Some(KnownKey::KeyH)
        } else if self.0 == String::from_str("KeyS") {
            Some(KnownKey::KeyS)
        } else if self.0 == String::from_str("KeyM") {
            Some(KnownKey::KeyM)
        } else if self.0 == String::from_str("KeyT") {
            Some(KnownKey::KeyT)
        } else if self.0 == String::from_str("KeyE") {
            Some(KnownKey::KeyE)
        } else if self.0 == String::from_str("ShiftLeft") {
            Some(KnownKey::ShiftLeft)
        } else if self.0 == String::from_str("Space") {
            Some(KnownKey::Space)
        } else if self.0 == String::from_str("Backspace") {
            Some(KnownKey::Backspace)
        } else {
            None
        }
    }
}

impl SerdeMouseCode {
    /// Resolve the stored name. Yields the button exactly when the name
    /// is one the game knows.
    pub fn mouse_button(&self) -> (r: Option<KnownMouseButton>)
        ensures
            r == spec_mouse_of(self@),
    {
        if self.0 == String::from_str("MouseLeft") {
            Some(KnownMouseButton::Left)
        } else if self.0 == String::from_str("MouseRight") {
            Some(KnownMouseButton::Right)
        } else if self.0 == String::from_str("MouseForward") {
            Some(KnownMouseButton::Forward)
        } else if self.0 == String::from_str("MouseMiddle") {
            Some(KnownMouseButton::Middle)
        } else if self.0 == String::from_str("MouseBack") {
            Some(KnownMouseButton::Back)
        } else {
            None
        }
    }
}

/// Whether a binding fires while held or once per press.
#[derive(Clone, Copy, Debug, PartialEq, Eq, Hash, Structural)]
pub enum PressKind {
    MonoStable,
    Momentary,
}

/// A physical input a player action can be bound to.
#[derive(Clone, Debug, PartialEq, Eq, Hash)]
pub enum InputBinding {
    Key(SerdeKeyCode),
    MouseButton(SerdeMouseCode),
    MouseWheelUp,
    MouseWheelDown,
}

/// Everything a binding can make the player do.
#[derive(Clone, Copy, Debug, PartialEq, Eq, Hash, Structural)]
pub enum PlayerAction {
    MoveForwards,
    MoveBackwards,
    MoveLeftwards,
    MoveRightwards,
    MoveSprinting,
    FlyUpwards,
    FlyDownwards,
    InteractGeneric,
    OpenInventory,
    WeaponAttack,
    WeaponAim,
    WeaponAction1,
    WeaponAction2,
    WeaponAction3,
    DebugShootBullet,
    DebugIncreaseRenderDistance,
    DebugDecreaseRenderDistance,
    DebugToggleFlight,
}

/// The request to open or close the inventory.
#[derive(Clone, Copy, Debug, PartialEq, Eq, Structural)]
pub struct ToggleInventory;

} // verus!
