use terrain::input::InputBinding;
use terrain::input::KnownKey;
use terrain::input::KnownMouseButton;
use terrain::input::PlayerAction;
use terrain::input::PressKind;
use terrain::input::SerdeKeyCode;
use terrain::input::SerdeMouseCode;
use terrain::items::DamageKind;
use terrain::items::ItemTrait;
use terrain::items::MeleeWeaponKind;
use terrain::items::RangedWeaponKind;

#[test]
fn known_key_names_resolve() {
    let cases = [
        ("KeyH", KnownKey::KeyH),
        ("KeyS", KnownKey::KeyS),
        ("KeyM", KnownKey::KeyM),
        ("KeyT", KnownKey::KeyT),
        ("KeyE", KnownKey::KeyE),
        ("ShiftLeft", KnownKey::ShiftLeft),
        ("Space", KnownKey::Space),
        ("Backspace", KnownKey::Backspace),
    ];
    for (name, key) in cases {
        assert_eq!(SerdeKeyCode(name.to_string()).key_code(), Some(key), "{}", name);
    }
}

#[test]
fn unknown_key_names_resolve_to_nothing() {
    for name in ["", "KeyZ", "keyh", "Key H", "Escape"] {
        assert_eq!(SerdeKeyCode(name.to_string()).key_code(), None, "{}", name);
    }
}

#[test]
fn known_mouse_names_resolve() {
    let cases = [
        ("MouseLeft", KnownMouseButton::Left),
        ("MouseRight", KnownMouseButton::Right),
        ("MouseForward", KnownMouseButton::Forward),
        ("MouseMiddle", KnownMouseButton::Middle),
        ("MouseBack", KnownMouseButton::Back),
    ];
    for (name, button) in cases {
        assert_eq!(SerdeMouseCode(name.to_string()).mouse_button(), Some(button), "{}", name);
    }
}

#[test]
fn unknown_mouse_names_resolve_to_nothing() {
    for name in ["", "Left", "mouseleft", "MouseExtra"] {
        assert_eq!(SerdeMouseCode(name.to_string()).mouse_button(), None, "{}", name);
    }
}

#[test]
fn bindings_compare_by_content() {
    let a = InputBinding::Key(SerdeKeyCode("KeyH".to_string()));
    let b = InputBinding::Key(SerdeKeyCode("KeyH".to_string()));
    let c = InputBinding::MouseButton(SerdeMouseCode("MouseLeft".to_string()));
    assert_eq!(a, b);
    assert_ne!(a, c);
    assert_ne!(InputBinding::MouseWheelUp, InputBinding::MouseWheelDown);
    assert_eq!(PressKind::Momentary, PressKind::Momentary);
    assert_ne!(PlayerAction::MoveForwards, PlayerAction::MoveBackwards);
}

#[test]
fn item_kinds_are_distinguishable() {
    assert_ne!(DamageKind::Impact, DamageKind::Piercing);
    assert_eq!(MeleeWeaponKind::MeleeSlashing, MeleeWeaponKind::MeleeSlashing);
    assert_ne!(RangedWeaponKind::Handgun, RangedWeaponKind::SubMachineGun);
    assert_eq!(ItemTrait::Equipable, ItemTrait::Equipable);
}
