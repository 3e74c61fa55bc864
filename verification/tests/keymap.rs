use inksy::input::{Key, KeySet};
use inksy::keymap::{execute_keymap, Action, Keymap};

fn keys(ks: &[Key]) -> KeySet {
    let mut s = KeySet::empty();
    for k in ks {
        s.insert(*k);
    }
    s
}

#[test]
fn trigger_fires_when_its_key_is_struck_with_its_modifiers() {
    let mut keymap = Keymap::new();
    keymap.insert(keys(&[Key::Control]), keys(&[Key::Z]), true, Action::Trigger { on_trigger: 1u8 });
    let active = keys(&[Key::Control, Key::Z]);
    let fresh = keys(&[Key::Z]);
    assert_eq!(execute_keymap(&mut keymap, active, fresh, fresh), vec![1]);
    // Holding the modifier alone does nothing.
    let active = keys(&[Key::Control]);
    assert_eq!(execute_keymap(&mut keymap, active, active, active), Vec::<u8>::new());
    // Extra keys held: no combination matches.
    let active = keys(&[Key::Control, Key::Shift, Key::Z]);
    assert_eq!(execute_keymap(&mut keymap, active, fresh, fresh), Vec::<u8>::new());
}

#[test]
fn repeats_fire_only_repeatable_combinations() {
    let mut keymap = Keymap::new();
    keymap.insert(KeySet::empty(), keys(&[Key::A]), true, Action::Trigger { on_trigger: 'a' });
    keymap.insert(KeySet::empty(), keys(&[Key::B]), false, Action::Trigger { on_trigger: 'b' });
    let a = keys(&[Key::A]);
    let b = keys(&[Key::B]);
    // A repeat: fresh but not different.
    assert_eq!(execute_keymap(&mut keymap, a, a, KeySet::empty()), vec!['a']);
    assert_eq!(execute_keymap(&mut keymap, b, b, KeySet::empty()), Vec::<char>::new());
    assert_eq!(execute_keymap(&mut keymap, b, b, b), vec!['b']);
}

#[test]
fn discovery_fires_press_then_release() {
    let mut keymap = Keymap::new();
    keymap.insert(KeySet::empty(), keys(&[Key::Space]), false, Action::Discovery { on_press: "pan", on_release: "unpan" });
    let space = keys(&[Key::Space]);
    assert_eq!(execute_keymap(&mut keymap, space, space, space), vec!["pan"]);
    // Still held: nothing new.
    assert_eq!(execute_keymap(&mut keymap, space, KeySet::empty(), KeySet::empty()), Vec::<&str>::new());
    // Let go: the release action fires once.
    assert_eq!(execute_keymap(&mut keymap, KeySet::empty(), KeySet::empty(), space), vec!["unpan"]);
    assert_eq!(execute_keymap(&mut keymap, KeySet::empty(), KeySet::empty(), KeySet::empty()), Vec::<&str>::new());
}

#[test]
fn later_binding_replaces_earlier_one() {
    let mut keymap = Keymap::new();
    keymap.insert(KeySet::empty(), keys(&[Key::X]), false, Action::Trigger { on_trigger: 1u8 });
    keymap.insert(KeySet::empty(), keys(&[Key::X]), false, Action::Trigger { on_trigger: 2u8 });
    let x = keys(&[Key::X]);
    assert_eq!(execute_keymap(&mut keymap, x, x, x), vec![2]);
}
