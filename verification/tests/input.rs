use inksy::input::{Button, ButtonSet, InputMonitor, InputState, Key, KeySet};

fn keys(ks: &[Key]) -> KeySet {
    let mut s = KeySet::empty();
    for k in ks {
        s.insert(*k);
    }
    s
}

#[test]
fn key_indices_are_distinct_positions() {
    assert_eq!(Key::K0.index(), 0);
    assert_eq!(Key::A.index(), 10);
    assert_eq!(Key::Z.index(), 35);
    assert_eq!(Key::RightArrow.index(), 43);
}

#[test]
fn key_set_insert_remove_contains() {
    let mut s = KeySet::empty();
    assert!(s.is_empty());
    s.insert(Key::Control);
    s.insert(Key::Z);
    assert!(s.contains(Key::Control));
    assert!(s.contains(Key::Z));
    assert!(!s.contains(Key::Y));
    s.remove(Key::Control);
    assert!(!s.contains(Key::Control));
    assert!(!s.is_empty());
    assert_eq!(s.bits(), 1u64 << 35);
    assert_eq!(KeySet::single(Key::A).bits(), 1u64 << 10);
}

#[test]
fn key_set_algebra() {
    let a = keys(&[Key::A, Key::B, Key::C]);
    let b = keys(&[Key::B, Key::C, Key::D]);
    assert_eq!(a.union(b).bits(), keys(&[Key::A, Key::B, Key::C, Key::D]).bits());
    assert_eq!(a.intersection(b).bits(), keys(&[Key::B, Key::C]).bits());
    assert_eq!(a.symmetrical_difference(b).bits(), keys(&[Key::A, Key::D]).bits());
    assert!(keys(&[Key::B]).is_subset(a));
    assert!(!b.is_subset(a));
    assert!(KeySet::empty().is_subset(a));
    let c = a.complement();
    assert!(!c.contains(Key::A));
    assert!(c.contains(Key::Escape));
    assert!(c.contains(Key::RightArrow));
    assert_eq!(c.complement().bits(), a.bits());
    assert!(a.intersection(c).is_empty());
}

#[test]
fn button_set() {
    let mut s = ButtonSet::empty();
    assert!(!s.contains(Button::Left));
    s.insert(Button::Left);
    assert!(s.contains(Button::Left));
    assert!(!s.contains(Button::Right));
    s.remove(Button::Left);
    assert!(!s.contains(Button::Left));
}

#[test]
fn monitor_tracks_presses_repeats_and_releases() {
    let mut m = InputMonitor::new();
    assert!(!m.is_fresh);
    m.process_key_event(Some(Key::A), true);
    assert!(m.is_fresh);
    assert!(m.active_keys.contains(Key::A));
    assert!(m.fresh_keys.contains(Key::A));
    assert!(m.different_keys.contains(Key::A));
    m.defresh();
    assert!(!m.is_fresh);
    assert!(m.active_keys.contains(Key::A));
    assert!(m.fresh_keys.is_empty());
    assert!(m.different_keys.is_empty());
    // A repeat is fresh but not different.
    m.process_key_event(Some(Key::A), true);
    assert!(m.fresh_keys.contains(Key::A));
    assert!(!m.different_keys.contains(Key::A));
    m.defresh();
    m.process_key_event(Some(Key::A), false);
    assert!(!m.active_keys.contains(Key::A));
    assert!(m.different_keys.contains(Key::A));
}

#[test]
fn monitor_unknown_key_only_marks_fresh() {
    let mut m = InputMonitor::new();
    m.process_key_event(None, true);
    assert!(m.is_fresh);
    assert!(m.active_keys.is_empty());
    assert!(m.fresh_keys.is_empty());
}

#[test]
fn monitor_mouse_button() {
    let mut m = InputMonitor::new();
    m.process_mouse_input(true);
    assert!(m.active_buttons.contains(Button::Left));
    assert!(m.different_buttons.contains(Button::Left));
    m.defresh();
    m.process_mouse_input(true);
    assert!(!m.different_buttons.contains(Button::Left));
    m.process_mouse_input(false);
    assert!(!m.active_buttons.contains(Button::Left));
    assert!(m.different_buttons.contains(Button::Left));
}

#[test]
fn input_state_queries() {
    let s = InputState::new();
    assert!(!s.was_emitted());
    assert!(!s.was_pressed());
    let s = InputState { is_active: true, is_fresh: true, is_different: false };
    assert!(s.was_emitted());
    assert!(!s.was_pressed());
    let s = InputState { is_active: true, is_fresh: false, is_different: true };
    assert!(!s.was_emitted());
    assert!(s.was_pressed());
    let s = InputState { is_active: false, is_fresh: true, is_different: true };
    assert!(!s.was_emitted());
    assert!(!s.was_pressed());
}
