use inksy::watched::Watched;

#[test]
fn a_new_value_is_dirty_until_read() {
    let mut w = Watched::new(5u32);
    assert_eq!(w.read_if_dirty(), Some(&5));
    assert_eq!(w.read_if_dirty(), None);
}

#[test]
fn invalidate_makes_it_dirty_again() {
    let mut w = Watched::new(5u32);
    assert_eq!(*w.read(), 5);
    assert_eq!(w.read_if_dirty(), None);
    w.invalidate();
    assert_eq!(w.read_if_dirty(), Some(&5));
}

#[test]
fn mutable_access_marks_dirty() {
    let mut w = Watched::new(vec![1u8]);
    let _ = w.read();
    w.as_mut().push(2);
    assert_eq!(w.read_if_dirty(), Some(&vec![1u8, 2]));
    assert_eq!(w.as_ref(), &vec![1u8, 2]);
}

#[test]
fn take_gives_the_value() {
    let w = Watched::new(String::from("ink"));
    assert_eq!(w.take(), "ink");
}

#[test]
fn read_if_with_is_dirty_lets_the_caller_decide() {
    let mut w = Watched::new(3i32);
    let mut seen = Vec::new();
    assert_eq!(
        w.read_if_with_is_dirty(|dirty| {
            seen.push(dirty);
            false
        }),
        None
    );
    assert_eq!(
        w.read_if_with_is_dirty(|dirty| {
            seen.push(dirty);
            true
        }),
        Some(&3)
    );
    assert_eq!(w.read_if_dirty(), None);
    assert_eq!(seen, vec![true, true]);
}

#[test]
fn default_and_deref() {
    let w: Watched<u8> = Watched::default();
    assert_eq!(*w, 0);
}

#[test]
fn from_wraps_as_dirty() {
    let mut w: Watched<u16> = Watched::from(9);
    assert_eq!(w.read_if_dirty(), Some(&9));
}
