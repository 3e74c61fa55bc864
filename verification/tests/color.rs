use inksy::color::Srgb8;

#[test]
fn opaque_adds_full_alpha() {
    assert_eq!(Srgb8([1, 2, 3]).opaque().0, [1, 2, 3, 255]);
    assert_eq!(Srgb8([0, 0, 0]).opaque().0, [0, 0, 0, 0xff]);
}
