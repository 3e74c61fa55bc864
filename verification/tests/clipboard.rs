use inksy::clipboard::ClipboardData;

fn png_bytes(width: u32, height: u32, pixels: &[u8]) -> Vec<u8> {
    let mut data = Vec::new();
    {
        let mut encoder = png::Encoder::new(&mut data, width, height);
        encoder.set_color(png::ColorType::Rgba);
        encoder.set_depth(png::BitDepth::Eight);
        let mut writer = encoder.write_header().unwrap();
        writer.write_image_data(pixels).unwrap();
    }
    data
}

#[test]
fn own_format_comes_first() {
    let png = png_bytes(1, 1, &[1, 2, 3, 4]);
    assert!(matches!(ClipboardData::from_clipboard(true, Some(png)), Some(ClipboardData::Custom)));
    assert!(matches!(ClipboardData::from_clipboard(true, None), Some(ClipboardData::Custom)));
}

#[test]
fn a_png_image_is_decoded() {
    let pixels = [1, 2, 3, 4, 5, 6, 7, 8];
    let png = png_bytes(2, 1, &pixels);
    match ClipboardData::from_clipboard(false, Some(png)) {
        Some(ClipboardData::Image { dimensions, data }) => {
            assert_eq!(dimensions, [2, 1]);
            assert_eq!(data, pixels.to_vec());
        },
        _ => panic!("expected an image"),
    }
}

#[test]
fn bytes_that_are_not_png_give_nothing() {
    assert!(ClipboardData::from_clipboard(false, Some(vec![1, 2, 3])).is_none());
    assert!(ClipboardData::from_clipboard(false, None).is_none());
}

#[test]
fn decoded_images_become_clipboard_data() {
    match ClipboardData::from_decoded_image(Some((3, 4, vec![9; 48]))) {
        Some(ClipboardData::Image { dimensions, data }) => {
            assert_eq!(dimensions, [3, 4]);
            assert_eq!(data.len(), 48);
        },
        _ => panic!("expected an image"),
    }
    assert!(ClipboardData::from_decoded_image(None).is_none());
}
