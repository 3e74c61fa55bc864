use inksy::file::{
    decode_canvas, encode_canvas_record, padded_bytes_per_row, read_u32s, read_u64s, read_u8s, rebase_texture_indices,
    texture_indices_fit, unpad_rows, ByteReader, CanvasRecord, ImageRecord, PointRecord, StrokeRecord, TextureRecord,
};

fn sample() -> CanvasRecord {
    CanvasRecord {
        background_color: [0x12, 0x13, 0x14],
        stroke_color: [0xff, 0x80, 0x00],
        stroke_radius: 4.0f32.to_bits(),
        x: 1.5f32.to_bits(),
        y: (-2.0f32).to_bits(),
        tilt: 0.25f32.to_bits(),
        zoom: 1.0f32.to_bits(),
        strokes: vec![
            StrokeRecord {
                x: 1,
                y: 2,
                orientation: 3,
                dilation: 4,
                color: [9, 8, 7, 6],
                stroke_radius: 5,
                points: vec![PointRecord { x: 10, y: 11, pressure: 12 }, PointRecord { x: 13, y: 14, pressure: 15 }],
            },
            StrokeRecord { x: 0, y: 0, orientation: 0, dilation: 0, color: [0, 0, 0, 0], stroke_radius: 0, points: vec![] },
        ],
        images: vec![ImageRecord { x: 20, y: 21, orientation: 22, dilation: 23, texture_index: 1, width: 24, height: 25 }],
        textures: vec![None, Some(TextureRecord { width: 1, height: 2, pixels: vec![1, 2, 3, 4, 5, 6, 7, 8] })],
    }
}

fn assert_same(a: &CanvasRecord, b: &CanvasRecord) {
    assert_eq!(a.background_color, b.background_color);
    assert_eq!(a.stroke_color, b.stroke_color);
    assert_eq!((a.stroke_radius, a.x, a.y, a.tilt, a.zoom), (b.stroke_radius, b.x, b.y, b.tilt, b.zoom));
    assert_eq!(a.strokes.len(), b.strokes.len());
    for (s, t) in a.strokes.iter().zip(b.strokes.iter()) {
        assert_eq!((s.x, s.y, s.orientation, s.dilation, s.color, s.stroke_radius), (t.x, t.y, t.orientation, t.dilation, t.color, t.stroke_radius));
        let p: Vec<_> = s.points.iter().map(|p| (p.x, p.y, p.pressure)).collect();
        let q: Vec<_> = t.points.iter().map(|p| (p.x, p.y, p.pressure)).collect();
        assert_eq!(p, q);
    }
    let i: Vec<_> = a.images.iter().map(|i| (i.x, i.y, i.orientation, i.dilation, i.texture_index, i.width, i.height)).collect();
    let j: Vec<_> = b.images.iter().map(|i| (i.x, i.y, i.orientation, i.dilation, i.texture_index, i.width, i.height)).collect();
    assert_eq!(i, j);
    let t: Vec<_> = a.textures.iter().map(|t| t.as_ref().map(|t| (t.width, t.height, t.pixels.clone()))).collect();
    let u: Vec<_> = b.textures.iter().map(|t| t.as_ref().map(|t| (t.width, t.height, t.pixels.clone()))).collect();
    assert_eq!(t, u);
}

#[test]
fn encoding_starts_with_the_header() {
    let bytes = encode_canvas_record(&sample());
    assert_eq!(&bytes[0..8], b"INKSY\0\0\0");
    assert_eq!(&bytes[8..16], &[0u8; 8]);
    assert_eq!(&bytes[16..22], &[0x12, 0x13, 0x14, 0xff, 0x80, 0x00]);
    assert_eq!(&bytes[22..26], &4.0f32.to_bits().to_le_bytes());
    assert_eq!(&bytes[42..50], &2u64.to_le_bytes());
    assert_eq!(&bytes[50..58], &1u64.to_le_bytes());
    assert_eq!(&bytes[58..66], &2u64.to_le_bytes());
    // Header, two strokes (32 + 2 * 12 and 32 bytes), one image (32 bytes),
    // an empty slot (8 bytes) and a 1x2 texture (8 + 8 bytes).
    assert_eq!(bytes.len(), 66 + 56 + 32 + 32 + 8 + 16);
}

#[test]
fn decoding_reads_back_what_was_encoded() {
    let record = sample();
    let bytes = encode_canvas_record(&record);
    let decoded = decode_canvas(&bytes).expect("a canvas");
    assert_same(&decoded, &record);
}

#[test]
fn decoding_ignores_trailing_bytes() {
    let record = sample();
    let mut bytes = encode_canvas_record(&record);
    bytes.extend_from_slice(&[1, 2, 3]);
    assert_same(&decode_canvas(&bytes).expect("a canvas"), &record);
}

#[test]
fn decoding_rejects_a_wrong_magic_number() {
    let mut bytes = encode_canvas_record(&sample());
    bytes[0] = b'X';
    assert!(decode_canvas(&bytes).is_none());
}

#[test]
fn decoding_rejects_an_unknown_version() {
    let mut bytes = encode_canvas_record(&sample());
    bytes[8] = 1;
    assert!(decode_canvas(&bytes).is_none());
}

#[test]
fn decoding_rejects_truncated_files() {
    let bytes = encode_canvas_record(&sample());
    for length in [0, 10, 65, 66, 100, bytes.len() - 1] {
        assert!(decode_canvas(&bytes[..length]).is_none(), "length {}", length);
    }
}

#[test]
fn decoding_an_empty_canvas() {
    let record = CanvasRecord {
        background_color: [1, 2, 3],
        stroke_color: [4, 5, 6],
        stroke_radius: 7,
        x: 8,
        y: 9,
        tilt: 10,
        zoom: 11,
        strokes: vec![],
        images: vec![],
        textures: vec![],
    };
    let bytes = encode_canvas_record(&record);
    assert_eq!(bytes.len(), 66);
    assert_same(&decode_canvas(&bytes).unwrap(), &record);
}

#[test]
fn reader_takes_bytes_in_order() {
    let bytes = [1u8, 0, 0, 0, 2, 0, 0, 0, 0, 0, 0, 0, 9, 8];
    let mut reader = ByteReader::new(&bytes);
    assert_eq!(reader.remaining(), 14);
    assert_eq!(read_u32s::<1>(&mut reader), Some([1]));
    assert_eq!(read_u64s::<1>(&mut reader), Some([2]));
    assert_eq!(read_u8s::<2>(&mut reader), Some([9, 8]));
    assert_eq!(reader.remaining(), 0);
    assert_eq!(read_u8s::<1>(&mut reader), None);
    assert_eq!(reader.take(0), Some(&[][..]));
}

#[test]
fn reader_does_not_move_on_failure() {
    let bytes = [1u8, 2, 3];
    let mut reader = ByteReader::new(&bytes);
    assert_eq!(read_u32s::<1>(&mut reader), None);
    assert_eq!(reader.remaining(), 3);
    assert_eq!(reader.take(2), Some(&[1u8, 2][..]));
    assert_eq!(reader.take(2), None);
    assert_eq!(reader.remaining(), 1);
}

#[test]
fn padded_rows() {
    assert_eq!(padded_bytes_per_row(1, 256), 256);
    assert_eq!(padded_bytes_per_row(64, 256), 256);
    assert_eq!(padded_bytes_per_row(65, 256), 512);
    assert_eq!(padded_bytes_per_row(0, 256), 0);
    assert_eq!(padded_bytes_per_row(3, 1), 12);
}

#[test]
fn unpadding_rows() {
    let buffer = [1u8, 2, 0, 0, 3, 4, 0, 0, 5, 6];
    assert_eq!(unpad_rows(&buffer, 4, 2), vec![1, 2, 3, 4, 5, 6]);
    assert_eq!(unpad_rows(&buffer[..8], 4, 2), vec![1, 2, 3, 4]);
    assert_eq!(unpad_rows(&[], 4, 2), Vec::<u8>::new());
    assert_eq!(unpad_rows(&buffer[..8], 4, 4), buffer[..8].to_vec());
}

#[test]
fn texture_slots_are_renumbered_without_gaps() {
    let image = |texture_index: u64| ImageRecord { x: 0, y: 0, orientation: 0, dilation: 0, texture_index, width: 1, height: 1 };
    let texture = || Some(TextureRecord { width: 1, height: 1, pixels: vec![0, 0, 0, 0] });
    let textures = vec![None, texture(), None, texture()];
    let mut images = vec![image(3), image(1), image(1)];
    assert!(texture_indices_fit(&images, textures.len()));
    assert!(!texture_indices_fit(&images, 3));
    rebase_texture_indices(&mut images, &textures);
    let indices: Vec<u64> = images.iter().map(|i| i.texture_index).collect();
    assert_eq!(indices, vec![1, 0, 0]);
}

#[test]
fn padded_rows_reach_the_largest_stride() {
    assert_eq!(padded_bytes_per_row(1073741823, 4), 4294967292);
    assert_eq!(padded_bytes_per_row(1073741823, 2), 4294967292);
}
