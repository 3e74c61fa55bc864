use vstd::prelude::*;
use vstd::bytes::{
    lemma_auto_spec_u32_to_from_le_bytes, lemma_auto_spec_u64_to_from_le_bytes,
    spec_u32_from_le_bytes, spec_u32_to_le_bytes, spec_u64_from_le_bytes, spec_u64_to_le_bytes, u32_from_le_bytes, u32_to_le_bytes,
    u64_from_le_bytes, u64_to_le_bytes,
};
use vstd::slice::{slice_subrange, slice_to_vec};

verus! {

/// Reads a byte slice from front to back.
pub struct ByteReader<'a> {
    bytes: &'a [u8],
    position: usize,
}

impl<'a> ByteReader<'a> {
    /// The bytes being read.
    pub closed spec fn bytes(&self) -> Seq<u8> {
        self.bytes@
    }

    /// How many bytes have been read.
    pub closed spec fn position(&self) -> nat {
        self.position as nat
    }

    /// The reader never points past its bytes.
    pub closed spec fn wf(&self) -> bool {
        self.position <= self.bytes@.len()
    }

    pub fn new(bytes: &'a [u8]) -> (r: Self)
        ensures
            r.wf(),
            r.bytes() == bytes@,
            r.position() == 0,
    {
        ByteReader { bytes, position: 0 }
    }

    /// How many bytes are left to read.
    pub fn remaining(&self) -> (r: usize)
        requires
            self.wf(),
        ensures
            r == self.bytes().len() - self.position(),
    {
        self.bytes.len() - self.position
    }

    /// Takes the next `length` bytes, or nothing if fewer remain.
    pub fn take(&mut self, length: usize) -> (r: Option<&'a [u8]>)
        requires
            old(self).wf(),
        ensures
            final(self).wf(),
            final(self).bytes() == old(self).bytes(),
            old(self).position() + length <= old(self).bytes().len() ==> {
                &&& r matches Some(s) && s@ == old(self).bytes().subrange(old(self).position() as int, old(self).position() + length)
                &&& final(self).position() == old(self).position() + length
            },
            old(self).position() + length > old(self).bytes().len() ==> r is None && final(self).position() == old(self).position(),
    {
        if length <= self.bytes.len() - self.position {
            let start = self.position;
            self.position = start + length;
            Some(slice_subrange(self.bytes, start, start + length))
        } else {
            None
        }
    }
}

/// Reads `N` little-endian `u64`s.
pub fn read_u64s<const N: usize>(reader: &mut ByteReader) -> (r: Option<[u64; N]>)
    requires
        old(reader).wf(),
    ensures
        final(reader).wf(),
        final(reader).bytes() == old(reader).bytes(),
        old(reader).position() + 8 * N <= old(reader).bytes().len() ==> {
            &&& r matches Some(array) && forall|i: int| 0 <= i < N ==> #[trigger] array@[i]
                == spec_u64_from_le_bytes(old(reader).bytes().subrange(old(reader).position() + 8 * i, old(reader).position() + 8 * i + 8))
            &&& final(reader).position() == old(reader).position() + 8 * N
        },
        old(reader).position() + 8 * N > old(reader).bytes().len() ==> r is None,
{
    let mut array = [0u64; N];
    let mut i: usize = 0;
    while i < N
        invariant
            0 <= i <= N,
            reader.wf(),
            reader.bytes() == old(reader).bytes(),
            reader.position() == old(reader).position() + 8 * i,
            forall|k: int| 0 <= k < i ==> #[trigger] array@[k]
                == spec_u64_from_le_bytes(old(reader).bytes().subrange(old(reader).position() + 8 * k, old(reader).position() + 8 * k + 8)),
        decreases N - i,
    {
        match reader.take(8) {
            Some(buffer) => {
                array[i] = u64_from_le_bytes(buffer);
            },
            None => {
                return None;
            },
        }
        i += 1;
    }
    Some(array)
}


/// Reads `N` little-endian `u32`s.
pub fn read_u32s<const N: usize>(reader: &mut ByteReader) -> (r: Option<[u32; N]>)
    requires
        old(reader).wf(),
    ensures
        final(reader).wf(),
        final(reader).bytes() == old(reader).bytes(),
        old(reader).position() + 4 * N <= old(reader).bytes().len() ==> {
            &&& r matches Some(array) && forall|i: int| 0 <= i < N ==> #[trigger] array@[i]
                == spec_u32_from_le_bytes(old(reader).bytes().subrange(old(reader).position() + 4 * i, old(reader).position() + 4 * i + 4))
            &&& final(reader).position() == old(reader).position() + 4 * N
        },
        old(reader).position() + 4 * N > old(reader).bytes().len() ==> r is None,
{
    let mut array = [0u32; N];
    let mut i: usize = 0;
    while i < N
        invariant
            0 <= i <= N,
            reader.wf(),
            reader.bytes() == old(reader).bytes(),
            reader.position() == old(reader).position() + 4 * i,
            forall|k: int| 0 <= k < i ==> #[trigger] array@[k]
                == spec_u32_from_le_bytes(old(reader).bytes().subrange(old(reader).position() + 4 * k, old(reader).position() + 4 * k + 4)),
        decreases N - i,
    {
        match reader.take(4) {
            Some(buffer) => {
                array[i] = u32_from_le_bytes(buffer);
            },
            None => {
                return None;
            },
        }
        i += 1;
    }
    Some(array)
}

/// Reads `N` bytes.
pub fn read_u8s<const N: usize>(reader: &mut ByteReader) -> (r: Option<[u8; N]>)
    requires
        old(reader).wf(),
    ensures
        final(reader).wf(),
        final(reader).bytes() == old(reader).bytes(),
        old(reader).position() + N <= old(reader).bytes().len() ==> {
            &&& r matches Some(array) && array@ == old(reader).bytes().subrange(old(reader).position() as int, old(reader).position() + N)
            &&& final(reader).position() == old(reader).position() + N
        },
        old(reader).position() + N > old(reader).bytes().len() ==> r is None,
{
    let mut array = [0u8; N];
    match reader.take(N) {
        Some(buffer) => {
            let mut i: usize = 0;
            while i < N
                invariant
                    0 <= i <= N,
                    buffer@.len() == N,
                    forall|k: int| 0 <= k < i ==> #[trigger] array@[k] == buffer@[k],
                decreases N - i,
            {
                array[i] = buffer[i];
                i += 1;
            }
            assert(array@ =~= buffer@);
            Some(array)
        },
        None => None,
    }
}


// ---------------------------------------------------------------------------
// The canvas file format. Floating-point values are carried as their bit
// patterns (`f32::to_bits`), so every field here is an integer.

/// A point of a stroke.
#[derive(Clone, Copy)]
pub struct PointRecord {
    pub x: u32,
    pub y: u32,
    pub pressure: u32,
}

/// A stroke as saved.
pub struct StrokeRecord {
    pub x: u32,
    pub y: u32,
    pub orientation: u32,
    pub dilation: u32,
    pub color: [u8; 4],
    pub stroke_radius: u32,
    pub points: Vec<PointRecord>,
}

/// An image as saved; `texture_index` counts every texture slot of the file.
#[derive(Clone, Copy)]
pub struct ImageRecord {
    pub x: u32,
    pub y: u32,
    pub orientation: u32,
    pub dilation: u32,
    pub texture_index: u64,
    pub width: u32,
    pub height: u32,
}

/// The pixels of a texture, four bytes per pixel, row after row.
pub struct TextureRecord {
    pub width: u32,
    pub height: u32,
    pub pixels: Vec<u8>,
}

/// A whole canvas as saved. A texture slot holds `None` when no image used
/// the texture at the time of saving.
pub struct CanvasRecord {
    pub background_color: [u8; 3],
    pub stroke_color: [u8; 3],
    pub stroke_radius: u32,
    pub x: u32,
    pub y: u32,
    pub tilt: u32,
    pub zoom: u32,
    pub strokes: Vec<StrokeRecord>,
    pub images: Vec<ImageRecord>,
    pub textures: Vec<Option<TextureRecord>>,
}

pub struct StrokeRecordView {
    pub x: u32,
    pub y: u32,
    pub orientation: u32,
    pub dilation: u32,
    pub color: Seq<u8>,
    pub stroke_radius: u32,
    pub points: Seq<PointRecord>,
}

pub struct TextureRecordView {
    pub width: u32,
    pub height: u32,
    pub pixels: Seq<u8>,
}

pub struct CanvasRecordView {
    pub background_color: Seq<u8>,
    pub stroke_color: Seq<u8>,
    pub stroke_radius: u32,
    pub x: u32,
    pub y: u32,
    pub tilt: u32,
    pub zoom: u32,
    pub strokes: Seq<StrokeRecordView>,
    pub images: Seq<ImageRecord>,
    pub textures: Seq<Option<TextureRecordView>>,
}

impl View for StrokeRecord {
    type V = StrokeRecordView;

    open spec fn view(&self) -> StrokeRecordView {
        StrokeRecordView {
            x: self.x,
            y: self.y,
            orientation: self.orientation,
            dilation: self.dilation,
            color: self.color@,
            stroke_radius: self.stroke_radius,
            points: self.points@,
        }
    }
}

impl View for TextureRecord {
    type V = TextureRecordView;

    open spec fn view(&self) -> TextureRecordView {
        TextureRecordView { width: self.width, height: self.height, pixels: self.pixels@ }
    }
}

pub open spec fn texture_view(t: Option<TextureRecord>) -> Option<TextureRecordView> {
    match t {
        Some(t) => Some(t@),
        None => None,
    }
}

impl View for CanvasRecord {
    type V = CanvasRecordView;

    open spec fn view(&self) -> CanvasRecordView {
        CanvasRecordView {
            background_color: self.background_color@,
            stroke_color: self.stroke_color@,
            stroke_radius: self.stroke_radius,
            x: self.x,
            y: self.y,
            tilt: self.tilt,
            zoom: self.zoom,
            strokes: self.strokes@.map_values(|s: StrokeRecord| s@),
            images: self.images@,
            textures: self.textures@.map_values(|t: Option<TextureRecord>| texture_view(t)),
        }
    }
}

/// The first bytes of every canvas file.
pub open spec fn magic_numbers() -> Seq<u8> {
    seq![0x49u8, 0x4eu8, 0x4bu8, 0x53u8, 0x59u8, 0u8, 0u8, 0u8]
}

/// A texture that can be saved: both dimensions nonzero, four bytes per pixel.
pub open spec fn texture_wf(t: TextureRecordView) -> bool {
    &&& t.width > 0
    &&& t.height > 0
    &&& t.pixels.len() == t.width * t.height * 4
}

impl StrokeRecordView {
    pub open spec fn wf(self) -> bool {
        &&& self.color.len() == 4
        &&& self.points.len() <= u64::MAX
    }
}

impl CanvasRecordView {
    /// A record that can be saved and read back.
    pub open spec fn wf(self) -> bool {
        &&& self.background_color.len() == 3
        &&& self.stroke_color.len() == 3
        &&& self.strokes.len() <= u64::MAX
        &&& self.images.len() <= u64::MAX
        &&& self.textures.len() <= u64::MAX
        &&& forall|i: int| 0 <= i < self.strokes.len() ==> (#[trigger] self.strokes[i]).wf()
        &&& forall|i: int| 0 <= i < self.images.len() ==> (#[trigger] self.images[i]).texture_index <= usize::MAX
        &&& forall|i: int| 0 <= i < self.textures.len() ==> (#[trigger] self.textures[i] matches Some(t) ==> texture_wf(t))
    }
}

/// The encodings of the elements, one after another.
pub open spec fn encode_all<A>(s: Seq<A>, encode: spec_fn(A) -> Seq<u8>) -> Seq<u8>
    decreases s.len(),
{
    if s.len() == 0 {
        Seq::empty()
    } else {
        encode_all(s.drop_last(), encode) + encode(s.last())
    }
}

/// `count` elements read one after another with `parse`, from `position` on.
pub open spec fn parse_all<A>(b: Seq<u8>, position: int, count: nat, parse: spec_fn(Seq<u8>, int) -> Option<(A, int)>) -> Option<(Seq<A>, int)>
    decreases count,
{
    if count == 0 {
        Some((Seq::empty(), position))
    } else {
        match parse_all(b, position, (count - 1) as nat, parse) {
            Some((elements, next)) => match parse(b, next) {
                Some((element, end)) => Some((elements.push(element), end)),
                None => None,
            },
            None => None,
        }
    }
}

// Encoding.

pub open spec fn encode_u32(x: u32) -> Seq<u8> {
    spec_u32_to_le_bytes(x)
}

pub open spec fn encode_u64(x: u64) -> Seq<u8> {
    spec_u64_to_le_bytes(x)
}

pub open spec fn encode_point(p: PointRecord) -> Seq<u8> {
    encode_u32(p.x) + encode_u32(p.y) + encode_u32(p.pressure)
}

pub open spec fn encode_points(points: Seq<PointRecord>) -> Seq<u8> {
    encode_all(points, |x| encode_point(x))
}

pub open spec fn encode_stroke(s: StrokeRecordView) -> Seq<u8> {
    encode_u32(s.x) + encode_u32(s.y) + encode_u32(s.orientation) + encode_u32(s.dilation) + s.color
        + encode_u32(s.stroke_radius) + encode_u64(s.points.len() as u64) + encode_points(s.points)
}

pub open spec fn encode_strokes(strokes: Seq<StrokeRecordView>) -> Seq<u8> {
    encode_all(strokes, |x| encode_stroke(x))
}

pub open spec fn encode_image(i: ImageRecord) -> Seq<u8> {
    encode_u32(i.x) + encode_u32(i.y) + encode_u32(i.orientation) + encode_u32(i.dilation) + encode_u64(i.texture_index)
        + encode_u32(i.width) + encode_u32(i.height)
}

pub open spec fn encode_images(images: Seq<ImageRecord>) -> Seq<u8> {
    encode_all(images, |x| encode_image(x))
}

pub open spec fn encode_texture(t: Option<TextureRecordView>) -> Seq<u8> {
    match t {
        Some(t) => encode_u32(t.width) + encode_u32(t.height) + t.pixels,
        None => encode_u32(0) + encode_u32(0),
    }
}

pub open spec fn encode_textures(textures: Seq<Option<TextureRecordView>>) -> Seq<u8> {
    encode_all(textures, |x| encode_texture(x))
}

/// The bytes of a canvas file.
pub open spec fn encode_canvas(c: CanvasRecordView) -> Seq<u8> {
    magic_numbers() + encode_u64(0) + c.background_color + c.stroke_color + encode_u32(c.stroke_radius)
        + encode_u32(c.x) + encode_u32(c.y) + encode_u32(c.tilt) + encode_u32(c.zoom)
        + encode_u64(c.strokes.len() as u64) + encode_u64(c.images.len() as u64) + encode_u64(c.textures.len() as u64)
        + encode_strokes(c.strokes) + encode_images(c.images) + encode_textures(c.textures)
}

// Parsing: each parser reads from `position` and returns what it read and
// where it stopped, or `None` if the bytes do not hold it.

pub open spec fn u32_at(b: Seq<u8>, position: int) -> u32 {
    spec_u32_from_le_bytes(b.subrange(position, position + 4))
}

pub open spec fn u64_at(b: Seq<u8>, position: int) -> u64 {
    spec_u64_from_le_bytes(b.subrange(position, position + 8))
}

pub open spec fn parse_point(b: Seq<u8>, position: int) -> Option<(PointRecord, int)> {
    if 0 <= position && position + 12 <= b.len() {
        Some((PointRecord { x: u32_at(b, position), y: u32_at(b, position + 4), pressure: u32_at(b, position + 8) }, position + 12))
    } else {
        None
    }
}

pub open spec fn parse_points(b: Seq<u8>, position: int, count: nat) -> Option<(Seq<PointRecord>, int)> {
    parse_all(b, position, count, |b: Seq<u8>, p: int| parse_point(b, p))
}

pub open spec fn parse_stroke(b: Seq<u8>, position: int) -> Option<(StrokeRecordView, int)> {
    if 0 <= position && position + 32 <= b.len() {
        match parse_points(b, position + 32, u64_at(b, position + 24) as nat) {
            Some((points, end)) => Some((
                StrokeRecordView {
                    x: u32_at(b, position),
                    y: u32_at(b, position + 4),
                    orientation: u32_at(b, position + 8),
                    dilation: u32_at(b, position + 12),
                    color: b.subrange(position + 16, position + 20),
                    stroke_radius: u32_at(b, position + 20),
                    points,
                },
                end,
            )),
            None => None,
        }
    } else {
        None
    }
}

pub open spec fn parse_strokes(b: Seq<u8>, position: int, count: nat) -> Option<(Seq<StrokeRecordView>, int)> {
    parse_all(b, position, count, |b: Seq<u8>, p: int| parse_stroke(b, p))
}

pub open spec fn parse_image(b: Seq<u8>, position: int) -> Option<(ImageRecord, int)> {
    if 0 <= position && position + 32 <= b.len() && u64_at(b, position + 16) <= usize::MAX {
        Some((
            ImageRecord {
                x: u32_at(b, position),
                y: u32_at(b, position + 4),
                orientation: u32_at(b, position + 8),
                dilation: u32_at(b, position + 12),
                texture_index: u64_at(b, position + 16),
                width: u32_at(b, position + 24),
                height: u32_at(b, position + 28),
            },
            position + 32,
        ))
    } else {
        None
    }
}

pub open spec fn parse_images(b: Seq<u8>, position: int, count: nat) -> Option<(Seq<ImageRecord>, int)> {
    parse_all(b, position, count, |b: Seq<u8>, p: int| parse_image(b, p))
}

pub open spec fn parse_texture(b: Seq<u8>, position: int) -> Option<(Option<TextureRecordView>, int)> {
    if 0 <= position && position + 8 <= b.len() {
        let width = u32_at(b, position);
        let height = u32_at(b, position + 4);
        if width != 0 && height != 0 {
            let size = width as int * height as int * 4;
            if position + 8 + size <= b.len() {
                Some((Some(TextureRecordView { width, height, pixels: b.subrange(position + 8, position + 8 + size) }), position + 8 + size))
            } else {
                None
            }
        } else {
            Some((None, position + 8))
        }
    } else {
        None
    }
}

pub open spec fn parse_textures(b: Seq<u8>, position: int, count: nat) -> Option<(Seq<Option<TextureRecordView>>, int)> {
    parse_all(b, position, count, |b: Seq<u8>, p: int| parse_texture(b, p))
}

/// What the canvas file parser reads from `b`.
pub open spec fn parse_canvas(b: Seq<u8>) -> Option<CanvasRecordView> {
    if 66 <= b.len() && b.subrange(0, 8) == magic_numbers() && u64_at(b, 8) == 0 {
        match parse_strokes(b, 66, u64_at(b, 42) as nat) {
            Some((strokes, after_strokes)) => match parse_images(b, after_strokes, u64_at(b, 50) as nat) {
                Some((images, after_images)) => match parse_textures(b, after_images, u64_at(b, 58) as nat) {
                    Some((textures, _)) => Some(CanvasRecordView {
                        background_color: b.subrange(16, 19),
                        stroke_color: b.subrange(19, 22),
                        stroke_radius: u32_at(b, 22),
                        x: u32_at(b, 26),
                        y: u32_at(b, 30),
                        tilt: u32_at(b, 34),
                        zoom: u32_at(b, 38),
                        strokes,
                        images,
                        textures,
                    }),
                    None => None,
                },
                None => None,
            },
            None => None,
        }
    } else {
        None
    }
}


// ---------------------------------------------------------------------------
// The layout of the file format, field by field.

/// A point takes 12 bytes: x, y, then pressure, each four bytes little-endian.
pub proof fn law_point_layout(p: PointRecord, b: Seq<u8>, position: int)
    ensures
        encode_point(p).len() == 12,
        encode_point(p).subrange(0, 4) == spec_u32_to_le_bytes(p.x),
        encode_point(p).subrange(4, 8) == spec_u32_to_le_bytes(p.y),
        encode_point(p).subrange(8, 12) == spec_u32_to_le_bytes(p.pressure),
        0 <= position && position + 12 <= b.len() ==> parse_point(b, position) == Some((
            PointRecord {
                x: spec_u32_from_le_bytes(b.subrange(position, position + 4)),
                y: spec_u32_from_le_bytes(b.subrange(position + 4, position + 8)),
                pressure: spec_u32_from_le_bytes(b.subrange(position + 8, position + 12)),
            },
            position + 12,
        )),
{
    lemma_auto_spec_u32_to_from_le_bytes();
    let e = encode_point(p);
    assert(e.subrange(0, 4) =~= spec_u32_to_le_bytes(p.x));
    assert(e.subrange(4, 8) =~= spec_u32_to_le_bytes(p.y));
    assert(e.subrange(8, 12) =~= spec_u32_to_le_bytes(p.pressure));
}

/// An image takes 32 bytes: x, y, orientation and dilation (four bytes
/// each), the texture index (eight bytes), then the width at bytes 24 to 28
/// and the height at bytes 28 to 32, all little-endian.
pub proof fn law_image_layout(i: ImageRecord, b: Seq<u8>, position: int)
    ensures
        encode_image(i).len() == 32,
        encode_image(i).subrange(0, 4) == spec_u32_to_le_bytes(i.x),
        encode_image(i).subrange(4, 8) == spec_u32_to_le_bytes(i.y),
        encode_image(i).subrange(8, 12) == spec_u32_to_le_bytes(i.orientation),
        encode_image(i).subrange(12, 16) == spec_u32_to_le_bytes(i.dilation),
        encode_image(i).subrange(16, 24) == spec_u64_to_le_bytes(i.texture_index),
        encode_image(i).subrange(24, 28) == spec_u32_to_le_bytes(i.width),
        encode_image(i).subrange(28, 32) == spec_u32_to_le_bytes(i.height),
        0 <= position && position + 32 <= b.len() && spec_u64_from_le_bytes(b.subrange(position + 16, position + 24)) <= usize::MAX
            ==> parse_image(b, position) == Some((
            ImageRecord {
                x: spec_u32_from_le_bytes(b.subrange(position, position + 4)),
                y: spec_u32_from_le_bytes(b.subrange(position + 4, position + 8)),
                orientation: spec_u32_from_le_bytes(b.subrange(position + 8, position + 12)),
                dilation: spec_u32_from_le_bytes(b.subrange(position + 12, position + 16)),
                texture_index: spec_u64_from_le_bytes(b.subrange(position + 16, position + 24)),
                width: spec_u32_from_le_bytes(b.subrange(position + 24, position + 28)),
                height: spec_u32_from_le_bytes(b.subrange(position + 28, position + 32)),
            },
            position + 32,
        )),
{
    lemma_auto_spec_u32_to_from_le_bytes();
    lemma_auto_spec_u64_to_from_le_bytes();
    let e = encode_image(i);
    assert(e.subrange(0, 4) =~= spec_u32_to_le_bytes(i.x));
    assert(e.subrange(4, 8) =~= spec_u32_to_le_bytes(i.y));
    assert(e.subrange(8, 12) =~= spec_u32_to_le_bytes(i.orientation));
    assert(e.subrange(12, 16) =~= spec_u32_to_le_bytes(i.dilation));
    assert(e.subrange(16, 24) =~= spec_u64_to_le_bytes(i.texture_index));
    assert(e.subrange(24, 28) =~= spec_u32_to_le_bytes(i.width));
    assert(e.subrange(28, 32) =~= spec_u32_to_le_bytes(i.height));
}

proof fn lemma_encoded_points_len(points: Seq<PointRecord>)
    ensures
        encode_points(points).len() == 12 * points.len(),
    decreases points.len(),
{
    lemma_auto_spec_u32_to_from_le_bytes();
    if points.len() > 0 {
        lemma_encoded_points_len(points.drop_last());
    }
}

/// A stroke starts with 32 bytes: x, y, orientation, dilation (four bytes
/// each), its colour (four bytes), its radius (four bytes) and its number of
/// points (eight bytes), all little-endian; its points follow.
pub proof fn law_stroke_layout(s: StrokeRecordView, b: Seq<u8>, position: int)
    requires
        s.wf(),
    ensures
        encode_stroke(s).len() == 32 + 12 * s.points.len(),
        encode_stroke(s).subrange(0, 4) == spec_u32_to_le_bytes(s.x),
        encode_stroke(s).subrange(4, 8) == spec_u32_to_le_bytes(s.y),
        encode_stroke(s).subrange(8, 12) == spec_u32_to_le_bytes(s.orientation),
        encode_stroke(s).subrange(12, 16) == spec_u32_to_le_bytes(s.dilation),
        encode_stroke(s).subrange(16, 20) == s.color,
        encode_stroke(s).subrange(20, 24) == spec_u32_to_le_bytes(s.stroke_radius),
        encode_stroke(s).subrange(24, 32) == spec_u64_to_le_bytes(s.points.len() as u64),
        encode_stroke(s).subrange(32, 32 + 12 * s.points.len() as int) == encode_points(s.points),
        parse_stroke(b, position) matches Some((r, _)) ==> {
            &&& r.x == spec_u32_from_le_bytes(b.subrange(position, position + 4))
            &&& r.y == spec_u32_from_le_bytes(b.subrange(position + 4, position + 8))
            &&& r.orientation == spec_u32_from_le_bytes(b.subrange(position + 8, position + 12))
            &&& r.dilation == spec_u32_from_le_bytes(b.subrange(position + 12, position + 16))
            &&& r.color == b.subrange(position + 16, position + 20)
            &&& r.stroke_radius == spec_u32_from_le_bytes(b.subrange(position + 20, position + 24))
            &&& r.points.len() == spec_u64_from_le_bytes(b.subrange(position + 24, position + 32))
            &&& parse_points(b, position + 32, r.points.len()) matches Some((points, _)) && points == r.points
        },
{
    lemma_auto_spec_u32_to_from_le_bytes();
    lemma_auto_spec_u64_to_from_le_bytes();
    lemma_encoded_points_len(s.points);
    let e = encode_stroke(s);
    assert(e.subrange(0, 4) =~= spec_u32_to_le_bytes(s.x));
    assert(e.subrange(4, 8) =~= spec_u32_to_le_bytes(s.y));
    assert(e.subrange(8, 12) =~= spec_u32_to_le_bytes(s.orientation));
    assert(e.subrange(12, 16) =~= spec_u32_to_le_bytes(s.dilation));
    assert(e.subrange(16, 20) =~= s.color);
    assert(e.subrange(20, 24) =~= spec_u32_to_le_bytes(s.stroke_radius));
    assert(e.subrange(24, 32) =~= spec_u64_to_le_bytes(s.points.len() as u64));
    assert(e.subrange(32, 32 + 12 * s.points.len() as int) =~= encode_points(s.points));
    if let Some((r, _)) = parse_stroke(b, position) {
        let count = u64_at(b, position + 24) as nat;
        lemma_parse_all_elements(b, position + 32, count, |b: Seq<u8>, p: int| parse_point(b, p), |x: PointRecord| true);
    }
}

/// A texture slot starts with its width (bytes 0 to 4) and its height (bytes
/// 4 to 8), little-endian, followed by its pixels; an empty slot is eight zero
/// bytes.
pub proof fn law_texture_layout(t: Option<TextureRecordView>, b: Seq<u8>, position: int)
    ensures
        t matches Some(t) ==> {
            &&& encode_texture(Some(t)).subrange(0, 4) == spec_u32_to_le_bytes(t.width)
            &&& encode_texture(Some(t)).subrange(4, 8) == spec_u32_to_le_bytes(t.height)
            &&& encode_texture(Some(t)).subrange(8, 8 + t.pixels.len() as int) == t.pixels
        },
        t is None ==> encode_texture(t) == spec_u32_to_le_bytes(0) + spec_u32_to_le_bytes(0),
        parse_texture(b, position) matches Some((Some(r), _)) ==> {
            &&& r.width == spec_u32_from_le_bytes(b.subrange(position, position + 4))
            &&& r.height == spec_u32_from_le_bytes(b.subrange(position + 4, position + 8))
            &&& r.pixels == b.subrange(position + 8, position + 8 + r.width * r.height * 4)
        },
{
    lemma_auto_spec_u32_to_from_le_bytes();
    if let Some(t) = t {
        let e = encode_texture(Some(t));
        assert(e.subrange(0, 4) =~= spec_u32_to_le_bytes(t.width));
        assert(e.subrange(4, 8) =~= spec_u32_to_le_bytes(t.height));
        assert(e.subrange(8, 8 + t.pixels.len() as int) =~= t.pixels);
    }
}

/// A canvas file starts with a 66-byte header: the magic numbers (bytes 0 to
/// 8), a zero version (8 to 16), the background colour (16 to 19), the stroke
/// colour (19 to 22), the stroke radius (22 to 26), the view's x (26 to 30),
/// y (30 to 34), tilt (34 to 38) and zoom (38 to 42), then the numbers of
/// strokes (42 to 50), images (50 to 58) and texture slots (58 to 66); the
/// strokes, images and textures follow in that order.
pub proof fn law_canvas_header_layout(c: CanvasRecordView, b: Seq<u8>)
    requires
        c.wf(),
    ensures
        encode_canvas(c).subrange(0, 8) == magic_numbers(),
        encode_canvas(c).subrange(8, 16) == spec_u64_to_le_bytes(0),
        encode_canvas(c).subrange(16, 19) == c.background_color,
        encode_canvas(c).subrange(19, 22) == c.stroke_color,
        encode_canvas(c).subrange(22, 26) == spec_u32_to_le_bytes(c.stroke_radius),
        encode_canvas(c).subrange(26, 30) == spec_u32_to_le_bytes(c.x),
        encode_canvas(c).subrange(30, 34) == spec_u32_to_le_bytes(c.y),
        encode_canvas(c).subrange(34, 38) == spec_u32_to_le_bytes(c.tilt),
        encode_canvas(c).subrange(38, 42) == spec_u32_to_le_bytes(c.zoom),
        encode_canvas(c).subrange(42, 50) == spec_u64_to_le_bytes(c.strokes.len() as u64),
        encode_canvas(c).subrange(50, 58) == spec_u64_to_le_bytes(c.images.len() as u64),
        encode_canvas(c).subrange(58, 66) == spec_u64_to_le_bytes(c.textures.len() as u64),
        parse_canvas(b) matches Some(r) ==> {
            &&& b.subrange(0, 8) == magic_numbers()
            &&& r.background_color == b.subrange(16, 19)
            &&& r.stroke_color == b.subrange(19, 22)
            &&& r.stroke_radius == spec_u32_from_le_bytes(b.subrange(22, 26))
            &&& r.x == spec_u32_from_le_bytes(b.subrange(26, 30))
            &&& r.y == spec_u32_from_le_bytes(b.subrange(30, 34))
            &&& r.tilt == spec_u32_from_le_bytes(b.subrange(34, 38))
            &&& r.zoom == spec_u32_from_le_bytes(b.subrange(38, 42))
            &&& r.strokes.len() == spec_u64_from_le_bytes(b.subrange(42, 50))
            &&& r.images.len() == spec_u64_from_le_bytes(b.subrange(50, 58))
            &&& r.textures.len() == spec_u64_from_le_bytes(b.subrange(58, 66))
        },
{
    lemma_auto_spec_u32_to_from_le_bytes();
    lemma_auto_spec_u64_to_from_le_bytes();
    let e = encode_canvas(c);
    assert(e.subrange(0, 8) =~= magic_numbers());
    assert(e.subrange(8, 16) =~= spec_u64_to_le_bytes(0));
    assert(e.subrange(16, 19) =~= c.background_color);
    assert(e.subrange(19, 22) =~= c.stroke_color);
    assert(e.subrange(22, 26) =~= spec_u32_to_le_bytes(c.stroke_radius));
    assert(e.subrange(26, 30) =~= spec_u32_to_le_bytes(c.x));
    assert(e.subrange(30, 34) =~= spec_u32_to_le_bytes(c.y));
    assert(e.subrange(34, 38) =~= spec_u32_to_le_bytes(c.tilt));
    assert(e.subrange(38, 42) =~= spec_u32_to_le_bytes(c.zoom));
    assert(e.subrange(42, 50) =~= spec_u64_to_le_bytes(c.strokes.len() as u64));
    assert(e.subrange(50, 58) =~= spec_u64_to_le_bytes(c.images.len() as u64));
    assert(e.subrange(58, 66) =~= spec_u64_to_le_bytes(c.textures.len() as u64));
    if let Some(r) = parse_canvas(b) {
        lemma_parse_all_elements(b, 66, u64_at(b, 42) as nat, |b: Seq<u8>, p: int| parse_stroke(b, p), |x: StrokeRecordView| true);
        if let Some((_, after_strokes)) = parse_strokes(b, 66, u64_at(b, 42) as nat) {
            lemma_parse_all_elements(b, after_strokes, u64_at(b, 50) as nat, |b: Seq<u8>, p: int| parse_image(b, p), |x: ImageRecord| true);
            if let Some((_, after_images)) = parse_images(b, after_strokes, u64_at(b, 50) as nat) {
                lemma_parse_all_elements(b, after_images, u64_at(b, 58) as nat, |b: Seq<u8>, p: int| parse_texture(b, p), |x: Option<TextureRecordView>| true);
            }
        }
    }
}

// ---------------------------------------------------------------------------
// Decoding.

/// What a reader's parse did: on success it returned the parsed value and
/// moved to where the parse stopped; on failure it returned nothing.
pub open spec fn parsed_as<A>(parse: Option<(A, int)>, r: Option<A>, end: nat) -> bool {
    match parse {
        Some((value, stop)) => r == Some(value) && end == stop,
        None => r is None,
    }
}

fn read_u32(reader: &mut ByteReader) -> (r: Option<u32>)
    requires
        old(reader).wf(),
    ensures
        final(reader).wf(),
        final(reader).bytes() == old(reader).bytes(),
        old(reader).position() + 4 <= old(reader).bytes().len() ==> r == Some(u32_at(old(reader).bytes(), old(reader).position() as int))
            && final(reader).position() == old(reader).position() + 4,
        old(reader).position() + 4 > old(reader).bytes().len() ==> r is None,
{
    match reader.take(4) {
        Some(buffer) => Some(u32_from_le_bytes(buffer)),
        None => None,
    }
}

fn read_u64(reader: &mut ByteReader) -> (r: Option<u64>)
    requires
        old(reader).wf(),
    ensures
        final(reader).wf(),
        final(reader).bytes() == old(reader).bytes(),
        old(reader).position() + 8 <= old(reader).bytes().len() ==> r == Some(u64_at(old(reader).bytes(), old(reader).position() as int))
            && final(reader).position() == old(reader).position() + 8,
        old(reader).position() + 8 > old(reader).bytes().len() ==> r is None,
{
    match reader.take(8) {
        Some(buffer) => Some(u64_from_le_bytes(buffer)),
        None => None,
    }
}

fn decode_point(reader: &mut ByteReader) -> (r: Option<PointRecord>)
    requires
        old(reader).wf(),
    ensures
        final(reader).wf(),
        final(reader).bytes() == old(reader).bytes(),
        parsed_as(parse_point(old(reader).bytes(), old(reader).position() as int), r, final(reader).position()),
{
    let x = read_u32(reader)?;
    let y = read_u32(reader)?;
    let pressure = read_u32(reader)?;
    Some(PointRecord { x, y, pressure })
}

proof fn lemma_parse_all_fails<A>(b: Seq<u8>, position: int, k: nat, m: nat, parse: spec_fn(Seq<u8>, int) -> Option<(A, int)>)
    requires
        parse_all(b, position, k, parse) is None,
        k <= m,
    ensures
        parse_all(b, position, m, parse) is None,
    decreases m - k,
{
    if k < m {
        lemma_parse_all_fails(b, position, k, (m - 1) as nat, parse);
    }
}

fn decode_points(reader: &mut ByteReader, count: u64) -> (r: Option<Vec<PointRecord>>)
    requires
        old(reader).wf(),
    ensures
        final(reader).wf(),
        final(reader).bytes() == old(reader).bytes(),
        match parse_points(old(reader).bytes(), old(reader).position() as int, count as nat) {
            Some((points, end)) => r matches Some(v) && v@ == points && final(reader).position() == end,
            None => r is None,
        },
{
    let ghost b = reader.bytes();
    let ghost start = reader.position() as int;
    let mut points: Vec<PointRecord> = Vec::new();
    let mut i: u64 = 0;
    while i < count
        invariant
            i <= count,
            reader.wf(),
            reader.bytes() == b,
            b == old(reader).bytes(),
            start == old(reader).position(),
            parse_points(b, start, i as nat) == Some((points@, reader.position() as int)),
        decreases count - i,
    {
        match decode_point(reader) {
            Some(point) => {
                points.push(point);
            },
            None => {
                proof {
                    lemma_parse_all_fails(b, start, (i + 1) as nat, count as nat, |b: Seq<u8>, p: int| parse_point(b, p));
                }
                return None;
            },
        }
        i += 1;
    }
    Some(points)
}

fn decode_stroke(reader: &mut ByteReader) -> (r: Option<StrokeRecord>)
    requires
        old(reader).wf(),
    ensures
        final(reader).wf(),
        final(reader).bytes() == old(reader).bytes(),
        match parse_stroke(old(reader).bytes(), old(reader).position() as int) {
            Some((stroke, end)) => r matches Some(v) && v@ == stroke && final(reader).position() == end,
            None => r is None,
        },
{
    let x = read_u32(reader)?;
    let y = read_u32(reader)?;
    let orientation = read_u32(reader)?;
    let dilation = read_u32(reader)?;
    let color = read_u8s::<4>(reader)?;
    let stroke_radius = read_u32(reader)?;
    let point_count = read_u64(reader)?;
    let points = decode_points(reader, point_count)?;
    Some(StrokeRecord { x, y, orientation, dilation, color, stroke_radius, points })
}

fn decode_strokes(reader: &mut ByteReader, count: u64) -> (r: Option<Vec<StrokeRecord>>)
    requires
        old(reader).wf(),
    ensures
        final(reader).wf(),
        final(reader).bytes() == old(reader).bytes(),
        match parse_strokes(old(reader).bytes(), old(reader).position() as int, count as nat) {
            Some((strokes, end)) => r matches Some(v) && v@.map_values(|s: StrokeRecord| s@) == strokes && final(reader).position() == end,
            None => r is None,
        },
{
    let ghost b = reader.bytes();
    let ghost start = reader.position() as int;
    let mut strokes: Vec<StrokeRecord> = Vec::new();
    let mut i: u64 = 0;
    while i < count
        invariant
            i <= count,
            reader.wf(),
            reader.bytes() == b,
            b == old(reader).bytes(),
            start == old(reader).position(),
            parse_strokes(b, start, i as nat) == Some((strokes@.map_values(|s: StrokeRecord| s@), reader.position() as int)),
        decreases count - i,
    {
        match decode_stroke(reader) {
            Some(stroke) => {
                let ghost before = strokes@;
                strokes.push(stroke);
                proof {
                    assert(strokes@.map_values(|s: StrokeRecord| s@) =~= before.map_values(|s: StrokeRecord| s@).push(stroke@));
                }
            },
            None => {
                proof {
                    lemma_parse_all_fails(b, start, (i + 1) as nat, count as nat, |b: Seq<u8>, p: int| parse_stroke(b, p));
                }
                return None;
            },
        }
        i += 1;
    }
    Some(strokes)
}

fn decode_image(reader: &mut ByteReader) -> (r: Option<ImageRecord>)
    requires
        old(reader).wf(),
    ensures
        final(reader).wf(),
        final(reader).bytes() == old(reader).bytes(),
        parsed_as(parse_image(old(reader).bytes(), old(reader).position() as int), r, final(reader).position()),
{
    let x = read_u32(reader)?;
    let y = read_u32(reader)?;
    let orientation = read_u32(reader)?;
    let dilation = read_u32(reader)?;
    let texture_index = read_u64(reader)?;
    let width = read_u32(reader)?;
    let height = read_u32(reader)?;
    if texture_index > usize::MAX as u64 {
        return None;
    }
    Some(ImageRecord { x, y, orientation, dilation, texture_index, width, height })
}

fn decode_images(reader: &mut ByteReader, count: u64) -> (r: Option<Vec<ImageRecord>>)
    requires
        old(reader).wf(),
    ensures
        final(reader).wf(),
        final(reader).bytes() == old(reader).bytes(),
        match parse_images(old(reader).bytes(), old(reader).position() as int, count as nat) {
            Some((images, end)) => r matches Some(v) && v@ == images && final(reader).position() == end,
            None => r is None,
        },
{
    let ghost b = reader.bytes();
    let ghost start = reader.position() as int;
    let mut images: Vec<ImageRecord> = Vec::new();
    let mut i: u64 = 0;
    while i < count
        invariant
            i <= count,
            reader.wf(),
            reader.bytes() == b,
            b == old(reader).bytes(),
            start == old(reader).position(),
            parse_images(b, start, i as nat) == Some((images@, reader.position() as int)),
        decreases count - i,
    {
        match decode_image(reader) {
            Some(image) => {
                images.push(image);
            },
            None => {
                proof {
                    lemma_parse_all_fails(b, start, (i + 1) as nat, count as nat, |b: Seq<u8>, p: int| parse_image(b, p));
                }
                return None;
            },
        }
        i += 1;
    }
    Some(images)
}

fn decode_texture(reader: &mut ByteReader) -> (r: Option<Option<TextureRecord>>)
    requires
        old(reader).wf(),
    ensures
        final(reader).wf(),
        final(reader).bytes() == old(reader).bytes(),
        match parse_texture(old(reader).bytes(), old(reader).position() as int) {
            Some((texture, end)) => r matches Some(v) && texture_view(v) == texture && final(reader).position() == end,
            None => r is None,
        },
{
    let width = read_u32(reader)?;
    let height = read_u32(reader)?;
    if width != 0 && height != 0 {
        assert(width as u64 * height as u64 <= u64::MAX) by (nonlinear_arith)
            requires
                width <= u32::MAX,
                height <= u32::MAX,
        ;
        let remaining = reader.remaining();
        let area = width as u64 * height as u64;
        let size = match area.checked_mul(4) {
            Some(size) => size,
            None => {
                return None;
            },
        };
        if size > remaining as u64 {
            return None;
        }
        let pixels = reader.take(size as usize)?;
        Some(Some(TextureRecord { width, height, pixels: slice_to_vec(pixels) }))
    } else {
        Some(None)
    }
}

fn decode_textures(reader: &mut ByteReader, count: u64) -> (r: Option<Vec<Option<TextureRecord>>>)
    requires
        old(reader).wf(),
    ensures
        final(reader).wf(),
        final(reader).bytes() == old(reader).bytes(),
        match parse_textures(old(reader).bytes(), old(reader).position() as int, count as nat) {
            Some((textures, end)) => r matches Some(v) && v@.map_values(|t: Option<TextureRecord>| texture_view(t)) == textures
                && final(reader).position() == end,
            None => r is None,
        },
{
    let ghost b = reader.bytes();
    let ghost start = reader.position() as int;
    let mut textures: Vec<Option<TextureRecord>> = Vec::new();
    let mut i: u64 = 0;
    while i < count
        invariant
            i <= count,
            reader.wf(),
            reader.bytes() == b,
            b == old(reader).bytes(),
            start == old(reader).position(),
            parse_textures(b, start, i as nat) == Some((textures@.map_values(|t: Option<TextureRecord>| texture_view(t)), reader.position() as int)),
        decreases count - i,
    {
        match decode_texture(reader) {
            Some(texture) => {
                let ghost before = textures@;
                textures.push(texture);
                proof {
                    assert(textures@.map_values(|t: Option<TextureRecord>| texture_view(t))
                        =~= before.map_values(|t: Option<TextureRecord>| texture_view(t)).push(texture_view(texture)));
                }
            },
            None => {
                proof {
                    lemma_parse_all_fails(b, start, (i + 1) as nat, count as nat, |b: Seq<u8>, p: int| parse_texture(b, p));
                }
                return None;
            },
        }
        i += 1;
    }
    Some(textures)
}

/// Reads the canvas file held by `bytes`, exactly as `parse_canvas` says.
fn decode_canvas_exact(bytes: &[u8]) -> (r: Option<CanvasRecord>)
    ensures
        match parse_canvas(bytes@) {
            Some(c) => r matches Some(v) && v@ == c,
            None => r is None,
        },
{
    let mut reader = ByteReader::new(bytes);
    let magic = read_u8s::<8>(&mut reader)?;
    if !(magic[0] == 0x49 && magic[1] == 0x4e && magic[2] == 0x4b && magic[3] == 0x53 && magic[4] == 0x59 && magic[5] == 0
        && magic[6] == 0 && magic[7] == 0) {
        proof {
            if 66 <= bytes@.len() {
                assert(bytes@.subrange(0, 8) != magic_numbers()) by {
                    assert(magic@ == bytes@.subrange(0, 8));
                }
            }
        }
        return None;
    }
    assert(magic@ =~= magic_numbers());
    let discriminator = read_u64(&mut reader)?;
    if discriminator != 0 {
        return None;
    }
    let background_color = read_u8s::<3>(&mut reader)?;
    let stroke_color = read_u8s::<3>(&mut reader)?;
    let stroke_radius = read_u32(&mut reader)?;
    let x = read_u32(&mut reader)?;
    let y = read_u32(&mut reader)?;
    let tilt = read_u32(&mut reader)?;
    let zoom = read_u32(&mut reader)?;
    let stroke_count = read_u64(&mut reader)?;
    let image_count = read_u64(&mut reader)?;
    let texture_count = read_u64(&mut reader)?;
    let strokes = decode_strokes(&mut reader, stroke_count)?;
    let images = decode_images(&mut reader, image_count)?;
    let textures = decode_textures(&mut reader, texture_count)?;
    let r = CanvasRecord { background_color, stroke_color, stroke_radius, x, y, tilt, zoom, strokes, images, textures };
    Some(r)
}


// ---------------------------------------------------------------------------
// Encoding.

fn push_u32(out: &mut Vec<u8>, x: u32)
    ensures
        final(out)@ == old(out)@ + encode_u32(x),
{
    let mut bytes = u32_to_le_bytes(x);
    out.append(&mut bytes);
}

fn push_u64(out: &mut Vec<u8>, x: u64)
    ensures
        final(out)@ == old(out)@ + encode_u64(x),
{
    let mut bytes = u64_to_le_bytes(x);
    out.append(&mut bytes);
}

fn push_bytes(out: &mut Vec<u8>, bytes: &[u8])
    ensures
        final(out)@ == old(out)@ + bytes@,
{
    let mut i: usize = 0;
    let ghost start = out@;
    while i < bytes.len()
        invariant
            0 <= i <= bytes@.len(),
            out@ == start + bytes@.take(i as int),
            start == old(out)@,
        decreases bytes@.len() - i,
    {
        out.push(bytes[i]);
        i += 1;
        proof {
            assert(out@ =~= start + bytes@.take(i as int));
        }
    }
    assert(bytes@.take(bytes@.len() as int) =~= bytes@);
}

proof fn lemma_encode_all_push<A>(s: Seq<A>, i: int, encode: spec_fn(A) -> Seq<u8>)
    requires
        0 <= i < s.len(),
    ensures
        encode_all(s.take(i + 1), encode) == encode_all(s.take(i), encode) + encode(s[i]),
{
    assert(s.take(i + 1).drop_last() =~= s.take(i));
}

fn encode_point_into(out: &mut Vec<u8>, p: PointRecord)
    ensures
        final(out)@ == old(out)@ + encode_point(p),
{
    push_u32(out, p.x);
    push_u32(out, p.y);
    push_u32(out, p.pressure);
    assert(final(out)@ =~= old(out)@ + encode_point(p));
}

fn encode_stroke_into(out: &mut Vec<u8>, s: &StrokeRecord)
    ensures
        final(out)@ == old(out)@ + encode_stroke(s@),
{
    let ghost start = out@;
    push_u32(out, s.x);
    push_u32(out, s.y);
    push_u32(out, s.orientation);
    push_u32(out, s.dilation);
    push_bytes(out, s.color.as_slice());
    push_u32(out, s.stroke_radius);
    push_u64(out, s.points.len() as u64);
    let ghost header = out@;
    let mut i: usize = 0;
    while i < s.points.len()
        invariant
            0 <= i <= s.points@.len(),
            out@ == header + encode_all(s.points@.take(i as int), |x| encode_point(x)),
        decreases s.points@.len() - i,
    {
        proof {
            lemma_encode_all_push(s.points@, i as int, |x| encode_point(x));
        }
        encode_point_into(out, s.points[i]);
        i += 1;
        proof {
            assert(out@ =~= header + encode_all(s.points@.take(i as int), |x| encode_point(x)));
        }
    }
    assert(s.points@.take(s.points@.len() as int) =~= s.points@);
    assert(out@ =~= start + encode_stroke(s@));
}

fn encode_image_into(out: &mut Vec<u8>, i: ImageRecord)
    ensures
        final(out)@ == old(out)@ + encode_image(i),
{
    push_u32(out, i.x);
    push_u32(out, i.y);
    push_u32(out, i.orientation);
    push_u32(out, i.dilation);
    push_u64(out, i.texture_index);
    push_u32(out, i.width);
    push_u32(out, i.height);
    assert(final(out)@ =~= old(out)@ + encode_image(i));
}

fn encode_texture_into(out: &mut Vec<u8>, t: &Option<TextureRecord>)
    ensures
        final(out)@ == old(out)@ + encode_texture(texture_view(*t)),
{
    match t {
        Some(t) => {
            push_u32(out, t.width);
            push_u32(out, t.height);
            push_bytes(out, t.pixels.as_slice());
        },
        None => {
            push_u32(out, 0);
            push_u32(out, 0);
        },
    }
    assert(final(out)@ =~= old(out)@ + encode_texture(texture_view(*t)));
}

/// The bytes of the canvas file that holds `record`.
pub fn encode_canvas_record(record: &CanvasRecord) -> (r: Vec<u8>)
    ensures
        r@ == encode_canvas(record@),
{
    let mut out: Vec<u8> = Vec::new();
    let magic: [u8; 8] = [0x49, 0x4e, 0x4b, 0x53, 0x59, 0, 0, 0];
    assert(magic@ =~= magic_numbers());
    push_bytes(&mut out, magic.as_slice());
    push_u64(&mut out, 0);
    push_bytes(&mut out, record.background_color.as_slice());
    push_bytes(&mut out, record.stroke_color.as_slice());
    push_u32(&mut out, record.stroke_radius);
    push_u32(&mut out, record.x);
    push_u32(&mut out, record.y);
    push_u32(&mut out, record.tilt);
    push_u32(&mut out, record.zoom);
    push_u64(&mut out, record.strokes.len() as u64);
    push_u64(&mut out, record.images.len() as u64);
    push_u64(&mut out, record.textures.len() as u64);
    let ghost header = out@;
    let ghost strokes = record@.strokes;
    let mut i: usize = 0;
    while i < record.strokes.len()
        invariant
            0 <= i <= record.strokes@.len(),
            strokes == record@.strokes,
            out@ == header + encode_all(strokes.take(i as int), |x| encode_stroke(x)),
        decreases record.strokes@.len() - i,
    {
        proof {
            lemma_encode_all_push(strokes, i as int, |x| encode_stroke(x));
        }
        encode_stroke_into(&mut out, &record.strokes[i]);
        i += 1;
        proof {
            assert(out@ =~= header + encode_all(strokes.take(i as int), |x| encode_stroke(x)));
        }
    }
    assert(strokes.take(strokes.len() as int) =~= strokes);
    let ghost after_strokes = out@;
    let mut i: usize = 0;
    while i < record.images.len()
        invariant
            0 <= i <= record.images@.len(),
            out@ == after_strokes + encode_all(record.images@.take(i as int), |x| encode_image(x)),
        decreases record.images@.len() - i,
    {
        proof {
            lemma_encode_all_push(record.images@, i as int, |x| encode_image(x));
        }
        encode_image_into(&mut out, record.images[i]);
        i += 1;
        proof {
            assert(out@ =~= after_strokes + encode_all(record.images@.take(i as int), |x| encode_image(x)));
        }
    }
    assert(record.images@.take(record.images@.len() as int) =~= record.images@);
    let ghost after_images = out@;
    let ghost textures = record@.textures;
    let mut i: usize = 0;
    while i < record.textures.len()
        invariant
            0 <= i <= record.textures@.len(),
            textures == record@.textures,
            out@ == after_images + encode_all(textures.take(i as int), |x| encode_texture(x)),
        decreases record.textures@.len() - i,
    {
        proof {
            lemma_encode_all_push(textures, i as int, |x| encode_texture(x));
        }
        encode_texture_into(&mut out, &record.textures[i]);
        i += 1;
        proof {
            assert(out@ =~= after_images + encode_all(textures.take(i as int), |x| encode_texture(x)));
        }
    }
    assert(textures.take(textures.len() as int) =~= textures);
    assert(out@ =~= encode_canvas(record@));
    out
}


// ---------------------------------------------------------------------------
// Reading back what was written.

/// `b` holds `e` from `position` on.
pub open spec fn holds_at(b: Seq<u8>, position: int, e: Seq<u8>) -> bool {
    &&& 0 <= position
    &&& position + e.len() <= b.len()
    &&& b.subrange(position, position + e.len()) == e
}

proof fn lemma_holds_split(b: Seq<u8>, position: int, x: Seq<u8>, y: Seq<u8>)
    requires
        holds_at(b, position, x + y),
    ensures
        holds_at(b, position, x),
        holds_at(b, position + x.len(), y),
{
    assert(b.subrange(position, position + x.len()) =~= (x + y).subrange(0, x.len() as int));
    assert((x + y).subrange(0, x.len() as int) =~= x);
    assert(b.subrange(position + x.len(), position + x.len() + y.len()) =~= (x + y).subrange(x.len() as int, (x + y).len() as int));
    assert((x + y).subrange(x.len() as int, (x + y).len() as int) =~= y);
}

proof fn lemma_parse_all_encoded<A>(
    b: Seq<u8>,
    position: int,
    s: Seq<A>,
    encode: spec_fn(A) -> Seq<u8>,
    parse: spec_fn(Seq<u8>, int) -> Option<(A, int)>,
    wf: spec_fn(A) -> bool,
)
    requires
        holds_at(b, position, encode_all(s, encode)),
        forall|i: int| 0 <= i < s.len() ==> wf(#[trigger] s[i]),
        forall|x: A, p: int| wf(x) && #[trigger] holds_at(b, p, encode(x)) ==> parse(b, p) == Some((x, p + encode(x).len())),
    ensures
        parse_all(b, position, s.len(), parse) == Some((s, position + encode_all(s, encode).len())),
    decreases s.len(),
{
    if s.len() > 0 {
        let rest = s.drop_last();
        let x = s.last();
        lemma_holds_split(b, position, encode_all(rest, encode), encode(x));
        assert forall|i: int| 0 <= i < rest.len() implies wf(#[trigger] rest[i]) by {
            assert(wf(s[i]));
        }
        lemma_parse_all_encoded(b, position, rest, encode, parse, wf);
        assert(wf(s[s.len() - 1]));
        assert(rest.push(x) =~= s);
    }
}

proof fn lemma_parse_all_elements<A>(
    b: Seq<u8>,
    position: int,
    count: nat,
    parse: spec_fn(Seq<u8>, int) -> Option<(A, int)>,
    wf: spec_fn(A) -> bool,
)
    requires
        forall|p: int| (#[trigger] parse(b, p)) is Some ==> wf(parse(b, p).unwrap().0),
    ensures
        parse_all(b, position, count, parse) matches Some((s, _)) ==> s.len() == count && forall|i: int| 0 <= i < s.len() ==> wf(#[trigger] s[i]),
    decreases count,
{
    if count > 0 {
        lemma_parse_all_elements(b, position, (count - 1) as nat, parse, wf);
        if let Some((s, e)) = parse_all(b, position, count, parse) {
            if let Some((rest, next)) = parse_all(b, position, (count - 1) as nat, parse) {
                if let Some((x, end)) = parse(b, next) {
                    assert(s == rest.push(x));
                    assert(parse(b, next) is Some);
                    assert(wf(x));
                    assert forall|i: int| 0 <= i < s.len() implies wf(#[trigger] s[i]) by {
                        if i < rest.len() {
                            assert(s[i] == rest[i]);
                        }
                    }
                }
            }
        }
    }
}

proof fn lemma_u32_read_back(b: Seq<u8>, position: int, x: u32)
    requires
        holds_at(b, position, encode_u32(x)),
    ensures
        u32_at(b, position) == x,
{
    lemma_auto_spec_u32_to_from_le_bytes();
}

proof fn lemma_u64_read_back(b: Seq<u8>, position: int, x: u64)
    requires
        holds_at(b, position, encode_u64(x)),
    ensures
        u64_at(b, position) == x,
{
    lemma_auto_spec_u64_to_from_le_bytes();
}

proof fn lemma_point_read_back(b: Seq<u8>, position: int, x: PointRecord)
    requires
        holds_at(b, position, encode_point(x)),
    ensures
        parse_point(b, position) == Some((x, position + encode_point(x).len())),
{
    lemma_auto_spec_u32_to_from_le_bytes();
    lemma_holds_split(b, position, encode_u32(x.x) + encode_u32(x.y), encode_u32(x.pressure));
    lemma_holds_split(b, position, encode_u32(x.x), encode_u32(x.y));
    lemma_u32_read_back(b, position, x.x);
    lemma_u32_read_back(b, position + 4, x.y);
    lemma_u32_read_back(b, position + 8, x.pressure);
}

proof fn lemma_stroke_read_back(b: Seq<u8>, position: int, x: StrokeRecordView)
    requires
        x.wf(),
        holds_at(b, position, encode_stroke(x)),
    ensures
        parse_stroke(b, position) == Some((x, position + encode_stroke(x).len())),
{
    lemma_auto_spec_u32_to_from_le_bytes();
    lemma_auto_spec_u64_to_from_le_bytes();
    let a0 = encode_u32(x.x);
    let a1 = a0 + encode_u32(x.y);
    let a2 = a1 + encode_u32(x.orientation);
    let a3 = a2 + encode_u32(x.dilation);
    let a4 = a3 + x.color;
    let a5 = a4 + encode_u32(x.stroke_radius);
    let a6 = a5 + encode_u64(x.points.len() as u64);
    let points = encode_points(x.points);
    lemma_holds_split(b, position, a6, points);
    lemma_holds_split(b, position, a5, encode_u64(x.points.len() as u64));
    lemma_holds_split(b, position, a4, encode_u32(x.stroke_radius));
    lemma_holds_split(b, position, a3, x.color);
    lemma_holds_split(b, position, a2, encode_u32(x.dilation));
    lemma_holds_split(b, position, a1, encode_u32(x.orientation));
    lemma_holds_split(b, position, a0, encode_u32(x.y));
    lemma_u32_read_back(b, position, x.x);
    lemma_u32_read_back(b, position + 4, x.y);
    lemma_u32_read_back(b, position + 8, x.orientation);
    lemma_u32_read_back(b, position + 12, x.dilation);
    lemma_u32_read_back(b, position + 20, x.stroke_radius);
    lemma_u64_read_back(b, position + 24, x.points.len() as u64);
    assert forall|y: PointRecord, p: int| true && #[trigger] holds_at(b, p, encode_point(y)) implies
        (|b: Seq<u8>, p: int| parse_point(b, p))(b, p) == Some((y, p + encode_point(y).len())) by {
        lemma_point_read_back(b, p, y);
    }
    lemma_parse_all_encoded(b, position + 32, x.points, |y| encode_point(y), |b: Seq<u8>, p: int| parse_point(b, p), |y: PointRecord| true);
}

proof fn lemma_image_read_back(b: Seq<u8>, position: int, x: ImageRecord)
    requires
        x.texture_index <= usize::MAX,
        holds_at(b, position, encode_image(x)),
    ensures
        parse_image(b, position) == Some((x, position + encode_image(x).len())),
{
    lemma_auto_spec_u32_to_from_le_bytes();
    lemma_auto_spec_u64_to_from_le_bytes();
    let a0 = encode_u32(x.x);
    let a1 = a0 + encode_u32(x.y);
    let a2 = a1 + encode_u32(x.orientation);
    let a3 = a2 + encode_u32(x.dilation);
    let a4 = a3 + encode_u64(x.texture_index);
    let a5 = a4 + encode_u32(x.width);
    lemma_holds_split(b, position, a5, encode_u32(x.height));
    lemma_holds_split(b, position, a4, encode_u32(x.width));
    lemma_holds_split(b, position, a3, encode_u64(x.texture_index));
    lemma_holds_split(b, position, a2, encode_u32(x.dilation));
    lemma_holds_split(b, position, a1, encode_u32(x.orientation));
    lemma_holds_split(b, position, a0, encode_u32(x.y));
    lemma_u32_read_back(b, position, x.x);
    lemma_u32_read_back(b, position + 4, x.y);
    lemma_u32_read_back(b, position + 8, x.orientation);
    lemma_u32_read_back(b, position + 12, x.dilation);
    lemma_u64_read_back(b, position + 16, x.texture_index);
    lemma_u32_read_back(b, position + 24, x.width);
    lemma_u32_read_back(b, position + 28, x.height);
}

proof fn lemma_texture_read_back(b: Seq<u8>, position: int, x: Option<TextureRecordView>)
    requires
        x matches Some(t) ==> texture_wf(t),
        holds_at(b, position, encode_texture(x)),
    ensures
        parse_texture(b, position) == Some((x, position + encode_texture(x).len())),
{
    lemma_auto_spec_u32_to_from_le_bytes();
    match x {
        Some(t) => {
            lemma_holds_split(b, position, encode_u32(t.width) + encode_u32(t.height), t.pixels);
            lemma_holds_split(b, position, encode_u32(t.width), encode_u32(t.height));
            lemma_u32_read_back(b, position, t.width);
            lemma_u32_read_back(b, position + 4, t.height);
        },
        None => {
            lemma_holds_split(b, position, encode_u32(0), encode_u32(0));
            lemma_u32_read_back(b, position, 0);
        },
    }
}

proof fn lemma_stroke_parse_wf(b: Seq<u8>, position: int)
    ensures
        parse_stroke(b, position) matches Some((x, _)) ==> x.wf(),
{
    if 0 <= position && position + 32 <= b.len() {
        lemma_parse_all_elements(b, position + 32, u64_at(b, position + 24) as nat, |b: Seq<u8>, p: int| parse_point(b, p), |y: PointRecord| true);
    }
}

/// Everything the parser reads is a record that can be written again.
pub proof fn lemma_parsed_canvas_wf(b: Seq<u8>)
    ensures
        parse_canvas(b) matches Some(c) ==> c.wf(),
{
    if let Some(c) = parse_canvas(b) {
        let parse_strokes_fn = |b: Seq<u8>, p: int| parse_stroke(b, p);
        assert forall|p: int| (#[trigger] parse_strokes_fn(b, p)) is Some implies
            (|x: StrokeRecordView| x.wf())(parse_strokes_fn(b, p).unwrap().0) by {
            lemma_stroke_parse_wf(b, p);
        }
        lemma_parse_all_elements(b, 66, u64_at(b, 42) as nat, parse_strokes_fn, |x: StrokeRecordView| x.wf());
        let after_strokes = parse_strokes(b, 66, u64_at(b, 42) as nat).unwrap().1;
        lemma_parse_all_elements(b, after_strokes, u64_at(b, 50) as nat, |b: Seq<u8>, p: int| parse_image(b, p),
            |x: ImageRecord| x.texture_index <= usize::MAX);
        let after_images = parse_images(b, after_strokes, u64_at(b, 50) as nat).unwrap().1;
        let parse_texture_fn = |b: Seq<u8>, p: int| parse_texture(b, p);
        assert forall|p: int| (#[trigger] parse_texture_fn(b, p)) is Some implies
            (|x: Option<TextureRecordView>| x matches Some(t) ==> texture_wf(t))(parse_texture_fn(b, p).unwrap().0) by {
        }
        lemma_parse_all_elements(b, after_images, u64_at(b, 58) as nat, parse_texture_fn,
            |x: Option<TextureRecordView>| x matches Some(t) ==> texture_wf(t));
    }
}

/// Reading back a written canvas record gives the record, whatever follows it.
pub proof fn law_decode_reads_back_encode(c: CanvasRecordView, rest: Seq<u8>)
    requires
        c.wf(),
    ensures
        parse_canvas(encode_canvas(c) + rest) == Some(c),
{
    lemma_auto_spec_u32_to_from_le_bytes();
    lemma_auto_spec_u64_to_from_le_bytes();
    let b = encode_canvas(c) + rest;
    let h1 = magic_numbers();
    let h2 = h1 + encode_u64(0);
    let h3 = h2 + c.background_color;
    let h4 = h3 + c.stroke_color;
    let h5 = h4 + encode_u32(c.stroke_radius);
    let h6 = h5 + encode_u32(c.x);
    let h7 = h6 + encode_u32(c.y);
    let h8 = h7 + encode_u32(c.tilt);
    let h9 = h8 + encode_u32(c.zoom);
    let h10 = h9 + encode_u64(c.strokes.len() as u64);
    let h11 = h10 + encode_u64(c.images.len() as u64);
    let h12 = h11 + encode_u64(c.textures.len() as u64);
    let s13 = h12 + encode_strokes(c.strokes);
    let s14 = s13 + encode_images(c.images);
    let full = s14 + encode_textures(c.textures);
    assert(full == encode_canvas(c));
    assert(b.subrange(0, full.len() as int) =~= full);
    assert(holds_at(b, 0, full));
    lemma_holds_split(b, 0, s14, encode_textures(c.textures));
    lemma_holds_split(b, 0, s13, encode_images(c.images));
    lemma_holds_split(b, 0, h12, encode_strokes(c.strokes));
    lemma_holds_split(b, 0, h11, encode_u64(c.textures.len() as u64));
    lemma_holds_split(b, 0, h10, encode_u64(c.images.len() as u64));
    lemma_holds_split(b, 0, h9, encode_u64(c.strokes.len() as u64));
    lemma_holds_split(b, 0, h8, encode_u32(c.zoom));
    lemma_holds_split(b, 0, h7, encode_u32(c.tilt));
    lemma_holds_split(b, 0, h6, encode_u32(c.y));
    lemma_holds_split(b, 0, h5, encode_u32(c.x));
    lemma_holds_split(b, 0, h4, encode_u32(c.stroke_radius));
    lemma_holds_split(b, 0, h3, c.stroke_color);
    lemma_holds_split(b, 0, h2, c.background_color);
    lemma_holds_split(b, 0, h1, encode_u64(0));
    lemma_u64_read_back(b, 8, 0);
    lemma_u32_read_back(b, 22, c.stroke_radius);
    lemma_u32_read_back(b, 26, c.x);
    lemma_u32_read_back(b, 30, c.y);
    lemma_u32_read_back(b, 34, c.tilt);
    lemma_u32_read_back(b, 38, c.zoom);
    lemma_u64_read_back(b, 42, c.strokes.len() as u64);
    lemma_u64_read_back(b, 50, c.images.len() as u64);
    lemma_u64_read_back(b, 58, c.textures.len() as u64);
    assert forall|x: StrokeRecordView, p: int| x.wf() && #[trigger] holds_at(b, p, encode_stroke(x)) implies
        (|b: Seq<u8>, p: int| parse_stroke(b, p))(b, p) == Some((x, p + encode_stroke(x).len())) by {
        lemma_stroke_read_back(b, p, x);
    }
    lemma_parse_all_encoded(b, 66, c.strokes, |x| encode_stroke(x), |b: Seq<u8>, p: int| parse_stroke(b, p), |x: StrokeRecordView| x.wf());
    assert forall|x: ImageRecord, p: int| x.texture_index <= usize::MAX && #[trigger] holds_at(b, p, encode_image(x)) implies
        (|b: Seq<u8>, p: int| parse_image(b, p))(b, p) == Some((x, p + encode_image(x).len())) by {
        lemma_image_read_back(b, p, x);
    }
    lemma_parse_all_encoded(b, s13.len() as int, c.images, |x| encode_image(x), |b: Seq<u8>, p: int| parse_image(b, p),
        |x: ImageRecord| x.texture_index <= usize::MAX);
    assert forall|x: Option<TextureRecordView>, p: int| (x matches Some(t) ==> texture_wf(t)) && #[trigger] holds_at(b, p, encode_texture(x)) implies
        (|b: Seq<u8>, p: int| parse_texture(b, p))(b, p) == Some((x, p + encode_texture(x).len())) by {
        lemma_texture_read_back(b, p, x);
    }
    lemma_parse_all_encoded(b, s14.len() as int, c.textures, |x| encode_texture(x), |b: Seq<u8>, p: int| parse_texture(b, p),
        |x: Option<TextureRecordView>| x matches Some(t) ==> texture_wf(t));
    assert(b.subrange(0, 8) =~= magic_numbers());
    assert(b.subrange(16, 19) =~= c.background_color);
    assert(b.subrange(19, 22) =~= c.stroke_color);
}

/// Reads a canvas file: `None` when the bytes do not start with a canvas
/// record that `parse_canvas` accepts.
pub fn decode_canvas(bytes: &[u8]) -> (r: Option<CanvasRecord>)
    ensures
        match parse_canvas(bytes@) {
            Some(c) => r matches Some(v) && v@ == c,
            None => r is None,
        },
        r matches Some(v) ==> v@.wf(),
{
    proof {
        lemma_parsed_canvas_wf(bytes@);
    }
    decode_canvas_exact(bytes)
}


// ---------------------------------------------------------------------------
// Textures.

/// The row stride, in bytes, of a texture `width` pixels wide once each row of
/// four-byte pixels is padded to a multiple of `alignment`.
pub fn padded_bytes_per_row(width: u32, alignment: u32) -> (r: u32)
    requires
        alignment > 0,
        width as int * 4 + (alignment - (width as int * 4) % (alignment as int)) % (alignment as int) <= u32::MAX,
    ensures
        r % alignment == 0,
        width * 4 <= r < width * 4 + alignment,
{
    proof {
        let s = width as int * 4;
        let a = alignment as int;
        assert(0 <= (a - s % a) % a) by (nonlinear_arith)
            requires
                a > 0,
                s >= 0,
        {
        }
    }
    let source_bytes_per_row = width * 4;
    let row_padding = (alignment - source_bytes_per_row % alignment) % alignment;
    proof {
        let s = source_bytes_per_row as int;
        let a = alignment as int;
        assert((s + (a - s % a) % a) % a == 0) by (nonlinear_arith)
            requires
                a > 0,
                s >= 0,
        {
            if s % a == 0 {
                assert((a - s % a) % a == 0);
            } else {
                assert((a - s % a) % a == a - s % a);
                assert(s + (a - s % a) == (s / a + 1) * a);
            }
        }
    }
    source_bytes_per_row + row_padding
}

/// The first `row_bytes` bytes of each row of `b`, whose rows are
/// `bytes_per_row` bytes long (the last one possibly shorter).
pub open spec fn unpadded(b: Seq<u8>, bytes_per_row: nat, row_bytes: nat) -> Seq<u8>
    decreases b.len(),
{
    if b.len() == 0 || bytes_per_row == 0 {
        Seq::empty()
    } else if b.len() <= bytes_per_row {
        b.take(row_bytes as int)
    } else {
        b.take(row_bytes as int) + unpadded(b.skip(bytes_per_row as int), bytes_per_row, row_bytes)
    }
}

/// Drops the padding at the end of each row of a texture read back from the
/// graphics card.
pub fn unpad_rows(buffer: &[u8], bytes_per_row: usize, row_bytes: usize) -> (r: Vec<u8>)
    requires
        0 < bytes_per_row,
        row_bytes <= bytes_per_row,
        (buffer@.len() as int) % (bytes_per_row as int) == 0 || (buffer@.len() as int) % (bytes_per_row as int) >= row_bytes,
    ensures
        r@ == unpadded(buffer@, bytes_per_row as nat, row_bytes as nat),
{
    let mut out: Vec<u8> = Vec::new();
    let mut position: usize = 0;
    assert(buffer@.skip(0) =~= buffer@);
    assert(out@ + unpadded(buffer@, bytes_per_row as nat, row_bytes as nat) =~= unpadded(buffer@, bytes_per_row as nat, row_bytes as nat));
    while position < buffer.len()
        invariant
            0 < bytes_per_row,
            row_bytes <= bytes_per_row,
            position <= buffer@.len(),
            (buffer@.len() - position) % (bytes_per_row as int) == 0 || (buffer@.len() - position) % (bytes_per_row as int) >= row_bytes,
            out@ + unpadded(buffer@.skip(position as int), bytes_per_row as nat, row_bytes as nat)
                == unpadded(buffer@, bytes_per_row as nat, row_bytes as nat),
        decreases buffer@.len() - position,
    {
        let ghost rest = buffer@.skip(position as int);
        let remaining = buffer.len() - position;
        proof {
            assert(remaining >= row_bytes) by {
                if remaining < row_bytes {
                    vstd::arithmetic::div_mod::lemma_small_mod(remaining as nat, bytes_per_row as nat);
                }
            }
        }
        let row = slice_subrange(buffer, position, position + row_bytes);
        let ghost before = out@;
        push_bytes(&mut out, row);
        proof {
            assert(row@ =~= rest.take(row_bytes as int));
        }
        if remaining <= bytes_per_row {
            proof {
                assert(before + unpadded(rest, bytes_per_row as nat, row_bytes as nat) == out@);
                assert(buffer@.skip(buffer@.len() as int) =~= Seq::<u8>::empty());
                vstd::arithmetic::div_mod::lemma_small_mod(0, bytes_per_row as nat);
            }
            position = buffer.len();
        } else {
            proof {
                assert(rest.skip(bytes_per_row as int) =~= buffer@.skip(position + bytes_per_row));
                assert(before + unpadded(rest, bytes_per_row as nat, row_bytes as nat)
                    =~= out@ + unpadded(buffer@.skip(position + bytes_per_row), bytes_per_row as nat, row_bytes as nat));
                vstd::arithmetic::div_mod::lemma_mod_sub_multiples_vanish(remaining as int, bytes_per_row as int);
                assert(buffer@.len() - (position + bytes_per_row) == -(bytes_per_row as int) + remaining as int);
            }
            position = position + bytes_per_row;
        }
    }
    proof {
        assert(buffer@.skip(position as int) =~= Seq::<u8>::empty());
        assert(out@ + Seq::<u8>::empty() =~= out@);
    }
    out
}

/// How many of the first `t` texture slots hold a texture.
pub open spec fn present_before(textures: Seq<Option<TextureRecordView>>, t: int) -> nat
    decreases t,
{
    if t <= 0 {
        0
    } else {
        present_before(textures, t - 1) + if textures[t - 1] is Some { 1nat } else { 0nat }
    }
}

/// Whether every image names an existing texture slot.
pub fn texture_indices_fit(images: &Vec<ImageRecord>, slot_count: usize) -> (r: bool)
    ensures
        r == forall|i: int| 0 <= i < images@.len() ==> #[trigger] images@[i].texture_index < slot_count,
{
    let mut i: usize = 0;
    while i < images.len()
        invariant
            0 <= i <= images@.len(),
            forall|k: int| 0 <= k < i ==> #[trigger] images@[k].texture_index < slot_count,
        decreases images@.len() - i,
    {
        if images[i].texture_index >= slot_count as u64 {
            return false;
        }
        i += 1;
    }
    true
}

/// Renumbers the images' texture slots so that they count only the slots
/// that hold a texture, as the loaded textures are stored without gaps.
pub fn rebase_texture_indices(images: &mut Vec<ImageRecord>, textures: &Vec<Option<TextureRecord>>)
    requires
        forall|i: int| 0 <= i < old(images)@.len() ==> #[trigger] old(images)@[i].texture_index < textures@.len(),
    ensures
        final(images)@.len() == old(images)@.len(),
        forall|i: int| 0 <= i < old(images)@.len() ==> {
            let (a, b) = (#[trigger] final(images)@[i], old(images)@[i]);
            a == ImageRecord {
                texture_index: present_before(textures@.map_values(|t: Option<TextureRecord>| texture_view(t)), b.texture_index as int) as u64,
                ..b
            }
        },
{
    let ghost views = textures@.map_values(|t: Option<TextureRecord>| texture_view(t));
    let mut revised: Vec<u64> = Vec::new();
    let mut count: u64 = 0;
    let mut t: usize = 0;
    while t < textures.len()
        invariant
            0 <= t <= textures@.len(),
            views == textures@.map_values(|t: Option<TextureRecord>| texture_view(t)),
            revised@.len() == t,
            count == present_before(views, t as int),
            count <= t,
            forall|k: int| 0 <= k < t ==> #[trigger] revised@[k] == present_before(views, k),
        decreases textures@.len() - t,
    {
        revised.push(count);
        if textures[t].is_some() {
            count = count + 1;
        }
        t += 1;
    }
    let mut i: usize = 0;
    while i < images.len()
        invariant
            0 <= i <= images@.len(),
            images@.len() == old(images)@.len(),
            revised@.len() == textures@.len(),
            forall|k: int| 0 <= k < textures@.len() ==> #[trigger] revised@[k] == present_before(views, k),
            forall|k: int| 0 <= k < old(images)@.len() ==> #[trigger] old(images)@[k].texture_index < textures@.len(),
            forall|k: int| 0 <= k < i ==> {
                let (a, b) = (#[trigger] images@[k], old(images)@[k]);
                a == ImageRecord { texture_index: present_before(views, b.texture_index as int) as u64, ..b }
            },
            forall|k: int| i <= k < images@.len() ==> #[trigger] images@[k] == old(images)@[k],
        decreases images@.len() - i,
    {
        let mut image = images[i];
        assert(image == old(images)@[i as int]);
        let ghost previous = image;
        image.texture_index = revised[image.texture_index as usize];
        assert(image == ImageRecord { texture_index: present_before(views, previous.texture_index as int) as u64, ..previous });
        images.set(i, image);
        i += 1;
    }
}

} // verus!
