use vstd::prelude::*;

verus! {

/// What the clipboard holds that the application can paste: objects it
/// copied itself, or an image.
pub enum ClipboardData {
    Custom,
    Image { dimensions: [u32; 2], data: Vec<u8> },
}

/// The registered clipboard formats: the application's own, and PNG.
pub struct Clipboard {
    pub custom_format: u32,
    pub png_format: u32,
}

/// The first frame that the `png` crate decodes from `data`: its width, height
/// and pixel bytes, or `None` when the crate rejects the data.
pub uninterp spec fn png_first_frame(data: Seq<u8>) -> Option<(u32, u32, Seq<u8>)>;

/// Decodes the first frame of a PNG image with the `png` crate
/// (`Decoder::read_info`, then `Reader::next_frame` into a buffer of
/// `Reader::output_buffer_size` bytes). Claimed: the result is a function of
/// the bytes alone.
#[verifier::external_body]
fn decode_png(data: Vec<u8>) -> (r: Option<(u32, u32, Vec<u8>)>)
    ensures
        match png_first_frame(data@) {
            Some((w, h, pixels)) => r matches Some((rw, rh, rp)) && rw == w && rh == h && rp@ == pixels,
            None => r is None,
        },
{
    let mut reader = png::Decoder::new(std::io::Cursor::new(data)).read_info().ok()?;
    let mut buffer = vec![0; reader.output_buffer_size()];
    let (width, height) = (reader.info().width, reader.info().height);
    reader.next_frame(&mut buffer).ok()?;
    Some((width, height, buffer))
}

impl ClipboardData {
    /// The clipboard data for a decoded image, if there is one.
    pub fn from_decoded_image(decoded: Option<(u32, u32, Vec<u8>)>) -> (r: Option<ClipboardData>)
        ensures
            match decoded {
                Some((w, h, pixels)) => r matches Some(ClipboardData::Image { dimensions, data })
                    && dimensions@ == seq![w, h] && data@ == pixels@,
                None => r is None,
            },
    {
        match decoded {
            Some((width, height, data)) => {
                let dimensions = [width, height];
                assert(dimensions@ =~= seq![width, height]);
                Some(ClipboardData::Image { dimensions, data })
            },
            None => None,
        }
    }

    /// What to paste: the application's own objects when the clipboard holds
    /// its format, else the image in `png`, the clipboard's PNG data if any.
    pub fn from_clipboard(custom_available: bool, png: Option<Vec<u8>>) -> (r: Option<ClipboardData>)
        ensures
            custom_available ==> r matches Some(ClipboardData::Custom),
            !custom_available ==> match png {
                Some(bytes) => match png_first_frame(bytes@) {
                    Some((w, h, pixels)) => r matches Some(ClipboardData::Image { dimensions, data })
                        && dimensions@ == seq![w, h] && data@ == pixels,
                    None => r is None,
                },
                None => r is None,
            },
    {
        if custom_available {
            Some(ClipboardData::Custom)
        } else {
            match png {
                Some(bytes) => ClipboardData::from_decoded_image(decode_png(bytes)),
                None => None,
            }
        }
    }
}

} // verus!
