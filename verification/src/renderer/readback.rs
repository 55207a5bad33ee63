//! Images of frames that were drawn offscreen.

use vstd::prelude::*;

verus! {

/// An image of four bytes per pixel: red, green, blue and alpha.
#[verifier::external_body]
pub struct RgbaImage {
    image: image::RgbaImage,
}

/// The bytes of an image, row after row.
pub uninterp spec fn image_bytes(image: RgbaImage) -> Seq<u8>;

/// The width and height of an image.
pub uninterp spec fn image_dimensions(image: RgbaImage) -> (u32, u32);

/// The bytes are enough for an image of the given size. The length of one row has to be a `usize`
/// even where there are no rows.
pub open spec fn holds_image(width: u32, height: u32, length: nat) -> bool {
    4 * width <= usize::MAX && 4 * width * height <= length
}

/// `image::RgbaImage::from_raw`: makes an image of bytes that are at least as many as it needs,
/// and keeps all of them and the dimensions.
#[verifier::external_body]
fn image_from_raw(width: u32, height: u32, bytes: Vec<u8>) -> (r: Option<RgbaImage>)
    ensures
        r is Some == holds_image(width, height, bytes@.len()),
        r is Some ==> image_bytes(r->0) == bytes@,
        r is Some ==> image_dimensions(r->0) == (width, height),
{
    image::RgbaImage::from_raw(width, height, bytes).map(|image| RgbaImage { image })
}

/// `image::RgbaImage::into_raw`: hands out the bytes that the image keeps.
#[verifier::external_body]
fn image_into_raw(image: RgbaImage) -> (r: Vec<u8>)
    ensures
        r@ == image_bytes(image),
{
    image.image.into_raw()
}

/// `image::RgbaImage::dimensions`: the dimensions that the image was made with.
#[verifier::external_body]
fn dimensions_of(image: &RgbaImage) -> (r: (u32, u32))
    ensures
        r == image_dimensions(*image),
{
    image.image.dimensions()
}

impl RgbaImage {
    pub fn dimensions(&self) -> (r: (u32, u32))
        ensures
            r == image_dimensions(*self),
    {
        dimensions_of(self)
    }

    pub fn into_raw(self) -> (r: Vec<u8>)
        ensures
            r@ == image_bytes(self),
    {
        image_into_raw(self)
    }
}

/// The bytes with the first and third of every whole pixel exchanged. Bytes after the last whole
/// pixel stay.
pub open spec fn swapped(bytes: Seq<u8>) -> Seq<u8> {
    Seq::new(
        bytes.len(),
        |i: int|
            if i - i % 4 + 4 > bytes.len() {
                bytes[i]
            } else if i % 4 == 0 {
                bytes[i + 2]
            } else if i % 4 == 2 {
                bytes[i - 2]
            } else {
                bytes[i]
            },
    )
}

/// Exchanging the channels twice gives back the bytes.
pub proof fn law_swap_undoes_itself(bytes: Seq<u8>)
    ensures
        swapped(swapped(bytes)) == bytes,
{
    assert(swapped(swapped(bytes)) =~= bytes);
}

/// Turns pixels of blue, green, red and alpha into pixels of red, green, blue and alpha.
fn swap_channels(bytes: &mut Vec<u8>)
    ensures
        final(bytes)@ == swapped(old(bytes)@),
{
    let ghost before = bytes@;
    let mut i: usize = 0;
    while bytes.len() - i >= 4
        invariant
            i % 4 == 0,
            i <= bytes@.len(),
            before == old(bytes)@,
            bytes@.len() == before.len(),
            forall|j: int| 0 <= j < i ==> bytes@[j] == swapped(before)[j],
            forall|j: int| i <= j < bytes@.len() ==> bytes@[j] == before[j],
        decreases bytes@.len() - i,
    {
        let first = bytes[i];
        bytes[i] = bytes[i + 2];
        bytes[i + 2] = first;
        i = i + 4;
    }
    assert(bytes@ =~= swapped(before));
}

/// The pixels do not make up an image of the size of their texture.
#[derive(Clone, Copy, Debug, PartialEq, Eq, Structural)]
pub struct NotAnImage;

/// Makes an image of the pixels of a texture, which are in blue, green, red, alpha order.
pub fn read_texture_to_image(width: u32, height: u32, pixels: Vec<u8>) -> (r: Result<
    RgbaImage,
    NotAnImage,
>)
    ensures
        r is Ok == holds_image(width, height, pixels@.len()),
        r matches Ok(image) ==> image_bytes(image) == swapped(pixels@) && image_dimensions(image)
            == (width, height),
{
    let mut bytes = pixels;
    swap_channels(&mut bytes);
    match image_from_raw(width, height, bytes) {
        Some(image) => Ok(image),
        None => Err(NotAnImage),
    }
}

/// In every whole pixel the first channel and the third change places, and the second and the last stay:
/// what was blue, green, red and alpha is red, green, blue and alpha. Bytes behind the last whole pixel
/// stay.
pub proof fn law_red_and_blue_change_places(bytes: Seq<u8>, pixel: int, rest: int)
    requires
        0 <= pixel,
        0 <= rest,
    ensures
        swapped(bytes).len() == bytes.len(),
        4 * pixel + 4 <= bytes.len() ==> {
            &&& swapped(bytes)[4 * pixel] == bytes[4 * pixel + 2]
            &&& swapped(bytes)[4 * pixel + 1] == bytes[4 * pixel + 1]
            &&& swapped(bytes)[4 * pixel + 2] == bytes[4 * pixel]
            &&& swapped(bytes)[4 * pixel + 3] == bytes[4 * pixel + 3]
        },
        4 * (bytes.len() / 4) + rest < bytes.len() ==> swapped(bytes)[4 * (bytes.len() / 4) as int
            + rest] == bytes[4 * (bytes.len() / 4) as int + rest],
{
    assert((4 * pixel) % 4 == 0);
    assert((4 * pixel + 1) % 4 == 1);
    assert((4 * pixel + 2) % 4 == 2);
    assert((4 * pixel + 3) % 4 == 3);
    let last = 4 * (bytes.len() / 4) as int;
    if last + rest < bytes.len() {
        assert(rest < 4);
        assert((last + rest) % 4 == rest);
    }
}

/// The bytes of an image are those of its rows, four for each pixel, or more. Where a pixel is missing
/// there is no image.
pub proof fn law_an_image_has_all_its_pixels(width: u32, height: u32, length: nat)
    requires
        4 * width <= usize::MAX,
    ensures
        holds_image(width, height, length) <==> (width as int * height as int) * 4 <= length,
{
    assert(4 * width * height == (width as int * height as int) * 4) by (nonlinear_arith);
}

} // verus!
