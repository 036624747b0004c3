//! The pixel side of a page: an RGB buffer of the `image` crate held behind
//! an opaque wrapper, with the two operations the accumulator needs.

use vstd::prelude::*;
use crate::grid::{SHEET_HEIGHT, SHEET_WIDTH};

verus! {

/// One pixel canvas: an RGB buffer of the `image` crate. The buffer is
/// opaque to verification; contracts speak of it only through the named
/// values below (`canvas_width`, `canvas_height`, `white_sheet`,
/// `overlaid`).
#[verifier::external_body]
pub struct Canvas {
    /// The underlying buffer, open so that unverified callers can decode
    /// into it and encode out of it.
    pub img: image::RgbImage,
}

/// The pixel width of a canvas.
pub uninterp spec fn canvas_width(c: Canvas) -> u32;

/// The pixel height of a canvas.
pub uninterp spec fn canvas_height(c: Canvas) -> u32;

/// The canvas that `ImageBuffer::from_pixel` builds for the given
/// dimensions and a white fill: a function of the dimensions alone.
pub uninterp spec fn white_sheet(w: u32, h: u32) -> Canvas;

/// The canvas that `imageops::overlay` leaves behind: the bottom canvas
/// with the top one copied onto it at the given offset, clipped to the
/// bottom canvas's bounds — a function of the arguments alone.
pub uninterp spec fn overlaid(bottom: Canvas, top: Canvas, x: u32, y: u32) -> Canvas;

/// Relies on `ImageBuffer::from_pixel`: it returns a buffer of exactly the
/// given dimensions with every pixel set to the given value, here a white
/// sheet-sized page; the result depends on its arguments alone. It panics
/// only on a buffer beyond the maximum vector size, far above the fixed
/// sheet dimensions used here.
#[verifier::external_body]
pub(crate) fn blank_sheet() -> (r: Canvas)
    ensures
        r == white_sheet(SHEET_WIDTH, SHEET_HEIGHT),
        canvas_width(r) == SHEET_WIDTH,
        canvas_height(r) == SHEET_HEIGHT,
{
    Canvas {
        img: image::RgbImage::from_pixel(SHEET_WIDTH, SHEET_HEIGHT, image::Rgb([255, 255, 255])),
    }
}

/// Relies on `imageops::overlay`: it copies the top buffer onto the bottom
/// one at the given offset, clipped to the bottom buffer's bounds, and never
/// panics; the outcome depends on the two buffers and the offset alone. It
/// writes pixels of that one bottom buffer alone and leaves every buffer's
/// dimensions unchanged; the remaining pages of the vector are not touched.
#[verifier::external_body]
pub(crate) fn overlay_on_page(pages: &mut Vec<Canvas>, idx: usize, card: &Canvas, x: u32, y: u32)
    requires
        idx < old(pages)@.len(),
    ensures
        final(pages)@.len() == old(pages)@.len(),
        forall|j: int|
            0 <= j < final(pages)@.len() && j != idx ==> final(pages)@[j] == old(pages)@[j],
        final(pages)@[idx as int] == overlaid(old(pages)@[idx as int], *card, x, y),
        canvas_width(final(pages)@[idx as int]) == canvas_width(old(pages)@[idx as int]),
        canvas_height(final(pages)@[idx as int]) == canvas_height(old(pages)@[idx as int]),
{
    image::imageops::overlay(&mut pages[idx].img, &card.img, x as i64, y as i64);
}

} // verus!
