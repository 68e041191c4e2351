//! High-resolution mode: one half-block glyph per pair of vertically adjacent pixels.
use vstd::prelude::*;
use crate::codec::{background_of, foreground_of, reset, rgb_to_ansi, rgb_to_bg_ansi};
use crate::grid::{opaque_at, PixelGrid};
use crate::is_valid_position;
use crate::runs::is_opaque;

verus! {

/// The glyph for a pair of pixels, each present only when inside the grid and opaque.
pub open spec fn half_block_text(top: Option<[u8; 4]>, bottom: Option<[u8; 4]>) -> Seq<char> {
    match (top, bottom) {
        (Some(t), Some(b)) => foreground_of(t) + background_of(b) + "\u{2580}"@ + reset(),
        (Some(t), None) => foreground_of(t) + "\u{2580}"@ + reset(),
        (None, Some(b)) => foreground_of(b) + "\u{2584}"@ + reset(),
        (None, None) => " "@,
    }
}

/// The glyph for the pixel pair of column `x` in output row `y`: source rows `2y` and `2y + 1`.
pub open spec fn pair_text(cells: Seq<Seq<[u8; 4]>>, x: int, y: int) -> Seq<char> {
    half_block_text(opaque_at(cells, x, 2 * y), opaque_at(cells, x, 2 * y + 1))
}

/// The glyphs of the first `n` columns of output row `y`.
pub open spec fn pair_row_prefix(cells: Seq<Seq<[u8; 4]>>, y: int, n: nat) -> Seq<char>
    decreases n,
{
    if n == 0 {
        Seq::empty()
    } else {
        pair_row_prefix(cells, y, (n - 1) as nat) + pair_text(cells, (n - 1) as int, y)
    }
}

/// The high-resolution text of output row `y` of a grid `w` pixels wide.
pub open spec fn high_res_row_text(cells: Seq<Seq<[u8; 4]>>, w: nat, y: int) -> Seq<char> {
    pair_row_prefix(cells, y, w)
}

/// A one-pixel-wide grid of two opaque pixels `a` over `b` gives the upper half block in
/// foreground `a` on background `b`.
pub proof fn lemma_two_opaque_pixels(a: [u8; 4], b: [u8; 4])
    requires
        is_opaque(a),
        is_opaque(b),
    ensures
        high_res_row_text(seq![seq![a], seq![b]], 1, 0) == foreground_of(a) + background_of(b)
            + "\u{2580}"@ + reset(),
{
    let cells = seq![seq![a], seq![b]];
    assert(opaque_at(cells, 0, 0) == Some(a));
    assert(opaque_at(cells, 0, 1) == Some(b));
    assert(pair_row_prefix(cells, 0, 0) == Seq::<char>::empty());
    assert(high_res_row_text(cells, 1, 0) =~= pair_text(cells, 0, 0));
}

/// A grid of one opaque pixel `a` gives the upper half block in foreground `a`, with no
/// background sequence.
pub proof fn lemma_single_opaque_pixel(a: [u8; 4])
    requires
        is_opaque(a),
    ensures
        high_res_row_text(seq![seq![a]], 1, 0) == foreground_of(a) + "\u{2580}"@ + reset(),
{
    let cells = seq![seq![a]];
    assert(opaque_at(cells, 0, 0) == Some(a));
    assert(opaque_at(cells, 0, 1) == None::<[u8; 4]>);
    assert(pair_row_prefix(cells, 0, 0) == Seq::<char>::empty());
    assert(high_res_row_text(cells, 1, 0) =~= pair_text(cells, 0, 0));
}

/// A one-pixel-wide grid of a transparent pixel `a` over an opaque pixel `b` gives the lower
/// half block in foreground `b`.
pub proof fn lemma_transparent_over_opaque(a: [u8; 4], b: [u8; 4])
    requires
        !is_opaque(a),
        is_opaque(b),
    ensures
        high_res_row_text(seq![seq![a], seq![b]], 1, 0) == foreground_of(b) + "\u{2584}"@ + reset(),
{
    let cells = seq![seq![a], seq![b]];
    assert(opaque_at(cells, 0, 0) == None::<[u8; 4]>);
    assert(opaque_at(cells, 0, 1) == Some(b));
    assert(pair_row_prefix(cells, 0, 0) == Seq::<char>::empty());
    assert(high_res_row_text(cells, 1, 0) =~= pair_text(cells, 0, 0));
}

/// A column whose top and bottom pixels are each transparent or outside the grid gives a
/// single space.
pub proof fn lemma_absent_pair(cells: Seq<Seq<[u8; 4]>>, x: int, y: int)
    requires
        opaque_at(cells, x, 2 * y) is None,
        opaque_at(cells, x, 2 * y + 1) is None,
    ensures
        pair_text(cells, x, y) == " "@,
{
}

/// The glyph for a top and a bottom pixel, `None` standing for an absent one.
pub fn half_block_cell(top: Option<[u8; 4]>, bottom: Option<[u8; 4]>) -> (r: String)
    ensures
        r@ == half_block_text(top, bottom),
{
    let mut output = String::new();
    match top {
        Some(t) => {
            let fg = rgb_to_ansi(&t);
            output.append(fg.as_str());
            if let Some(b) = bottom {
                let bg = rgb_to_bg_ansi(&b);
                output.append(bg.as_str());
            }
            output.append("\u{2580}");
            output.append("\x1b[0m");
        },
        None => {
            match bottom {
                Some(b) => {
                    let fg = rgb_to_ansi(&b);
                    output.append(fg.as_str());
                    output.append("\u{2584}");
                    output.append("\x1b[0m");
                },
                None => {
                    output.append(" ");
                },
            }
        },
    }
    output
}

/// The pixel at `position` when it lies inside the grid and is fully opaque.
fn opaque_pixel(position: (u32, u32), img: &PixelGrid, dimensions: (u32, u32)) -> (r: Option<
    [u8; 4],
>)
    requires
        img.well_formed(),
        dimensions.0 as nat == img.spec_width(),
        dimensions.1 as nat == img.spec_height(),
    ensures
        r == opaque_at(img@, position.0 as int, position.1 as int),
{
    if is_valid_position(position, dimensions) {
        let c = img.get_pixel(position.0, position.1);
        if c[3] == 255 {
            Some(c)
        } else {
            None
        }
    } else {
        None
    }
}

/// The half-block glyph for the pixel at `position` and the one below it.
pub fn get_high_res_ascii(position: (u32, u32), img: &PixelGrid, dimensions: (u32, u32)) -> (r: String)
    requires
        img.well_formed(),
        dimensions.0 as nat == img.spec_width(),
        dimensions.1 as nat == img.spec_height(),
    ensures
        r@ == half_block_text(
            opaque_at(img@, position.0 as int, position.1 as int),
            opaque_at(img@, position.0 as int, position.1 + 1),
        ),
{
    let top = opaque_pixel(position, img, dimensions);
    let bottom = if position.1 < u32::MAX {
        opaque_pixel((position.0, position.1 + 1), img, dimensions)
    } else {
        None
    };
    half_block_cell(top, bottom)
}

/// The high-resolution text of output row `y`, which pairs source rows `2y` and `2y + 1`.
pub fn high_res_row_to_ansi(img: &PixelGrid, y: u32) -> (r: String)
    requires
        img.well_formed(),
        y < img.spec_height() / 2,
    ensures
        r@ == high_res_row_text(img@, img.spec_width(), y as int),
{
    let dimensions = img.dimensions();
    let width = dimensions.0;
    let top = y * 2;
    let mut output = String::new();
    let mut x: u32 = 0;
    while x < width
        invariant
            x <= width,
            width as nat == img.spec_width(),
            dimensions.0 as nat == img.spec_width(),
            dimensions.1 as nat == img.spec_height(),
            img.well_formed(),
            top == 2 * y,
            output@ == pair_row_prefix(img@, y as int, x as nat),
        decreases width - x,
    {
        let glyph = get_high_res_ascii((x, top), img, dimensions);
        output.append(glyph.as_str());
        x = x + 1;
    }
    output
}

} // verus!
