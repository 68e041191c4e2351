//! The render pass: every row of the grid in order, each followed by a line break.
use vstd::prelude::*;
use crate::grid::PixelGrid;
use crate::half_block::{high_res_row_text, high_res_row_to_ansi};
use crate::runs::{repeat, row_text, row_to_ansi};

verus! {

/// How a grid is rendered.
pub struct RenderConfig {
    /// The text for one opaque pixel in standard mode.
    pub pixel_ascii: String,
    /// Selects the high-resolution (half-block) mode.
    pub high_res: bool,
}

impl RenderConfig {
    /// A configuration with the given glyph and mode.
    pub fn new(pixel_ascii: String, high_res: bool) -> (r: RenderConfig)
        ensures
            r.pixel_ascii@ == pixel_ascii@,
            r.high_res == high_res,
    {
        RenderConfig { pixel_ascii, high_res }
    }
}

/// The placeholder for a transparent pixel: one space per character of `glyph`.
pub open spec fn blank_for(glyph: Seq<char>) -> Seq<char> {
    repeat(" "@, glyph.len())
}

/// The first `n` rows in standard mode, each followed by a line break.
pub open spec fn standard_lines(cells: Seq<Seq<[u8; 4]>>, glyph: Seq<char>, n: nat) -> Seq<char>
    decreases n,
{
    if n == 0 {
        Seq::empty()
    } else {
        standard_lines(cells, glyph, (n - 1) as nat) + row_text(cells[n - 1], glyph, blank_for(glyph))
            + "\n"@
    }
}

/// The first `n` output rows in high-resolution mode, each followed by a line break.
pub open spec fn high_res_lines(cells: Seq<Seq<[u8; 4]>>, w: nat, n: nat) -> Seq<char>
    decreases n,
{
    if n == 0 {
        Seq::empty()
    } else {
        high_res_lines(cells, w, (n - 1) as nat) + high_res_row_text(cells, w, n - 1) + "\n"@
    }
}

/// The full text for a grid of width `w`: `height` rows in standard mode, `height / 2` in
/// high-resolution mode.
pub open spec fn render_text(cells: Seq<Seq<[u8; 4]>>, w: nat, glyph: Seq<char>, high_res: bool) -> Seq<char> {
    if high_res {
        high_res_lines(cells, w, cells.len() / 2)
    } else {
        standard_lines(cells, glyph, cells.len())
    }
}

/// Rendering depends on nothing but the grid's pixels and width and the configuration:
/// rendering the same grid with the same configuration again gives the same text.
pub proof fn lemma_render_repeatable(g1: &PixelGrid, g2: &PixelGrid, c1: &RenderConfig, c2: &RenderConfig)
    requires
        g1@ == g2@,
        g1.spec_width() == g2.spec_width(),
        c1.pixel_ascii@ == c2.pixel_ascii@,
        c1.high_res == c2.high_res,
    ensures
        render_text(g1@, g1.spec_width(), c1.pixel_ascii@, c1.high_res) == render_text(
            g2@,
            g2.spec_width(),
            c2.pixel_ascii@,
            c2.high_res,
        ),
{
}

/// The placeholder string for a transparent pixel: as many spaces as `pixel_ascii` has characters.
pub fn empty_pixel_string(pixel_ascii: &str) -> (r: String)
    ensures
        r@ == blank_for(pixel_ascii@),
{
    let n = pixel_ascii.unicode_len();
    let mut output = String::new();
    let mut i: usize = 0;
    while i < n
        invariant
            i <= n,
            n == pixel_ascii@.len(),
            output@ == repeat(" "@, i as nat),
        decreases n - i,
    {
        output.append(" ");
        i = i + 1;
    }
    output
}

/// Renders the whole grid as colored text, one line per output row.
pub fn render(grid: &PixelGrid, config: &RenderConfig) -> (r: String)
    requires
        grid.well_formed(),
    ensures
        r@ == render_text(grid@, grid.spec_width(), config.pixel_ascii@, config.high_res),
{
    let height = grid.height();
    let mut output = String::new();
    if config.high_res {
        let rows = height / 2;
        let mut y: u32 = 0;
        while y < rows
            invariant
                y <= rows,
                rows as nat == grid.spec_height() / 2,
                grid.well_formed(),
                output@ == high_res_lines(grid@, grid.spec_width(), y as nat),
            decreases rows - y,
        {
            let line = high_res_row_to_ansi(grid, y);
            output.append(line.as_str());
            output.append("\n");
            y = y + 1;
        }
    } else {
        let glyph = config.pixel_ascii.as_str();
        let blank = empty_pixel_string(glyph);
        let mut y: u32 = 0;
        while y < height
            invariant
                y <= height,
                height as nat == grid.spec_height(),
                grid.well_formed(),
                glyph@ == config.pixel_ascii@,
                blank@ == blank_for(glyph@),
                output@ == standard_lines(grid@, glyph@, y as nat),
            decreases height - y,
        {
            let line = row_to_ansi(grid.row(y), glyph, blank.as_str());
            output.append(line.as_str());
            output.append("\n");
            y = y + 1;
        }
    }
    output
}

} // verus!
