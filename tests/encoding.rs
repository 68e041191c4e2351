use ansi_pixels::codec::{push_decimal, rgb_to_ansi, rgb_to_bg_ansi};
use ansi_pixels::grid::PixelGrid;
use ansi_pixels::half_block::{get_high_res_ascii, half_block_cell, high_res_row_to_ansi};
use ansi_pixels::is_valid_position;
use ansi_pixels::render::{empty_pixel_string, render, RenderConfig};
use ansi_pixels::runs::{get_empty_slice, pixel_slice_to_ansi, row_to_ansi, same_pixel};

const RED: [u8; 4] = [255, 0, 0, 255];
const BLUE: [u8; 4] = [0, 0, 255, 255];
const CLEAR: [u8; 4] = [10, 20, 30, 0];

fn grid(rows: Vec<Vec<[u8; 4]>>) -> PixelGrid {
    PixelGrid::from_rows(rows).expect("rectangular rows")
}

#[test]
fn foreground_sequence_exact() {
    assert_eq!(rgb_to_ansi(&[255, 0, 7, 255]), "\x1b[38;2;255;0;7m");
    assert_eq!(rgb_to_ansi(&[12, 100, 99, 0]), "\x1b[38;2;12;100;99m");
}

#[test]
fn background_sequence_exact() {
    assert_eq!(rgb_to_bg_ansi(&[1, 20, 250, 255]), "\x1b[48;2;1;20;250m");
}

#[test]
fn decimal_digits() {
    for n in 0..=255u8 {
        let mut s = String::from("x");
        push_decimal(&mut s, n);
        assert_eq!(s, format!("x{}", n));
    }
}

#[test]
fn valid_positions() {
    assert!(is_valid_position((0, 0), (1, 1)));
    assert!(!is_valid_position((1, 0), (1, 1)));
    assert!(!is_valid_position((0, 1), (1, 1)));
    assert!(!is_valid_position((0, 0), (0, 0)));
}

#[test]
fn empty_slice_repeats() {
    assert_eq!(get_empty_slice(3, "  "), "      ");
    assert_eq!(get_empty_slice(0, "  "), "");
}

#[test]
fn placeholder_counts_characters_not_bytes() {
    assert_eq!(empty_pixel_string("\u{2588}\u{2588}"), "  ");
    assert_eq!(empty_pixel_string("#"), " ");
    assert_eq!(empty_pixel_string(""), "");
}

#[test]
fn slice_of_length_zero_is_empty() {
    assert_eq!(pixel_slice_to_ansi(0, &RED, "##", "  "), "");
}

#[test]
fn slice_transparent_is_blank() {
    assert_eq!(pixel_slice_to_ansi(2, &[0, 0, 0, 254], "##", "  "), "    ");
}

#[test]
fn slice_opaque_is_colored() {
    assert_eq!(pixel_slice_to_ansi(2, &RED, "#", " "), "\x1b[38;2;255;0;0m##\x1b[0m");
}

#[test]
fn pixels_compare_all_channels() {
    assert!(same_pixel(&RED, &[255, 0, 0, 255]));
    assert!(!same_pixel(&RED, &[255, 0, 0, 254]));
    assert!(!same_pixel(&RED, &BLUE));
}

#[test]
fn empty_row_is_empty() {
    assert_eq!(row_to_ansi(&[], "#", " "), "");
}

#[test]
fn row_runs_cover_width() {
    let row = [RED, RED, BLUE, CLEAR, RED];
    let out = row_to_ansi(&row, "#", " ");
    assert_eq!(
        out,
        "\x1b[38;2;255;0;0m##\x1b[0m\x1b[38;2;0;0;255m#\x1b[0m \x1b[38;2;255;0;0m#\x1b[0m"
    );
    assert_eq!(out.matches('#').count() + out.matches(' ').count(), row.len());
}

#[test]
fn uniform_opaque_row() {
    let row = [BLUE; 4];
    assert_eq!(
        row_to_ansi(&row, "\u{2588}\u{2588}", "  "),
        format!("{}{}\x1b[0m", rgb_to_ansi(&BLUE), "\u{2588}".repeat(8))
    );
}

#[test]
fn transparent_row_any_colors() {
    let row = [[1, 2, 3, 0], [4, 5, 6, 0], [4, 5, 6, 128], [9, 9, 9, 254]];
    assert_eq!(row_to_ansi(&row, "\u{2588}\u{2588}", "  "), "        ");
}

#[test]
fn transparent_pixels_of_different_alpha_stay_separate_runs() {
    let row = [[0, 0, 0, 0], [0, 0, 0, 1]];
    assert_eq!(row_to_ansi(&row, "#", " "), "  ");
}

#[test]
fn high_res_two_opaque() {
    let g = grid(vec![vec![RED], vec![BLUE]]);
    let expected = format!("{}{}\u{2580}\x1b[0m", rgb_to_ansi(&RED), rgb_to_bg_ansi(&BLUE));
    assert_eq!(get_high_res_ascii((0, 0), &g, (1, 2)), expected);
    assert_eq!(high_res_row_to_ansi(&g, 0), expected);
}

#[test]
fn high_res_single_opaque_odd_height() {
    let g = grid(vec![vec![RED]]);
    assert_eq!(
        get_high_res_ascii((0, 0), &g, (1, 1)),
        "\x1b[38;2;255;0;0m\u{2580}\x1b[0m"
    );
}

#[test]
fn high_res_transparent_over_opaque() {
    let g = grid(vec![vec![CLEAR], vec![BLUE]]);
    assert_eq!(
        get_high_res_ascii((0, 0), &g, (1, 2)),
        "\x1b[38;2;0;0;255m\u{2584}\x1b[0m"
    );
}

#[test]
fn high_res_opaque_over_transparent() {
    let g = grid(vec![vec![RED], vec![CLEAR]]);
    assert_eq!(
        get_high_res_ascii((0, 0), &g, (1, 2)),
        "\x1b[38;2;255;0;0m\u{2580}\x1b[0m"
    );
}

#[test]
fn high_res_absent_pair_is_space() {
    let g = grid(vec![vec![CLEAR], vec![CLEAR]]);
    assert_eq!(get_high_res_ascii((0, 0), &g, (1, 2)), " ");
    assert_eq!(get_high_res_ascii((5, 0), &g, (1, 2)), " ");
    assert_eq!(get_high_res_ascii((0, u32::MAX), &g, (1, 2)), " ");
    assert_eq!(half_block_cell(None, None), " ");
}

#[test]
fn grid_rejects_ragged_rows() {
    assert!(PixelGrid::from_rows(vec![vec![RED, RED], vec![RED]]).is_none());
    let g = grid(vec![vec![RED, BLUE], vec![CLEAR, RED]]);
    assert_eq!(g.dimensions(), (2, 2));
    assert_eq!(g.get_pixel(1, 0), BLUE);
    assert_eq!(g.row(1), &[CLEAR, RED]);
    let empty = grid(vec![]);
    assert_eq!((empty.width(), empty.height()), (0, 0));
}

#[test]
fn render_standard_rows() {
    let g = grid(vec![vec![RED, RED], vec![CLEAR, BLUE]]);
    let cfg = RenderConfig::new(String::from("#"), false);
    assert_eq!(
        render(&g, &cfg),
        "\x1b[38;2;255;0;0m##\x1b[0m\n \x1b[38;2;0;0;255m#\x1b[0m\n"
    );
}

#[test]
fn render_high_res_pairs_rows() {
    let g = grid(vec![vec![RED, CLEAR], vec![BLUE, CLEAR], vec![RED, RED]]);
    let cfg = RenderConfig::new(String::from("#"), true);
    assert_eq!(
        render(&g, &cfg),
        "\x1b[38;2;255;0;0m\x1b[48;2;0;0;255m\u{2580}\x1b[0m \n"
    );
}

#[test]
fn render_empty_grid() {
    let g = grid(vec![]);
    assert_eq!(render(&g, &RenderConfig::new(String::from("#"), false)), "");
    assert_eq!(render(&g, &RenderConfig::new(String::from("#"), true)), "");
}

#[test]
fn render_is_repeatable() {
    let g = grid(vec![vec![RED, CLEAR, BLUE], vec![BLUE, BLUE, RED]]);
    for high_res in [false, true] {
        let cfg = RenderConfig::new(String::from("\u{2588}\u{2588}"), high_res);
        assert_eq!(render(&g, &cfg), render(&g, &cfg));
    }
}

#[test]
fn grid_from_raw_bytes() {
    let data: Vec<u8> = vec![1, 2, 3, 4, 5, 6, 7, 8, 9, 10, 11, 12, 13, 14, 15, 16, 17, 18, 19, 20, 21, 22, 23, 24];
    let g = PixelGrid::from_raw(3, 2, &data).expect("enough bytes");
    assert_eq!(g.dimensions(), (3, 2));
    assert_eq!(g.get_pixel(0, 0), [1, 2, 3, 4]);
    assert_eq!(g.get_pixel(2, 0), [9, 10, 11, 12]);
    assert_eq!(g.get_pixel(1, 1), [17, 18, 19, 20]);
    assert!(PixelGrid::from_raw(3, 2, &data[..23]).is_none());
    assert!(PixelGrid::from_raw(2, 2, &data).is_some());
    assert!(PixelGrid::from_raw(u32::MAX, u32::MAX, &data).is_none());
    let empty = PixelGrid::from_raw(0, 5, &[]).expect("no pixels needed");
    assert_eq!(empty.dimensions(), (0, 5));
}
