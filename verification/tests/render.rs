use rustmon::ansi::visible_width;
use rustmon::bitmap::{crop, Pixel, PixelImage};
use rustmon::compose::compose;
use rustmon::error::CoreError;
use rustmon::rasterize::{rasterize, Mode, RenderedArt};

fn px(r: u8, g: u8, b: u8, a: u8) -> Pixel {
    Pixel { r, g, b, a }
}

fn clear() -> Pixel {
    px(0, 0, 0, 0)
}

fn img(rows: Vec<Vec<Pixel>>) -> PixelImage {
    PixelImage::from_rows(rows).unwrap()
}

#[test]
fn from_rows_rejects_ragged_rows() {
    let rows = vec![vec![clear(), clear()], vec![clear()]];
    assert!(PixelImage::from_rows(rows).is_none());
}

#[test]
fn crop_fully_transparent_fails() {
    let im = img(vec![vec![clear(), clear()], vec![clear(), clear()]]);
    match crop(&im) {
        Err(CoreError::EmptyContent) => {}
        _ => panic!("expected EmptyContent"),
    }
}

#[test]
fn crop_single_opaque_pixel() {
    // A 4x4 bitmap with only the pixel at column 1, row 2 opaque crops to a
    // 1x1 image equal to that pixel.
    let p = px(10, 20, 30, 255);
    let mut rows = vec![vec![clear(); 4]; 4];
    rows[2][1] = p;
    let im = img(rows);
    let c = crop(&im).unwrap();
    assert_eq!(c.width, 1);
    assert_eq!(c.height, 1);
    assert_eq!(c.rows, vec![vec![p]]);
}

#[test]
fn crop_bounding_box_and_idempotence() {
    let a = px(1, 2, 3, 9);
    let b = px(4, 5, 6, 200);
    let mut rows = vec![vec![clear(); 5]; 6];
    rows[1][2] = a;
    rows[4][3] = b;
    let im = img(rows);
    let c = crop(&im).unwrap();
    assert_eq!(c.width, 2);
    assert_eq!(c.height, 4);
    assert_eq!(c.rows[0][0], a);
    assert_eq!(c.rows[3][1], b);
    // Cropping an already minimal image changes nothing.
    let c2 = crop(&c).unwrap();
    assert_eq!(c2.width, c.width);
    assert_eq!(c2.height, c.height);
    assert_eq!(c2.rows, c.rows);
}

#[test]
fn compact_all_opaque_red_two_by_two() {
    // 2x2 all-opaque red in Compact mode: one line of two cells, each a red
    // foreground, a red background, the upper half block, and a reset.
    let red = px(255, 0, 0, 255);
    let im = img(vec![vec![red, red], vec![red, red]]);
    let art = rasterize(&im, Mode::Compact);
    assert_eq!(art.lines.len(), 1);
    let cell = "\u{1b}[38;2;255;0;0m\u{1b}[48;2;255;0;0m\u{2580}\u{1b}[0m";
    let expected = format!("{}{}", cell, cell);
    assert_eq!(art.lines[0], expected);
    assert!(!art.lines[0].contains(' '));
}

#[test]
fn compact_transparent_single_pixel() {
    // A 1x1 fully transparent pixel: one line, one cell of a single space
    // followed by a reset, with no color sequence before the space.
    let im = img(vec![vec![clear()]]);
    let art = rasterize(&im, Mode::Compact);
    assert_eq!(art.lines.len(), 1);
    assert_eq!(art.lines[0], " \u{1b}[0m");
}

#[test]
fn compact_half_cells() {
    let c = px(9, 8, 7, 1);
    // Top transparent, bottom opaque: lower half block in the bottom color.
    let im = img(vec![vec![clear()], vec![c]]);
    let art = rasterize(&im, Mode::Compact);
    assert_eq!(art.lines, vec!["\u{1b}[38;2;9;8;7m\u{2584}\u{1b}[0m".to_string()]);
    // Top opaque, bottom transparent: upper half block in the top color.
    let im2 = img(vec![vec![c], vec![clear()]]);
    let art2 = rasterize(&im2, Mode::Compact);
    assert_eq!(art2.lines, vec!["\u{1b}[38;2;9;8;7m\u{2580}\u{1b}[0m".to_string()]);
}

#[test]
fn compact_odd_height_falls_back_to_top_row() {
    // With an odd height the missing bottom row falls back to the top row,
    // so a lone opaque row paints both halves of the cell.
    let c = px(1, 2, 3, 255);
    let im = img(vec![vec![c]]);
    let art = rasterize(&im, Mode::Compact);
    assert_eq!(
        art.lines,
        vec!["\u{1b}[38;2;1;2;3m\u{1b}[48;2;1;2;3m\u{2580}\u{1b}[0m".to_string()]
    );
}

#[test]
fn compact_line_count_is_ceil_of_half_height() {
    let c = px(0, 0, 0, 255);
    for height in 1..8usize {
        let rows = vec![vec![c, c, c]; height];
        let art = rasterize(&img(rows), Mode::Compact);
        assert_eq!(art.lines.len(), (height + 1) / 2);
        for line in &art.lines {
            assert_eq!(visible_width(line), 3);
        }
    }
}

#[test]
fn full_mode_cells_and_width() {
    let c = px(250, 100, 0, 3);
    let im = img(vec![vec![c, clear()], vec![clear(), c]]);
    let art = rasterize(&im, Mode::Full);
    assert_eq!(art.lines.len(), 2);
    assert_eq!(
        art.lines[0],
        "\u{1b}[38;2;250;100;0m\u{2588}\u{2588}  "
    );
    assert_eq!(
        art.lines[1],
        "  \u{1b}[38;2;250;100;0m\u{2588}\u{2588}"
    );
    // Stripping control sequences from a Full-mode line of width W leaves
    // exactly 2*W visible characters.
    for line in &art.lines {
        assert_eq!(visible_width(line), 4);
    }
}

#[test]
fn to_text_joins_lines_with_line_breaks() {
    let art = RenderedArt { lines: vec!["ab".to_string(), "c".to_string()] };
    assert_eq!(art.to_text(), "ab\nc\n");
}

#[test]
fn visible_width_ignores_color_sequences() {
    assert_eq!(visible_width("ab"), 2);
    assert_eq!(visible_width("\u{1b}[38;2;1;2;3mX\u{1b}[0m"), 1);
    assert_eq!(visible_width("\u{1b}[0m"), 0);
    // An escape without a terminating 'm' is not a control sequence and
    // stays visible.
    assert_eq!(visible_width("\u{1b}[12"), 4);
}

#[test]
fn compose_pads_columns_and_appends_reset() {
    let a1 = RenderedArt { lines: vec!["ab".to_string(), "c".to_string()] };
    let a2 = RenderedArt { lines: vec!["xyz".to_string()] };
    let arts = vec![a1, a2];
    let out = compose(&arts, 1);
    assert_eq!(out, "ab xyz\nc     \n\u{1b}[0m\n");
}

#[test]
fn compose_zero_spacing_inserts_no_separator() {
    let a1 = RenderedArt { lines: vec!["ab".to_string()] };
    let a2 = RenderedArt { lines: vec!["cd".to_string()] };
    let arts = vec![a1, a2];
    let out = compose(&arts, 0);
    assert_eq!(out, "abcd\n\u{1b}[0m\n");
}

#[test]
fn compose_separator_count_per_row() {
    // With spacing k and N artworks, exactly k*(N-1) separator characters
    // appear per row.
    let a1 = RenderedArt { lines: vec!["a".to_string()] };
    let a2 = RenderedArt { lines: vec!["b".to_string()] };
    let a3 = RenderedArt { lines: vec!["c".to_string()] };
    let arts = vec![a1, a2, a3];
    let out = compose(&arts, 4);
    let row = out.lines().next().unwrap();
    assert_eq!(row, "a    b    c");
    assert_eq!(row.chars().filter(|c| *c == ' ').count(), 4 * (3 - 1));
}

#[test]
fn compose_measures_width_without_color_sequences() {
    // The colored line is one visible character wide, so the plain second
    // line sets the column width.
    let a1 = RenderedArt {
        lines: vec!["\u{1b}[38;2;1;2;3mX\u{1b}[0m".to_string(), "yy".to_string()],
    };
    let a2 = RenderedArt { lines: vec!["z".to_string(), "z".to_string()] };
    let arts = vec![a1, a2];
    let out = compose(&arts, 1);
    assert_eq!(out, "\u{1b}[38;2;1;2;3mX\u{1b}[0m  z\nyy z\n\u{1b}[0m\n");
}

#[test]
fn render_then_compose_full_pipeline() {
    let red = px(255, 0, 0, 255);
    let green = px(0, 255, 0, 255);
    let left = rasterize(&img(vec![vec![red]]), Mode::Compact);
    let right = rasterize(&img(vec![vec![green], vec![green]]), Mode::Compact);
    let arts = vec![left, right];
    let out = compose(&arts, 2);
    let cell_red = "\u{1b}[38;2;255;0;0m\u{1b}[48;2;255;0;0m\u{2580}\u{1b}[0m";
    let cell_green = "\u{1b}[38;2;0;255;0m\u{1b}[48;2;0;255;0m\u{2580}\u{1b}[0m";
    let expected = format!("{}  {}\n\u{1b}[0m\n", cell_red, cell_green);
    assert_eq!(out, expected);
}

#[test]
fn compose_without_artworks_is_just_the_reset() {
    let arts: Vec<RenderedArt> = Vec::new();
    assert_eq!(compose(&arts, 3), "\u{1b}[0m\n");
}

#[test]
fn crop_keeps_an_image_with_content_on_every_border() {
    let c = px(5, 5, 5, 255);
    let rows = vec![vec![c, c, c], vec![c, c, c]];
    let im = img(rows.clone());
    let cropped = crop(&im).unwrap();
    assert_eq!(cropped.width, 3);
    assert_eq!(cropped.height, 2);
    assert_eq!(cropped.rows, rows);
}
