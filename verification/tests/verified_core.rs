//! Tests of the verified core: pair parsing, raster layout, the intensity
//! rule, band partitioning and the band renderer.

use mandelbrot::alloc_buffer;
use mandelbrot::bands::band_plan;
use mandelbrot::bands::rows_per_band;
use mandelbrot::intensity;
use mandelbrot::parse_pair;
use mandelbrot::pixel_index;
use mandelbrot::render_band;
use mandelbrot::render_banded;

#[test]
fn parse_pair_rejects_missing_separator() {
    assert_eq!(parse_pair::<i32>("", ','), None);
    assert_eq!(parse_pair::<i32>("10", ','), None);
    assert_eq!(parse_pair::<i32>("10x20", ','), None);
}

#[test]
fn parse_pair_rejects_bad_sides() {
    assert_eq!(parse_pair::<i32>("10,", ','), None);
    assert_eq!(parse_pair::<i32>(",10", ','), None);
    assert_eq!(parse_pair::<i32>("ten,20", ','), None);
}

#[test]
fn parse_pair_reads_bounds_and_points() {
    assert_eq!(parse_pair::<i32>("10x20", 'x'), Some((10, 20)));
    assert_eq!(parse_pair::<usize>("1000x750", 'x'), Some((1000, 750)));
    assert_eq!(parse_pair::<f64>("0.5x1.5", 'x'), Some((0.5, 1.5)));
    assert_eq!(parse_pair::<f64>("-1.20,0.35", ','), Some((-1.20, 0.35)));
}

#[test]
fn parse_pair_splits_at_first_separator() {
    // "1,2,3" splits as "1" and "2,3"; the right side is not an i32.
    assert_eq!(parse_pair::<i32>("1,2,3", ','), None);
}

#[test]
fn intensity_of_members_is_black() {
    assert_eq!(intensity(None), 0);
}

#[test]
fn intensity_of_escapes_counts_down_from_white() {
    assert_eq!(intensity(Some(0)), 255);
    assert_eq!(intensity(Some(100)), 155);
    assert_eq!(intensity(Some(254)), 1);
}

#[test]
fn pixel_index_is_row_major() {
    assert_eq!(pixel_index(100, 100, 0, 0), 0);
    assert_eq!(pixel_index(100, 100, 50, 50), 5050);
    assert_eq!(pixel_index(100, 100, 99, 99), 9999);
    assert_eq!(pixel_index(7, 3, 4, 2), 18);
}

#[test]
fn alloc_buffer_is_zero_filled() {
    let buf = alloc_buffer(100, 75);
    assert_eq!(buf.len(), 7500);
    assert!(buf.iter().all(|&b| b == 0));
    assert_eq!(alloc_buffer(0, 10).len(), 0);
    assert_eq!(alloc_buffer(10, 0).len(), 0);
}

#[test]
fn rows_per_band_never_starves_a_worker() {
    assert_eq!(rows_per_band(100, 8), 13);
    assert_eq!(rows_per_band(0, 8), 1);
    assert_eq!(rows_per_band(7, 8), 1);
    assert_eq!(rows_per_band(16, 8), 3);
}

#[test]
fn band_plan_covers_every_row_exactly_once() {
    for &(height, workers) in &[(100usize, 8usize), (5, 8), (16, 8), (750, 8), (99, 7), (1, 1)] {
        let plan = band_plan(height, workers);
        assert!(plan.len() <= workers);
        let mut covered = vec![0usize; height];
        for band in &plan {
            assert!(band.height >= 1);
            for r in band.top..band.top + band.height {
                covered[r] += 1;
            }
        }
        assert!(covered.iter().all(|&c| c == 1));
    }
}

#[test]
fn band_plan_of_empty_image_is_empty() {
    assert_eq!(band_plan(0, 8).len(), 0);
}

#[test]
fn band_plan_matches_the_chunked_buffer() {
    // The dispatcher hands out the buffer in chunks of rows_per_band rows;
    // the plan must describe exactly those chunks.
    let (width, height, workers) = (100usize, 100usize, 8usize);
    let rpb = rows_per_band(height, workers);
    let buffer = alloc_buffer(width, height);
    let chunks: Vec<&[u8]> = buffer.chunks(rpb * width).collect();
    let plan = band_plan(height, workers);
    assert_eq!(chunks.len(), plan.len());
    for (i, (chunk, band)) in chunks.iter().zip(plan.iter()).enumerate() {
        assert_eq!(band.top, i * rpb);
        assert_eq!(chunk.len(), band.height * width);
    }
}

#[test]
fn render_band_writes_every_cell_row_major() {
    let mut buf = vec![9u8; 6];
    render_band(&mut buf, 3, 2, 0, |column, row| (10 * row + column) as u8);
    assert_eq!(buf, vec![0, 1, 2, 10, 11, 12]);
}

#[test]
fn render_band_shades_with_absolute_rows() {
    // A band starting at image row 5 hands the shade absolute coordinates.
    let mut buf = vec![0u8; 6];
    render_band(&mut buf, 3, 2, 5, |column, row| (10 * row + column) as u8);
    assert_eq!(buf, vec![50, 51, 52, 60, 61, 62]);
}

#[test]
fn render_band_on_empty_band_writes_nothing() {
    let mut buf: Vec<u8> = vec![];
    render_band(&mut buf, 5, 0, 0, |_, _| 7);
    assert!(buf.is_empty());
}

#[test]
fn render_banded_assembles_the_whole_image() {
    let shade = |column: usize, row: usize| (10 * row + column) as u8;
    let pixels = render_banded(3, 5, 2, shade);
    assert_eq!(pixels.len(), 15);
    for row in 0..5 {
        for column in 0..3 {
            assert_eq!(pixels[row * 3 + column], (10 * row + column) as u8);
        }
    }
}

#[test]
fn render_banded_result_does_not_depend_on_worker_count() {
    let shade = |column: usize, row: usize| (column * 7 + row * 31) as u8;
    let one = render_banded(17, 23, 1, shade);
    let three = render_banded(17, 23, 3, shade);
    let eight = render_banded(17, 23, 8, shade);
    assert_eq!(one, three);
    assert_eq!(one, eight);
}
