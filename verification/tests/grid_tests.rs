use ascii_frame::glyph::{channel_sum, glyph_for_sum};
use ascii_frame::grid::{
    fill_grid, new_pixel_buffer, BUFFER_LEN, BYTES_PER_PIXEL, GRID_LEN, GRID_WIDTH, HEIGHT,
    PIXEL_COUNT, WIDTH,
};

fn gradient() -> Vec<u8> {
    let mut pixels = new_pixel_buffer();
    for i in 0..PIXEL_COUNT {
        pixels[4 * i] = (i % 256) as u8;
        pixels[4 * i + 1] = ((i / 3) % 256) as u8;
        pixels[4 * i + 2] = ((i * 7) % 256) as u8;
        pixels[4 * i + 3] = ((i * 11) % 256) as u8;
    }
    pixels
}

#[test]
fn frame_constants() {
    assert_eq!(WIDTH, 100);
    assert_eq!(HEIGHT, 80);
    assert_eq!(BYTES_PER_PIXEL, 4);
    assert_eq!(PIXEL_COUNT, 8000);
    assert_eq!(BUFFER_LEN, 32000);
    assert_eq!(GRID_WIDTH, 200);
    assert_eq!(GRID_LEN, 16000);
}

#[test]
fn pixel_buffer_has_four_bytes_per_pixel() {
    let pixels = new_pixel_buffer();
    assert_eq!(pixels.len(), WIDTH * HEIGHT * 4);
    assert!(pixels.iter().all(|&byte| byte == 0));
}

#[test]
fn grid_has_two_cells_per_pixel() {
    let pixels = gradient();
    let mut grid = Vec::new();
    fill_grid(&pixels, &mut grid);
    assert_eq!(grid.len(), 2 * WIDTH * HEIGHT);
}

#[test]
fn black_frame_is_all_i() {
    let pixels = new_pixel_buffer();
    let mut grid = Vec::new();
    fill_grid(&pixels, &mut grid);
    assert_eq!(grid.len(), GRID_LEN);
    for cell in &grid {
        assert_eq!(cell.0, "i");
        assert_eq!(cell.1, (0, 0, 0));
    }
}

#[test]
fn white_frame_is_all_z() {
    let pixels = vec![255u8; BUFFER_LEN];
    let mut grid = Vec::new();
    fill_grid(&pixels, &mut grid);
    assert_eq!(grid.len(), GRID_LEN);
    for cell in &grid {
        assert_eq!(cell.0, "z");
        assert_eq!(cell.1, (255, 255, 255));
    }
}

#[test]
fn each_pixel_gives_two_equal_neighbours() {
    let pixels = gradient();
    let mut grid = Vec::new();
    fill_grid(&pixels, &mut grid);
    for i in 0..PIXEL_COUNT {
        let color = (pixels[4 * i], pixels[4 * i + 1], pixels[4 * i + 2]);
        let glyph = glyph_for_sum(channel_sum(color));
        assert_eq!(grid[2 * i], (glyph.clone(), color));
        assert_eq!(grid[2 * i + 1], (glyph, color));
    }
}

#[test]
fn alpha_is_not_read() {
    let mut opaque = gradient();
    let mut clear = opaque.clone();
    for i in 0..PIXEL_COUNT {
        opaque[4 * i + 3] = 255;
        clear[4 * i + 3] = 0;
    }
    let mut first = Vec::new();
    let mut second = Vec::new();
    fill_grid(&opaque, &mut first);
    fill_grid(&clear, &mut second);
    assert_eq!(first, second);
}

#[test]
fn single_pixel_lands_at_its_place() {
    let mut pixels = new_pixel_buffer();
    let at = 3 * WIDTH + 7;
    pixels[4 * at] = 100;
    pixels[4 * at + 1] = 200;
    pixels[4 * at + 2] = 100;
    let mut grid = Vec::new();
    fill_grid(&pixels, &mut grid);
    for (k, cell) in grid.iter().enumerate() {
        if k == 2 * at || k == 2 * at + 1 {
            assert_eq!(*cell, ("m".to_string(), (100, 200, 100)));
        } else {
            assert_eq!(*cell, ("i".to_string(), (0, 0, 0)));
        }
    }
}

#[test]
fn grid_is_made_anew_for_each_frame() {
    let mut grid = vec![("x".to_string(), (9, 9, 9)); 5];
    let black = new_pixel_buffer();
    fill_grid(&black, &mut grid);
    assert_eq!(grid.len(), GRID_LEN);
    assert_eq!(grid[0], ("i".to_string(), (0, 0, 0)));
    let white = vec![255u8; BUFFER_LEN];
    fill_grid(&white, &mut grid);
    assert_eq!(grid.len(), GRID_LEN);
    assert_eq!(grid[0], ("z".to_string(), (255, 255, 255)));
    assert_eq!(grid[GRID_LEN - 1], ("z".to_string(), (255, 255, 255)));
}
