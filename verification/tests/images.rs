use mc_tui::images::{half_block_cells, pixel_rgb, to_dynamic_image, RgbaImage};

#[test]
fn renders_half_blocks() {
    let img = RgbaImage {
        width: 2,
        height: 4,
        pixels: vec![
            255, 0, 0, 255, 0, 255, 0, 255, //
            0, 0, 255, 255, 255, 255, 255, 255, //
            128, 128, 0, 255, 0, 128, 128, 255, //
            128, 0, 128, 255, 255, 128, 0, 255,
        ],
    };
    let lines = half_block_cells(&img);
    assert_eq!(lines.len(), 2);
    assert_eq!(lines[0].len(), 2);
}

#[test]
fn converts_raster_to_dynamic_image() {
    let img = RgbaImage {
        width: 2,
        height: 1,
        pixels: vec![
            255, 0, 0, 255, 0, 255, 0, 255, //
        ],
    };
    let Some(dynamic) = to_dynamic_image(&img) else {
        panic!("expected a dynamic image");
    };
    assert_eq!(dynamic.width(), 2);
    assert_eq!(dynamic.height(), 1);

    // A raster with a too-short pixel buffer must yield `None`.
    let broken = RgbaImage {
        width: 100,
        height: 100,
        pixels: vec![0u8; 4],
    };
    assert!(to_dynamic_image(&broken).is_none());
}

#[test]
fn dynamic_image_keeps_the_bytes() {
    let img = RgbaImage { width: 1, height: 2, pixels: vec![1, 2, 3, 4, 5, 6, 7, 8, 9] };
    let dynamic = to_dynamic_image(&img).expect("a longer buffer is accepted");
    let rgba = dynamic.to_rgba8();
    assert_eq!(rgba.get_pixel(0, 1).0, [5, 6, 7, 8]);
    let exact = RgbaImage { width: 1, height: 2, pixels: vec![0; 7] };
    assert!(to_dynamic_image(&exact).is_none());
}

#[test]
fn cells_pair_rows_and_show_background_below_odd_heights() {
    let img = RgbaImage {
        width: 1,
        height: 3,
        pixels: vec![10, 20, 30, 255, 40, 50, 60, 200, 70, 80, 90, 128],
    };
    let cells = half_block_cells(&img);
    assert_eq!(cells.len(), 2);
    assert_eq!(cells[0][0], (Some((10, 20, 30)), Some((40, 50, 60))));
    assert_eq!(cells[1][0], (Some((70, 80, 90)), None));
}

#[test]
fn transparent_and_missing_pixels_fall_back() {
    let img = RgbaImage { width: 2, height: 1, pixels: vec![1, 2, 3, 127, 4, 5, 6] };
    assert_eq!(pixel_rgb(&img, 0, 0), None);
    assert_eq!(pixel_rgb(&img, 0, 1), None);
    let solid = RgbaImage { width: 1, height: 1, pixels: vec![9, 8, 7, 128] };
    assert_eq!(pixel_rgb(&solid, 0, 0), Some((9, 8, 7)));
    let empty = RgbaImage { width: 0, height: 0, pixels: vec![] };
    assert!(half_block_cells(&empty).is_empty());
}
