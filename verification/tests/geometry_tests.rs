use dzi::TileCreator;
use dzi::TilingError;

fn creator(width: u32, height: u32, ts: u32, ov: u32) -> TileCreator {
    let data = vec![0u8; width as usize * height as usize * 3];
    TileCreator::new_from_rgb(
        &data,
        width,
        height,
        ts,
        ov,
        String::from("out_files"),
        String::from("out.dzi"),
    )
    .unwrap()
}

#[test]
fn test_info() {
    let width: u32 = 5184;
    let height: u32 = 3456;
    let data = vec![0u8; width as usize * height as usize * 3];
    let ic = TileCreator::new_from_rgb(
        &data,
        width,
        height,
        254,
        1,
        String::from("test_files"),
        String::from("test.dzi"),
    );
    assert!(ic.is_ok());
    let ic = ic.unwrap();
    assert_eq!(ic.levels, 14);
    let (w, h) = ic.get_dimensions(ic.levels - 1).unwrap();
    assert_eq!(w, 5184);
    assert_eq!(h, 3456);

    let (w, h) = ic.get_dimensions(1).unwrap();
    assert_eq!(w, 2);
    assert_eq!(h, 1);

    let (c, r) = ic.get_tile_count(13).unwrap();
    assert_eq!(c, 21);
    assert_eq!(r, 14);
}

#[test]
fn test_level_count_edge_cases() {
    assert_eq!(TileCreator::calculate_levels(1, 1), 1);
    assert_eq!(TileCreator::calculate_levels(2, 1), 2);
    assert_eq!(TileCreator::calculate_levels(2, 2), 2);
    assert_eq!(TileCreator::calculate_levels(3, 1), 3);
    assert_eq!(TileCreator::calculate_levels(4, 4), 3);
    assert_eq!(TileCreator::calculate_levels(4096, 1), 13);
    assert_eq!(TileCreator::calculate_levels(4097, 1), 14);
    assert_eq!(TileCreator::calculate_levels(5184, 3456), 14);
    assert_eq!(TileCreator::calculate_levels(0, 0), 1);
    assert_eq!(TileCreator::calculate_levels(u32::MAX, 1), 33);
}

#[test]
fn test_dimensions_of_every_level() {
    let tc = creator(5184, 3456, 254, 1);
    // Halving with ceiling from the top level down.
    let expected = [
        (1u32, 1u32),
        (2, 1),
        (3, 2),
        (6, 4),
        (11, 7),
        (21, 14),
        (41, 27),
        (81, 54),
        (162, 108),
        (324, 216),
        (648, 432),
        (1296, 864),
        (2592, 1728),
        (5184, 3456),
    ];
    for (level, want) in expected.iter().enumerate() {
        let got = tc.get_dimensions(level as u32).unwrap();
        assert_eq!(got, *want, "level {}", level);
    }
}

#[test]
fn test_dimensions_power_of_two_source() {
    let tc = creator(4096, 2048, 254, 1);
    assert_eq!(tc.levels, 13);
    assert_eq!(tc.get_dimensions(12).unwrap(), (4096, 2048));
    assert_eq!(tc.get_dimensions(0).unwrap(), (1, 1));
}

#[test]
fn test_invalid_level_errors() {
    let tc = creator(16, 16, 254, 1);
    assert_eq!(tc.levels, 5);
    assert!(tc.check_level(4).is_ok());
    assert_eq!(tc.check_level(5), Err(TilingError::InvalidLevel));
    assert_eq!(tc.get_dimensions(5), Err(TilingError::InvalidLevel));
    assert_eq!(tc.get_tile_count(99), Err(TilingError::InvalidLevel));
    assert_eq!(tc.get_tile_bounds(5, 0, 0), Err(TilingError::InvalidLevel));
}

#[test]
fn test_dimension_mismatch() {
    // One byte short of width * height * 3.
    let data = vec![0u8; 4 * 4 * 3 - 1];
    let r = TileCreator::new_from_rgb(
        &data,
        4,
        4,
        254,
        1,
        String::from("a"),
        String::from("b"),
    );
    assert_eq!(r.unwrap_err(), TilingError::DimensionMismatch);

    // One byte too many.
    let data = vec![0u8; 4 * 4 * 3 + 1];
    let r = TileCreator::new_from_rgb(
        &data,
        4,
        4,
        254,
        1,
        String::from("a"),
        String::from("b"),
    );
    assert_eq!(r.unwrap_err(), TilingError::DimensionMismatch);

    // Exact length succeeds.
    let data = vec![0u8; 4 * 4 * 3];
    let r = TileCreator::new_from_rgb(
        &data,
        4,
        4,
        254,
        1,
        String::from("a"),
        String::from("b"),
    );
    assert!(r.is_ok());

    // The length check does not depend on the tile configuration: a
    // mismatched buffer fails the same way whatever the overlap, and a
    // matching one constructs.
    let data = vec![0u8; 4 * 4 * 3 - 1];
    let r = TileCreator::new_from_rgb(
        &data,
        4,
        4,
        1,
        9,
        String::from("a"),
        String::from("b"),
    );
    assert_eq!(r.unwrap_err(), TilingError::DimensionMismatch);
    let data = vec![0u8; 4 * 4 * 3];
    let r = TileCreator::new_from_rgb(
        &data,
        4,
        4,
        1,
        9,
        String::from("a"),
        String::from("b"),
    );
    assert!(r.is_ok());
}

#[test]
fn test_tile_bounds_values() {
    let tc = creator(5184, 3456, 254, 1);
    // Corner tile: no leading overlap on either axis.
    assert_eq!(tc.get_tile_bounds(13, 0, 0).unwrap(), (0, 0, 255, 255));
    // Interior tile: one pixel of overlap on each side.
    assert_eq!(tc.get_tile_bounds(13, 1, 1).unwrap(), (253, 253, 509, 509));
    // Edge-most tile: clipped flush to the image edges.
    assert_eq!(
        tc.get_tile_bounds(13, 20, 13).unwrap(),
        (5079, 3301, 5184, 3456)
    );
    // First column, interior row: leading overlap only vertically.
    assert_eq!(tc.get_tile_bounds(13, 0, 1).unwrap(), (0, 253, 255, 509));
}

#[test]
fn test_tile_bounds_whole_grid_in_range() {
    let tc = creator(1000, 600, 254, 1);
    let top = tc.levels - 1;
    let (lw, lh) = tc.get_dimensions(top).unwrap();
    let (cols, rows) = tc.get_tile_count(top).unwrap();
    assert_eq!((cols, rows), (4, 3));
    for col in 0..cols {
        for row in 0..rows {
            let (x0, y0, x1, y1) = tc.get_tile_bounds(top, col, row).unwrap();
            assert!(x0 < x1 && x1 <= lw, "tile ({col},{row})");
            assert!(y0 < y1 && y1 <= lh, "tile ({col},{row})");
            if col == 0 {
                assert_eq!(x0, 0);
            } else {
                assert_eq!(x0, col * 254 - 1);
            }
            if row == 0 {
                assert_eq!(y0, 0);
            } else {
                assert_eq!(y0, row * 254 - 1);
            }
            assert_eq!(x1, std::cmp::min(col * 254 + 254 + 1, lw));
            assert_eq!(y1, std::cmp::min(row * 254 + 254 + 1, lh));
        }
    }
}

#[test]
fn test_error_messages() {
    assert_eq!(TilingError::InvalidLevel.message(), "level out of range");
    assert_eq!(
        TilingError::DimensionMismatch.message(),
        "input dimensions do not match input rgb data length"
    );
    assert_eq!(
        TilingError::UnsupportedSourceImage.message(),
        "unsupported source image"
    );
    assert_eq!(TilingError::IOError.message(), "io error");
    assert_eq!(TilingError::CodecError.message(), "codec error");
}
