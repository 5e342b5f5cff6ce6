use dzi::RgbRaster;
use dzi::TileCreator;

fn creator_from(data: Vec<u8>, width: u32, height: u32, ts: u32, ov: u32) -> TileCreator {
    TileCreator::new_from_rgb(
        &data,
        width,
        height,
        ts,
        ov,
        String::from("out_files"),
        String::from("out.dzi"),
    )
    .unwrap()
}

/// A raster whose bytes are all distinct (mod 251), so any misplaced
/// pixel is caught.
fn distinct_bytes(width: u32, height: u32) -> Vec<u8> {
    (0..width as usize * height as usize * 3)
        .map(|i| (i % 251) as u8)
        .collect()
}

#[test]
fn test_crop_interior() {
    let src = RgbRaster { width: 3, height: 2, data: (0u8..18).collect() };
    let t = src.crop(1, 0, 2, 2);
    assert_eq!(t.width, 2);
    assert_eq!(t.height, 2);
    // Rows 0 and 1, columns 1 and 2 of the source.
    assert_eq!(t.data, vec![3, 4, 5, 6, 7, 8, 12, 13, 14, 15, 16, 17]);
}

#[test]
fn test_crop_clamps_to_edges() {
    let src = RgbRaster { width: 3, height: 2, data: (0u8..18).collect() };
    // Nominal rectangle sticks out past the right and bottom edges.
    let t = src.crop(2, 1, 5, 5);
    assert_eq!(t.width, 1);
    assert_eq!(t.height, 1);
    assert_eq!(t.data, vec![15, 16, 17]);
    // Rectangle entirely outside: empty result.
    let t = src.crop(7, 9, 2, 2);
    assert_eq!(t.width, 0);
    assert_eq!(t.height, 0);
    assert_eq!(t.data, Vec::<u8>::new());
}

#[test]
fn test_stitching_full_resolution_level() {
    let width: u32 = 5;
    let height: u32 = 4;
    let data = distinct_bytes(width, height);
    let tc = creator_from(data.clone(), width, height, 2, 1);
    let top = tc.levels - 1;
    let li = tc.get_level_image(top).unwrap();
    // The full-resolution level is the source itself.
    assert_eq!(li.width, width);
    assert_eq!(li.height, height);
    assert_eq!(li.data, data);

    let tiles = tc.cut_tiles(top, &li).unwrap();
    let (cols, rows) = tc.get_tile_count(top).unwrap();
    assert_eq!((cols, rows), (3, 2));
    assert_eq!(tiles.len(), (cols * rows) as usize);

    // Stitch every tile back at its offsets; overlapping pixels must
    // agree, and every pixel must be written at least once.
    let mut stitched = vec![0u8; data.len()];
    let mut written = vec![false; (width * height) as usize];
    for col in 0..cols {
        for row in 0..rows {
            let k = (col * rows + row) as usize;
            let t = &tiles[k];
            let (x0, y0, x1, y1) = tc.get_tile_bounds(top, col, row).unwrap();
            assert_eq!(t.width, x1 - x0);
            assert_eq!(t.height, y1 - y0);
            for j in 0..t.height {
                for i in 0..t.width {
                    for c in 0..3u32 {
                        let dst = (((y0 + j) * width + x0 + i) * 3 + c) as usize;
                        let srcb = t.data[((j * t.width + i) * 3 + c) as usize];
                        if written[((y0 + j) * width + x0 + i) as usize] {
                            assert_eq!(stitched[dst], srcb, "overlap disagrees");
                        }
                        stitched[dst] = srcb;
                    }
                    written[((y0 + j) * width + x0 + i) as usize] = true;
                }
            }
        }
    }
    assert!(written.iter().all(|w| *w), "some pixel was never covered");
    assert_eq!(stitched, data, "stitched raster differs from the source");
}

#[test]
fn test_level_image_downscale() {
    let tc = creator_from(distinct_bytes(4, 4), 4, 4, 254, 1);
    assert_eq!(tc.levels, 3);
    let li = tc.get_level_image(1).unwrap();
    assert_eq!((li.width, li.height), (2, 2));
    assert_eq!(li.data.len(), 2 * 2 * 3);
    let li = tc.get_level_image(0).unwrap();
    assert_eq!((li.width, li.height), (1, 1));
    assert_eq!(li.data.len(), 3);
}

#[test]
fn test_level_image_has_computed_dimensions() {
    // A non-square source where ceiling rounding changes the aspect
    // ratio: an aspect-preserving fit would shrink one axis below the
    // computed size, but every level must measure exactly
    // get_dimensions(level).
    let tc = creator_from(distinct_bytes(7, 5), 7, 5, 254, 1);
    assert_eq!(tc.levels, 4);
    for level in 0..tc.levels {
        let (w, h) = tc.get_dimensions(level).unwrap();
        let li = tc.get_level_image(level).unwrap();
        assert_eq!((li.width, li.height), (w, h), "level {}", level);
        assert_eq!(li.data.len(), (w * h * 3) as usize);
    }
    assert_eq!(tc.get_dimensions(1).unwrap(), (2, 2));
}

#[test]
fn test_create_level_names_and_tiles() {
    let tc = creator_from(distinct_bytes(5, 4), 5, 4, 2, 1);
    let top = tc.levels - 1;
    let lt = tc.create_level(top).unwrap();
    assert_eq!(lt.level, top);
    assert_eq!(lt.dir_name, top.to_string());
    assert_eq!(lt.tiles.len(), 6);
    // Column by column, rows within a column.
    let expected = [
        (0u32, 0u32),
        (0, 1),
        (1, 0),
        (1, 1),
        (2, 0),
        (2, 1),
    ];
    for (k, (col, row)) in expected.iter().enumerate() {
        let t = &lt.tiles[k];
        assert_eq!((t.col, t.row), (*col, *row));
        assert_eq!(t.file_name, format!("{}_{}.jpg", col, row));
        // Every tile is a JPEG stream, not the raw pixels.
        assert!(t.jpeg.len() > 2);
        assert_eq!(&t.jpeg[0..2], &[0xFF, 0xD8], "missing JPEG marker");
    }
}

#[test]
fn test_create_tiles_structure() {
    let tc = creator_from(distinct_bytes(5, 4), 5, 4, 2, 1);
    let out = tc.create_tiles().unwrap();
    assert_eq!(out.levels.len(), tc.levels as usize);
    for (l, lt) in out.levels.iter().enumerate() {
        assert_eq!(lt.level as usize, l);
        assert_eq!(lt.dir_name, l.to_string());
        let (cols, rows) = tc.get_tile_count(l as u32).unwrap();
        assert_eq!(lt.tiles.len(), (cols * rows) as usize);
        for t in &lt.tiles {
            assert_eq!(&t.jpeg[0..2], &[0xFF, 0xD8]);
        }
    }
    assert!(out.descriptor.contains("TileSize=\"2\""));
    assert!(out.descriptor.contains("Overlap=\"1\""));
    assert!(out.descriptor.contains("Width=\"5\""));
    assert!(out.descriptor.contains("Height=\"4\""));
}

#[test]
fn test_jpeg_encoding_differs_from_input() {
    // A one-tile image: the encoded bytes must not be the raw buffer
    // handed back unchanged.
    let data = distinct_bytes(8, 8);
    let tc = creator_from(data.clone(), 8, 8, 254, 1);
    let top = tc.levels - 1;
    let lt = tc.create_level(top).unwrap();
    assert_eq!(lt.tiles.len(), 1);
    assert_ne!(lt.tiles[0].jpeg, data);
    assert_eq!(&lt.tiles[0].jpeg[0..2], &[0xFF, 0xD8]);
}

#[test]
fn test_codec_error_on_oversized_tile() {
    // A tile size beyond the JPEG dimension limit makes the top level's
    // single tile unencodable, and the failure aborts the whole run.
    let width: u32 = 70000;
    let data = vec![0u8; width as usize * 3];
    let tc = creator_from(data, width, 1, 70000, 0);
    let top = tc.levels - 1;
    assert_eq!(
        tc.create_level(top).unwrap_err(),
        dzi::TilingError::CodecError
    );
    assert_eq!(
        tc.create_tiles().unwrap_err(),
        dzi::TilingError::CodecError
    );
}

#[test]
fn test_new_from_rgb_stores_configuration() {
    let tc = TileCreator::new_from_rgb(
        &vec![7u8; 2 * 3 * 3],
        2,
        3,
        16,
        2,
        String::from("deep_files"),
        String::from("deep.dzi"),
    )
    .unwrap();
    assert_eq!(tc.tile_size, 16);
    assert_eq!(tc.tile_overlap, 2);
    assert_eq!(tc.dest_path, "deep_files");
    assert_eq!(tc.dzi_file_path, "deep.dzi");
    assert_eq!(tc.image.width, 2);
    assert_eq!(tc.image.height, 3);
    assert_eq!(tc.image.data, vec![7u8; 18]);
    assert_eq!(tc.levels, 3);
}
