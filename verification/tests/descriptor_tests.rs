use dzi::descriptor::descriptor_xml;
use dzi::text::tile_file_name;
use dzi::text::u32_to_decimal;
use dzi::TileCreator;

#[test]
fn test_descriptor_exact_document() {
    let expected = "<?xml version=\"1.0\" encoding=\"UTF-8\"?>\n<Image xmlns=\"http://schemas.microsoft.com/deepzoom/2008\"\n    TileSize=\"254\"\n    Overlap=\"1\"\n    Format=\"jpg\">\n    <Size Width=\"5184\" Height=\"3456\"/>\n</Image>";
    assert_eq!(descriptor_xml(254, 1, 5184, 3456), expected);
}

#[test]
fn test_descriptor_attributes_match_configuration() {
    let data = vec![0u8; 6 * 3 * 3];
    let tc = TileCreator::new_from_rgb(
        &data,
        6,
        3,
        128,
        4,
        String::from("x_files"),
        String::from("x.dzi"),
    )
    .unwrap();
    let out = tc.create_tiles().unwrap();
    let expected = "<?xml version=\"1.0\" encoding=\"UTF-8\"?>\n<Image xmlns=\"http://schemas.microsoft.com/deepzoom/2008\"\n    TileSize=\"128\"\n    Overlap=\"4\"\n    Format=\"jpg\">\n    <Size Width=\"6\" Height=\"3\"/>\n</Image>";
    assert_eq!(out.descriptor, expected);
}

#[test]
fn test_decimal_formatting() {
    assert_eq!(u32_to_decimal(0), "0");
    assert_eq!(u32_to_decimal(7), "7");
    assert_eq!(u32_to_decimal(10), "10");
    assert_eq!(u32_to_decimal(254), "254");
    assert_eq!(u32_to_decimal(4294967295), "4294967295");
}

#[test]
fn test_tile_file_names() {
    assert_eq!(tile_file_name(0, 0), "0_0.jpg");
    assert_eq!(tile_file_name(12, 3), "12_3.jpg");
}

#[test]
fn test_derive_output_names() {
    let (dir, dzi) = TileCreator::derive_output_names("picture");
    assert_eq!(dir, "picture_files");
    assert_eq!(dzi, "picture.dzi");
}
