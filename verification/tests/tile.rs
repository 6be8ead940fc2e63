use thanatos::{
    ColorIndex, Compressable, DecompressError, Palette, PartialTileSet, Rgba, Tile, TileMap,
    TileMapEntry, TileSet, TileSettings,
};

fn colors(tile: &Tile) -> Vec<usize> {
    tile.data().iter().map(|c| c.get()).collect()
}

#[test]
fn tile_from_slice_reads_four_planes() {
    let mut data = [0u8; 32];
    // row 0: plane 0 has the leftmost pixel, plane 1 the rightmost
    data[0] = 0x80;
    data[1] = 0x01;
    // row 0: plane 2 has every pixel
    data[16] = 0xFF;
    // row 7: plane 3 has the second pixel
    data[16 + 15] = 0x40;
    let tile = Tile::from_slice(&data);
    let pixels = colors(&tile);
    assert_eq!(pixels.len(), 64);
    assert_eq!(&pixels[0..8], &[5, 4, 4, 4, 4, 4, 4, 6]);
    assert_eq!(&pixels[8..16], &[0, 0, 0, 0, 0, 0, 0, 0]);
    assert_eq!(&pixels[56..64], &[0, 8, 0, 0, 0, 0, 0, 0]);
}

#[test]
fn tile_from_slice_of_all_ones_is_colour_15() {
    let tile = Tile::from_slice(&[0xFF; 32]);
    assert_eq!(colors(&tile), vec![15; 64]);
    assert_eq!(tile.pixel(63).get(), 15);
}

#[test]
fn blank_tile_is_colour_0() {
    assert_eq!(colors(&Tile::blank()), vec![0; 64]);
}

#[test]
fn tile_map_entry_fields() {
    let entry = TileMapEntry::new(0xFFFF);
    assert_eq!(entry.tile_index(), 1023);
    assert_eq!(entry.palette_index().get(), 7);
    let settings = entry.tile_settings();
    assert_eq!(settings.priority, 3);
    assert!(settings.x_flip);
    assert!(settings.y_flip);
    assert_eq!(entry.as_u16(), 0xFFFF);

    // bit 13 and bit 10
    let entry = TileMapEntry::new(0x2400);
    assert_eq!(entry.tile_index(), 0);
    assert_eq!(entry.palette_index().get(), 1);
    let settings = entry.tile_settings();
    assert_eq!(settings.priority, 1);
    assert!(!settings.x_flip);
    assert!(!settings.y_flip);

    // bit 15 and tile 0x155
    let entry = TileMapEntry::new(0x8155);
    assert_eq!(entry.tile_index(), 0x155);
    assert_eq!(entry.palette_index().get(), 0);
    let settings = entry.tile_settings();
    assert_eq!(settings.priority, 0);
    assert!(!settings.x_flip);
    assert!(settings.y_flip);

    // bit 14 is the horizontal flip and the high bit of the priority
    let settings = TileMapEntry::new(0x4000).tile_settings();
    assert_eq!(settings.priority, 2);
    assert!(settings.x_flip);
    assert!(!settings.y_flip);
}

#[test]
fn default_tile_settings() {
    let settings = TileSettings::default();
    assert!(!settings.x_flip);
    assert!(!settings.y_flip);
    assert_eq!(settings.priority, 0);
}

#[test]
fn tile_map_needs_whole_entries() {
    assert_eq!(TileMap::try_from_slice(&[1, 2, 3]).err(), Some(DecompressError::InvalidData));
    assert_eq!(TileMap::try_from_slice(&[]).unwrap().len(), 0);
}

#[test]
fn tile_map_entries_are_little_endian() {
    let map = TileMap::try_from_slice(&[0x34, 0x12, 0xFF, 0x00]).unwrap();
    assert_eq!(map.len(), 2);
    assert_eq!(map.index(0).as_u16(), 0x1234);
    assert_eq!(map.index(1).as_u16(), 0x00FF);
}

#[test]
fn partial_tile_set_needs_whole_tiles() {
    assert_eq!(
        PartialTileSet::try_from_slice(&[0u8; 33]).err(),
        Some(DecompressError::InvalidData)
    );
    assert_eq!(
        PartialTileSet::try_from_slice(&[0u8; 31]).err(),
        Some(DecompressError::InvalidData)
    );
    assert_eq!(PartialTileSet::try_from_slice(&[]).unwrap().len(), 0);
}

#[test]
fn partial_tile_set_takes_32_bytes_a_tile() {
    let mut data = vec![0u8; 64];
    data[32] = 0x80;
    let tiles = PartialTileSet::try_from_slice(&data).unwrap();
    assert_eq!(tiles.len(), 2);
    assert_eq!(tiles.tiles().len(), 2);
    assert_eq!(colors(&tiles.tiles()[0]), vec![0; 64]);
    assert_eq!(colors(&tiles.tiles()[1])[0], 1);
}

#[test]
fn partial_tile_set_from_compressed() {
    // 32 times 0xff
    let rom = [0xE0, 0x1D, 0xFF, 0xFF];
    let tiles = PartialTileSet::from_compressed(&rom, 0).unwrap();
    assert_eq!(tiles.len(), 1);
    assert_eq!(colors(&tiles.tiles()[0]), vec![15; 64]);
}

#[test]
fn tile_set_starts_blank_and_takes_tiles_at_offset() {
    let mut set = TileSet::new();
    assert_eq!(set.tiles().len(), 1024);
    assert_eq!(colors(set.index(0)), vec![0; 64]);
    assert_eq!(colors(set.index(1023)), vec![0; 64]);

    let tiles = PartialTileSet::try_from_slice(&[0xFF; 64]).unwrap();
    set.add_tile_data(1022, tiles);
    assert_eq!(colors(set.index(1021)), vec![0; 64]);
    assert_eq!(colors(set.index(1022)), vec![15; 64]);
    assert_eq!(colors(set.index(1023)), vec![15; 64]);
    assert_eq!(colors(&set.tiles()[1023]), vec![15; 64]);
}

fn two_colour_tile() -> Tile {
    // colour 1 in the top left pixel, colour 2 in the bottom right one
    let mut data = [0u8; 32];
    data[0] = 0x80;
    data[15] = 0x01;
    Tile::from_slice(&data)
}

fn palette_for_drawing() -> Palette {
    let mut data = [0u8; 32];
    // colour 1 red, colour 2 blue
    data[2] = 0x1F;
    data[5] = 0x7C;
    Palette::from_slice(&data)
}

const CLEAR: Rgba = Rgba { r: 0, g: 0, b: 0, a: 0 };
const RED: Rgba = Rgba { r: 248, g: 0, b: 0, a: 255 };
const BLUE: Rgba = Rgba { r: 0, g: 0, b: 248, a: 255 };

#[test]
fn tile_with_palette_draws_colours_and_leaves_colour_0_clear() {
    let image = two_colour_tile().with_palette(&palette_for_drawing(), TileSettings::default());
    assert_eq!(image.width(), 8);
    assert_eq!(image.height(), 8);
    assert_eq!(image.pixels().len(), 64);
    assert_eq!(image.get_pixel(0, 0), RED);
    assert_eq!(image.get_pixel(7, 7), BLUE);
    assert_eq!(image.get_pixel(7, 0), CLEAR);
    assert_eq!(image.get_pixel(0, 7), CLEAR);
    assert_eq!(image.get_pixel(3, 4), CLEAR);
}

#[test]
fn tile_with_palette_flips() {
    let tile = two_colour_tile();
    let palette = palette_for_drawing();

    let x = TileSettings { x_flip: true, y_flip: false, priority: 0 };
    let image = tile.with_palette(&palette, x);
    assert_eq!(image.get_pixel(7, 0), RED);
    assert_eq!(image.get_pixel(0, 7), BLUE);
    assert_eq!(image.get_pixel(0, 0), CLEAR);

    let y = TileSettings { x_flip: false, y_flip: true, priority: 0 };
    let image = tile.with_palette(&palette, y);
    assert_eq!(image.get_pixel(0, 7), RED);
    assert_eq!(image.get_pixel(7, 0), BLUE);

    let both = TileSettings { x_flip: true, y_flip: true, priority: 0 };
    let image = tile.with_palette(&palette, both);
    assert_eq!(image.get_pixel(7, 7), RED);
    assert_eq!(image.get_pixel(0, 0), BLUE);
}

#[test]
fn color_index_of_tile_pixel() {
    let tile = two_colour_tile();
    assert_eq!(tile.pixel(0).get(), 1);
    assert_eq!(tile.pixel(63).get(), 2);
    assert!(tile.pixel(1).is_transparent());
    assert_eq!(ColorIndex::new(2).get(), tile.data()[63].get());
}
