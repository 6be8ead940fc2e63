use std::sync::Arc;
use thanatos::rom::map::{
    PaletteDefinition, PaletteLayout, RomMetadata, SpriteDefinition, TileSetDefinition,
    TileSetLayout,
};
use thanatos::{
    ColorIndex, Compressable, DecompressError, MappedRom, PaletteCollection, PaletteIndex,
    PartialTileSet, Rgb, Rgba, Rom, RomError, RomMap, Sprite, TileMap, TileSet,
};

const CLEAR: Rgba = Rgba { r: 0, g: 0, b: 0, a: 0 };
const WHITE: Rgba = Rgba { r: 248, g: 248, b: 248, a: 255 };

// A small image with four compressed regions.
const PALETTES: usize = 0;
const TILES: usize = 4;
const TILE_MAP: usize = 8;
const MORE_PALETTES: usize = 14;
const BROKEN: usize = 18;

fn image() -> Vec<u8> {
    let mut rom = Vec::new();
    // 512 times 0xff: every colour of every palette white
    rom.extend_from_slice(&[0xE1, 0xFD, 0xFF, 0xFF]);
    // 32 times 0xff: one tile of colour 15
    rom.extend_from_slice(&[0xE0, 0x1D, 0xFF, 0xFF]);
    // two entries: tile 0, and tile 1 with palette 1
    rom.extend_from_slice(&[0x03, 0x00, 0x00, 0x01, 0x04, 0xFF]);
    // 32 times 0x00: one palette of black
    rom.extend_from_slice(&[0xE0, 0x1D, 0x00, 0xFF]);
    // a back-read with nothing to read back
    rom.extend_from_slice(&[0x80, 0x01, 0xFF]);
    rom
}

fn metadata(rom: &Rom) -> RomMetadata {
    RomMetadata { name: String::from("test image"), crc: rom.crc() }
}

fn palette(name: &str, regions: &[(usize, usize)]) -> PaletteDefinition {
    PaletteDefinition {
        name: String::from(name),
        layout: regions.iter().map(|&(region, start)| PaletteLayout { region, start }).collect(),
    }
}

fn tileset(name: &str, regions: &[(usize, usize)]) -> TileSetDefinition {
    TileSetDefinition {
        name: String::from(name),
        layout: regions.iter().map(|&(region, offset)| TileSetLayout { region, offset }).collect(),
    }
}

fn sprite(name: &str, size: (u32, u32), tileset: &str, palette: &str) -> SpriteDefinition {
    SpriteDefinition {
        name: String::from(name),
        category: Some(String::from("things")),
        size,
        tileset: String::from(tileset),
        palette: String::from(palette),
        layout_region: TILE_MAP,
    }
}

fn map(rom: &Rom) -> RomMap {
    RomMap {
        supported_roms: vec![metadata(rom)],
        palettes: vec![palette("main", &[(PALETTES, 0), (MORE_PALETTES, 1)])],
        sprites: vec![sprite("pair", (2, 1), "tiles", "main")],
        tilesets: vec![tileset("tiles", &[(TILES, 0)])],
    }
}

#[test]
fn rom_checksum_is_crc32() {
    let rom = Rom::new(b"123456789");
    assert_eq!(rom.crc(), 0xCBF43926);
    assert_eq!(rom.data(), b"123456789");
    assert_eq!(Rom::new(&[]).crc(), 0);
}

#[test]
fn rom_from_vec_keeps_the_bytes() {
    let rom = Rom::from_vec(b"123456789".to_vec());
    assert_eq!(rom.crc(), 0xCBF43926);
    assert_eq!(rom.data(), b"123456789");
}

#[test]
fn map_finds_first_entry_with_the_checksum() {
    let bytes = image();
    let rom = Rom::new(&bytes);
    let mut map = map(&rom);
    map.supported_roms = vec![
        RomMetadata { name: String::from("other"), crc: rom.crc().wrapping_add(1) },
        RomMetadata { name: String::from("first"), crc: rom.crc() },
        RomMetadata { name: String::from("second"), crc: rom.crc() },
    ];
    assert!(map.is_compatible_with(&rom));
    let found = map.get_compatible_metadata(&rom).unwrap();
    assert_eq!(found.name, "first");
    assert_eq!(found.crc, rom.crc());
}

#[test]
fn map_without_the_checksum_is_not_compatible() {
    let bytes = image();
    let rom = Rom::new(&bytes);
    let mut map = map(&rom);
    map.supported_roms[0].crc = rom.crc().wrapping_add(1);
    assert!(!map.is_compatible_with(&rom));
    assert!(map.get_compatible_metadata(&rom).is_none());
    map.supported_roms.clear();
    assert!(!map.is_compatible_with(&rom));
}

#[test]
fn find_inbuilt_takes_the_first_compatible_map() {
    let bytes = image();
    let rom = Rom::new(&bytes);
    let mut other = map(&rom);
    other.supported_roms[0].crc = rom.crc().wrapping_add(1);
    let mut first = map(&rom);
    first.supported_roms[0].name = String::from("first");
    let mut second = map(&rom);
    second.supported_roms[0].name = String::from("second");

    let maps = vec![other.clone(), first, second];
    let found = RomMap::find_inbuilt_for(&maps, &rom).unwrap();
    assert_eq!(found.supported_roms[0].name, "first");

    assert!(RomMap::find_inbuilt_for(&[other], &rom).is_none());
    assert!(RomMap::find_inbuilt_for(&[], &rom).is_none());
}

#[test]
fn mapped_rom_holds_what_the_map_describes() {
    let bytes = image();
    let rom = Rom::new(&bytes);
    let mapped = MappedRom::new(&rom, &map(&rom)).unwrap();

    assert_eq!(mapped.metadata.name, "test image");
    assert_eq!(mapped.metadata.crc, rom.crc());

    assert_eq!(mapped.palettes.len(), 1);
    assert_eq!(mapped.palettes[0].name, "main");
    let palettes = &mapped.palettes[0].palettes;
    let white = Rgb { r: 248, g: 248, b: 248 };
    let black = Rgb { r: 0, g: 0, b: 0 };
    assert_eq!(*palettes.index(PaletteIndex::new(0)).index(ColorIndex::new(15)), white);
    // the second region lies over palette 1
    assert_eq!(*palettes.index(PaletteIndex::new(1)).index(ColorIndex::new(15)), black);
    assert_eq!(*palettes.index(PaletteIndex::new(2)).index(ColorIndex::new(15)), white);

    assert_eq!(mapped.sprites.len(), 1);
    let sprite = &mapped.sprites[0];
    assert_eq!(sprite.name, "pair");
    assert_eq!(sprite.category.as_deref(), Some("things"));
    assert_eq!(sprite.sprite.size, (2, 1));
    assert_eq!(sprite.sprite.tile_map.len(), 2);
    assert_eq!(sprite.sprite.tile_map.index(1).as_u16(), 0x0401);
    assert_eq!(sprite.sprite.tiles.index(0).pixel(0).get(), 15);
    assert_eq!(sprite.sprite.tiles.index(1).pixel(0).get(), 0);
    assert!(Arc::ptr_eq(&sprite.sprite.palettes, palettes));
}

#[test]
fn mapped_sprite_draws_its_tiles_side_by_side() {
    let bytes = image();
    let rom = Rom::new(&bytes);
    let mapped = MappedRom::new(&rom, &map(&rom)).unwrap();
    let image = mapped.sprites[0].sprite.to_image();
    assert_eq!(image.width(), 16);
    assert_eq!(image.height(), 8);
    assert_eq!(image.pixels().len(), 128);
    // tile 0 is full of colour 15 of palette 0; tile 1 is blank
    for y in 0..8 {
        for x in 0..8 {
            assert_eq!(image.get_pixel(x, y), WHITE);
            assert_eq!(image.get_pixel(x + 8, y), CLEAR);
        }
    }
}

#[test]
fn sprites_with_one_region_share_the_tile_map() {
    let bytes = image();
    let rom = Rom::new(&bytes);
    let mut map = map(&rom);
    map.sprites.push(sprite("column", (1, 2), "tiles", "main"));
    let mapped = MappedRom::new(&rom, &map).unwrap();
    assert_eq!(mapped.sprites.len(), 2);
    assert_eq!(mapped.sprites[1].name, "column");
    assert!(Arc::ptr_eq(&mapped.sprites[0].sprite.tile_map, &mapped.sprites[1].sprite.tile_map));
    assert!(Arc::ptr_eq(&mapped.sprites[0].sprite.tiles, &mapped.sprites[1].sprite.tiles));

    let image = mapped.sprites[1].sprite.to_image();
    assert_eq!(image.width(), 8);
    assert_eq!(image.height(), 16);
    assert_eq!(image.get_pixel(7, 7), WHITE);
    assert_eq!(image.get_pixel(0, 8), CLEAR);
}

#[test]
fn later_definition_replaces_earlier_of_the_same_name() {
    let bytes = image();
    let rom = Rom::new(&bytes);
    let mut map = map(&rom);
    map.palettes.push(palette("other", &[(PALETTES, 0)]));
    map.palettes.push(palette("main", &[(PALETTES, 0)]));
    let mapped = MappedRom::new(&rom, &map).unwrap();
    assert_eq!(mapped.palettes.len(), 2);
    let main = mapped.palettes.iter().find(|p| p.name == "main").unwrap();
    let white = Rgb { r: 248, g: 248, b: 248 };
    assert_eq!(*main.palettes.index(PaletteIndex::new(1)).index(ColorIndex::new(1)), white);
    assert!(mapped.palettes.iter().any(|p| p.name == "other"));
}

#[test]
fn incompatible_map_is_refused() {
    let bytes = image();
    let rom = Rom::new(&bytes);
    let mut map = map(&rom);
    map.supported_roms[0].crc = rom.crc().wrapping_add(1);
    assert!(matches!(MappedRom::new(&rom, &map), Err(RomError::IncompatibleMap)));
}

#[test]
fn forced_mapping_ignores_the_checksum() {
    let bytes = image();
    let rom = Rom::new(&bytes);
    let mut map = map(&rom);
    map.supported_roms.clear();
    let mapped = MappedRom::new_forced(&rom, &map).unwrap();
    assert_eq!(mapped.metadata.name, "Unknown");
    assert_eq!(mapped.metadata.crc, rom.crc());
    assert_eq!(mapped.sprites.len(), 1);
}

#[test]
fn palette_definition_without_region_is_invalid() {
    let bytes = image();
    let rom = Rom::new(&bytes);
    let mut map = map(&rom);
    map.palettes.push(palette("empty", &[]));
    match MappedRom::new(&rom, &map) {
        Err(RomError::InvalidPaletteDefinition(name)) => assert_eq!(name, "empty"),
        other => panic!("unexpected: {:?}", other.map(|_| ())),
    }
}

#[test]
fn unknown_palette_is_reported_with_both_names() {
    let bytes = image();
    let rom = Rom::new(&bytes);
    let mut map = map(&rom);
    map.sprites[0].palette = String::from("missing");
    map.sprites[0].tileset = String::from("missing too");
    match MappedRom::new(&rom, &map) {
        Err(RomError::UnknownPalette(sprite, palette)) => {
            assert_eq!(sprite, "pair");
            assert_eq!(palette, "missing");
        }
        other => panic!("unexpected: {:?}", other.map(|_| ())),
    }
}

#[test]
fn unknown_tileset_is_reported_with_both_names() {
    let bytes = image();
    let rom = Rom::new(&bytes);
    let mut map = map(&rom);
    map.sprites[0].tileset = String::from("missing");
    match MappedRom::new(&rom, &map) {
        Err(RomError::UnknownTileset(sprite, tileset)) => {
            assert_eq!(sprite, "pair");
            assert_eq!(tileset, "missing");
        }
        other => panic!("unexpected: {:?}", other.map(|_| ())),
    }
}

#[test]
fn decoder_error_in_a_region_is_handed_on() {
    let bytes = image();
    let rom = Rom::new(&bytes);
    let mut map = map(&rom);
    map.tilesets[0].layout.push(TileSetLayout { region: BROKEN, offset: 0 });
    assert!(matches!(
        MappedRom::new(&rom, &map),
        Err(RomError::Decompress(DecompressError::InvalidOperation))
    ));
}

#[test]
fn region_of_the_wrong_shape_is_invalid_data() {
    let bytes = image();
    let rom = Rom::new(&bytes);

    // a tile map region as palette data
    let mut wrong_palette = map(&rom);
    wrong_palette.palettes[0].layout[0].region = TILE_MAP;
    assert!(matches!(
        MappedRom::new(&rom, &wrong_palette),
        Err(RomError::Decompress(DecompressError::InvalidData))
    ));

    // a palette that does not fit behind palette 15
    let mut too_far = map(&rom);
    too_far.palettes[0].layout[1].start = 16;
    assert!(matches!(
        MappedRom::new(&rom, &too_far),
        Err(RomError::Decompress(DecompressError::InvalidData))
    ));

    // a tile that does not fit behind tile 1023
    let mut no_room = map(&rom);
    no_room.tilesets[0].layout[0].offset = 1024;
    assert!(matches!(
        MappedRom::new(&rom, &no_room),
        Err(RomError::Decompress(DecompressError::InvalidData))
    ));

    // a sprite of three tiles with a tile map of two
    let mut wrong_size = map(&rom);
    wrong_size.sprites[0].size = (3, 1);
    assert!(matches!(
        MappedRom::new(&rom, &wrong_size),
        Err(RomError::Decompress(DecompressError::InvalidData))
    ));
}

#[test]
fn tile_map_errors_come_before_unknown_names() {
    let bytes = image();
    let rom = Rom::new(&bytes);
    let mut map = map(&rom);
    map.sprites[0].palette = String::from("missing");
    let mut broken = sprite("broken", (1, 1), "tiles", "main");
    broken.layout_region = BROKEN;
    map.sprites.push(broken);
    assert!(matches!(
        MappedRom::new(&rom, &map),
        Err(RomError::Decompress(DecompressError::InvalidOperation))
    ));
}

#[test]
fn sprite_clone_shares_its_parts() {
    let tiles = Arc::new(TileSet::new());
    let tile_map = Arc::new(TileMap::try_from_slice(&[0, 0]).unwrap());
    let palettes = Arc::new(PaletteCollection::black());
    let sprite = Sprite::new((1, 1), tiles.clone(), tile_map.clone(), palettes.clone());
    let copy = sprite.clone();
    assert_eq!(copy.size, (1, 1));
    assert!(Arc::ptr_eq(&copy.tiles, &tiles));
    assert!(Arc::ptr_eq(&copy.tile_map, &tile_map));
    assert!(Arc::ptr_eq(&copy.palettes, &palettes));
}

#[test]
fn sprite_draws_flipped_tiles_with_their_palette() {
    // tile 1: colour 1 in the top left pixel
    let mut tile_data = vec![0u8; 64];
    tile_data[32] = 0x80;
    let mut tiles = TileSet::new();
    tiles.add_tile_data(0, PartialTileSet::try_from_slice(&tile_data).unwrap());

    // palette 2, colour 1: red
    let mut palette_data = vec![0u8; 512];
    palette_data[2 * 32 + 2] = 0x1F;
    let palettes = PaletteCollection::try_from_slice(&palette_data).unwrap();

    // tile 1 with palette 2, plain and flipped both ways
    let plain: u16 = 1 | (2 << 10);
    let flipped: u16 = plain | 0xC000;
    let map_data = [plain as u8, (plain >> 8) as u8, flipped as u8, (flipped >> 8) as u8];
    let tile_map = TileMap::try_from_slice(&map_data).unwrap();

    let sprite = Sprite::new((1, 2), Arc::new(tiles), Arc::new(tile_map), Arc::new(palettes));
    let image = sprite.to_image();
    let red = Rgba { r: 248, g: 0, b: 0, a: 255 };
    assert_eq!(image.width(), 8);
    assert_eq!(image.height(), 16);
    assert_eq!(image.get_pixel(0, 0), red);
    assert_eq!(image.get_pixel(7, 15), red);
    let reds = image.pixels().iter().filter(|p| **p == red).count();
    assert_eq!(reds, 2);
    let clear = image.pixels().iter().filter(|p| **p == CLEAR).count();
    assert_eq!(clear, 126);
}

#[test]
fn empty_sprite_draws_an_empty_image() {
    let tile_map = TileMap::try_from_slice(&[]).unwrap();
    let sprite = Sprite::new(
        (0, 5),
        Arc::new(TileSet::new()),
        Arc::new(tile_map),
        Arc::new(PaletteCollection::black()),
    );
    let image = sprite.to_image();
    assert_eq!(image.width(), 0);
    assert_eq!(image.height(), 40);
    assert_eq!(image.pixels().len(), 0);
}
