//! The map of a cartridge image: which images it describes and where their
//! palettes, tile sets and sprites lie.

use vstd::prelude::*;

use super::Rom;

verus! {

/// A map of the compressed regions of a cartridge image.
#[derive(Debug, Clone)]
pub struct RomMap {
    pub supported_roms: Vec<RomMetadata>,
    pub palettes: Vec<PaletteDefinition>,
    pub sprites: Vec<SpriteDefinition>,
    pub tilesets: Vec<TileSetDefinition>,
}

/// A cartridge image that a map describes.
#[derive(Debug, Clone)]
pub struct RomMetadata {
    pub name: String,
    pub crc: u32,
}

/// A palette collection and the regions it is put together from.
#[derive(Debug, Clone)]
pub struct PaletteDefinition {
    pub name: String,
    pub layout: Vec<PaletteLayout>,
}

/// A compressed region of palette data; its palettes go into the collection
/// from palette `start` on.
#[derive(Debug, Clone)]
pub struct PaletteLayout {
    pub region: usize,
    pub start: usize,
}

/// A sprite: its size in tiles and the names of what it is drawn with.
#[derive(Debug)]
pub struct SpriteDefinition {
    pub name: String,
    pub category: Option<String>,
    pub size: (u32, u32),
    pub tileset: String,
    pub palette: String,
    pub layout_region: usize,
}

/// A tile set and the regions it is put together from.
#[derive(Debug, Clone)]
pub struct TileSetDefinition {
    pub name: String,
    pub layout: Vec<TileSetLayout>,
}

/// A compressed region of tile data; its tiles go into the set from tile
/// `offset` on.
#[derive(Debug, Clone)]
pub struct TileSetLayout {
    pub region: usize,
    pub offset: usize,
}

impl Clone for SpriteDefinition {
    fn clone(&self) -> (copy: Self)
        ensures
            copy == *self,
    {
        SpriteDefinition {
            name: self.name.clone(),
            category: match &self.category {
                Some(category) => Some(category.clone()),
                None => None,
            },
            size: (self.size.0, self.size.1),
            tileset: self.tileset.clone(),
            palette: self.palette.clone(),
            layout_region: self.layout_region,
        }
    }
}

/// Whether `index` is the first entry of `roms` with the checksum `crc`.
pub open spec fn first_with_crc(roms: Seq<RomMetadata>, crc: u32, index: int) -> bool {
    &&& 0 <= index < roms.len()
    &&& roms[index].crc == crc
    &&& forall|j: int| 0 <= j < index ==> (#[trigger] roms[j]).crc != crc
}

/// Whether `roms` has an entry with the checksum `crc`.
pub open spec fn lists_crc(roms: Seq<RomMetadata>, crc: u32) -> bool {
    exists|i: int| 0 <= i < roms.len() && (#[trigger] roms[i]).crc == crc
}

/// Whether `index` is the first of `maps` that lists the checksum `crc`.
pub open spec fn first_listing(maps: Seq<RomMap>, crc: u32, index: int) -> bool {
    &&& 0 <= index < maps.len()
    &&& lists_crc(maps[index].supported_roms@, crc)
    &&& forall|j: int| 0 <= j < index ==> !lists_crc((#[trigger] maps[j]).supported_roms@, crc)
}

impl RomMap {
    /// The first entry of the map's list that has the checksum of the image
    /// `rom`, if there is one.
    pub open spec fn compatible(&self, rom: Seq<u8>) -> Option<RomMetadata> {
        if lists_crc(self.supported_roms@, super::crc32(rom)) {
            Some(
                self.supported_roms@[choose|i: int|
                    first_with_crc(self.supported_roms@, super::crc32(rom), i)],
            )
        } else {
            None
        }
    }

    /// Whether the map lists the checksum of `rom`.
    pub fn is_compatible_with(&self, rom: &Rom) -> (compatible: bool)
        ensures
            compatible == lists_crc(self.supported_roms@, super::crc32(rom@)),
    {
        self.get_compatible_metadata(rom).is_some()
    }

    /// The first entry of the map's list that has the checksum of `rom`.
    pub fn get_compatible_metadata(&self, rom: &Rom) -> (found: Option<RomMetadata>)
        ensures
            found == self.compatible(rom@),
            match found {
                Some(metadata) => exists|i: int| #[trigger]
                    first_with_crc(self.supported_roms@, super::crc32(rom@), i) && metadata
                        == self.supported_roms@[i],
                None => !lists_crc(self.supported_roms@, super::crc32(rom@)),
            },
    {
        let crc = rom.crc();
        let mut i: usize = 0;
        while i < self.supported_roms.len()
            invariant
                i <= self.supported_roms@.len(),
                crc == super::crc32(rom@),
                forall|j: int| 0 <= j < i ==> (#[trigger] self.supported_roms@[j]).crc != crc,
            decreases self.supported_roms@.len() - i,
        {
            let rom_type = &self.supported_roms[i];
            if rom_type.crc == crc {
                proof {
                    assert(first_with_crc(self.supported_roms@, crc, i as int));
                    let first = choose|k: int| first_with_crc(self.supported_roms@, crc, k);
                    assert(first == i);
                }
                return Some(RomMetadata { name: rom_type.name.clone(), crc: rom_type.crc });
            }
            i += 1;
        }
        None
    }

    /// The first of `maps` that lists the checksum of `rom`.
    pub fn find_inbuilt_for<'a>(maps: &'a [RomMap], rom: &Rom) -> (found: Option<&'a RomMap>)
        ensures
            match found {
                Some(map) => exists|i: int| #[trigger]
                    first_listing(maps@, super::crc32(rom@), i) && *map == maps@[i],
                None => forall|i: int|
                    0 <= i < maps@.len() ==> !lists_crc(
                        (#[trigger] maps@[i]).supported_roms@,
                        super::crc32(rom@),
                    ),
            },
    {
        let mut i: usize = 0;
        while i < maps.len()
            invariant
                i <= maps@.len(),
                forall|j: int|
                    0 <= j < i ==> !lists_crc(
                        (#[trigger] maps@[j]).supported_roms@,
                        super::crc32(rom@),
                    ),
            decreases maps@.len() - i,
        {
            if maps[i].is_compatible_with(rom) {
                assert(first_listing(maps@, super::crc32(rom@), i as int));
                return Some(&maps[i]);
            }
            i += 1;
        }
        None
    }
}

} // verus!
