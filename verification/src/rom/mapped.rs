//! What a map finds in a cartridge image: the palette collections and the
//! sprites, decoded and put together.

use std::sync::Arc;
use vstd::prelude::*;

use super::map::{PaletteDefinition, RomMap, RomMetadata, SpriteDefinition, TileSetDefinition};
use super::table::{by_name, distinct_names, Named, Table};
use super::{Rom, RomError};
use crate::compression::model::decoded;
use crate::compression::{decompress, Compressable, DecompressError};
use crate::palette::{overlay, palettes_of, PaletteCollection, Rgb};
use crate::sprite::{share, Sprite};
use crate::tile::{blank_tiles, entries_of, tiles_of, PartialTileSet, TileMap, TileSet};

verus! {

/// A cartridge image as a map describes it.
#[derive(Debug)]
pub struct MappedRom {
    pub metadata: RomMetadata,
    pub palettes: Vec<MappedPaletteCollection>,
    pub sprites: Vec<MappedSprite>,
}

/// A palette collection with its name.
#[derive(Debug)]
pub struct MappedPaletteCollection {
    pub name: String,
    pub palettes: Arc<PaletteCollection>,
}

/// A sprite with its name and category.
#[derive(Debug)]
pub struct MappedSprite {
    pub name: String,
    pub category: Option<String>,
    pub sprite: Sprite,
}

/// The decoder's error as an error of mapping.
pub open spec fn region_error(e: DecompressError) -> RomError {
    RomError::Decompress(e)
}

/// The palettes of `definition` once the first `n` of its regions are in.
///
/// A definition without a region is invalid. The first region gives the
/// whole collection, wherever it says to start. Each further region is
/// decoded and laid over the collection from its `start` on; it is invalid
/// data where it is not a whole number of palettes or does not fit.
pub open spec fn palettes_after(rom: Seq<u8>, definition: PaletteDefinition, n: nat) -> Result<
    Seq<Seq<Rgb>>,
    RomError,
>
    decreases n,
{
    if n == 0 {
        Err(RomError::InvalidPaletteDefinition(definition.name))
    } else if n == 1 {
        match decoded(rom, definition.layout@[0].region as int) {
            Err(e) => Err(region_error(e)),
            Ok(out) => if PaletteCollection::fits(out) {
                Ok(palettes_of(out))
            } else {
                Err(region_error(DecompressError::InvalidData))
            },
        }
    } else {
        match palettes_after(rom, definition, (n - 1) as nat) {
            Err(e) => Err(e),
            Ok(collection) => {
                let layout = definition.layout@[n - 1];
                match decoded(rom, layout.region as int) {
                    Err(e) => Err(region_error(e)),
                    Ok(out) => if out.len() % 32 == 0 && layout.start + out.len() / 32 <= 16 {
                        Ok(overlay(collection, layout.start as int, palettes_of(out)))
                    } else {
                        Err(region_error(DecompressError::InvalidData))
                    },
                }
            },
        }
    }
}

/// The palettes that `definition` stands for.
pub open spec fn palettes_built(rom: Seq<u8>, definition: PaletteDefinition) -> Result<
    Seq<Seq<Rgb>>,
    RomError,
> {
    palettes_after(rom, definition, definition.layout@.len())
}

/// The tiles of `definition` once the first `n` of its regions are in.
///
/// The set starts blank. Each region is decoded and laid over the set from
/// its `offset` on; it is invalid data where it is not a whole number of
/// tiles or does not fit.
pub open spec fn tiles_after(rom: Seq<u8>, definition: TileSetDefinition, n: nat) -> Result<
    Seq<Seq<int>>,
    RomError,
>
    decreases n,
{
    if n == 0 {
        Ok(blank_tiles())
    } else {
        match tiles_after(rom, definition, (n - 1) as nat) {
            Err(e) => Err(e),
            Ok(set) => {
                let layout = definition.layout@[n - 1];
                match decoded(rom, layout.region as int) {
                    Err(e) => Err(region_error(e)),
                    Ok(out) => if out.len() % 32 == 0 && layout.offset + out.len() / 32 <= 1024 {
                        Ok(overlay(set, layout.offset as int, tiles_of(out)))
                    } else {
                        Err(region_error(DecompressError::InvalidData))
                    },
                }
            },
        }
    }
}

/// The tiles that `definition` stands for.
pub open spec fn tiles_built(rom: Seq<u8>, definition: TileSetDefinition) -> Result<
    Seq<Seq<int>>,
    RomError,
> {
    tiles_after(rom, definition, definition.layout@.len())
}

/// The palette collections of the first `n` definitions by name, a later
/// definition replacing an earlier one of the same name; or the error of the
/// first definition that fails.
pub open spec fn palette_table(
    rom: Seq<u8>,
    definitions: Seq<PaletteDefinition>,
    n: nat,
) -> Result<Map<Seq<char>, Seq<Seq<Rgb>>>, RomError>
    decreases n,
{
    if n == 0 {
        Ok(Map::empty())
    } else {
        match palette_table(rom, definitions, (n - 1) as nat) {
            Err(e) => Err(e),
            Ok(table) => match palettes_built(rom, definitions[n - 1]) {
                Err(e) => Err(e),
                Ok(collection) => Ok(table.insert(definitions[n - 1].name@, collection)),
            },
        }
    }
}

/// The tile sets of the first `n` definitions by name, a later definition
/// replacing an earlier one of the same name; or the error of the first
/// definition that fails.
pub open spec fn tile_set_table(
    rom: Seq<u8>,
    definitions: Seq<TileSetDefinition>,
    n: nat,
) -> Result<Map<Seq<char>, Seq<Seq<int>>>, RomError>
    decreases n,
{
    if n == 0 {
        Ok(Map::empty())
    } else {
        match tile_set_table(rom, definitions, (n - 1) as nat) {
            Err(e) => Err(e),
            Ok(table) => match tiles_built(rom, definitions[n - 1]) {
                Err(e) => Err(e),
                Ok(set) => Ok(table.insert(definitions[n - 1].name@, set)),
            },
        }
    }
}

/// The tile map in the region at `region`.
pub open spec fn tile_map_at(rom: Seq<u8>, region: usize) -> Result<Seq<u16>, RomError> {
    match decoded(rom, region as int) {
        Err(e) => Err(region_error(e)),
        Ok(out) => if TileMap::fits(out) {
            Ok(entries_of(out))
        } else {
            Err(region_error(DecompressError::InvalidData))
        },
    }
}

/// The error of the first of the first `n` sprites whose tile map cannot be
/// had, if there is one.
pub open spec fn tile_maps_error(rom: Seq<u8>, sprites: Seq<SpriteDefinition>, n: nat) -> Option<
    RomError,
>
    decreases n,
{
    if n == 0 {
        None
    } else {
        match tile_maps_error(rom, sprites, (n - 1) as nat) {
            Some(e) => Some(e),
            None => match tile_map_at(rom, sprites[n - 1].layout_region) {
                Err(e) => Some(e),
                Ok(_) => None,
            },
        }
    }
}

/// What a sprite is made of.
pub struct SpriteView {
    pub size: (u32, u32),
    pub tiles: Seq<Seq<int>>,
    pub tile_map: Seq<u16>,
    pub palettes: Seq<Seq<Rgb>>,
}

/// What a [`MappedSprite`] stands for.
pub struct MappedSpriteView {
    pub name: Seq<char>,
    pub category: Option<Seq<char>>,
    pub sprite: SpriteView,
}

impl View for MappedSprite {
    type V = MappedSpriteView;

    open spec fn view(&self) -> MappedSpriteView {
        MappedSpriteView {
            name: self.name@,
            category: match self.category {
                Some(category) => Some(category@),
                None => None,
            },
            sprite: SpriteView {
                size: self.sprite.size,
                tiles: self.sprite.tiles@,
                tile_map: self.sprite.tile_map@,
                palettes: self.sprite.palettes@,
            },
        }
    }
}

/// The sprite that `definition` stands for, given the palette collections
/// and tile sets by name and the sprite's tile map.
///
/// It is an error where the map defines no palette collection or no tile set
/// of the name that the sprite asks for, the palette first; and invalid data
/// where the tile map does not have one entry for each tile of the sprite,
/// or has more entries than 32 bits count.
pub open spec fn sprite_built(
    definition: SpriteDefinition,
    palettes: Map<Seq<char>, Seq<Seq<Rgb>>>,
    tile_sets: Map<Seq<char>, Seq<Seq<int>>>,
    tile_map: Seq<u16>,
) -> Result<MappedSpriteView, RomError> {
    if !palettes.contains_key(definition.palette@) {
        Err(RomError::UnknownPalette(definition.name, definition.palette))
    } else if !tile_sets.contains_key(definition.tileset@) {
        Err(RomError::UnknownTileset(definition.name, definition.tileset))
    } else if definition.size.0 * definition.size.1 != tile_map.len() || tile_map.len() > u32::MAX {
        Err(region_error(DecompressError::InvalidData))
    } else {
        Ok(
            MappedSpriteView {
                name: definition.name@,
                category: match definition.category {
                    Some(category) => Some(category@),
                    None => None,
                },
                sprite: SpriteView {
                    size: definition.size,
                    tiles: tile_sets[definition.tileset@],
                    tile_map,
                    palettes: palettes[definition.palette@],
                },
            },
        )
    }
}

/// The first `n` sprites, or the error of the first that fails.
pub open spec fn sprites_after(
    rom: Seq<u8>,
    sprites: Seq<SpriteDefinition>,
    palettes: Map<Seq<char>, Seq<Seq<Rgb>>>,
    tile_sets: Map<Seq<char>, Seq<Seq<int>>>,
    n: nat,
) -> Result<Seq<MappedSpriteView>, RomError>
    recommends
        tile_maps_error(rom, sprites, n) is None,
    decreases n,
{
    if n == 0 {
        Ok(Seq::empty())
    } else {
        match sprites_after(rom, sprites, palettes, tile_sets, (n - 1) as nat) {
            Err(e) => Err(e),
            Ok(built) => match sprite_built(
                sprites[n - 1],
                palettes,
                tile_sets,
                tile_map_at(rom, sprites[n - 1].layout_region)->Ok_0,
            ) {
                Err(e) => Err(e),
                Ok(sprite) => Ok(built.push(sprite)),
            },
        }
    }
}

/// What a [`MappedRom`] stands for.
pub struct MappedView {
    pub metadata: RomMetadata,
    pub palettes: Map<Seq<char>, Seq<Seq<Rgb>>>,
    pub sprites: Seq<MappedSpriteView>,
}

/// What `map` finds in `rom`: all palette collections, then all tile sets,
/// then the tile maps of all sprites, then the sprites; or the first error on
/// that way.
pub open spec fn mapped(rom: Seq<u8>, map: RomMap, metadata: RomMetadata) -> Result<
    MappedView,
    RomError,
> {
    match palette_table(rom, map.palettes@, map.palettes@.len()) {
        Err(e) => Err(e),
        Ok(palettes) => match tile_set_table(rom, map.tilesets@, map.tilesets@.len()) {
            Err(e) => Err(e),
            Ok(tile_sets) => match tile_maps_error(rom, map.sprites@, map.sprites@.len()) {
                Some(e) => Err(e),
                None => match sprites_after(
                    rom,
                    map.sprites@,
                    palettes,
                    tile_sets,
                    map.sprites@.len(),
                ) {
                    Err(e) => Err(e),
                    Ok(sprites) => Ok(MappedView { metadata, palettes, sprites }),
                },
            },
        },
    }
}

/// The palette collections as named values.
pub open spec fn named_palettes(palettes: Seq<MappedPaletteCollection>) -> Seq<
    Named<PaletteCollection>,
> {
    Seq::new(palettes.len(), |i: int| Named { name: palettes[i].name, value: palettes[i].palettes })
}

impl View for MappedRom {
    type V = MappedView;

    open spec fn view(&self) -> MappedView {
        MappedView {
            metadata: self.metadata,
            palettes: by_name(named_palettes(self.palettes@)),
            sprites: Seq::new(self.sprites@.len(), |i: int| self.sprites@[i]@),
        }
    }
}

/// Decodes the region at `offset`, with the decoder's error as an error of
/// mapping.
fn decode_region(rom: &[u8], offset: usize) -> (r: Result<Vec<u8>, RomError>)
    ensures
        match decoded(rom@, offset as int) {
            Ok(out) => r matches Ok(data) && data@ == out,
            Err(e) => r matches Err(err) && err == region_error(e),
        },
{
    match decompress(rom, offset) {
        Ok(data) => Ok(data),
        Err(e) => Err(RomError::Decompress(e)),
    }
}

/// Puts the palette collection of `definition` together.
pub fn build_palettes(rom: &[u8], definition: &PaletteDefinition) -> (r: Result<
    PaletteCollection,
    RomError,
>)
    ensures
        match palettes_built(rom@, *definition) {
            Ok(palettes) => r matches Ok(collection) && collection@ == palettes,
            Err(e) => r matches Err(err) && err == e,
        },
{
    if definition.layout.len() == 0 {
        return Err(RomError::InvalidPaletteDefinition(definition.name.clone()));
    }
    let first = definition.layout[0].region;
    let mut palette_collection = match PaletteCollection::from_compressed(rom, first) {
        Ok(collection) => collection,
        Err(e) => {
            proof {
                lemma_palettes_failed(rom@, *definition, 1, definition.layout@.len());
            }
            return Err(RomError::Decompress(e));
        },
    };
    let mut i: usize = 1;
    while i < definition.layout.len()
        invariant
            1 <= i <= definition.layout@.len(),
            palettes_after(rom@, *definition, i as nat) == Ok::<Seq<Seq<Rgb>>, RomError>(
                palette_collection@,
            ),
        decreases definition.layout@.len() - i,
    {
        let layout = &definition.layout[i];
        let result = match decode_region(rom, layout.region) {
            Ok(data) => data,
            Err(e) => {
                proof {
                    lemma_palettes_failed(
                        rom@,
                        *definition,
                        (i + 1) as nat,
                        definition.layout@.len(),
                    );
                }
                return Err(e);
            },
        };
        if result.len() % 32 != 0 || layout.start > 16 || layout.start + result.len() / 32 > 16 {
            proof {
                lemma_palettes_failed(
                    rom@,
                    *definition,
                    (i + 1) as nat,
                    definition.layout@.len(),
                );
            }
            return Err(RomError::Decompress(DecompressError::InvalidData));
        }
        palette_collection.add_palette_data(layout.start, result.as_slice());
        i += 1;
    }
    Ok(palette_collection)
}

/// Once a region of a palette definition has failed, the definition fails
/// with that error.
proof fn lemma_palettes_failed(rom: Seq<u8>, definition: PaletteDefinition, n: nat, m: nat)
    requires
        palettes_after(rom, definition, n) is Err,
        1 <= n <= m,
    ensures
        palettes_after(rom, definition, m) == palettes_after(rom, definition, n),
    decreases m - n,
{
    if n < m {
        lemma_palettes_failed(rom, definition, n, (m - 1) as nat);
    }
}

/// Puts the tile set of `definition` together.
pub fn build_tile_set(rom: &[u8], definition: &TileSetDefinition) -> (r: Result<TileSet, RomError>)
    ensures
        match tiles_built(rom@, *definition) {
            Ok(tiles) => r matches Ok(set) && set@ == tiles,
            Err(e) => r matches Err(err) && err == e,
        },
{
    let mut tileset = TileSet::new();
    let mut i: usize = 0;
    while i < definition.layout.len()
        invariant
            i <= definition.layout@.len(),
            tiles_after(rom@, *definition, i as nat) == Ok::<Seq<Seq<int>>, RomError>(tileset@),
        decreases definition.layout@.len() - i,
    {
        let layout = &definition.layout[i];
        let partial_tile_set = match PartialTileSet::from_compressed(rom, layout.region) {
            Ok(tiles) => tiles,
            Err(e) => {
                proof {
                    lemma_tiles_failed(
                        rom@,
                        *definition,
                        (i + 1) as nat,
                        definition.layout@.len(),
                    );
                }
                return Err(RomError::Decompress(e));
            },
        };
        if layout.offset > 1024 || partial_tile_set.len() > 1024 - layout.offset {
            proof {
                lemma_tiles_failed(
                    rom@,
                    *definition,
                    (i + 1) as nat,
                    definition.layout@.len(),
                );
            }
            return Err(RomError::Decompress(DecompressError::InvalidData));
        }
        tileset.add_tile_data(layout.offset, partial_tile_set);
        i += 1;
    }
    Ok(tileset)
}

/// Once a region of a tile set definition has failed, the definition fails
/// with that error.
proof fn lemma_tiles_failed(rom: Seq<u8>, definition: TileSetDefinition, n: nat, m: nat)
    requires
        tiles_after(rom, definition, n) is Err,
        n <= m,
    ensures
        tiles_after(rom, definition, m) == tiles_after(rom, definition, n),
    decreases m - n,
{
    if n < m {
        lemma_tiles_failed(rom, definition, n, (m - 1) as nat);
    }
}

/// Once a palette definition has failed, the table fails with that error.
proof fn lemma_palette_table_failed(
    rom: Seq<u8>,
    definitions: Seq<PaletteDefinition>,
    n: nat,
    m: nat,
)
    requires
        palette_table(rom, definitions, n) is Err,
        n <= m,
    ensures
        palette_table(rom, definitions, m) == palette_table(rom, definitions, n),
    decreases m - n,
{
    if n < m {
        lemma_palette_table_failed(rom, definitions, n, (m - 1) as nat);
    }
}

/// Once a tile set definition has failed, the table fails with that error.
proof fn lemma_tile_set_table_failed(
    rom: Seq<u8>,
    definitions: Seq<TileSetDefinition>,
    n: nat,
    m: nat,
)
    requires
        tile_set_table(rom, definitions, n) is Err,
        n <= m,
    ensures
        tile_set_table(rom, definitions, m) == tile_set_table(rom, definitions, n),
    decreases m - n,
{
    if n < m {
        lemma_tile_set_table_failed(rom, definitions, n, (m - 1) as nat);
    }
}

/// Once a tile map has failed, that error stays the first.
proof fn lemma_tile_maps_failed(rom: Seq<u8>, sprites: Seq<SpriteDefinition>, n: nat, m: nat)
    requires
        tile_maps_error(rom, sprites, n) is Some,
        n <= m,
    ensures
        tile_maps_error(rom, sprites, m) == tile_maps_error(rom, sprites, n),
    decreases m - n,
{
    if n < m {
        lemma_tile_maps_failed(rom, sprites, n, (m - 1) as nat);
    }
}

/// Where no tile map of the first `m` sprites fails, each of them can be had.
proof fn lemma_tile_maps_found(rom: Seq<u8>, sprites: Seq<SpriteDefinition>, n: nat, m: nat)
    requires
        tile_maps_error(rom, sprites, m) is None,
        n < m,
    ensures
        tile_map_at(rom, sprites[n as int].layout_region) is Ok,
    decreases m,
{
    if n + 1 < m {
        lemma_tile_maps_found(rom, sprites, n, (m - 1) as nat);
    }
}

/// Once a sprite has failed, the sprites fail with that error.
proof fn lemma_sprites_failed(
    rom: Seq<u8>,
    sprites: Seq<SpriteDefinition>,
    palettes: Map<Seq<char>, Seq<Seq<Rgb>>>,
    tile_sets: Map<Seq<char>, Seq<Seq<int>>>,
    n: nat,
    m: nat,
)
    requires
        sprites_after(rom, sprites, palettes, tile_sets, n) is Err,
        n <= m,
    ensures
        sprites_after(rom, sprites, palettes, tile_sets, m) == sprites_after(
            rom,
            sprites,
            palettes,
            tile_sets,
            n,
        ),
    decreases m - n,
{
    if n < m {
        lemma_sprites_failed(rom, sprites, palettes, tile_sets, n, (m - 1) as nat);
    }
}

/// Decodes the palette collections of all definitions.
fn load_palettes(rom: &[u8], definitions: &Vec<PaletteDefinition>) -> (r: Result<
    Table<PaletteCollection>,
    RomError,
>)
    ensures
        match palette_table(rom@, definitions@, definitions@.len()) {
            Ok(palettes) => r matches Ok(table) && table.wf() && table@ == palettes,
            Err(e) => r matches Err(err) && err == e,
        },
{
    let mut palettes: Table<PaletteCollection> = Table::new();
    let mut i: usize = 0;
    while i < definitions.len()
        invariant
            i <= definitions@.len(),
            palettes.wf(),
            palette_table(rom@, definitions@, i as nat) == Ok::<
                Map<Seq<char>, Seq<Seq<Rgb>>>,
                RomError,
            >(palettes@),
        decreases definitions@.len() - i,
    {
        let definition = &definitions[i];
        let palette_collection = match build_palettes(rom, definition) {
            Ok(collection) => collection,
            Err(e) => {
                proof {
                    lemma_palette_table_failed(
                        rom@,
                        definitions@,
                        (i + 1) as nat,
                        definitions@.len(),
                    );
                }
                return Err(e);
            },
        };
        palettes.insert(definition.name.clone(), Arc::new(palette_collection));
        i += 1;
    }
    Ok(palettes)
}

/// Decodes the tile sets of all definitions.
fn load_tile_sets(rom: &[u8], definitions: &Vec<TileSetDefinition>) -> (r: Result<
    Table<TileSet>,
    RomError,
>)
    ensures
        match tile_set_table(rom@, definitions@, definitions@.len()) {
            Ok(tile_sets) => r matches Ok(table) && table.wf() && table@ == tile_sets,
            Err(e) => r matches Err(err) && err == e,
        },
{
    let mut tilesets: Table<TileSet> = Table::new();
    let mut i: usize = 0;
    while i < definitions.len()
        invariant
            i <= definitions@.len(),
            tilesets.wf(),
            tile_set_table(rom@, definitions@, i as nat) == Ok::<
                Map<Seq<char>, Seq<Seq<int>>>,
                RomError,
            >(tilesets@),
        decreases definitions@.len() - i,
    {
        let definition = &definitions[i];
        let tileset = match build_tile_set(rom, definition) {
            Ok(tileset) => tileset,
            Err(e) => {
                proof {
                    lemma_tile_set_table_failed(
                        rom@,
                        definitions@,
                        (i + 1) as nat,
                        definitions@.len(),
                    );
                }
                return Err(e);
            },
        };
        tilesets.insert(definition.name.clone(), Arc::new(tileset));
        i += 1;
    }
    Ok(tilesets)
}

/// Decodes the tile map of every sprite. Sprites with the same region share
/// one tile map, which is decoded once.
fn load_tile_maps(rom: &[u8], sprites: &Vec<SpriteDefinition>) -> (r: Result<
    Vec<Arc<TileMap>>,
    RomError,
>)
    ensures
        match tile_maps_error(rom@, sprites@, sprites@.len()) {
            None => r matches Ok(tile_maps) && tile_maps@.len() == sprites@.len() && forall|
                i: int,
            |
                0 <= i < sprites@.len() ==> tile_map_at(rom@, sprites@[i].layout_region) == Ok::<
                    Seq<u16>,
                    RomError,
                >((#[trigger] tile_maps@[i])@),
            Some(e) => r matches Err(err) && err == e,
        },
{
    let mut layout_regions: Vec<Arc<TileMap>> = Vec::new();
    let mut i: usize = 0;
    while i < sprites.len()
        invariant
            i <= sprites@.len(),
            layout_regions@.len() == i,
            tile_maps_error(rom@, sprites@, i as nat) is None,
            forall|k: int|
                0 <= k < i ==> tile_map_at(rom@, sprites@[k].layout_region) == Ok::<
                    Seq<u16>,
                    RomError,
                >((#[trigger] layout_regions@[k])@),
        decreases sprites@.len() - i,
    {
        let region = sprites[i].layout_region;
        let mut earlier: Option<usize> = None;
        let mut j: usize = 0;
        while j < i
            invariant
                j <= i <= sprites@.len(),
                region == sprites@[i as int].layout_region,
                match earlier {
                    Some(k) => k < i && sprites@[k as int].layout_region == region,
                    None => true,
                },
            decreases i - j,
        {
            if sprites[j].layout_region == region {
                earlier = Some(j);
            }
            j += 1;
        }
        let layout = match earlier {
            Some(k) => share(&layout_regions[k]),
            None => match TileMap::from_compressed(rom, region) {
                Ok(layout) => Arc::new(layout),
                Err(e) => {
                    proof {
                        lemma_tile_maps_failed(rom@, sprites@, (i + 1) as nat, sprites@.len());
                    }
                    return Err(RomError::Decompress(e));
                },
            },
        };
        layout_regions.push(layout);
        i += 1;
    }
    Ok(layout_regions)
}

/// Puts the sprite of `definition` together.
fn build_sprite(
    definition: &SpriteDefinition,
    palettes: &Table<PaletteCollection>,
    tilesets: &Table<TileSet>,
    layout: &Arc<TileMap>,
) -> (r: Result<MappedSprite, RomError>)
    requires
        palettes.wf(),
        tilesets.wf(),
    ensures
        match sprite_built(*definition, palettes@, tilesets@, layout@) {
            Ok(built) => r matches Ok(sprite) && sprite@ == built && sprite.sprite.wf(),
            Err(e) => r matches Err(err) && err == e,
        },
{
    let palette = match palettes.get(&definition.palette) {
        Some(palette) => palette,
        None => {
            return Err(
                RomError::UnknownPalette(definition.name.clone(), definition.palette.clone()),
            );
        },
    };

    let tileset = match tilesets.get(&definition.tileset) {
        Some(tileset) => tileset,
        None => {
            return Err(
                RomError::UnknownTileset(definition.name.clone(), definition.tileset.clone()),
            );
        },
    };

    assert(definition.size.0 * definition.size.1 <= 0xffff_ffff * 0xffff_ffff) by (nonlinear_arith)
        requires
            definition.size.0 <= 0xffff_ffff,
            definition.size.1 <= 0xffff_ffff,
    ;
    let tiles: u64 = definition.size.0 as u64 * definition.size.1 as u64;
    let entries = layout.len();
    if entries > 0xffff_ffff || tiles != entries as u64 {
        return Err(RomError::Decompress(DecompressError::InvalidData));
    }
    let sprite = Sprite::new(
        (definition.size.0, definition.size.1),
        share(tileset),
        share(layout),
        share(palette),
    );

    Ok(
        MappedSprite {
            name: definition.name.clone(),
            category: match &definition.category {
                Some(category) => Some(category.clone()),
                None => None,
            },
            sprite,
        },
    )
}

/// Puts the sprites of all definitions together.
fn build_sprites(
    rom: &[u8],
    definitions: &Vec<SpriteDefinition>,
    palettes: &Table<PaletteCollection>,
    tilesets: &Table<TileSet>,
    layout_regions: &Vec<Arc<TileMap>>,
) -> (r: Result<Vec<MappedSprite>, RomError>)
    requires
        palettes.wf(),
        tilesets.wf(),
        layout_regions@.len() == definitions@.len(),
        forall|i: int|
            0 <= i < definitions@.len() ==> tile_map_at(rom@, definitions@[i].layout_region)
                == Ok::<Seq<u16>, RomError>((#[trigger] layout_regions@[i])@),
    ensures
        match sprites_after(rom@, definitions@, palettes@, tilesets@, definitions@.len()) {
            Ok(built) => r matches Ok(sprites) && built == Seq::new(
                sprites@.len(),
                |i: int| sprites@[i]@,
            ) && forall|i: int| 0 <= i < sprites@.len() ==> (#[trigger] sprites@[i]).sprite.wf(),
            Err(e) => r matches Err(err) && err == e,
        },
{
    let mut sprites: Vec<MappedSprite> = Vec::new();
    let mut i: usize = 0;
    assert(Seq::new(sprites@.len(), |k: int| sprites@[k]@) =~= Seq::<MappedSpriteView>::empty());
    while i < definitions.len()
        invariant
            i <= definitions@.len(),
            palettes.wf(),
            tilesets.wf(),
            layout_regions@.len() == definitions@.len(),
            forall|k: int|
                0 <= k < definitions@.len() ==> tile_map_at(rom@, definitions@[k].layout_region)
                    == Ok::<Seq<u16>, RomError>((#[trigger] layout_regions@[k])@),
            sprites@.len() == i,
            sprites_after(rom@, definitions@, palettes@, tilesets@, i as nat) == Ok::<
                Seq<MappedSpriteView>,
                RomError,
            >(Seq::new(sprites@.len(), |k: int| sprites@[k]@)),
            forall|k: int| 0 <= k < sprites@.len() ==> (#[trigger] sprites@[k]).sprite.wf(),
        decreases definitions@.len() - i,
    {
        let ghost before = Seq::new(sprites@.len(), |k: int| sprites@[k]@);
        assert(tile_map_at(rom@, definitions@[i as int].layout_region) == Ok::<Seq<u16>, RomError>(
            layout_regions@[i as int]@,
        ));
        let mapped_sprite = match build_sprite(
            &definitions[i],
            palettes,
            tilesets,
            &layout_regions[i],
        ) {
            Ok(sprite) => sprite,
            Err(e) => {
                proof {
                    lemma_sprites_failed(
                        rom@,
                        definitions@,
                        palettes@,
                        tilesets@,
                        (i + 1) as nat,
                        definitions@.len(),
                    );
                }
                return Err(e);
            },
        };
        sprites.push(mapped_sprite);
        proof {
            assert(Seq::new(sprites@.len(), |k: int| sprites@[k]@) =~= before.push(
                mapped_sprite@,
            ));
        }
        i += 1;
    }
    Ok(sprites)
}

/// The palette collections of a table, each with its name.
fn collect_palettes(table: Table<PaletteCollection>) -> (palettes: Vec<MappedPaletteCollection>)
    requires
        table.wf(),
    ensures
        distinct_names(named_palettes(palettes@)),
        by_name(named_palettes(palettes@)) == table@,
{
    let entries = table.into_entries();
    let mut palettes: Vec<MappedPaletteCollection> = Vec::new();
    let mut i: usize = 0;
    while i < entries.len()
        invariant
            i <= entries@.len(),
            palettes@.len() == i,
            forall|k: int|
                0 <= k < i ==> (#[trigger] palettes@[k]).name == entries@[k].name
                    && palettes@[k].palettes == entries@[k].value,
        decreases entries@.len() - i,
    {
        palettes.push(
            MappedPaletteCollection {
                name: entries[i].name.clone(),
                palettes: share(&entries[i].value),
            },
        );
        i += 1;
    }
    assert(named_palettes(palettes@) =~= entries@);
    palettes
}

impl MappedRom {
    /// Whether no two palette collections have the same name and every
    /// sprite's tile map has one entry for each of its tiles.
    pub open spec fn wf(&self) -> bool {
        &&& distinct_names(named_palettes(self.palettes@))
        &&& forall|i: int|
            0 <= i < self.sprites@.len() ==> (#[trigger] self.sprites@[i]).sprite.wf()
    }

    /// What `map` finds in `rom`, if the map lists the checksum of `rom`.
    pub fn new(rom: &Rom, map: &RomMap) -> (r: Result<Self, RomError>)
        ensures
            match map.compatible(rom@) {
                Some(metadata) => match mapped(rom@, *map, metadata) {
                    Ok(found) => r matches Ok(mapped_rom) && mapped_rom@ == found
                        && mapped_rom.wf(),
                    Err(e) => r matches Err(err) && err == e,
                },
                None => r matches Err(err) && err == RomError::IncompatibleMap,
            },
    {
        if let Some(metadata) = map.get_compatible_metadata(rom) {
            Self::new_inner(rom.data(), map, metadata)
        } else {
            Err(RomError::IncompatibleMap)
        }
    }

    /// What `map` finds in `rom`, whether or not the map lists its checksum.
    /// The image is then called "Unknown".
    pub fn new_forced(rom: &Rom, map: &RomMap) -> (r: Result<Self, RomError>)
        ensures
            exists|metadata: RomMetadata|
                {
                    &&& metadata.name@ == "Unknown"@
                    &&& metadata.crc == super::crc32(rom@)
                    &&& match #[trigger] mapped(rom@, *map, metadata) {
                        Ok(found) => r matches Ok(mapped_rom) && mapped_rom@ == found
                            && mapped_rom.wf(),
                        Err(e) => r matches Err(err) && err == e,
                    }
                },
    {
        let metadata = RomMetadata { name: "Unknown".to_owned(), crc: rom.crc() };

        Self::new_inner(rom.data(), map, metadata)
    }

    fn new_inner(rom: &[u8], map: &RomMap, metadata: RomMetadata) -> (r: Result<Self, RomError>)
        ensures
            match mapped(rom@, *map, metadata) {
                Ok(found) => r matches Ok(mapped_rom) && mapped_rom@ == found && mapped_rom.wf(),
                Err(e) => r matches Err(err) && err == e,
            },
    {
        let palettes = match load_palettes(rom, &map.palettes) {
            Ok(palettes) => palettes,
            Err(e) => {
                return Err(e);
            },
        };

        let tilesets = match load_tile_sets(rom, &map.tilesets) {
            Ok(tilesets) => tilesets,
            Err(e) => {
                return Err(e);
            },
        };

        let layout_regions = match load_tile_maps(rom, &map.sprites) {
            Ok(layout_regions) => layout_regions,
            Err(e) => {
                return Err(e);
            },
        };

        let sprites = match build_sprites(
            rom,
            &map.sprites,
            &palettes,
            &tilesets,
            &layout_regions,
        ) {
            Ok(sprites) => sprites,
            Err(e) => {
                return Err(e);
            },
        };

        let palettes = collect_palettes(palettes);

        Ok(Self { metadata, palettes, sprites })
    }
}

} // verus!
