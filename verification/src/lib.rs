//! Asset extraction for a 16-bit console cartridge image: the decompressor for
//! the engine's run-length / back-reference codec, and the tile, palette and
//! sprite data built from what it decodes.

pub mod bitmap;
pub mod compression;
pub mod palette;
pub mod rom;
pub mod scan;
pub mod sprite;
pub mod tile;

pub use bitmap::{Bitmap, Rgba};
pub use compression::{
    decompress, Compressable, DecompressError, Decompressor, NibblePos, Operation,
};
pub use palette::{ColorIndex, Palette, PaletteCollection, PaletteIndex, Rgb};
pub use rom::{MappedPaletteCollection, MappedRom, MappedSprite, Rom, RomError, RomMap};
pub use sprite::Sprite;
pub use tile::{PartialTileSet, Tile, TileMap, TileMapEntry, TileSet, TileSettings};
