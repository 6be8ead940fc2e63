//! Tiles of 8 by 8 pixels with four bits to the pixel, sets of tiles, and
//! tile maps that say which tile goes where.

use vstd::prelude::*;
use vstd::slice::slice_subrange;

use crate::bitmap::{transparent, Bitmap, Rgba};
use crate::compression::{Compressable, DecompressError};
use crate::palette::{overlay, ColorIndex, Palette, PaletteIndex, Rgb};

verus! {

/// How many pixels a tile has.
pub const TILE_PIXELS: usize = 64;

/// How many bytes of data make one tile.
pub const TILE_BYTES: usize = 32;

/// How many tiles a tile set holds.
pub const TILE_SET_TILES: usize = 1024;

/// A tile: the colour index of each of its pixels, row by row.
#[derive(Debug, Clone, Copy)]
pub struct Tile([ColorIndex; 64]);

/// A full set of 1024 tiles.
#[derive(Debug, Clone)]
pub struct TileSet(Box<[Tile; 1024]>);

/// Some tiles, as one compressed region holds them.
#[derive(Debug, Clone)]
pub struct PartialTileSet(Vec<Tile>);

/// The entries of a tile map, row by row.
#[derive(Debug, Clone)]
pub struct TileMap(Vec<TileMapEntry>);

/// One entry of a tile map: which tile, with which palette, drawn how.
#[derive(Debug, Clone)]
pub struct TileMapEntry(u16);

/// How a tile is drawn.
#[derive(Debug, Clone, Copy)]
pub struct TileSettings {
    pub x_flip: bool,
    pub y_flip: bool,
    pub priority: u8,
}

impl Default for TileSettings {
    fn default() -> (s: Self)
        ensures
            s == (TileSettings { x_flip: false, y_flip: false, priority: 0 }),
    {
        TileSettings { x_flip: false, y_flip: false, priority: 0 }
    }
}

/// The colour index of the pixel in row `row`, column `col` of the tile that
/// `data` stands for. The tile has four bit planes; the row's bytes of
/// planes 0 and 1 lie side by side in the first half of the data, those of
/// planes 2 and 3 in the second half, and the leftmost pixel is the highest
/// bit of each.
pub open spec fn tile_pixel(data: Seq<u8>, row: int, col: int) -> int
    recommends
        data.len() == TILE_BYTES,
        0 <= row < 8,
        0 <= col < 8,
{
    let shift = (7 - col) as u8;
    ((data[2 * row] >> shift) & 1) + 2 * ((data[2 * row + 1] >> shift) & 1) + 4 * ((data[16 + 2
        * row] >> shift) & 1) + 8 * ((data[16 + 2 * row + 1] >> shift) & 1)
}

/// The colour indices of the tile that 32 bytes of tile data stand for.
pub open spec fn tile_pixels(data: Seq<u8>) -> Seq<int>
    recommends
        data.len() == TILE_BYTES,
{
    Seq::new(TILE_PIXELS as nat, |i: int| tile_pixel(data, i / 8, i % 8))
}

/// The tiles that tile data stands for, 32 bytes to each.
pub open spec fn tiles_of(data: Seq<u8>) -> Seq<Seq<int>>
    recommends
        data.len() % (TILE_BYTES as nat) == 0,
{
    Seq::new(
        data.len() / (TILE_BYTES as nat),
        |t: int| tile_pixels(data.subrange(TILE_BYTES * t, TILE_BYTES * t + TILE_BYTES)),
    )
}

/// A tile set in which every pixel of every tile has colour 0.
pub open spec fn blank_tiles() -> Seq<Seq<int>> {
    Seq::new(TILE_SET_TILES as nat, |t: int| Seq::new(TILE_PIXELS as nat, |p: int| 0int))
}

/// The tile map entries that tile map data stands for: 16-bit values, low
/// byte first.
pub open spec fn entries_of(data: Seq<u8>) -> Seq<u16>
    recommends
        data.len() % 2 == 0,
{
    Seq::new(data.len() / 2, |i: int| (data[2 * i] + 256 * data[2 * i + 1]) as u16)
}

/// How the entry with the value `value` has its tile drawn: the priority is
/// bits 13 and 14, the horizontal flip bit 14 and the vertical flip bit 15.
pub open spec fn settings_of(value: u16) -> TileSettings {
    TileSettings {
        x_flip: value / 16384 % 2 == 1,
        y_flip: value / 32768 % 2 == 1,
        priority: (value / 8192 % 4) as u8,
    }
}

/// The pixel in column `x` of row `y` of a tile drawn with a palette: the
/// tile's pixel at that place, or at the mirrored place where the tile is
/// flipped; transparent where its colour index is 0, else opaque in the
/// palette's colour.
pub open spec fn shown_pixel(
    tile: Seq<int>,
    palette: Seq<Rgb>,
    settings: TileSettings,
    x: int,
    y: int,
) -> Rgba
    recommends
        tile.len() == TILE_PIXELS,
        0 <= x < 8,
        0 <= y < 8,
{
    let from_x = if settings.x_flip {
        7 - x
    } else {
        x
    };
    let from_y = if settings.y_flip {
        7 - y
    } else {
        y
    };
    let color = tile[from_y * 8 + from_x];
    if color == 0 {
        transparent()
    } else {
        Rgba { r: palette[color].r, g: palette[color].g, b: palette[color].b, a: 255 }
    }
}

/// One bit of a byte is 0 or 1.
proof fn lemma_plane_bit(byte: u8, shift: u8)
    by (bit_vector)
    ensures
        (byte >> shift) & 1 <= 1,
{
}

impl View for Tile {
    type V = Seq<int>;

    closed spec fn view(&self) -> Seq<int> {
        Seq::new(TILE_PIXELS as nat, |i: int| self.0@[i]@)
    }
}

impl Tile {
    /// A tile whose pixels all have colour 0.
    pub fn blank() -> (t: Self)
        ensures
            t@ == Seq::new(TILE_PIXELS as nat, |i: int| 0int),
    {
        let zero = ColorIndex::new(0);
        let pixels = [zero;64];
        proof {
            assert(pixels == vstd::array::spec_array_fill_for_copy_type::<ColorIndex, 64>(zero));
        }
        let tile = Tile(pixels);
        assert(tile@ =~= Seq::new(TILE_PIXELS as nat, |i: int| 0int));
        tile
    }

    /// The colour indices of the pixels, row by row.
    pub fn data(&self) -> (pixels: &[ColorIndex])
        ensures
            pixels@.len() == TILE_PIXELS,
            forall|i: int| 0 <= i < TILE_PIXELS ==> (#[trigger] pixels@[i])@ == self@[i],
    {
        &self.0
    }

    /// The colour index of pixel `i`, counted row by row.
    pub fn pixel(&self, i: usize) -> (c: ColorIndex)
        requires
            i < TILE_PIXELS,
        ensures
            c@ == self@[i as int],
    {
        self.0[i]
    }

    /// Converts 32 bytes of tile data into a tile.
    pub fn from_slice(data: &[u8]) -> (t: Self)
        requires
            data@.len() == TILE_BYTES,
        ensures
            t@ == tile_pixels(data@),
    {
        let mut tile = [ColorIndex::new(0);64];

        let mut row: usize = 0;
        while row < 8
            invariant
                row <= 8,
                data@.len() == TILE_BYTES,
                forall|i: int|
                    0 <= i < 8 * row ==> (#[trigger] tile@[i])@ == tile_pixel(data@, i / 8, i % 8),
            decreases 8 - row,
        {
            let plane_0 = data[row * 2];
            let plane_1 = data[row * 2 + 1];
            let plane_2 = data[16 + row * 2];
            let plane_3 = data[16 + row * 2 + 1];

            let mut col: usize = 0;
            while col < 8
                invariant
                    row < 8,
                    col <= 8,
                    data@.len() == TILE_BYTES,
                    plane_0 == data@[2 * row],
                    plane_1 == data@[2 * row + 1],
                    plane_2 == data@[16 + 2 * row],
                    plane_3 == data@[16 + 2 * row + 1],
                    forall|i: int|
                        0 <= i < 8 * row + col ==> (#[trigger] tile@[i])@ == tile_pixel(
                            data@,
                            i / 8,
                            i % 8,
                        ),
                decreases 8 - col,
            {
                let shift: u8 = 7 - col as u8;
                proof {
                    lemma_plane_bit(plane_0, shift);
                    lemma_plane_bit(plane_1, shift);
                    lemma_plane_bit(plane_2, shift);
                    lemma_plane_bit(plane_3, shift);
                }
                let bit_0: u8 = (plane_0 >> shift) & 1;
                let bit_1: u8 = (plane_1 >> shift) & 1;
                let bit_2: u8 = (plane_2 >> shift) & 1;
                let bit_3: u8 = (plane_3 >> shift) & 1;
                let color: u8 = bit_0 + 2 * bit_1 + 4 * bit_2 + 8 * bit_3;

                let ghost before = tile@;
                tile[row * 8 + col] = ColorIndex::new(color as usize);
                proof {
                    let at = (row * 8 + col) as int;
                    assert(at / 8 == row && at % 8 == col);
                    assert forall|i: int| 0 <= i < 8 * row + col + 1 implies (#[trigger] tile@[i])@
                        == tile_pixel(data@, i / 8, i % 8) by {
                        if i < at {
                            assert(tile@[i] == before[i]);
                        }
                    }
                }
                col += 1;
            }
            row += 1;
        }

        let tile = Tile(tile);
        assert(tile@ =~= tile_pixels(data@));
        tile
    }
}

impl Tile {
    /// Draws the tile with the colours of `palette`.
    pub fn with_palette(&self, palette: &Palette, settings: TileSettings) -> (image: Bitmap)
        ensures
            image@.width == 8,
            image@.height == 8,
            forall|x: int, y: int| #[trigger]
                image@.contains(x, y) ==> image@.pixel(x, y) == shown_pixel(
                    self@,
                    palette@,
                    settings,
                    x,
                    y,
                ),
    {
        let mut image = Bitmap::new(8, 8);
        let mut y: u32 = 0;
        while y < 8
            invariant
                y <= 8,
                image@.width == 8,
                image@.height == 8,
                forall|px: int, py: int| #[trigger]
                    image@.contains(px, py) && py < y ==> image@.pixel(px, py) == shown_pixel(
                        self@,
                        palette@,
                        settings,
                        px,
                        py,
                    ),
            decreases 8 - y,
        {
            let mut x: u32 = 0;
            while x < 8
                invariant
                    y < 8,
                    x <= 8,
                    image@.width == 8,
                    image@.height == 8,
                    forall|px: int, py: int| #[trigger]
                        image@.contains(px, py) && (py < y || (py == y && px < x))
                            ==> image@.pixel(px, py) == shown_pixel(
                            self@,
                            palette@,
                            settings,
                            px,
                            py,
                        ),
                decreases 8 - x,
            {
                let from_x = if settings.x_flip {
                    7 - x
                } else {
                    x
                };
                let from_y = if settings.y_flip {
                    7 - y
                } else {
                    y
                };

                let pixel_index = ((from_y * 8) + from_x) as usize;
                let color_index = self.0[pixel_index];

                let pixel = if color_index.is_transparent() {
                    Rgba { r: 0, g: 0, b: 0, a: 0 }
                } else {
                    let color = palette.index(color_index);
                    Rgba { r: color.r, g: color.g, b: color.b, a: 255 }
                };
                let ghost before = image@;
                image.put_pixel(x, y, pixel);
                proof {
                    assert forall|px: int, py: int| #[trigger]
                        image@.contains(px, py) implies before.contains(px, py) by {}
                }
                x += 1;
            }
            y += 1;
        }
        image
    }
}

impl View for TileMapEntry {
    type V = u16;

    closed spec fn view(&self) -> u16 {
        self.0
    }
}

impl TileMapEntry {
    /// The entry with the value `value`.
    pub fn new(value: u16) -> (e: Self)
        ensures
            e@ == value,
    {
        TileMapEntry(value)
    }

    /// Which tile of the set: the lowest ten bits.
    pub fn tile_index(&self) -> (index: usize)
        ensures
            index == self@ % 1024,
            index < TILE_SET_TILES,
    {
        let value = self.0;
        assert(value & 0x3ff == value % 1024) by (bit_vector);
        (self.0 & 0x3FF) as usize
    }

    /// Which palette of the collection: the three bits above the tile index.
    pub fn palette_index(&self) -> (index: PaletteIndex)
        ensures
            index@ == self@ / 1024 % 8,
    {
        let value = self.0;
        assert((value >> 10) & 0x7 == value / 1024 % 8) by (bit_vector);
        PaletteIndex::new(((self.0 >> 10) & 0x7) as usize)
    }

    /// How the tile is drawn.
    pub fn tile_settings(&self) -> (settings: TileSettings)
        ensures
            settings == settings_of(self@),
    {
        let value = self.0;
        assert((value >> 13) & 0x3 == value / 8192 % 4) by (bit_vector);
        assert((value >> 14) & 0x1 == value / 16384 % 2) by (bit_vector);
        assert((value >> 15) & 0x1 == value / 32768 % 2) by (bit_vector);
        let priority = ((self.0 >> 13) & 0x3) as u8;
        let y_flip = ((self.0 >> 15) & 0x1) != 0;
        let x_flip = ((self.0 >> 14) & 0x1) != 0;

        TileSettings { x_flip, y_flip, priority }
    }

    /// The value of the entry.
    pub fn as_u16(&self) -> (value: u16)
        ensures
            value == self@,
    {
        self.0
    }
}

impl View for PartialTileSet {
    type V = Seq<Seq<int>>;

    closed spec fn view(&self) -> Seq<Seq<int>> {
        Seq::new(self.0@.len(), |i: int| self.0@[i]@)
    }
}

impl PartialTileSet {
    /// The tiles.
    pub fn tiles(&self) -> (tiles: &[Tile])
        ensures
            tiles@.len() == self@.len(),
            forall|i: int| 0 <= i < tiles@.len() ==> (#[trigger] tiles@[i])@ == self@[i],
    {
        self.0.as_slice()
    }

    /// How many tiles there are.
    pub fn len(&self) -> (n: usize)
        ensures
            n == self@.len(),
    {
        self.0.len()
    }
}

impl Compressable for PartialTileSet {
    /// Tile data is a whole number of tiles long.
    open spec fn fits(data: Seq<u8>) -> bool {
        data.len() % (TILE_BYTES as nat) == 0
    }

    open spec fn holds(&self, data: Seq<u8>) -> bool {
        self@ == tiles_of(data)
    }

    /// Converts tile data into tiles, 32 bytes to each.
    fn try_from_slice(data: &[u8]) -> (r: Result<Self, DecompressError>) {
        if data.len() % 32 != 0 {
            return Err(DecompressError::InvalidData);
        }
        let count = data.len() / 32;
        let mut tiles: Vec<Tile> = Vec::new();
        let mut i: usize = 0;
        while i < count
            invariant
                i <= count,
                count == data@.len() / (TILE_BYTES as nat),
                data@.len() == 32 * count,
                data@.len() <= usize::MAX,
                tiles@.len() == i,
                forall|k: int| 0 <= k < i ==> (#[trigger] tiles@[k])@ == tiles_of(data@)[k],
            decreases count - i,
        {
            let chunk = slice_subrange(data, 32 * i, 32 * i + 32);
            tiles.push(Tile::from_slice(chunk));
            i += 1;
        }
        let set = PartialTileSet(tiles);
        assert(set@ =~= tiles_of(data@));
        Ok(set)
    }
}

impl View for TileSet {
    type V = Seq<Seq<int>>;

    closed spec fn view(&self) -> Seq<Seq<int>> {
        Seq::new(TILE_SET_TILES as nat, |i: int| self.0@[i]@)
    }
}

impl TileSet {
    /// A tile set of blank tiles.
    pub fn new() -> (set: Self)
        ensures
            set@ == blank_tiles(),
    {
        let blank = Tile::blank();
        let tiles = [blank;1024];
        proof {
            assert(tiles == vstd::array::spec_array_fill_for_copy_type::<Tile, 1024>(blank));
        }
        let set = TileSet(Box::new(tiles));
        assert(set@ =~= blank_tiles());
        set
    }

    /// Replaces the tiles from `offset` on by `tiles`. The others stay as
    /// they are.
    pub fn add_tile_data(&mut self, offset: usize, tiles: PartialTileSet)
        requires
            offset + tiles@.len() <= TILE_SET_TILES,
        ensures
            final(self)@ == overlay(old(self)@, offset as int, tiles@),
    {
        let count = tiles.0.len();
        let mut i: usize = offset;
        while i < offset + count
            invariant
                offset <= i <= offset + count,
                count == tiles@.len(),
                offset + count <= TILE_SET_TILES,
                forall|k: int|
                    0 <= k < TILE_SET_TILES ==> #[trigger] self@[k] == (if offset <= k < i {
                        tiles@[k - offset]
                    } else {
                        old(self)@[k]
                    }),
            decreases offset + count - i,
        {
            let ghost before = self@;
            self.0[i] = tiles.0[i - offset];
            proof {
                assert forall|k: int| 0 <= k < TILE_SET_TILES implies #[trigger] self@[k] == (if k
                    == i {
                    tiles@[i - offset]
                } else {
                    before[k]
                }) by {}
            }
            i += 1;
        }
        assert(self@ =~= overlay(old(self)@, offset as int, tiles@));
    }

    /// The tiles.
    pub fn tiles(&self) -> (tiles: &[Tile])
        ensures
            tiles@.len() == TILE_SET_TILES,
            forall|i: int| 0 <= i < TILE_SET_TILES ==> (#[trigger] tiles@[i])@ == self@[i],
    {
        self.0.as_slice()
    }

    /// The tile at `index`.
    pub fn index(&self, index: usize) -> (tile: &Tile)
        requires
            index < TILE_SET_TILES,
        ensures
            tile@ == self@[index as int],
    {
        &self.0[index]
    }
}

impl View for TileMap {
    type V = Seq<u16>;

    closed spec fn view(&self) -> Seq<u16> {
        Seq::new(self.0@.len(), |i: int| self.0@[i]@)
    }
}

impl TileMap {
    /// How many entries the map has.
    pub fn len(&self) -> (n: usize)
        ensures
            n == self@.len(),
    {
        self.0.len()
    }

    /// The entry at `index`.
    pub fn index(&self, index: usize) -> (entry: &TileMapEntry)
        requires
            index < self@.len(),
        ensures
            entry@ == self@[index as int],
    {
        &self.0[index]
    }
}

impl Compressable for TileMap {
    /// Tile map data is a whole number of 16-bit entries long.
    open spec fn fits(data: Seq<u8>) -> bool {
        data.len() % 2 == 0
    }

    open spec fn holds(&self, data: Seq<u8>) -> bool {
        self@ == entries_of(data)
    }

    /// Converts tile map data into a tile map, two bytes to each entry.
    fn try_from_slice(data: &[u8]) -> (r: Result<Self, DecompressError>) {
        if data.len() % 2 != 0 {
            return Err(DecompressError::InvalidData);
        }
        let count = data.len() / 2;
        let mut tile_map: Vec<TileMapEntry> = Vec::new();
        let mut i: usize = 0;
        while i < count
            invariant
                i <= count,
                count == data@.len() / 2,
                data@.len() % 2 == 0,
                tile_map@.len() == i,
                forall|k: int| 0 <= k < i ==> (#[trigger] tile_map@[k])@ == entries_of(data@)[k],
            decreases count - i,
        {
            let low: u16 = data[2 * i] as u16;
            let high: u16 = data[2 * i + 1] as u16;
            tile_map.push(TileMapEntry(low + 256 * high));
            i += 1;
        }
        let map = TileMap(tile_map);
        assert(map@ =~= entries_of(data@));
        Ok(map)
    }
}

} // verus!
