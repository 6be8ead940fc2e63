//! Sprites: a tile map drawn with a tile set and a palette collection.

use std::sync::Arc;
use vstd::prelude::*;

use crate::bitmap::{lemma_pixel_index, Bitmap, Rgba};
use crate::palette::PaletteCollection;
use crate::tile::{settings_of, shown_pixel, TileMap, TileSet};

verus! {

/// Another handle to a shared value.
///
/// Calls [`Arc::clone`], which hands out a new pointer to the same
/// allocation: what the result points to is what `shared` points to.
#[verifier::external_body]
pub(crate) fn share<T>(shared: &Arc<T>) -> (handle: Arc<T>)
    ensures
        handle == *shared,
{
    Arc::clone(shared)
}

/// A sprite of `size.0` by `size.1` tiles. The tile map names the tiles row
/// by row.
#[derive(Debug)]
pub struct Sprite {
    pub size: (u32, u32),
    pub tiles: Arc<TileSet>,
    pub tile_map: Arc<TileMap>,
    pub palettes: Arc<PaletteCollection>,
}

impl Clone for Sprite {
    /// A sprite that shares its tiles, tile map and palettes with this one.
    fn clone(&self) -> (sprite: Self)
        ensures
            sprite == *self,
    {
        Sprite {
            size: (self.size.0, self.size.1),
            tiles: share(&self.tiles),
            tile_map: share(&self.tile_map),
            palettes: share(&self.palettes),
        }
    }
}

impl Sprite {
    /// Whether the tile map has one entry for each tile of the sprite.
    pub open spec fn wf(&self) -> bool {
        &&& self.size.0 * self.size.1 == self.tile_map@.len()
        &&& self.size.0 * self.size.1 <= u32::MAX
    }

    /// The pixel in column `x` of row `y` of the sprite's image: the pixel
    /// of the tile that the tile map has for that place, drawn as its entry
    /// says.
    pub open spec fn drawn_pixel(&self, x: int, y: int) -> Rgba
        recommends
            self.wf(),
            0 <= x < 8 * self.size.0,
            0 <= y < 8 * self.size.1,
    {
        let entry = self.tile_map@[(y / 8) * self.size.0 + x / 8];
        shown_pixel(
            self.tiles@[(entry % 1024) as int],
            self.palettes@[(entry / 1024 % 8) as int],
            settings_of(entry),
            x % 8,
            y % 8,
        )
    }

    /// A sprite of `size.0` by `size.1` tiles.
    pub fn new(
        size: (u32, u32),
        tiles: Arc<TileSet>,
        tile_map: Arc<TileMap>,
        palettes: Arc<PaletteCollection>,
    ) -> (sprite: Self)
        requires
            size.0 * size.1 == tile_map@.len(),
            size.0 * size.1 <= u32::MAX,
        ensures
            sprite.wf(),
            sprite.size == size,
            sprite.tiles == tiles,
            sprite.tile_map == tile_map,
            sprite.palettes == palettes,
    {
        Sprite { size, tiles, tile_map, palettes }
    }

    /// Draws the sprite, eight by eight pixels to each tile.
    pub fn to_image(&self) -> (image: Bitmap)
        requires
            self.wf(),
            8 * self.size.0 <= u32::MAX,
            8 * self.size.1 <= u32::MAX,
            64 * (self.size.0 * self.size.1) <= usize::MAX,
        ensures
            image@.width == 8 * self.size.0,
            image@.height == 8 * self.size.1,
            forall|x: int, y: int| #[trigger]
                image@.contains(x, y) ==> image@.pixel(x, y) == self.drawn_pixel(x, y),
    {
        let width = self.size.0;
        let height = self.size.1;
        assert((8 * width) * (8 * height) == 64 * (width * height)) by (nonlinear_arith);
        let mut image = Bitmap::new(width * 8, height * 8);

        let count = self.tile_map.len();
        let mut i: usize = 0;
        while i < count
            invariant
                i <= count,
                count == self.tile_map@.len(),
                self.wf(),
                width == self.size.0,
                height == self.size.1,
                8 * width <= u32::MAX,
                8 * height <= u32::MAX,
                image@.width == 8 * width,
                image@.height == 8 * height,
                forall|x: int, y: int| #[trigger]
                    image@.contains(x, y) && (y / 8) * width + x / 8 < i ==> image@.pixel(x, y)
                        == self.drawn_pixel(x, y),
            decreases count - i,
        {
            let entry = self.tile_map.index(i);
            assert(width > 0) by (nonlinear_arith)
                requires
                    i < width * height,
            ;
            proof {
                vstd::arithmetic::div_mod::lemma_fundamental_div_mod(i as int, width as int);
                vstd::arithmetic::div_mod::lemma_mod_pos_bound(i as int, width as int);
                vstd::arithmetic::div_mod::lemma_div_pos_is_pos(i as int, width as int);
                assert(i / (width as usize) < height) by (nonlinear_arith)
                    requires
                        i < width * height,
                        i == width * (i / (width as usize)) + i % (width as usize),
                        0 <= i % (width as usize),
                        width > 0,
                ;
            }

            let x = (i as u32 % width) * 8;
            let y = (i as u32 / width) * 8;

            let tile = self.tiles.index(entry.tile_index());

            let palette = self.palettes.index(entry.palette_index());
            let tile_image = tile.with_palette(palette, entry.tile_settings());
            let ghost before = image@;
            image.copy_from(&tile_image, x, y);
            proof {
                assert forall|px: int, py: int| #[trigger]
                    image@.contains(px, py) && (py / 8) * width + px / 8 < i
                    + 1 implies image@.pixel(px, py) == self.drawn_pixel(px, py) by {
                    assert(before.contains(px, py));
                    lemma_pixel_index(width as int, height as int, px / 8, py / 8);
                    let at = (py / 8) * width + px / 8;
                    if at == i {
                        assert(tile_image@.contains(px - x, py - y));
                    } else {
                        if x <= px < x + 8 && y <= py < y + 8 {
                            assert(px / 8 == i % (width as usize));
                            assert(py / 8 == i / (width as usize));
                            assert((py / 8) * width == width * (py / 8)) by (nonlinear_arith);
                        }
                    }
                }
            }
            i += 1;
        }
        proof {
            assert forall|x: int, y: int| #[trigger] image@.contains(x, y) implies image@.pixel(
                x,
                y,
            ) == self.drawn_pixel(x, y) by {
                lemma_pixel_index(width as int, height as int, x / 8, y / 8);
            }
        }

        image
    }
}

} // verus!
