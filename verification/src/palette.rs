//! Palettes: sixteen colours each, sixteen palettes to a collection.

use vstd::prelude::*;

use vstd::slice::slice_subrange;

use crate::compression::{Compressable, DecompressError};

verus! {

/// How many colours a palette holds.
pub const PALETTE_COLORS: usize = 16;

/// How many palettes a collection holds.
pub const COLLECTION_PALETTES: usize = 16;

/// How many bytes of data make one palette: two for each colour.
pub const PALETTE_BYTES: usize = 32;

/// A colour with eight bits for each of red, green and blue.
#[derive(Debug, Clone, Copy, PartialEq, Eq, Structural)]
pub struct Rgb {
    pub r: u8,
    pub g: u8,
    pub b: u8,
}

/// The index of a colour in a palette: a number below 16.
#[derive(Debug, Clone, Copy)]
pub struct ColorIndex(usize);

/// The index of a palette in a collection: a number below 16.
#[derive(Debug, Clone, Copy)]
pub struct PaletteIndex(usize);

/// Sixteen colours.
#[derive(Debug, Clone, Copy)]
pub struct Palette([Rgb; 16]);

/// Sixteen palettes.
#[derive(Debug, Clone)]
pub struct PaletteCollection([Palette; 16]);

impl View for ColorIndex {
    type V = int;

    closed spec fn view(&self) -> int {
        self.0 as int
    }
}

impl ColorIndex {
    #[verifier::type_invariant]
    spec fn in_range(self) -> bool {
        self.0 < PALETTE_COLORS
    }

    /// The colour index `index`.
    pub fn new(index: usize) -> (c: Self)
        requires
            index < PALETTE_COLORS,
        ensures
            c@ == index,
    {
        ColorIndex(index)
    }

    /// The number of this index.
    pub fn get(&self) -> (index: usize)
        ensures
            index == self@,
            index < PALETTE_COLORS,
    {
        proof {
            use_type_invariant(self);
        }
        self.0
    }

    /// Colour 0 of every palette is transparent.
    pub fn is_transparent(&self) -> (t: bool)
        ensures
            t == (self@ == 0),
    {
        self.0 == 0
    }
}

impl View for PaletteIndex {
    type V = int;

    closed spec fn view(&self) -> int {
        self.0 as int
    }
}

impl PaletteIndex {
    #[verifier::type_invariant]
    spec fn in_range(self) -> bool {
        self.0 < COLLECTION_PALETTES
    }

    /// The palette index `index`.
    pub fn new(index: usize) -> (p: Self)
        requires
            index < COLLECTION_PALETTES,
        ensures
            p@ == index,
    {
        PaletteIndex(index)
    }

    /// The number of this index.
    pub fn get(&self) -> (index: usize)
        ensures
            index == self@,
            index < COLLECTION_PALETTES,
    {
        proof {
            use_type_invariant(self);
        }
        self.0
    }
}

/// The 15-bit colour whose little-endian bytes are `lo`, `hi`, widened to 24
/// bits: five bits each of red, green and blue from the lowest bit up, every
/// channel multiplied by 8. The sixteenth bit is not used.
pub open spec fn rgb15(lo: u8, hi: u8) -> Rgb {
    let value = lo + 256 * hi;
    Rgb {
        r: (value % 32 * 8) as u8,
        g: (value / 32 % 32 * 8) as u8,
        b: (value / 1024 % 32 * 8) as u8,
    }
}

/// The colours that 32 bytes of palette data stand for.
pub open spec fn palette_colors(data: Seq<u8>) -> Seq<Rgb>
    recommends
        data.len() == PALETTE_BYTES,
{
    Seq::new(PALETTE_COLORS as nat, |i: int| rgb15(data[2 * i], data[2 * i + 1]))
}

/// The palettes that palette data stands for, 32 bytes to each.
pub open spec fn palettes_of(data: Seq<u8>) -> Seq<Seq<Rgb>>
    recommends
        data.len() % (PALETTE_BYTES as nat) == 0,
{
    Seq::new(
        data.len() / (PALETTE_BYTES as nat),
        |p: int|
            palette_colors(data.subrange(PALETTE_BYTES * p, PALETTE_BYTES * p + PALETTE_BYTES)),
    )
}

/// Sixteen palettes of sixteen times black.
pub open spec fn black_palettes() -> Seq<Seq<Rgb>> {
    Seq::new(
        COLLECTION_PALETTES as nat,
        |p: int| Seq::new(PALETTE_COLORS as nat, |c: int| Rgb { r: 0, g: 0, b: 0 }),
    )
}

/// `base` with the items from `start` on replaced by `added`.
pub open spec fn overlay<T>(base: Seq<T>, start: int, added: Seq<T>) -> Seq<T> {
    Seq::new(
        base.len(),
        |i: int|
            if start <= i < start + added.len() {
                added[i - start]
            } else {
                base[i]
            },
    )
}

/// Widens one 15-bit colour.
fn rgb15_from(lo: u8, hi: u8) -> (c: Rgb)
    ensures
        c == rgb15(lo, hi),
{
    let value: u16 = lo as u16 + 256 * (hi as u16);
    let r: u16 = ((value >> 0) & 0x1f) << 3;
    let g: u16 = ((value >> 5) & 0x1f) << 3;
    let b: u16 = ((value >> 10) & 0x1f) << 3;
    assert(((value >> 0) & 0x1f) << 3 == value % 32 * 8) by (bit_vector);
    assert(((value >> 5) & 0x1f) << 3 == value / 32 % 32 * 8) by (bit_vector);
    assert(((value >> 10) & 0x1f) << 3 == value / 1024 % 32 * 8) by (bit_vector);
    Rgb { r: r as u8, g: g as u8, b: b as u8 }
}

impl View for Palette {
    type V = Seq<Rgb>;

    closed spec fn view(&self) -> Seq<Rgb> {
        self.0@
    }
}

impl Palette {
    /// The palette of four greys, repeated four times, for tiles whose own
    /// palette is not known.
    pub fn black_and_white() -> (p: Self)
        ensures
            p@.len() == PALETTE_COLORS,
            forall|i: int|
                0 <= i < PALETTE_COLORS ==> #[trigger] p@[i] == (if i % 4 == 0 {
                    Rgb { r: 0, g: 0, b: 0 }
                } else if i % 4 == 1 {
                    Rgb { r: 255, g: 255, b: 255 }
                } else if i % 4 == 2 {
                    Rgb { r: 170, g: 170, b: 170 }
                } else {
                    Rgb { r: 85, g: 85, b: 85 }
                }),
    {
        let black = Rgb { r: 0, g: 0, b: 0 };
        let white = Rgb { r: 255, g: 255, b: 255 };
        let light = Rgb { r: 170, g: 170, b: 170 };
        let dark = Rgb { r: 85, g: 85, b: 85 };
        Palette(
            [
                black,
                white,
                light,
                dark,
                black,
                white,
                light,
                dark,
                black,
                white,
                light,
                dark,
                black,
                white,
                light,
                dark,
            ],
        )
    }

    /// Converts 32 bytes of palette data into a palette.
    pub fn from_slice(data: &[u8]) -> (p: Self)
        requires
            data@.len() == PALETTE_BYTES,
        ensures
            p@ == palette_colors(data@),
    {
        let mut palette = [Rgb { r: 0, g: 0, b: 0 };16];
        let mut i: usize = 0;
        while i < 16
            invariant
                i <= 16,
                data@.len() == PALETTE_BYTES,
                forall|k: int|
                    0 <= k < i ==> #[trigger] palette@[k] == rgb15(data@[2 * k], data@[2 * k + 1]),
            decreases 16 - i,
        {
            palette[i] = rgb15_from(data[2 * i], data[2 * i + 1]);
            i += 1;
        }
        assert(palette@ =~= palette_colors(data@));
        Palette(palette)
    }

    /// The colour at `index`.
    pub fn index(&self, index: ColorIndex) -> (c: &Rgb)
        ensures
            *c == self@[index@],
    {
        &self.0[index.get()]
    }
}

impl View for PaletteCollection {
    type V = Seq<Seq<Rgb>>;

    closed spec fn view(&self) -> Seq<Seq<Rgb>> {
        Seq::new(COLLECTION_PALETTES as nat, |i: int| self.0@[i]@)
    }
}

impl PaletteCollection {
    /// A collection whose colours are all black.
    pub fn black() -> (c: Self)
        ensures
            c@ == black_palettes(),
    {
        let black = Rgb { r: 0, g: 0, b: 0 };
        let colors = [black;16];
        let palette = Palette(colors);
        let palettes = [palette;16];
        proof {
            assert(colors == vstd::array::spec_array_fill_for_copy_type::<Rgb, 16>(black));
            assert(palettes == vstd::array::spec_array_fill_for_copy_type::<Palette, 16>(palette));
        }
        let collection = PaletteCollection(palettes);
        assert(collection@ =~~= black_palettes());
        collection
    }

    /// The palette at `index`.
    pub fn index(&self, index: PaletteIndex) -> (p: &Palette)
        ensures
            p@ == self@[index@],
    {
        &self.0[index.get()]
    }

    /// Replaces the palettes from `offset` on by the palettes that `data`
    /// stands for, 32 bytes to each. The others stay as they are.
    pub fn add_palette_data(&mut self, offset: usize, data: &[u8])
        requires
            data@.len() % (PALETTE_BYTES as nat) == 0,
            offset + data@.len() / (PALETTE_BYTES as nat) <= COLLECTION_PALETTES,
        ensures
            final(self)@ == overlay(old(self)@, offset as int, palettes_of(data@)),
    {
        let palette_count = data.len() / 32;
        let mut i: usize = 0;
        while i < palette_count
            invariant
                i <= palette_count,
                palette_count == data@.len() / (PALETTE_BYTES as nat),
                data@.len() % (PALETTE_BYTES as nat) == 0,
                offset + palette_count <= COLLECTION_PALETTES,
                forall|k: int|
                    0 <= k < COLLECTION_PALETTES ==> #[trigger] self@[k] == (if offset <= k
                        < offset + i {
                        palettes_of(data@)[k - offset]
                    } else {
                        old(self)@[k]
                    }),
            decreases palette_count - i,
        {
            let chunk = slice_subrange(data, 32 * i, 32 * i + 32);
            let ghost before = self@;
            self.0[offset + i] = Palette::from_slice(chunk);
            proof {
                assert forall|k: int| 0 <= k < COLLECTION_PALETTES implies #[trigger] self@[k] == (
                if k == offset + i {
                    palettes_of(data@)[i as int]
                } else {
                    before[k]
                }) by {}
            }
            i += 1;
        }
        assert(self@ =~= overlay(old(self)@, offset as int, palettes_of(data@)));
    }
}

impl Compressable for PaletteCollection {
    /// Palette data for a whole collection is 512 bytes long.
    open spec fn fits(data: Seq<u8>) -> bool {
        data.len() == COLLECTION_PALETTES * PALETTE_BYTES
    }

    open spec fn holds(&self, data: Seq<u8>) -> bool {
        self@ == palettes_of(data)
    }

    /// Converts 512 bytes of palette data into a collection of palettes.
    fn try_from_slice(data: &[u8]) -> (r: Result<Self, DecompressError>) {
        if data.len() != 512 {
            return Err(DecompressError::InvalidData);
        }
        let mut collection = PaletteCollection::black();
        collection.add_palette_data(0, data);
        proof {
            assert(collection@ =~= palettes_of(data@));
        }
        Ok(collection)
    }
}

} // verus!
