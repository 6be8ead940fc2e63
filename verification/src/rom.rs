//! A cartridge image and what a map finds in it.

use vstd::prelude::*;

use crate::compression::DecompressError;

pub mod map;
pub mod mapped;
pub mod table;

pub use map::{RomMap, RomMetadata};
pub use mapped::{MappedPaletteCollection, MappedRom, MappedSprite};

verus! {

/// The CRC-32 checksum of `data`, as the `crc32fast` crate computes it.
pub uninterp spec fn crc32(data: Seq<u8>) -> u32;

/// Computes the checksum of `data`.
///
/// Calls `crc32fast::hash`, which feeds the whole slice to a fresh hasher and
/// returns the finished CRC-32. The result depends on the bytes alone.
#[verifier::external_body]
fn checksum(data: &[u8]) -> (crc: u32)
    ensures
        crc == crc32(data@),
{
    crc32fast::hash(data)
}

/// The bytes of a cartridge image, borrowed or owned.
#[derive(Debug)]
enum RomData<'rom> {
    Borrowed(&'rom [u8]),
    Owned(Vec<u8>),
}

/// A cartridge image with its checksum.
#[derive(Debug)]
pub struct Rom<'rom> {
    data: RomData<'rom>,
    crc: u32,
}

/// Why a cartridge image could not be mapped.
#[derive(Debug)]
pub enum RomError {
    /// A compressed region could not be decoded, or what it decoded to does
    /// not have the shape that its use needs.
    Decompress(DecompressError),
    /// The map does not list the image's checksum.
    IncompatibleMap,
    /// The palette definition of this name has no region.
    InvalidPaletteDefinition(String),
    /// The sprite of the first name asks for a palette of the second name,
    /// which the map does not define.
    UnknownPalette(String, String),
    /// The sprite of the first name asks for a tile set of the second name,
    /// which the map does not define.
    UnknownTileset(String, String),
}

impl<'rom> View for Rom<'rom> {
    type V = Seq<u8>;

    closed spec fn view(&self) -> Seq<u8> {
        match self.data {
            RomData::Borrowed(data) => data@,
            RomData::Owned(data) => data@,
        }
    }
}

impl<'rom> Rom<'rom> {
    #[verifier::type_invariant]
    spec fn summed(self) -> bool {
        self.crc == crc32(self@)
    }

    /// The image that `data` holds.
    pub fn new(data: &'rom [u8]) -> (rom: Self)
        ensures
            rom@ == data@,
    {
        let crc = checksum(data);
        Rom { data: RomData::Borrowed(data), crc }
    }

    /// The image that `data` holds, keeping the bytes.
    pub fn from_vec(data: Vec<u8>) -> (rom: Self)
        ensures
            rom@ == data@,
    {
        let crc = checksum(data.as_slice());
        Rom { data: RomData::Owned(data), crc }
    }

    /// The bytes of the image.
    pub fn data(&self) -> (data: &[u8])
        ensures
            data@ == self@,
    {
        match &self.data {
            RomData::Borrowed(data) => data,
            RomData::Owned(data) => data.as_slice(),
        }
    }

    /// The CRC-32 checksum of the image.
    pub fn crc(&self) -> (crc: u32)
        ensures
            crc == crc32(self@),
    {
        proof {
            use_type_invariant(self);
        }
        self.crc
    }
}

} // verus!
