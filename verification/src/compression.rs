//! The decompressor for the cartridge's run-length / back-reference codec.
//!
//! A compressed region is a stream of operations. Each starts with one opcode
//! byte whose numeric range selects one of the shapes of [`Operation`]; the
//! bytes that follow are its operands and, for the copying shapes, its data.

use vstd::prelude::*;

pub mod decompress;
pub mod laws;
pub mod model;

pub use decompress::{decompress, Decompressor};

verus! {

/// Why a decode stopped without a result.
#[derive(Debug, Clone, Copy, PartialEq, Eq, Structural)]
pub enum DecompressError {
    /// The stream asked for a byte outside the data that may be read: a
    /// back-reference before the start of valid data, or a read past the end
    /// of the source.
    InvalidOperation,
    /// The read cursor stood still for too many operations in a row.
    LoopDetected,
    /// The output grew past the size ceiling.
    MaxSizeExceeded,
    /// Decoded output does not have the shape its consumer needs. The decoder
    /// itself never reports this.
    InvalidData,
}

/// Which half of an output byte holds the fixed nibble.
#[derive(Debug, Clone, Copy, PartialEq, Eq, Structural)]
pub enum NibblePos {
    Upper,
    Lower,
}

/// One decoded operation of the stream.
#[allow(inconsistent_fields)]
#[derive(Debug, Clone, Copy, PartialEq, Eq)]
pub enum Operation {
    /// Copy `count + 1` bytes from the source to the output.
    CopySimple(u8),
    /// Write output bytes of which one half is the nibble `fixed` and the
    /// other half comes from the source, two output bytes per source byte.
    /// `initial`, if present, is the variable nibble of the first output byte.
    CopyNibbleFixed { count: u8, fixed: u8, fixed_pos: NibblePos, initial: Option<u8> },
    /// Copy `count + 1` bytes from the source, writing each one twice.
    CopyDoubled(u8),
    /// Copy `count + 1` bytes from the source, pairing each with `fixed_value`;
    /// `fixed_first` says which of the two comes first.
    CopyInterleaved { count: u8, fixed_value: u8, fixed_first: bool },
    /// Append `count + 1` bytes, each the output byte `back` positions before
    /// the end at the time it is appended.
    CopyBackread { count: u8, back: u16 },
    /// Append `value` `count` times.
    RepeatValue { count: u16, value: u8 },
    /// Move the read cursor `back` bytes towards the start of the source for
    /// the next `count` checked reads.
    StartBackref { count: u16, back: u16 },
    /// The stream ends here.
    Exit,
}

/// Data that is stored compressed and has a shape of its own once decoded.
pub trait Compressable: Sized {
    /// Whether `data` has the shape that a value of this type is made from.
    spec fn fits(data: Seq<u8>) -> bool;

    /// Whether this value is the one that `data` stands for.
    spec fn holds(&self, data: Seq<u8>) -> bool;

    /// Makes a value from decoded data, or reports invalid data where the
    /// data does not have the shape.
    fn try_from_slice(data: &[u8]) -> (r: Result<Self, DecompressError>)
        ensures
            match r {
                Ok(value) => Self::fits(data@) && value.holds(data@),
                Err(e) => e == DecompressError::InvalidData && !Self::fits(data@),
            },
    ;

    /// Decodes the stream that starts at `offset` in `rom` and makes a value
    /// from the output. Fails with the decoder's error where the decode
    /// fails, and with invalid data where its output does not have the shape.
    fn from_compressed(rom: &[u8], offset: usize) -> (r: Result<Self, DecompressError>)
        ensures
            match model::decoded(rom@, offset as int) {
                Ok(out) => match r {
                    Ok(value) => Self::fits(out) && value.holds(out),
                    Err(e) => e == DecompressError::InvalidData && !Self::fits(out),
                },
                Err(e) => r matches Err(err) && err == e,
            },
    {
        match decompress(rom, offset) {
            Ok(data) => Self::try_from_slice(data.as_slice()),
            Err(e) => Err(e),
        }
    }
}

} // verus!
