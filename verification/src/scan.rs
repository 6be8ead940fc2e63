//! Looking for tile sets at offsets that no map names.

use vstd::arithmetic::power2::{lemma_pow2_strictly_increases, lemma_pow2_unfold, pow2};
use vstd::prelude::*;

use crate::compression::model::decoded;
use crate::compression::{decompress, Compressable};
use crate::tile::{tiles_of, PartialTileSet, TILE_SET_TILES};

verus! {

/// Whether `n` is a power of two.
pub open spec fn power_of_two(n: int) -> bool {
    exists|k: nat| n == pow2(k)
}

/// Whether `count` tiles look like a tile set: at least `threshold` and fewer
/// than a full set, and a power of two.
pub open spec fn plausible(count: int, threshold: int) -> bool {
    threshold <= count < TILE_SET_TILES && power_of_two(count)
}

/// Whether decoded data looks like a tile set: some whole tiles, of a
/// plausible number.
pub open spec fn looks_like_tiles(data: Seq<u8>, threshold: int) -> bool {
    data.len() > 0 && data.len() % 32 == 0 && plausible(data.len() as int / 32, threshold)
}

/// Tells whether `n` is a power of two.
pub fn is_power_of_two(n: usize) -> (r: bool)
    ensures
        r == power_of_two(n as int),
{
    let mut power: usize = 1;
    let ghost mut k: nat = 0;
    proof {
        vstd::arithmetic::power2::lemma2_to64();
    }
    while power < n && power <= usize::MAX / 2
        invariant
            power >= 1,
            power == pow2(k),
            forall|j: nat| j < k ==> pow2(j) < n,
        decreases usize::MAX - power,
    {
        proof {
            lemma_pow2_unfold(k + 1);
            assert forall|j: nat| j < k + 1 implies pow2(j) < n by {
                if j == k {
                } else {
                    assert(j < k);
                }
            }
            k = k + 1;
        }
        power = power * 2;
    }
    proof {
        if power != n {
            assert forall|j: nat| n != pow2(j) by {
                if j < k {
                } else if j == k {
                } else {
                    lemma_pow2_strictly_increases(k, j);
                    if power < n {
                        lemma_pow2_unfold(k + 1);
                        if j > k + 1 {
                            lemma_pow2_strictly_increases(k + 1, j);
                        }
                    }
                }
            }
        }
    }
    power == n
}

/// Decodes the stream at `offset` and hands back its tiles where the output
/// looks like a tile set; nothing where the decode fails or the output does
/// not look like one.
pub fn candidate_tiles(rom: &[u8], offset: usize, threshold: usize) -> (found: Option<
    PartialTileSet,
>)
    ensures
        match found {
            Some(tiles) => decoded(rom@, offset as int) matches Ok(out) && looks_like_tiles(
                out,
                threshold as int,
            ) && tiles@ == tiles_of(out),
            None => !(decoded(rom@, offset as int) matches Ok(out) && looks_like_tiles(
                out,
                threshold as int,
            )),
        },
{
    let result = match decompress(rom, offset) {
        Ok(result) => result,
        Err(_) => {
            return None;
        },
    };

    if result.len() == 0 || result.len() % 32 != 0 {
        return None;
    }

    let tiles = match PartialTileSet::try_from_slice(result.as_slice()) {
        Ok(tiles) => tiles,
        Err(_) => {
            return None;
        },
    };

    let tile_amt = tiles.len();
    if tile_amt < threshold || tile_amt >= 1024 || !is_power_of_two(tile_amt) {
        return None;
    }
    Some(tiles)
}

} // verus!
