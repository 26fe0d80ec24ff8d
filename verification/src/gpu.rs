//! Sizes and schedules of the GPU renderer: how the source image is uploaded as a mipmapped
//! texture and how rendered tiles are read back.
use vstd::arithmetic::power2::pow2;
use vstd::prelude::*;

use crate::grid::TILE_SIZE;
use crate::raster::{Picture, Raster};

verus! {

/// The longest side of a texture on a device with default limits.
pub const MAX_TEXTURE_SIDE: u32 = 8192;

/// The bytes of a row of a rendered tile. A multiple of 256, as copies from a texture demand.
pub const TILE_ROW_BYTES: u32 = 1024;

/// The bytes of a rendered tile.
pub const TILE_BYTES: u64 = 262144;

/// How an image is laid out in its texture.
#[derive(Clone, Copy, Debug, PartialEq, Eq, Structural)]
pub struct UploadLayout {
    pub width: u32,
    pub height: u32,
    /// The number of mip levels, the image itself counted.
    pub mip_level_count: u32,
    /// The bytes of a row of the image.
    pub bytes_per_row: u32,
}

/// The larger of two numbers.
pub open spec fn greatest(a: int, b: int) -> int {
    if a >= b {
        a
    } else {
        b
    }
}

/// Whether an image of this size can be a texture.
pub open spec fn is_texture_size(width: u32, height: u32) -> bool {
    1 <= width <= MAX_TEXTURE_SIDE && 1 <= height <= MAX_TEXTURE_SIDE
}

/// Lays out an image of `width` by `height` pixels. There is a mip level for each power of two up
/// to the longer side.
pub fn upload_layout(width: u32, height: u32) -> (layout: UploadLayout)
    requires
        is_texture_size(width, height),
    ensures
        layout.width == width,
        layout.height == height,
        layout.bytes_per_row == 4 * width,
        layout.mip_level_count >= 1,
        pow2((layout.mip_level_count - 1) as nat) <= greatest(width as int, height as int),
        greatest(width as int, height as int) < pow2(layout.mip_level_count as nat),
{
    let side: u32 = if width >= height { width } else { height };
    let mut left: u32 = side;
    let mut count: u32 = 1;
    proof {
        vstd::arithmetic::power2::lemma2_to64();
        assert(pow2((count - 1) as nat) == 1);
    }
    while left > 1
        invariant
            1 <= left,
            1 <= count,
            count + left <= MAX_TEXTURE_SIDE + 1,
            pow2((count - 1) as nat) >= 1,
            left * pow2((count - 1) as nat) <= side,
            side < (left + 1) * pow2((count - 1) as nat),
        decreases left,
    {
        let ghost half = left / 2;
        let ghost unit = pow2((count - 1) as nat) as int;
        proof {
            vstd::arithmetic::power2::lemma_pow2_unfold(count as nat);
            assert(pow2(count as nat) == 2 * unit);
            assert(half * (2 * unit) <= left * unit) by (nonlinear_arith)
                requires
                    2 * half <= left,
                    unit >= 1,
            ;
            assert((left + 1) * unit <= (half + 1) * (2 * unit)) by (nonlinear_arith)
                requires
                    left <= 2 * half + 1,
                    unit >= 1,
            ;
        }
        left = left / 2;
        count = count + 1;
    }
    proof {
        vstd::arithmetic::power2::lemma_pow2_unfold(count as nat);
    }
    UploadLayout { width, height, mip_level_count: count, bytes_per_row: width * 4 }
}

/// A pass that fills one mip level from the one before it.
#[derive(Clone, Copy, Debug, PartialEq, Eq, Structural)]
pub struct MipPass {
    pub source: u32,
    pub target: u32,
}

/// Lists the passes that fill all mip levels above the image itself, in order.
pub fn mip_passes(mip_level_count: u32) -> (passes: Vec<MipPass>)
    ensures
        passes@.len() == greatest(mip_level_count - 1, 0),
        forall|i: int|
            0 <= i < passes@.len() ==> #[trigger] passes@[i] == (MipPass {
                source: i as u32,
                target: (i + 1) as u32,
            }),
{
    let mut passes: Vec<MipPass> = Vec::new();
    let mut mip: u32 = 1;
    while mip < mip_level_count
        invariant
            1 <= mip,
            mip <= mip_level_count || mip == 1,
            passes@.len() == mip - 1,
            forall|i: int|
                0 <= i < passes@.len() ==> #[trigger] passes@[i] == (MipPass {
                    source: i as u32,
                    target: (i + 1) as u32,
                }),
        decreases mip_level_count - mip,
    {
        passes.push(MipPass { source: mip - 1, target: mip });
        mip = mip + 1;
    }
    passes
}

/// Takes a rendered tile from the bytes that were read back: `None` if there are too few.
pub fn read_back(bytes: Vec<u8>) -> (tile: Option<Raster>)
    ensures
        tile is Some <==> TILE_BYTES <= bytes@.len(),
        tile matches Some(tile) ==> tile@ == (Picture {
            width: TILE_SIZE as int,
            height: TILE_SIZE as int,
            bytes: bytes@.take(TILE_BYTES as int),
        }),
{
    Raster::from_raw(TILE_SIZE, TILE_SIZE, bytes)
}

/// The side of a mip level of an image with the given side.
pub open spec fn mip_side(side: int, level: nat) -> int {
    greatest(side / pow2(level) as int, 1)
}

/// The mip levels of [`upload_layout`] shrink the longer side to one pixel at the last level and
/// not before.
pub proof fn law_mip_chain_ends_at_one_pixel(side: int, mip_level_count: nat)
    requires
        mip_level_count >= 1,
        pow2((mip_level_count - 1) as nat) <= side < pow2(mip_level_count),
    ensures
        mip_side(side, (mip_level_count - 1) as nat) == 1,
        forall|level: nat| level < mip_level_count - 1 ==> #[trigger] mip_side(side, level) > 1,
{
    let last = (mip_level_count - 1) as nat;
    vstd::arithmetic::power2::lemma_pow2_unfold(mip_level_count);
    vstd::arithmetic::power2::lemma_pow2_pos(last);
    let unit = pow2(last) as int;
    assert(side / unit == 1) by (nonlinear_arith)
        requires
            unit > 0,
            unit <= side < 2 * unit,
    ;
    assert forall|level: nat| level < mip_level_count - 1 implies #[trigger] mip_side(side, level)
        > 1 by {
        vstd::arithmetic::power2::lemma_pow2_pos(level);
        vstd::arithmetic::power2::lemma_pow2_unfold((level + 1) as nat);
        if level + 1 < last {
            vstd::arithmetic::power2::lemma_pow2_strictly_increases((level + 1) as nat, last);
        }
        let u = pow2(level) as int;
        assert(side / u >= 2) by (nonlinear_arith)
            requires
                u > 0,
                2 * u <= side,
        ;
    }
}

} // verus!
