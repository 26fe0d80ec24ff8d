//! What is done for a zoom level, and in which order.
use vstd::arithmetic::power2::pow2;
use vstd::prelude::*;

use crate::gpu::{greatest, is_texture_size};
use crate::grid::{batch, batch_count, tile_order, tiles_fit, tiles_per_side, zoom_range};
use crate::job::{all_steps, Step, TileSource};
use crate::plan::plannable;

verus! {

/// There are `2^zoom` tiles along each side of the map, and a zoom level can be planned where their
/// number is in range and the list of all tiles fits in a vector.
pub proof fn law_tiles_of_a_zoom_level(zoom: u32, n: nat)
    ensures
        tiles_per_side(zoom as nat) == pow2(zoom as nat),
        tiles_fit(n) <==> 8 * (n * n) <= isize::MAX,
        plannable(zoom) <==> zoom < 32 && 8 * (pow2(zoom as nat) * pow2(zoom as nat))
            <= isize::MAX,
{
}

/// Tiles are listed column by column, each column from its first row to its last.
pub proof fn law_tiles_are_listed_column_by_column(n: nat, x: int, y: int)
    requires
        n <= u32::MAX,
        0 <= x < n,
        0 <= y < n,
    ensures
        tile_order(n).len() == n * n,
        0 <= x * n + y < n * n,
        tile_order(n)[x * n + y].0 == x,
        tile_order(n)[x * n + y].1 == y,
{
    let m = n as int;
    assert(0 <= x * m && x * m + m <= m * m) by (nonlinear_arith)
        requires
            0 <= x,
            x + 1 <= m,
    ;
    vstd::arithmetic::div_mod::lemma_fundamental_div_mod_converse(x * m + y, m, x, y);
}

/// Tile `k` of the list is entry `k % 64` of batch `k / 64`, with its column, its row and the side of
/// the grid.
pub proof fn law_tiles_keep_their_places_in_batches(tiles: Seq<(u32, u32)>, n: u32, k: int)
    requires
        0 <= k < tiles.len(),
    ensures
        0 <= k / 64 < batch_count(tiles.len()),
        0 <= k % 64 < batch(tiles, n, k / 64).len(),
        batch(tiles, n, k / 64)[k % 64].0 == tiles[k].0,
        batch(tiles, n, k / 64)[k % 64].1 == tiles[k].1,
        batch(tiles, n, k / 64)[k % 64].2 == n,
        64 * (batch_count(tiles.len()) - 1) < tiles.len() <= 64 * batch_count(tiles.len()),
        batch(tiles, n, k / 64).len() <= 64,
        64 * (k / 64) + batch(tiles, n, k / 64).len() <= tiles.len(),
{
}

/// Level `i` of a range is `i` above the lowest, and the last is the highest.
pub proof fn law_zoom_levels_are_counted_up(min: u32, max: u32, i: int)
    requires
        min <= max,
        0 <= i <= max - min,
    ensures
        zoom_range(min, max)[i] == min + i,
        zoom_range(min, max).len() == max - min + 1,
{
}

/// Where the GPU renders the tiles, the directory of the level is created, then those of its columns
/// from the first to the last, then the batches are rendered from the first to the last.
pub proof fn law_steps_on_the_gpu(columns: u32, batches: usize, i: int)
    ensures
        ({
            let steps = all_steps(columns, TileSource::Gpu(batches));
            &&& steps.len() == 1 + columns + batches
            &&& steps[0] == Step::CreateZoomDir
            &&& 0 <= i < columns ==> steps[1 + i] == Step::CreateColumnDir(i as u32)
            &&& 0 <= i < batches ==> steps[1 + columns + i] == Step::RenderBatch(i as usize)
        }),
{
}

/// Where the CPU makes the tiles, the directory of the level is created, then the image is scaled,
/// then the directories of the columns are created from the first to the last, then all tiles are
/// cut.
pub proof fn law_steps_on_the_cpu(columns: u32, i: int)
    ensures
        ({
            let steps = all_steps(columns, TileSource::Cpu);
            &&& steps.len() == 3 + columns
            &&& steps[0] == Step::CreateZoomDir
            &&& steps[1] == Step::Scale
            &&& 0 <= i < columns ==> steps[2 + i] == Step::CreateColumnDir(i as u32)
            &&& steps[2 + columns] == Step::CutTiles
        }),
{
}

/// Images with sides from 1 to 8192 can be textures.
pub proof fn law_texture_sizes(width: u32, height: u32)
    ensures
        is_texture_size(width, height) <==> 1 <= width <= 8192 && 1 <= height <= 8192,
{
}

/// The larger of two numbers is one of them, and is not below the other.
pub proof fn law_greatest_is_an_upper_bound(a: int, b: int)
    ensures
        greatest(a, b) >= a,
        greatest(a, b) >= b,
        greatest(a, b) == a || greatest(a, b) == b,
{
}

} // verus!
