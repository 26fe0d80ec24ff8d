//! The grid of tiles at a zoom level.
use vstd::arithmetic::power2::pow2;
use vstd::prelude::*;

verus! {

/// The side of a tile, in pixels.
pub const TILE_SIZE: u32 = 256;

/// The number of tiles along each side of the map at a zoom level.
pub open spec fn tiles_per_side(zoom: nat) -> nat {
    pow2(zoom)
}

/// The number of tiles along each side of the map at a zoom level.
pub fn num_tiles(zoom: u32) -> (n: u32)
    requires
        zoom < 32,
    ensures
        n == tiles_per_side(zoom as nat),
        n >= 1,
{
    proof {
        vstd::arithmetic::power2::lemma2_to64();
        vstd::arithmetic::power2::lemma_pow2_pos(zoom as nat);
        vstd::arithmetic::power2::lemma_pow2_strictly_increases(zoom as nat, 32);
        vstd::bits::lemma_u32_shl_is_mul(1, zoom);
    }
    1 << zoom
}

/// The tiles of an `n` by `n` grid, column by column: entry `i` is the column and row of a tile.
pub open spec fn tile_order(n: nat) -> Seq<(u32, u32)> {
    Seq::new(n * n, |i: int| ((i / n as int) as u32, (i % n as int) as u32))
}

/// Whether the list of the tiles of an `n` by `n` grid, at eight bytes each, fits in a vector.
pub open spec fn tiles_fit(n: nat) -> bool {
    8 * (n * n) <= isize::MAX
}

/// Lists the tiles of an `n` by `n` grid, column by column.
pub fn all_tiles(n: u32) -> (tiles: Vec<(u32, u32)>)
    requires
        tiles_fit(n as nat),
    ensures
        tiles@ == tile_order(n as nat),
{
    let mut tiles: Vec<(u32, u32)> = Vec::new();
    let mut x: u32 = 0;
    while x < n
        invariant
            x <= n,
            tiles@.len() == x * n,
            forall|i: int| 0 <= i < x * n ==> #[trigger] tiles@[i] == tile_order(n as nat)[i],
            tile_order(n as nat).len() == n * n,
        decreases n - x,
    {
        let mut y: u32 = 0;
        assert((x + 1) * n == x * n + n && (x + 1) * n <= n * n && 0 <= x * n) by (nonlinear_arith)
            requires
                0 <= x < n,
        ;
        while y < n
            invariant
                x < n,
                y <= n,
                0 <= x * n,
                (x + 1) * n == x * n + n,
                (x + 1) * n <= n * n,
                tiles@.len() == x * n + y,
                forall|i: int|
                    0 <= i < x * n + y ==> #[trigger] tiles@[i] == tile_order(n as nat)[i],
                tile_order(n as nat).len() == n * n,
            decreases n - y,
        {
            proof {
                let i = x * n + y;
                vstd::arithmetic::div_mod::lemma_fundamental_div_mod_converse(
                    i,
                    n as int,
                    x as int,
                    y as int,
                );
                assert(tile_order(n as nat)[i] == (x, y));
            }
            tiles.push((x, y));
            y = y + 1;
        }
        x = x + 1;
    }
    assert(tiles@ =~= tile_order(n as nat));
    tiles
}

/// The number of tiles rendered at once.
pub const BATCH_SIZE: usize = 64;

/// The number of batches into which `count` tiles are cut.
pub open spec fn batch_count(count: nat) -> nat {
    ((count + BATCH_SIZE - 1) / BATCH_SIZE as int) as nat
}

/// Batch `b` of the tiles of an `n` by `n` grid: column, row and grid side of each.
pub open spec fn batch(tiles: Seq<(u32, u32)>, n: u32, b: int) -> Seq<(u32, u32, u32)> {
    let start = BATCH_SIZE * b;
    let left = tiles.len() - start;
    Seq::new(
        (if left < BATCH_SIZE {
            left
        } else {
            BATCH_SIZE as int
        }) as nat,
        |i: int| (tiles[start + i].0, tiles[start + i].1, n),
    )
}

/// Cuts the tiles of an `n` by `n` grid into batches, in order.
pub fn batches(tiles: &Vec<(u32, u32)>, n: u32) -> (res: Vec<Vec<(u32, u32, u32)>>)
    ensures
        res@.len() == batch_count(tiles@.len()),
        forall|b: int| 0 <= b < res@.len() ==> #[trigger] res@[b]@ == batch(tiles@, n, b),
{
    let mut res: Vec<Vec<(u32, u32, u32)>> = Vec::new();
    let count: usize = tiles.len();
    let mut start: usize = 0;
    let ghost mut b: int = 0;
    while start < count
        invariant
            count == tiles@.len(),
            start <= count,
            res@.len() == b,
            start == BATCH_SIZE * b || start == count && b == batch_count(count as nat),
            forall|i: int| 0 <= i < b ==> #[trigger] res@[i]@ == batch(tiles@, n, i),
        decreases count - start,
    {
        let mut one: Vec<(u32, u32, u32)> = Vec::new();
        let ghost first = start;
        while start < count && one.len() < BATCH_SIZE
            invariant
                count == tiles@.len(),
                first <= start <= count,
                one@.len() == start - first,
                one@.len() <= BATCH_SIZE,
                forall|i: int|
                    0 <= i < one@.len() ==> #[trigger] one@[i] == (
                        tiles@[first + i].0,
                        tiles@[first + i].1,
                        n,
                    ),
            decreases count - start,
        {
            let tile = tiles[start];
            one.push((tile.0, tile.1, n));
            start = start + 1;
        }
        assert(one@ =~= batch(tiles@, n, b));
        res.push(one);
        proof {
            b = b + 1;
        }
    }
    res
}

/// Why a range of zoom levels was refused.
#[derive(Clone, Copy, Debug, PartialEq, Eq, Structural)]
pub enum ZoomRangeError {
    /// The lowest level is above the highest.
    MinAboveMax,
}

/// The zoom levels that are still to be done.
#[derive(Debug)]
pub struct ZoomLevels {
    next: u32,
    last: u32,
    done: bool,
}

impl View for ZoomLevels {
    type V = Seq<u32>;

    closed spec fn view(&self) -> Seq<u32> {
        if self.done {
            Seq::empty()
        } else {
            zoom_range(self.next, self.last)
        }
    }
}

/// The levels from `min` up to and including `max`.
pub open spec fn zoom_range(min: u32, max: u32) -> Seq<u32> {
    Seq::new((max - min + 1) as nat, |i: int| (min + i) as u32)
}

impl ZoomLevels {
    #[verifier::type_invariant]
    spec fn inv(self) -> bool {
        self.done || self.next <= self.last
    }

    /// All levels from `min` up to and including `max`.
    pub fn new(min: u32, max: u32) -> (res: Result<ZoomLevels, ZoomRangeError>)
        ensures
            res is Ok <==> min <= max,
            res matches Ok(levels) ==> levels@ == zoom_range(min, max),
            res matches Err(error) ==> error == ZoomRangeError::MinAboveMax,
    {
        if min > max {
            Err(ZoomRangeError::MinAboveMax)
        } else {
            Ok(ZoomLevels { next: min, last: max, done: false })
        }
    }

    /// Takes the lowest level that is left.
    pub fn take_next(&mut self) -> (level: Option<u32>)
        ensures
            old(self)@.len() == 0 ==> level is None && final(self)@ == old(self)@,
            old(self)@.len() > 0 ==> level == Some(old(self)@[0]) && final(self)@
                == old(self)@.drop_first(),
    {
        proof {
            use_type_invariant(&*self);
        }
        if self.done {
            return None;
        }
        let level: u32 = self.next;
        if level == self.last {
            self.done = true;
        } else {
            self.next = level + 1;
        }
        assert(self@ =~= old(self)@.drop_first());
        Some(level)
    }
}

} // verus!
