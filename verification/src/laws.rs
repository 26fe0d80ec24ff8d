//! Properties of the library that span several of its functions.
use vstd::arithmetic::power2::pow2;
use vstd::prelude::*;
use vstd::utf8::{
    encode_scalar, encode_utf8, is_ascii_chars, is_ascii_chars_encode_utf8, is_continuation_byte,
};

use crate::color::{
    ascii_small, asks_for_transparent, color_of, hex_value, same_but_case, splits_into_pairs, trimmed,
    trimmed_back, trimmed_front, white_space, without_hash, ParsedColor,
};
use crate::decimal::{decimal, is_digit, law_decimal_is_injective, lemma_decimal_digits};
use crate::encode::{
    encodable, encodes_to, extension, is_encoding, AvifSupport, EncodeError, OutputFormat,
};
use crate::grid::{batch, batch_count, tile_order, tiles_per_side, zoom_range, BATCH_SIZE, TILE_SIZE};
use crate::job::{all_steps, Step, TileSource};
use crate::plan::{file_name_of, path_of};
use crate::raster::{
    lemma_byte_position, lemma_picture_of, lemma_same_pixels, picture_of, row_fits, without_alpha,
    Picture, Rgba,
};
use crate::square::{is_resampling, longer_side, map_side, over, scales_to, squared, tile_of};

pub mod images;
pub mod schedules;
pub mod texts;

verus! {

/// A format can be told from its name, which is its extension.
pub proof fn law_extensions_are_distinct(a: OutputFormat, b: OutputFormat)
    ensures
        extension(a) == extension(b) <==> a == b,
{
    reveal_strlit("webp");
    reveal_strlit("jpg");
    reveal_strlit("avif");
    assert("webp"@[0] == 'w' && "avif"@[0] == 'a' && "jpg"@[0] == 'j');
}

/// No two tiles share a path: from the path of a tile its zoom level, column, row and format can
/// be told.
pub proof fn law_paths_are_distinct(
    zoom1: u32,
    x1: u32,
    y1: u32,
    format1: OutputFormat,
    zoom2: u32,
    x2: u32,
    y2: u32,
    format2: OutputFormat,
)
    requires
        path_of(zoom1, x1, y1, format1) == path_of(zoom2, x2, y2, format2),
    ensures
        zoom1 == zoom2,
        x1 == x2,
        y1 == y2,
        format1 == format2,
{
    law_decimal_is_injective(zoom1 as nat, zoom2 as nat);
    law_decimal_is_injective(x1 as nat, x2 as nat);
    lemma_decimal_digits(y1 as nat);
    lemma_decimal_digits(y2 as nat);
    let d1 = decimal(y1 as nat);
    let d2 = decimal(y2 as nat);
    let f1 = file_name_of(y1, format1);
    let f2 = file_name_of(y2, format2);
    assert(f1 == f2);
    assert(f1[d1.len() as int] == '.');
    assert(f2[d2.len() as int] == '.');
    if d1.len() < d2.len() {
        assert(f2[d1.len() as int] == d2[d1.len() as int]);
        assert(is_digit(d2[d1.len() as int]));
        assert(false);
    }
    if d2.len() < d1.len() {
        assert(f1[d2.len() as int] == d1[d2.len() as int]);
        assert(is_digit(d1[d2.len() as int]));
        assert(false);
    }
    assert(d1 =~= f1.take(d1.len() as int));
    assert(d2 =~= f2.take(d2.len() as int));
    law_decimal_is_injective(y1 as nat, y2 as nat);
    assert(extension(format1) =~= f1.skip(d1.len() as int + 1));
    assert(extension(format2) =~= f2.skip(d2.len() as int + 1));
    law_extensions_are_distinct(format1, format2);
}

/// The place in the list of the tiles of an `n` by `n` grid at which a tile stands.
pub open spec fn place_of(n: nat, x: u32, y: u32) -> int {
    x * n + y
}

/// The list of the tiles of a grid holds every tile of it once, at its place, and
/// nothing else.
pub proof fn law_each_tile_is_listed_once(n: nat)
    requires
        n <= u32::MAX,
    ensures
        tile_order(n).len() == n * n,
        tile_order(n).no_duplicates(),
        forall|i: int|
            0 <= i < tile_order(n).len() ==> (#[trigger] tile_order(n)[i]).0 < n && tile_order(
                n,
            )[i].1 < n,
        forall|x: u32, y: u32|
            x < n && y < n ==> 0 <= #[trigger] place_of(n, x, y) < tile_order(n).len()
                && tile_order(n)[place_of(n, x, y)] == (x, y),
{
    let tiles = tile_order(n);
    let m = n as int;
    assert forall|i: int| 0 <= i < tiles.len() implies 0 <= i / m < m && 0 <= i % m < m && i == (i
        / m) * m + i % m && (#[trigger] tiles[i]).0 == i / m && tiles[i].1 == i % m by {
        assert(m > 0) by (nonlinear_arith)
            requires
                m >= 0,
                m * m > 0,
        ;
        vstd::arithmetic::div_mod::lemma_fundamental_div_mod(i, m);
        assert(0 <= i % m < m && 0 <= i / m < m && m * (i / m) == (i / m) * m)
            by (nonlinear_arith)
            requires
                m > 0,
                0 <= i < m * m,
        ;
    }
    assert forall|i: int, j: int| 0 <= i < tiles.len() && 0 <= j < tiles.len() && i != j implies
        tiles[i] != tiles[j] by {
        if tiles[i] == tiles[j] {
            assert(i / m == j / m && i % m == j % m);
            assert(i == j);
        }
    }
    assert forall|x: u32, y: u32| x < n && y < n implies 0 <= #[trigger] place_of(n, x, y)
        < tiles.len() && tiles[place_of(n, x, y)] == (x, y) by {
        assert(0 <= x * m && x * m + m <= m * m) by (nonlinear_arith)
            requires
                0 <= x,
                x + 1 <= m,
        ;
        vstd::arithmetic::div_mod::lemma_fundamental_div_mod_converse(
            x * m + y,
            m,
            x as int,
            y as int,
        );
    }
}

/// Every tile of a zoom level is written below the directory of that level, in the directory of
/// one of its columns.
pub proof fn law_tile_directories_are_planned(zoom: u32, i: int, format: OutputFormat)
    requires
        zoom < 32,
        0 <= i < tile_order(tiles_per_side(zoom as nat)).len(),
    ensures
        ({
            let tile = tile_order(tiles_per_side(zoom as nat))[i];
            let path = path_of(zoom, tile.0, tile.1, format);
            &&& path.0 == decimal(zoom as nat)
            &&& tile.0 < tiles_per_side(zoom as nat)
            &&& path.1 == decimal(tile.0 as nat)
        }),
{
    vstd::arithmetic::power2::lemma2_to64();
    vstd::arithmetic::power2::lemma_pow2_strictly_increases(zoom as nat, 32);
    law_each_tile_is_listed_once(tiles_per_side(zoom as nat));
}

/// Whether a step writes tiles.
pub open spec fn writes_tiles(step: Step) -> bool {
    step is RenderBatch || step is CutTiles
}

/// The directory of a zoom level is created before anything else is done for it, those of all its
/// columns, and the scaled image that tiles are cut from, before any tile is written. No step is
/// taken twice, and every batch is rendered.
pub proof fn law_tiles_are_written_last(columns: u32, source: TileSource)
    ensures
        all_steps(columns, source).no_duplicates(),
        all_steps(columns, source)[0] == Step::CreateZoomDir,
        forall|i: int, j: int|
            0 <= i < j < all_steps(columns, source).len() && writes_tiles(
                #[trigger] all_steps(columns, source)[i],
            ) ==> writes_tiles(#[trigger] all_steps(columns, source)[j]),
        forall|x: u32|
            #[trigger] all_steps(columns, source).contains(Step::CreateColumnDir(x)) <==> x
                < columns,
        all_steps(columns, source).contains(Step::Scale) <==> source is Cpu,
        all_steps(columns, source).contains(Step::CutTiles) <==> source is Cpu,
        forall|b: usize|
            #[trigger] all_steps(columns, source).contains(Step::RenderBatch(b)) <==> (source
                matches TileSource::Gpu(batches) && b < batches),
{
    let steps = all_steps(columns, source);
    let off: int = if source is Cpu {
        2
    } else {
        1
    };
    assert forall|x: u32| x < columns implies #[trigger] steps.contains(Step::CreateColumnDir(x)) by {
        assert(steps[off + x] == Step::CreateColumnDir(x));
    }
    if source is Cpu {
        assert(steps[1] == Step::Scale);
        assert(steps[off + columns] == Step::CutTiles);
    }
    assert forall|b: usize| source matches TileSource::Gpu(batches) && b < batches implies
        #[trigger] steps.contains(Step::RenderBatch(b)) by {
        assert(steps[off + columns + b] == Step::RenderBatch(b));
    }
}

/// The first `count` batches put together.
pub open spec fn joined_batches(tiles: Seq<(u32, u32)>, n: u32, count: nat) -> Seq<(u32, u32, u32)>
    decreases count,
{
    if count == 0 {
        Seq::empty()
    } else {
        joined_batches(tiles, n, (count - 1) as nat) + batch(tiles, n, count - 1)
    }
}

proof fn lemma_joined_batches(tiles: Seq<(u32, u32)>, n: u32, count: nat)
    requires
        count <= batch_count(tiles.len()),
    ensures
        joined_batches(tiles, n, count) == tiles.map_values(|t: (u32, u32)| (t.0, t.1, n)).take(
            if BATCH_SIZE * count <= tiles.len() {
                BATCH_SIZE * count
            } else {
                tiles.len() as int
            },
        ),
    decreases count,
{
    if count > 0 {
        lemma_joined_batches(tiles, n, (count - 1) as nat);
    }
    let all = tiles.map_values(|t: (u32, u32)| (t.0, t.1, n));
    let upto = if BATCH_SIZE * count <= tiles.len() {
        BATCH_SIZE * count
    } else {
        tiles.len() as int
    };
    assert(joined_batches(tiles, n, count) =~= all.take(upto));
}

/// Batches lose no tile and keep their order: put together they are the list of the tiles. None is
/// empty, none holds more tiles than are rendered at once, and only the last holds fewer.
pub proof fn law_batches_keep_all_tiles(tiles: Seq<(u32, u32)>, n: u32)
    ensures
        joined_batches(tiles, n, batch_count(tiles.len())) == tiles.map_values(
            |t: (u32, u32)| (t.0, t.1, n),
        ),
        forall|b: int|
            0 <= b < batch_count(tiles.len()) ==> 1 <= (#[trigger] batch(tiles, n, b)).len()
                <= BATCH_SIZE,
        forall|b: int|
            0 <= b < batch_count(tiles.len()) - 1 ==> (#[trigger] batch(tiles, n, b)).len()
                == BATCH_SIZE,
{
    lemma_joined_batches(tiles, n, batch_count(tiles.len()));
    let all = tiles.map_values(|t: (u32, u32)| (t.0, t.1, n));
    assert(all.take(tiles.len() as int) =~= all);
}

/// The tiles of a zoom level are all of the scaled map, without gaps or overlaps: a pixel of the
/// map is a pixel of one tile, and of no other.
pub proof fn law_tiles_partition_the_map(scaled: Picture, zoom: u32, a: int, b: int)
    requires
        scaled.wf(),
        scaled.width == map_side(zoom as nat),
        scaled.height == map_side(zoom as nat),
        scaled.has(a, b),
    ensures
        ({
            let x = a / TILE_SIZE as int;
            let y = b / TILE_SIZE as int;
            let tile = tile_of(scaled, x, y);
            &&& 0 <= x < tiles_per_side(zoom as nat)
            &&& 0 <= y < tiles_per_side(zoom as nat)
            &&& tile.wf()
            &&& tile.width == TILE_SIZE
            &&& tile.height == TILE_SIZE
            &&& tile.has(a % TILE_SIZE as int, b % TILE_SIZE as int)
            &&& tile.pixel(a % TILE_SIZE as int, b % TILE_SIZE as int) == scaled.pixel(a, b)
        }),
        forall|x: int, y: int, i: int, j: int|
            0 <= i < TILE_SIZE && 0 <= j < TILE_SIZE && #[trigger] at(x, i) == a && #[trigger] at(
                y,
                j,
            ) == b ==> x == a / TILE_SIZE as int && y == b / TILE_SIZE as int && i == a
                % TILE_SIZE as int && j == b % TILE_SIZE as int,
{
    let x = a / TILE_SIZE as int;
    let y = b / TILE_SIZE as int;
    let left = x * TILE_SIZE;
    let top = y * TILE_SIZE;
    let f = |i: int, j: int| scaled.pixel(left + i, top + j);
    lemma_picture_of(TILE_SIZE as int, TILE_SIZE as int, f);
    assert(tile_of(scaled, x, y) == picture_of(
        TILE_SIZE as int,
        TILE_SIZE as int,
        f,
    ));
}

/// The column (or row) of the map in which column (or row) `i` of tile `x` lies.
pub open spec fn at(x: int, i: int) -> int {
    TILE_SIZE * x + i
}

/// Whether the tile in column (or row) `x` of an `n` by `n` grid shows the point that lies
/// `num / den` of the way across the map. Such a tile is taken to show the part of the map from
/// `x / n` up to `(x + 1) / n`.
pub open spec fn shows(x: int, n: int, num: int, den: int) -> bool {
    x * den <= num * n < (x + 1) * den
}

/// Every point of the map is shown by one tile of the grid, and by no other.
pub proof fn law_each_point_is_in_one_tile(n: nat, u: int, v: int, den: int) -> (i: int)
    requires
        1 <= n <= u32::MAX,
        0 <= u < den,
        0 <= v < den,
    ensures
        0 <= i < tile_order(n).len(),
        forall|k: int|
            0 <= k < tile_order(n).len() ==> ((shows(
                (#[trigger] tile_order(n)[k]).0 as int,
                n as int,
                u,
                den,
            ) && shows(tile_order(n)[k].1 as int, n as int, v, den)) <==> k == i),
{
    law_each_tile_is_listed_once(n);
    let m = n as int;
    let x = lemma_shown_by_one(m, u, den);
    let y = lemma_shown_by_one(m, v, den);
    let i = x * m + y;
    assert(tile_order(n)[place_of(n, x as u32, y as u32)] == (x as u32, y as u32));
    assert forall|k: int| 0 <= k < tile_order(n).len() implies ((shows(
        (#[trigger] tile_order(n)[k]).0 as int,
        m,
        u,
        den,
    ) && shows(tile_order(n)[k].1 as int, m, v, den)) <==> k == i) by {
        let t = tile_order(n)[k];
        if shows(t.0 as int, m, u, den) && shows(t.1 as int, m, v, den) {
            assert(t == tile_order(n)[i]);
        }
    }
    i
}

proof fn lemma_shown_by_one(n: int, num: int, den: int) -> (x: int)
    requires
        1 <= n,
        0 <= num < den,
    ensures
        0 <= x < n,
        forall|k: int| #[trigger] shows(k, n, num, den) <==> k == x,
{
    let x = (num * n) / den;
    vstd::arithmetic::div_mod::lemma_fundamental_div_mod(num * n, den);
    let r = (num * n) % den;
    assert(0 <= r < den && 0 <= num * n && num * n < n * den) by (nonlinear_arith)
        requires
            1 <= n,
            0 <= num < den,
            r == (num * n) % den,
    ;
    assert(0 <= x < n) by (nonlinear_arith)
        requires
            num * n == den * x + r,
            0 <= r < den,
            0 <= num * n < n * den,
    ;
    assert forall|k: int| #[trigger] shows(k, n, num, den) <==> k == x by {
        if k == x {
            assert(x * den <= den * x + r && den * x + r < (x + 1) * den) by (nonlinear_arith)
                requires
                    0 <= r < den,
            ;
        }
        if shows(k, n, num, den) {
            assert(k == x) by (nonlinear_arith)
                requires
                    k * den <= den * x + r,
                    den * x + r < (k + 1) * den,
                    0 <= r < den,
            ;
        }
    }
    x
}

/// The paths of the tiles of a zoom level, in the order in which they are cut out of the scaled map.
pub open spec fn cut_paths(zoom: u32, format: OutputFormat) -> Seq<
    (Seq<char>, Seq<char>, Seq<char>),
> {
    tile_order(tiles_per_side(zoom as nat)).map_values(
        |tile: (u32, u32)| path_of(zoom, tile.0, tile.1, format),
    )
}

/// The paths of the tiles of a zoom level, in the order in which they are rendered batch by batch.
pub open spec fn rendered_paths(zoom: u32, format: OutputFormat) -> Seq<
    (Seq<char>, Seq<char>, Seq<char>),
> {
    let n = tiles_per_side(zoom as nat);
    joined_batches(tile_order(n), n as u32, batch_count(tile_order(n).len())).map_values(
        |tile: (u32, u32, u32)| path_of(zoom, tile.0, tile.1, format),
    )
}

/// The CPU and the GPU write tiles under the same paths.
pub proof fn law_both_sources_write_the_same_paths(zoom: u32, format: OutputFormat)
    ensures
        rendered_paths(zoom, format) == cut_paths(zoom, format),
{
    let n = tiles_per_side(zoom as nat);
    law_batches_keep_all_tiles(tile_order(n), n as u32);
    assert(rendered_paths(zoom, format) =~= cut_paths(zoom, format));
}

/// A tile that is cut out of the scaled map holds the region that a tile of its column and row is
/// taken to show, from `x / n` up to `(x + 1) / n` of the map in each direction: the middle of each
/// of its pixels is shown by that tile, and by no other.
pub proof fn law_cut_tiles_hold_the_region_they_show(
    scaled: Picture,
    zoom: u32,
    x: u32,
    y: u32,
    i: int,
    j: int,
)
    requires
        scaled.wf(),
        scaled.width == map_side(zoom as nat),
        scaled.height == map_side(zoom as nat),
        x < tiles_per_side(zoom as nat),
        y < tiles_per_side(zoom as nat),
        0 <= i < TILE_SIZE,
        0 <= j < TILE_SIZE,
    ensures
        tile_of(scaled, x as int, y as int).has(i, j),
        scaled.has(at(x as int, i), at(y as int, j)),
        tile_of(scaled, x as int, y as int).pixel(i, j) == scaled.pixel(
            at(x as int, i),
            at(y as int, j),
        ),
        forall|a: int| #[trigger] shows_middle(a, at(x as int, i), zoom) <==> a == x,
        forall|b: int| #[trigger] shows_middle(b, at(y as int, j), zoom) <==> b == y,
{
    let n = tiles_per_side(zoom as nat) as int;
    let left = at(x as int, i);
    let top = at(y as int, j);
    assert(left < TILE_SIZE * n && top < TILE_SIZE * n);
    law_tiles_partition_the_map(scaled, zoom, left, top);
    assert(left / TILE_SIZE as int == x && left % TILE_SIZE as int == i);
    assert(top / TILE_SIZE as int == y && top % TILE_SIZE as int == j);
    assert forall|a: int| #[trigger] shows_middle(a, at(x as int, i), zoom) <==> a == x by {
        lemma_middle_is_shown_by_one(zoom, x as int, i, a);
    }
    assert forall|b: int| #[trigger] shows_middle(b, at(y as int, j), zoom) <==> b == y by {
        lemma_middle_is_shown_by_one(zoom, y as int, j, b);
    }
}

/// Whether the tile in column (or row) `x` of a zoom level shows the middle of column (or row) `a` of
/// the scaled map.
pub open spec fn shows_middle(x: int, a: int, zoom: u32) -> bool {
    shows(x, tiles_per_side(zoom as nat) as int, 2 * a + 1, 2 * map_side(zoom as nat))
}

proof fn lemma_middle_is_shown_by_one(zoom: u32, x: int, i: int, k: int)
    requires
        0 <= i < TILE_SIZE,
    ensures
        shows_middle(k, at(x, i), zoom) <==> k == x,
{
    let n = tiles_per_side(zoom as nat) as int;
    vstd::arithmetic::power2::lemma_pow2_pos(zoom as nat);
    let m = 2 * at(x, i) + 1;
    assert(k * (2 * (TILE_SIZE * n)) == (512 * k) * n) by (nonlinear_arith);
    assert((k + 1) * (2 * (TILE_SIZE * n)) == (512 * (k + 1)) * n) by (nonlinear_arith);
    assert(((512 * k) * n <= m * n) <==> (512 * k <= m)) by (nonlinear_arith)
        requires
            n > 0,
    ;
    assert((m * n < (512 * (k + 1)) * n) <==> (m < 512 * (k + 1))) by (nonlinear_arith)
        requires
            n > 0,
    ;
}

/// Zooming in by one level cuts each tile in four: what a tile shows is shown by the two columns
/// (or rows) that it is cut into.
pub proof fn law_zooming_in_cuts_tiles(zoom: nat, x: int, num: int, den: int)
    requires
        den > 0,
    ensures
        tiles_per_side(zoom + 1) == 2 * tiles_per_side(zoom),
        shows(x, tiles_per_side(zoom) as int, num, den) <==> (shows(
            2 * x,
            tiles_per_side(zoom + 1) as int,
            num,
            den,
        ) || shows(2 * x + 1, tiles_per_side(zoom + 1) as int, num, den)),
{
    vstd::arithmetic::power2::lemma_pow2_unfold(zoom + 1);
    let n = pow2(zoom) as int;
    assert(num * (2 * n) == 2 * (num * n)) by (nonlinear_arith);
    assert((2 * x) * den == 2 * (x * den)) by (nonlinear_arith);
    assert((2 * x + 1) * den == 2 * (x * den) + den) by (nonlinear_arith);
    assert((2 * x + 1 + 1) * den == 2 * ((x + 1) * den)) by (nonlinear_arith);
    assert((x + 1) * den == x * den + den) by (nonlinear_arith);
}

/// A range of zoom levels holds every level from the lowest to the highest once, in ascending
/// order.
pub proof fn law_zoom_range_is_complete(min: u32, max: u32)
    requires
        min <= max,
    ensures
        zoom_range(min, max).len() == max - min + 1,
        forall|level: u32| #[trigger] zoom_range(min, max).contains(level) <==> min <= level <= max,
        forall|i: int, j: int|
            0 <= i < j < zoom_range(min, max).len() ==> zoom_range(min, max)[i] < zoom_range(
                min,
                max,
            )[j],
{
    assert forall|level: u32| min <= level <= max implies #[trigger] zoom_range(min, max).contains(
        level,
    ) by {
        assert(zoom_range(min, max)[level - min] == level);
    }
}

/// The square holds the image in its middle, laid over the background, and the background
/// everywhere else; the two margins of a side differ by at most one pixel.
pub proof fn law_square_centres_the_image(pic: Picture, bg: Rgba)
    requires
        pic.wf(),
        row_fits(longer_side(pic)),
    ensures
        ({
            let size = longer_side(pic);
            let left = (size - pic.width) / 2;
            let top = (size - pic.height) / 2;
            let square = squared(pic, bg);
            &&& square.wf()
            &&& square.width == size
            &&& square.height == size
            &&& 0 <= (size - pic.width - left) - left <= 1
            &&& 0 <= (size - pic.height - top) - top <= 1
            &&& forall|x: int, y: int|
                square.has(x, y) ==> #[trigger] square.pixel(x, y) == if pic.has(x - left, y - top) {
                    over(bg, pic.pixel(x - left, y - top))
                } else {
                    bg
                }
        }),
{
    let size = longer_side(pic);
    let left = (size - pic.width) / 2;
    let top = (size - pic.height) / 2;
    let f = |x: int, y: int|
        if pic.has(x - left, y - top) {
            over(bg, pic.pixel(x - left, y - top))
        } else {
            bg
        };
    lemma_picture_of(size, size, f);
    assert(squared(pic, bg) == picture_of(size, size, f));
}

/// An opaque image that is square already stays as it is.
pub proof fn law_opaque_square_is_unchanged(pic: Picture, bg: Rgba)
    requires
        pic.wf(),
        pic.width == pic.height,
        forall|x: int, y: int| pic.has(x, y) ==> (#[trigger] pic.pixel(x, y)).3 == 255,
    ensures
        squared(pic, bg) == pic,
{
    law_square_centres_the_image(pic, bg);
    assert forall|x: int, y: int| squared(pic, bg).has(x, y) implies squared(pic, bg).pixel(x, y)
        == #[trigger] pic.pixel(x, y) by {
        assert(squared(pic, bg).pixel(x, y) == over(bg, pic.pixel(x - 0, y - 0)));
    }
    lemma_same_pixels(squared(pic, bg), pic);
}

/// The tiles of an opaque square image that is as large as the map hold the pixels of the image
/// itself: such an image is neither padded nor resampled.
pub proof fn law_map_sized_image_is_cut_unchanged(
    pic: Picture,
    bg: Rgba,
    zoom: u32,
    a: int,
    b: int,
)
    requires
        pic.wf(),
        pic.width == map_side(zoom as nat),
        pic.height == map_side(zoom as nat),
        forall|x: int, y: int| pic.has(x, y) ==> (#[trigger] pic.pixel(x, y)).3 == 255,
        pic.has(a, b),
    ensures
        longer_side(pic) == map_side(zoom as nat),
        tile_of(squared(pic, bg), a / TILE_SIZE as int, b / TILE_SIZE as int).pixel(
            a % TILE_SIZE as int,
            b % TILE_SIZE as int,
        ) == pic.pixel(a, b),
{
    law_opaque_square_is_unchanged(pic, bg);
    law_tiles_partition_the_map(pic, zoom, a, b);
}

/// Whether a pixel is either opaque or fully transparent.
pub open spec fn all_or_nothing(p: Rgba) -> bool {
    p.3 == 0 || p.3 == 255
}

/// Squaring an image twice is the same as squaring it once, where the background and every pixel
/// are either opaque or fully transparent.
pub proof fn law_squaring_again_changes_nothing(pic: Picture, bg: Rgba)
    requires
        pic.wf(),
        row_fits(longer_side(pic)),
        all_or_nothing(bg),
        forall|x: int, y: int| pic.has(x, y) ==> all_or_nothing(#[trigger] pic.pixel(x, y)),
    ensures
        squared(squared(pic, bg), bg) == squared(pic, bg),
{
    let square = squared(pic, bg);
    let again = squared(square, bg);
    law_square_centres_the_image(pic, bg);
    law_square_centres_the_image(square, bg);
    assert forall|x: int, y: int| again.has(x, y) implies again.pixel(x, y)
        == #[trigger] square.pixel(x, y) by {
        assert(again.pixel(x, y) == over(bg, square.pixel(x - 0, y - 0)));
        let left = (longer_side(pic) - pic.width) / 2;
        let top = (longer_side(pic) - pic.height) / 2;
        if pic.has(x - left, y - top) {
            assert(all_or_nothing(pic.pixel(x - left, y - top)));
        }
    }
    lemma_same_pixels(again, square);
}

/// JPEG files do not depend on alpha: two pictures that differ in their alpha only are encoded
/// alike.
pub proof fn law_jpeg_ignores_alpha(a: Picture, b: Picture, quality: u32, file: Seq<u8>)
    requires
        a.wf(),
        b.wf(),
        a.width == b.width,
        a.height == b.height,
        forall|x: int, y: int|
            a.has(x, y) ==> (#[trigger] a.pixel(x, y)).0 == b.pixel(x, y).0 && a.pixel(x, y).1
                == b.pixel(x, y).1 && a.pixel(x, y).2 == b.pixel(x, y).2,
    ensures
        is_encoding(a, OutputFormat::Jpg, quality, file) == is_encoding(
            b,
            OutputFormat::Jpg,
            quality,
            file,
        ),
{
    let rgb_a = without_alpha(a.bytes);
    let rgb_b = without_alpha(b.bytes);
    assert forall|k: int| 0 <= k < rgb_a.len() implies rgb_a[k] == rgb_b[k] by {
        let m = 4 * (k / 3);
        lemma_byte_position(a.width, a.height, m);
        let x = (m / 4) % a.width;
        let y = (m / 4) / a.width;
        assert(a.has(x, y));
        let pa = a.pixel(x, y);
        assert(pa == (a.bytes[m], a.bytes[m + 1], a.bytes[m + 2], a.bytes[m + 3]));
        assert(b.pixel(x, y) == (b.bytes[m], b.bytes[m + 1], b.bytes[m + 2], b.bytes[m + 3]));
    }
    assert(rgb_a =~= rgb_b);
}

/// Every tile is encoded, whatever its pixels are, unless it is to be AVIF and AVIF is missing.
pub proof fn law_every_tile_is_encoded(
    tile: Picture,
    format: OutputFormat,
    quality: u32,
    avif: AvifSupport,
    res: Result<Vec<u8>, EncodeError>,
)
    requires
        tile.width == TILE_SIZE,
        tile.height == TILE_SIZE,
        encodes_to(tile, format, quality, avif, res),
    ensures
        res is Ok <==> !(format == OutputFormat::Avif && avif == AvifSupport::Missing),
        res matches Err(error) ==> error is AvifMissing,
{
}

/// A quality from 0 to 100 is valid for the tiles of every format.
pub proof fn law_qualities_are_valid_for_every_format(
    quality: u32,
    format: OutputFormat,
    avif: AvifSupport,
)
    requires
        quality <= 100,
    ensures
        encodable(TILE_SIZE as int, TILE_SIZE as int, format, quality, avif),
{
}

/// Whether `file` may be the file of the tile in column `x` of row `y` that is cut out of the image
/// scaled to a zoom level.
pub open spec fn is_cut_file(
    pic: Picture,
    bg: Rgba,
    zoom: u32,
    x: int,
    y: int,
    format: OutputFormat,
    quality: u32,
    file: Seq<u8>,
) -> bool {
    exists|scaled: Picture| #[trigger]
        scales_to(pic, bg, zoom, scaled) && is_encoding(
            tile_of(scaled, x, y),
            format,
            quality,
            file,
        )
}

/// Whether the resampler gives the same outcome each time that it scales the square of an image to a
/// zoom level.
pub open spec fn resamples_alike(pic: Picture, bg: Rgba, zoom: u32) -> bool {
    let bytes = squared(pic, bg).bytes;
    let size = longer_side(pic) as u32;
    let side = map_side(zoom as nat) as u32;
    forall|a: Seq<u8>, b: Seq<u8>| #[trigger]
        is_resampling(bytes, size, size, side, side, a) && #[trigger] is_resampling(
            bytes,
            size,
            size,
            side,
            side,
            b,
        ) ==> a == b
}

/// Whether the encoder of a format gives the same file each time that it encodes a picture.
pub open spec fn encodes_alike(format: OutputFormat, quality: u32) -> bool {
    forall|pic: Picture, a: Seq<u8>, b: Seq<u8>| #[trigger]
        is_encoding(pic, format, quality, a) && #[trigger] is_encoding(pic, format, quality, b)
            ==> a == b
}

/// Doing a zoom level again writes the same files, where the resampler and the encoder give the same
/// outcome for the same input. The JPEG encoder always does.
pub proof fn law_runs_are_repeated(
    pic: Picture,
    bg: Rgba,
    zoom: u32,
    x: int,
    y: int,
    format: OutputFormat,
    quality: u32,
    file1: Seq<u8>,
    file2: Seq<u8>,
)
    ensures
        resamples_alike(pic, bg, zoom) && encodes_alike(format, quality) && is_cut_file(
            pic,
            bg,
            zoom,
            x,
            y,
            format,
            quality,
            file1,
        ) && is_cut_file(pic, bg, zoom, x, y, format, quality, file2) ==> file1 == file2,
        encodes_alike(OutputFormat::Jpg, quality),
{
    if resamples_alike(pic, bg, zoom) && is_cut_file(
        pic,
        bg,
        zoom,
        x,
        y,
        format,
        quality,
        file1,
    ) && is_cut_file(pic, bg, zoom, x, y, format, quality, file2) {
        let s1 = choose|s: Picture| #[trigger]
            scales_to(pic, bg, zoom, s) && is_encoding(tile_of(s, x, y), format, quality, file1);
        let s2 = choose|s: Picture| #[trigger]
            scales_to(pic, bg, zoom, s) && is_encoding(tile_of(s, x, y), format, quality, file2);
        assert(s1 =~= s2);
    }
}

/// The background does not show where the image is square and opaque: whatever may be scaled and
/// written with one background may be so with every other. Where the resampler and the encoder give
/// the same outcome for the same input, the files are the same.
pub proof fn law_background_is_hidden_by_an_opaque_square(
    pic: Picture,
    bg1: Rgba,
    bg2: Rgba,
    zoom: u32,
    scaled: Picture,
    x: int,
    y: int,
    format: OutputFormat,
    quality: u32,
    file1: Seq<u8>,
    file2: Seq<u8>,
)
    requires
        pic.wf(),
        pic.width == pic.height,
        forall|a: int, b: int| pic.has(a, b) ==> (#[trigger] pic.pixel(a, b)).3 == 255,
    ensures
        squared(pic, bg1) == squared(pic, bg2),
        scales_to(pic, bg1, zoom, scaled) == scales_to(pic, bg2, zoom, scaled),
        is_cut_file(pic, bg1, zoom, x, y, format, quality, file1) == is_cut_file(
            pic,
            bg2,
            zoom,
            x,
            y,
            format,
            quality,
            file1,
        ),
        resamples_alike(pic, bg1, zoom) && encodes_alike(format, quality) && is_cut_file(
            pic,
            bg1,
            zoom,
            x,
            y,
            format,
            quality,
            file1,
        ) && is_cut_file(pic, bg2, zoom, x, y, format, quality, file2) ==> file1 == file2,
{
    law_opaque_square_is_unchanged(pic, bg1);
    law_opaque_square_is_unchanged(pic, bg2);
    assert forall|s: Picture|
        #![trigger scales_to(pic, bg1, zoom, s)]
        #![trigger scales_to(pic, bg2, zoom, s)]
        scales_to(pic, bg1, zoom, s) == scales_to(pic, bg2, zoom, s) by {}
    law_runs_are_repeated(pic, bg1, zoom, x, y, format, quality, file1, file2);
}

/// Doing a zoom level again writes the same JPEG files, where the image has the size of the map or
/// no pixels, and so is not resampled.
pub proof fn law_unresampled_jpeg_files_are_repeated(
    pic: Picture,
    bg: Rgba,
    zoom: u32,
    x: int,
    y: int,
    quality: u32,
    file1: Seq<u8>,
    file2: Seq<u8>,
)
    requires
        longer_side(pic) == map_side(zoom as nat) || longer_side(pic) == 0,
        is_cut_file(pic, bg, zoom, x, y, OutputFormat::Jpg, quality, file1),
        is_cut_file(pic, bg, zoom, x, y, OutputFormat::Jpg, quality, file2),
    ensures
        file1 == file2,
{
}

/// Encoding a tile as JPEG again gives the same file.
pub proof fn law_jpeg_files_are_repeated(
    tile: Picture,
    quality: u32,
    avif: AvifSupport,
    res1: Result<Vec<u8>, EncodeError>,
    res2: Result<Vec<u8>, EncodeError>,
)
    requires
        encodes_to(tile, OutputFormat::Jpg, quality, avif, res1),
        encodes_to(tile, OutputFormat::Jpg, quality, avif, res2),
    ensures
        match (res1, res2) {
            (Ok(file1), Ok(file2)) => file1@ == file2@,
            (Err(error1), Err(error2)) => error1 is Jpeg && error2 is Jpeg,
            _ => false,
        },
{
}

proof fn lemma_trimmed_front_of_space(a: Seq<char>, s: Seq<char>)
    requires
        forall|i: int| 0 <= i < a.len() ==> white_space(#[trigger] a[i]),
    ensures
        trimmed_front(a + s) == trimmed_front(s),
    decreases a.len(),
{
    if a.len() == 0 {
        assert(a + s =~= s);
    } else {
        assert((a + s).drop_first() =~= a.drop_first() + s);
        lemma_trimmed_front_of_space(a.drop_first(), s);
    }
}

proof fn lemma_trimmed_back_of_space(s: Seq<char>, b: Seq<char>)
    requires
        forall|i: int| 0 <= i < b.len() ==> white_space(#[trigger] b[i]),
    ensures
        trimmed_back(s + b) == trimmed_back(s),
    decreases b.len(),
{
    if b.len() == 0 {
        assert(s + b =~= s);
    } else {
        assert((s + b).drop_last() =~= s + b.drop_last());
        lemma_trimmed_back_of_space(s, b.drop_last());
    }
}

proof fn lemma_trimmed_front_then_space(s: Seq<char>, b: Seq<char>)
    requires
        forall|i: int| 0 <= i < b.len() ==> white_space(#[trigger] b[i]),
    ensures
        trimmed(s + b) == trimmed(s),
    decreases s.len(),
{
    if s.len() == 0 {
        assert(s + b =~= b + s);
        lemma_trimmed_front_of_space(b, s);
    } else if white_space(s[0]) {
        assert((s + b).drop_first() =~= s.drop_first() + b);
        lemma_trimmed_front_then_space(s.drop_first(), b);
    } else {
        lemma_trimmed_back_of_space(s, b);
    }
}

/// White space around a colour does not matter.
pub proof fn law_space_around_a_color_is_ignored(before: Seq<char>, s: Seq<char>, after: Seq<char>)
    requires
        forall|i: int| 0 <= i < before.len() ==> white_space(#[trigger] before[i]),
        forall|i: int| 0 <= i < after.len() ==> white_space(#[trigger] after[i]),
    ensures
        color_of(before + s + after) == color_of(s),
{
    assert(before + s + after =~= before + (s + after));
    lemma_trimmed_front_of_space(before, s + after);
    lemma_trimmed_front_then_space(s, after);
}

/// Whether `t` has as many bytes as the digits of a colour.
pub open spec fn has_six_bytes(t: Seq<char>) -> bool {
    encode_utf8(t).len() == 6
}

/// A text means the same colour with and without a `#` in front, and, unless it asks for a
/// transparent background, is understood in both forms or in neither. Left out are the texts that
/// begin with white space or with a `#` and have the bytes of a colour in one form only.
pub proof fn law_hash_is_optional(s: Seq<char>)
    requires
        s.len() == 0 || !white_space(s[0]) && s[0] != '#' || !has_six_bytes(trimmed_back(s))
            && !has_six_bytes(without_hash(trimmed(s))),
    ensures
        color_of(seq!['#'] + s).color == color_of(s).color,
        !asks_for_transparent(trimmed(s)) ==> color_of(seq!['#'] + s) == color_of(s),
{
    let h = seq!['#'] + s;
    lemma_back_keeps_front(seq!['#'], s);
    assert(trimmed(h) == seq!['#'] + trimmed_back(s));
    assert(without_hash(trimmed(h)) =~= trimmed_back(s));
    reveal_strlit("transparent");
    assert("transparent"@[0] == 't' && "transparent"@.len() == 11);
    assert(trimmed(h)[0] == '#');
    assert(ascii_small('#') != ascii_small('t'));
    assert(!asks_for_transparent(trimmed(h)));
    if s.len() == 0 {
        assert(trimmed_back(s) =~= Seq::empty());
    } else if !white_space(s[0]) && s[0] != '#' {
        lemma_back_keeps_front(seq![s[0]], s.drop_first());
        assert(s =~= seq![s[0]] + s.drop_first());
        assert(trimmed(s).len() > 0 && trimmed(s)[0] == s[0]);
        if same_but_case(trimmed(s), "transparent"@) {
            lemma_capitals_in_bytes(trimmed(s), "transparent"@);
            assert(is_ascii_chars("transparent"@));
            is_ascii_chars_encode_utf8("transparent"@);
        }
    }
}

/// Whether two bytes are the same but for ASCII capitals.
spec fn same_byte_but_case(a: u8, b: u8) -> bool {
    ||| a == b
    ||| 0x41 <= a <= 0x5a && b == a + 32
    ||| 0x41 <= b <= 0x5a && a == b + 32
}

/// Texts that are the same but for ASCII capitals have bytes that are.
proof fn lemma_capitals_in_bytes(a: Seq<char>, b: Seq<char>)
    requires
        same_but_case(a, b),
    ensures
        encode_utf8(a).len() == encode_utf8(b).len(),
        forall|i: int|
            0 <= i < encode_utf8(a).len() ==> same_byte_but_case(
                #[trigger] encode_utf8(a)[i],
                encode_utf8(b)[i],
            ),
    decreases a.len(),
{
    if a.len() > 0 {
        let p = a.drop_first();
        let q = b.drop_first();
        assert forall|i: int| 0 <= i < p.len() implies ascii_small(#[trigger] p[i]) == ascii_small(
            q[i],
        ) by {
            assert(p[i] == a[i + 1]);
        }
        lemma_capitals_in_bytes(p, q);
        let c = encode_scalar(a[0] as u32);
        let d = encode_scalar(b[0] as u32);
        assert(ascii_small(a[0]) == ascii_small(b[0]));
        if a[0] != b[0] {
            lemma_ascii_byte(a[0]);
            lemma_ascii_byte(b[0]);
        }
        assert(encode_utf8(a) == c + encode_utf8(p));
        assert(encode_utf8(b) == d + encode_utf8(q));
        assert forall|i: int| 0 <= i < encode_utf8(a).len() implies same_byte_but_case(
            #[trigger] encode_utf8(a)[i],
            encode_utf8(b)[i],
        ) by {
            if i >= c.len() {
                assert(encode_utf8(a)[i] == encode_utf8(p)[i - c.len()]);
                assert(encode_utf8(b)[i] == encode_utf8(q)[i - c.len()]);
            }
        }
    }
}

/// An ASCII character is encoded as one byte, its code.
proof fn lemma_ascii_byte(c: char)
    requires
        c as u32 <= 0x7f,
    ensures
        encode_scalar(c as u32) == seq![c as u8],
{
    let s = seq![c];
    assert(is_ascii_chars(s));
    is_ascii_chars_encode_utf8(s);
    assert(s.drop_first().len() == 0);
    assert(encode_utf8(s) =~= encode_scalar(c as u32));
    assert(encode_utf8(s) =~= seq![c as u8]);
}

/// Trimming takes the same characters away from texts that are the same but for ASCII capitals.
proof fn lemma_capitals_in_front(a: Seq<char>, b: Seq<char>)
    requires
        same_but_case(a, b),
    ensures
        same_but_case(trimmed_front(a), trimmed_front(b)),
    decreases a.len(),
{
    if a.len() > 0 {
        assert(ascii_small(a[0]) == ascii_small(b[0]));
        let p = a.drop_first();
        let q = b.drop_first();
        assert forall|i: int| 0 <= i < p.len() implies ascii_small(#[trigger] p[i]) == ascii_small(
            q[i],
        ) by {
            assert(p[i] == a[i + 1]);
        }
        lemma_capitals_in_front(p, q);
    }
}

proof fn lemma_capitals_at_back(a: Seq<char>, b: Seq<char>)
    requires
        same_but_case(a, b),
    ensures
        same_but_case(trimmed_back(a), trimmed_back(b)),
    decreases a.len(),
{
    if a.len() > 0 {
        assert(ascii_small(a.last()) == ascii_small(b.last()));
        let p = a.drop_last();
        let q = b.drop_last();
        assert forall|i: int| 0 <= i < p.len() implies ascii_small(#[trigger] p[i]) == ascii_small(
            q[i],
        ) by {
            assert(p[i] == a[i]);
        }
        lemma_capitals_at_back(p, q);
    }
}

/// Capitals do not matter in a colour, whatever the text is: neither for its meaning nor for whether
/// it can be read at all.
pub proof fn law_capitals_do_not_matter(a: Seq<char>, b: Seq<char>)
    requires
        same_but_case(a, b),
    ensures
        color_of(a) == color_of(b),
        splits_into_pairs(a) == splits_into_pairs(b),
{
    lemma_capitals_in_front(a, b);
    lemma_capitals_at_back(trimmed_front(a), trimmed_front(b));
    let p = trimmed(a);
    let q = trimmed(b);
    assert(forall|i: int| 0 <= i < q.len() ==> ascii_small(p[i]) == ascii_small(#[trigger] q[i]));
    assert(same_but_case(p, "transparent"@) == same_but_case(q, "transparent"@));
    if p.len() > 0 {
        assert(ascii_small(p[0]) == ascii_small(q[0]));
    }
    let v = without_hash(p);
    let w = without_hash(q);
    assert forall|i: int| 0 <= i < v.len() implies ascii_small(#[trigger] v[i]) == ascii_small(
        w[i],
    ) by {
        if v.len() < p.len() {
            assert(v[i] == p[i + 1]);
        }
    }
    lemma_capitals_in_bytes(v, w);
    let c = encode_utf8(v);
    let d = encode_utf8(w);
    assert forall|i: int| 0 <= i < c.len() implies hex_value(#[trigger] c[i]) == hex_value(d[i]) && (
    c[i] == 0x2b <==> d[i] == 0x2b) && is_continuation_byte(c[i]) == is_continuation_byte(d[i]) by {
        assert(same_byte_but_case(c[i], d[i]));
    }
}

/// Trimming the end stops at a character that is no white space.
proof fn lemma_back_keeps_front(a: Seq<char>, s: Seq<char>)
    requires
        a.len() > 0,
        !white_space(a.last()),
    ensures
        trimmed_back(a + s) == a + trimmed_back(s),
    decreases s.len(),
{
    if s.len() > 0 && white_space(s.last()) {
        assert((a + s).drop_last() =~= a + s.drop_last());
        lemma_back_keeps_front(a, s.drop_last());
    } else {
        if s.len() == 0 {
            assert(a + s =~= a);
        }
    }
}

/// The character of a hexadecimal digit, in capitals or not.
pub open spec fn hex_char(d: int, capitals: bool) -> char {
    if d < 10 {
        (0x30 + d) as char
    } else if capitals {
        (0x41 + d - 10) as char
    } else {
        (0x61 + d - 10) as char
    }
}

/// The hex code of an opaque colour, in capitals or not.
pub open spec fn hex_code(r: u8, g: u8, b: u8, capitals: bool) -> Seq<char> {
    seq![
        hex_char(r as int / 16, capitals),
        hex_char(r as int % 16, capitals),
        hex_char(g as int / 16, capitals),
        hex_char(g as int % 16, capitals),
        hex_char(b as int / 16, capitals),
        hex_char(b as int % 16, capitals),
    ]
}

/// The hex code of an opaque colour is read back as that colour, in capitals or not.
pub proof fn law_hex_code_is_read_back(r: u8, g: u8, b: u8, capitals: bool)
    ensures
        color_of(hex_code(r, g, b, capitals)) == (ParsedColor {
            color: (r, g, b, 255),
            recognized: true,
        }),
{
    let s = hex_code(r, g, b, capitals);
    assert(trimmed(s) == s);
    reveal_strlit("transparent");
    assert(!same_but_case(s, "transparent"@));
    assert(without_hash(s) == s);
    assert(is_ascii_chars(s));
    is_ascii_chars_encode_utf8(s);
    let e = encode_utf8(s);
    assert(e[0] == s[0] as u8 && e[1] == s[1] as u8 && e[2] == s[2] as u8 && e[3] == s[3] as u8
        && e[4] == s[4] as u8 && e[5] == s[5] as u8);
}

} // verus!
