//! What is done for a zoom level: the directories to create, the tiles to write and their paths.
use vstd::prelude::*;

use crate::decimal::{decimal, decimal_text};
use crate::encode::{
    encodable, encode_tile, encodes_to, extension, AvifSupport, EncodeError, OutputFormat,
};
use crate::grid::{all_tiles, num_tiles, tile_order, tiles_fit, tiles_per_side, TILE_SIZE};
use crate::raster::Raster;
use crate::square::{cut_tile, map_side, tile_of};

verus! {

/// The path of a tile below the output directory.
#[derive(Debug)]
pub struct TilePath {
    /// The directory of the zoom level.
    pub zoom_dir: String,
    /// The directory of the column, in that of the zoom level.
    pub column_dir: String,
    /// The file of the tile, in the directory of the column.
    pub file_name: String,
}

impl View for TilePath {
    type V = (Seq<char>, Seq<char>, Seq<char>);

    open spec fn view(&self) -> (Seq<char>, Seq<char>, Seq<char>) {
        (self.zoom_dir@, self.column_dir@, self.file_name@)
    }
}

/// The file name of the tile in row `y`.
pub open spec fn file_name_of(y: u32, format: OutputFormat) -> Seq<char> {
    decimal(y as nat) + seq!['.'] + extension(format)
}

/// The path of the tile in column `x` of row `y` at a zoom level: zoom directory, column
/// directory and file name.
pub open spec fn path_of(zoom: u32, x: u32, y: u32, format: OutputFormat) -> (
    Seq<char>,
    Seq<char>,
    Seq<char>,
) {
    (decimal(zoom as nat), decimal(x as nat), file_name_of(y, format))
}

/// Names the file of the tile in column `x` of row `y`.
pub fn tile_path(zoom: u32, x: u32, y: u32, format: OutputFormat) -> (path: TilePath)
    ensures
        path@ == path_of(zoom, x, y, format),
{
    proof {
        reveal_strlit(".");
    }
    let mut file_name = decimal_text(y);
    file_name.append(".");
    file_name.append(format.ext());
    let path = TilePath {
        zoom_dir: decimal_text(zoom),
        column_dir: decimal_text(x),
        file_name,
    };
    assert("."@ =~= seq!['.']);
    assert(path@.2 =~= file_name_of(y, format));
    path
}

/// What is done for a zoom level.
#[derive(Debug)]
pub struct ZoomPlan {
    /// The number of tiles along each side.
    pub num_tiles: u32,
    /// The number of tiles in all.
    pub total_tiles: u64,
    /// The directory of the zoom level.
    pub zoom_dir: String,
    /// The directories of the columns, in that of the zoom level.
    pub column_dirs: Vec<String>,
    /// Column and row of each tile, in the order in which they are done.
    pub tiles: Vec<(u32, u32)>,
}

/// Whether the tiles of a zoom level can be numbered and listed.
pub open spec fn plannable(zoom: u32) -> bool {
    zoom < 32 && tiles_fit(tiles_per_side(zoom as nat))
}

/// Tells whether [`plan_zoom`] can be called.
pub fn can_plan(zoom: u32) -> (yes: bool)
    ensures
        yes == plannable(zoom),
{
    if zoom >= 32 {
        return false;
    }
    let n: u32 = num_tiles(zoom);
    assert(0 <= n * n <= 0xffff_ffff * 0xffff_ffff) by (nonlinear_arith)
        requires
            0 <= n <= 0xffff_ffff,
    ;
    8 * (n as u128 * n as u128) <= isize::MAX as u128
}

/// Plans a zoom level.
pub fn plan_zoom(zoom: u32) -> (plan: ZoomPlan)
    requires
        plannable(zoom),
    ensures
        plan.num_tiles == tiles_per_side(zoom as nat),
        plan.total_tiles == tiles_per_side(zoom as nat) * tiles_per_side(zoom as nat),
        plan.zoom_dir@ == decimal(zoom as nat),
        plan.column_dirs@.len() == tiles_per_side(zoom as nat),
        forall|x: int|
            0 <= x < plan.column_dirs@.len() ==> #[trigger] plan.column_dirs@[x]@ == decimal(
                x as nat,
            ),
        plan.tiles@ == tile_order(tiles_per_side(zoom as nat)),
{
    let n: u32 = num_tiles(zoom);
    assert(0 <= n * n <= 0xffff_ffff * 0xffff_ffff) by (nonlinear_arith)
        requires
            0 <= n <= 0xffff_ffff,
    ;
    let total_tiles: u64 = n as u64 * n as u64;
    let mut column_dirs: Vec<String> = Vec::new();
    let mut x: u32 = 0;
    while x < n
        invariant
            x <= n,
            column_dirs@.len() == x,
            forall|i: int| 0 <= i < x ==> #[trigger] column_dirs@[i]@ == decimal(i as nat),
        decreases n - x,
    {
        column_dirs.push(decimal_text(x));
        x = x + 1;
    }
    ZoomPlan {
        num_tiles: n,
        total_tiles,
        zoom_dir: decimal_text(zoom),
        column_dirs,
        tiles: all_tiles(n),
    }
}

/// A tile as it is written: where, and which bytes.
#[derive(Debug)]
pub struct TileFile {
    pub path: TilePath,
    pub bytes: Vec<u8>,
}

/// Encodes the tile in column `x` of row `y` and names its file.
pub fn tile_file(
    img: Raster,
    zoom: u32,
    x: u32,
    y: u32,
    format: OutputFormat,
    quality: u32,
    avif: AvifSupport,
) -> (res: Result<TileFile, EncodeError>)
    requires
        encodable(img@.width, img@.height, format, quality, avif),
    ensures
        match res {
            Ok(file) => {
                &&& file.path@ == path_of(zoom, x, y, format)
                &&& encodes_to(
                    img@,
                    format,
                    quality,
                    avif,
                    Ok::<Vec<u8>, EncodeError>(file.bytes),
                )
            },
            Err(error) => encodes_to(
                img@,
                format,
                quality,
                avif,
                Err::<Vec<u8>, EncodeError>(error),
            ),
        },
{
    match encode_tile(img, format, quality, avif) {
        Ok(bytes) => Ok(TileFile { path: tile_path(zoom, x, y, format), bytes }),
        Err(error) => Err(error),
    }
}

/// Cuts the tile in column `x` of row `y` out of the map scaled for a zoom level, encodes it and
/// names its file.
pub fn scaled_tile_file(
    scaled: &Raster,
    zoom: u32,
    x: u32,
    y: u32,
    format: OutputFormat,
    quality: u32,
    avif: AvifSupport,
) -> (res: Result<TileFile, EncodeError>)
    requires
        scaled@.width == map_side(zoom as nat),
        scaled@.height == map_side(zoom as nat),
        x < tiles_per_side(zoom as nat),
        y < tiles_per_side(zoom as nat),
        encodable(TILE_SIZE as int, TILE_SIZE as int, format, quality, avif),
    ensures
        match res {
            Ok(file) => {
                &&& file.path@ == path_of(zoom, x, y, format)
                &&& encodes_to(
                    tile_of(scaled@, x as int, y as int),
                    format,
                    quality,
                    avif,
                    Ok::<Vec<u8>, EncodeError>(file.bytes),
                )
            },
            Err(error) => encodes_to(
                tile_of(scaled@, x as int, y as int),
                format,
                quality,
                avif,
                Err::<Vec<u8>, EncodeError>(error),
            ),
        },
{
    let _side: u32 = scaled.width();
    let tile = cut_tile(scaled, x, y);
    tile_file(tile, zoom, x, y, format, quality, avif)
}

} // verus!
