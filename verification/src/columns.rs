//! Pictures of tiles in the layout of one column after the other, 17 bytes
//! a column: what a column looks like, and where several records of one
//! tile differ.

use crate::colorizer::{get_land_color, get_sea_color, spec_land_color, spec_sea_color};
use crate::decimal::{parse_i32, spec_parse_i32};
use crate::text::{find_byte, first_index_of};
use crate::tile::TilePos;
use crate::tile_path::{spec_stem, TilePathError};
use vstd::array::ArrayAdditionalSpecFns;
use vstd::prelude::*;
use vstd::slice::slice_subrange;
use vstd::string::StringSliceAdditionalSpecFns;

verus! {

/// The color of red, green, blue and opacity: red in the lowest byte,
/// opacity in the highest.
pub open spec fn spec_rgba(r: u8, g: u8, b: u8, a: u8) -> u32 {
    (a * 0x100_0000 + b * 0x1_0000 + g * 0x100 + r) as u32
}

/// The color with the opacity in the highest byte, then red, green and
/// blue, blue in the lowest.
pub open spec fn spec_pack_argb(r: u8, g: u8, b: u8, a: u8) -> u32 {
    (a * 0x100_0000 + r * 0x1_0000 + g * 0x100 + b) as u32
}

/// The color of red, green, blue and opacity.
pub fn rgba(r: u8, g: u8, b: u8, a: u8) -> (color: u32)
    ensures
        color == spec_rgba(r, g, b, a),
{
    assert(((a as u32) << 24) | ((b as u32) << 16) | ((g as u32) << 8) | (r as u32) == a
        * 0x100_0000 + b * 0x1_0000 + g * 0x100 + r) by (bit_vector);
    ((a as u32) << 24) | ((b as u32) << 16) | ((g as u32) << 8) | (r as u32)
}

/// The color with the opacity first and blue last.
pub fn pack_argb(r: u8, g: u8, b: u8, a: u8) -> (color: u32)
    ensures
        color == spec_pack_argb(r, g, b, a),
{
    assert(((a as u32) << 24) | ((r as u32) << 16) | ((g as u32) << 8) | (b as u32) == a
        * 0x100_0000 + r * 0x1_0000 + g * 0x100 + b) by (bit_vector);
    ((a as u32) << 24) | ((r as u32) << 16) | ((g as u32) << 8) | (b as u32)
}

/// The height of a column as a grey: red, green, blue and opacity.
pub fn heightmap(column: &[u8; 17]) -> (color: (u8, u8, u8, u8))
    ensures
        color == (column@[0], column@[0], column@[0], 255u8),
{
    let h: u8 = column[0];
    (h, h, h, 255)
}

/// The height of a column as a grey.
pub fn heightmap_color(column: &[u8; 17]) -> (color: u32)
    ensures
        color == spec_rgba(column@[0], column@[0], column@[0], 255),
{
    let h: u8 = column[0];
    rgba(h, h, h, 255)
}

/// The light of a column as a grey: its low four bits, spread over the
/// range of a byte.
pub fn lightmap(column: &[u8; 17]) -> (color: u32)
    ensures
        color == spec_rgba(
            (column@[3] % 16 * 17) as u8,
            (column@[3] % 16 * 17) as u8,
            (column@[3] % 16 * 17) as u8,
            255,
        ),
{
    let light: u8 = column[3];
    assert(light & 0xf == light % 16) by (bit_vector);
    let bl: u8 = light & 0xf;
    rgba(bl * 17, bl * 17, bl * 17, 255)
}

/// Whether every byte is 0.
pub open spec fn spec_is_empty(column: Seq<u8>) -> bool {
    forall|i: int| 0 <= i < column.len() ==> #[trigger] column[i] == 0
}

/// Where the sand is: sand on the surface, sand on the ocean floor,
/// nothing recorded, or anything else. Sand has the number 12.
pub open spec fn spec_sandmap(column: Seq<u8>) -> u32 {
    if column[2] == 12 {
        spec_rgba(255, 240, 100, 255)
    } else if column[6] == 12 {
        spec_rgba(128, 120, 200, 255)
    } else if spec_is_empty(column) {
        spec_rgba(0, 0, 0, 0)
    } else {
        spec_rgba(0, 0, 0, 255)
    }
}

/// Whether nothing is recorded in a column: every byte is 0.
pub fn is_empty(column: &[u8]) -> (empty: bool)
    ensures
        empty == spec_is_empty(column@),
{
    let mut i: usize = 0;
    while i < column.len()
        invariant
            i <= column@.len(),
            forall|j: int| 0 <= j < i ==> #[trigger] column@[j] == 0,
        decreases column@.len() - i,
    {
        if column[i] != 0 {
            return false;
        }
        i += 1;
    }
    true
}

/// The color that shows where the sand is.
pub fn sandmap(column: &[u8; 17]) -> (color: u32)
    ensures
        color == spec_sandmap(column@),
{
    let b: u8 = column[2];
    let s: u8 = column[2 + 4];
    if b == 12 {
        rgba(255, 240, 100, 255)
    } else if s == 12 {
        rgba(128, 120, 200, 255)
    } else if is_empty(column.as_slice()) {
        rgba(0, 0, 0, 0)
    } else {
        rgba(0, 0, 0, 255)
    }
}

/// The color for a column of two records: as yet the height of the first
/// as a grey.
pub fn diff(col_main: &[u8; 17], col_add: &[u8; 17]) -> (color: u32)
    ensures
        color == spec_rgba(col_main@[0], col_main@[0], col_main@[0], 255),
{
    let h: u8 = col_main[0];
    rgba(h, h, h, 255)
}

/// The tile position that a file name of the form `<x>,<z>.zip` gives:
/// all that stands between the comma and the extension is `z`.
pub open spec fn spec_xz_from_zip_name(name: Seq<u8>) -> Result<TilePos, TilePathError> {
    if name.len() < 4 {
        Err(TilePathError::TooShort)
    } else {
        let stem = spec_stem(name);
        let comma = first_index_of(stem, 0x2c);
        match spec_parse_i32(stem.subrange(0, comma)) {
            Err(e) => Err(TilePathError::BadX(e)),
            Ok(x) => if comma >= stem.len() {
                Err(TilePathError::MissingZ)
            } else {
                match spec_parse_i32(stem.subrange(comma + 1, stem.len() as int)) {
                    Err(e) => Err(TilePathError::BadZ(e)),
                    Ok(z) => Ok((x, z)),
                }
            },
        }
    }
}

/// The position of the tile in the file called `file_name`.
pub fn xz_from_zip_path(file_name: &str) -> (r: Result<TilePos, TilePathError>)
    ensures
        r == spec_xz_from_zip_name(file_name.spec_bytes()),
{
    let name = file_name.as_bytes();
    if name.len() < 4 {
        return Err(TilePathError::TooShort);
    }
    let stem = slice_subrange(name, 0, name.len() - 4);
    assert(stem@.subrange(0, stem@.len() as int) =~= stem@);
    let comma: usize = find_byte(stem, 0, 0x2c);
    let x: i32 = match parse_i32(slice_subrange(stem, 0, comma)) {
        Ok(x) => x,
        Err(e) => {
            return Err(TilePathError::BadX(e));
        },
    };
    if comma >= stem.len() {
        return Err(TilePathError::MissingZ);
    }
    match parse_i32(slice_subrange(stem, comma + 1, stem.len())) {
        Ok(z) => Ok((x, z)),
        Err(e) => Err(TilePathError::BadZ(e)),
    }
}

pub const DIFF_HEIGHT: u32 = 0xff_0000ff;

pub const DIFF_BLOCK: u32 = 0xff_0088ff;

pub const DIFF_OTHER: u32 = 0xff_880088;

pub const DIFF_NONE: u32 = 0xff_888800;

/// What the records of one column were found to differ in.
pub struct DiffState {
    /// The last column that held anything.
    pub prev: Seq<u8>,
    pub changed: bool,
    pub height_changed: bool,
    pub block_changed: bool,
}

/// Column `i` of a record.
pub open spec fn spec_column_of(tile: Seq<u8>, i: int) -> Seq<u8> {
    tile.subrange(i * 17, i * 17 + 17)
}

/// What the first `n` records of column `i` differ in. A record without
/// the column is passed over; every other is held against the last before
/// it that had the column.
pub open spec fn spec_diff_state(tiles: Seq<Vec<u8>>, i: int, n: int) -> DiffState
    decreases n,
{
    if n <= 0 {
        DiffState {
            prev: Seq::new(17, |k: int| 0u8),
            changed: false,
            height_changed: false,
            block_changed: false,
        }
    } else {
        let before = spec_diff_state(tiles, i, n - 1);
        let column = spec_column_of(tiles[n - 1]@, i);
        if spec_is_empty(column) {
            before
        } else if !spec_is_empty(before.prev) && column != before.prev {
            DiffState {
                prev: column,
                changed: true,
                height_changed: before.height_changed || column[0] != before.prev[0],
                block_changed: before.block_changed || column[1] != before.prev[1] || column[2]
                    != before.prev[2],
            }
        } else {
            DiffState { prev: column, ..before }
        }
    }
}

/// The color of what the records differ in: the height, else the block,
/// else anything, else nothing.
pub open spec fn spec_diff_color(state: DiffState) -> u32 {
    if state.height_changed {
        DIFF_HEIGHT
    } else if state.block_changed {
        DIFF_BLOCK
    } else if state.changed {
        DIFF_OTHER
    } else {
        DIFF_NONE
    }
}

/// Why records cannot be held against each other.
#[derive(Clone, Copy, Debug, PartialEq, Eq, Structural)]
pub enum DiffError {
    NoTiles,
    OnlyOneTile,
}

/// Number of bytes of a tile of 17 bytes a column.
pub const COLUMN_TILE_BYTES: usize = 1114112;

/// The color of column `i`: of what the records of the column differ in.
pub fn diff_pixel(tiles: &Vec<Vec<u8>>, i: usize) -> (color: u32)
    requires
        i < 65536,
        forall|t: int| 0 <= t < tiles@.len() ==> (#[trigger] tiles@[t])@.len() >= COLUMN_TILE_BYTES,
    ensures
        color == spec_diff_color(spec_diff_state(tiles@, i as int, tiles@.len() as int)),
{
    let mut changed: bool = false;
    let mut height_changed: bool = false;
    let mut block_changed: bool = false;
    let mut prev: Vec<u8> = vec![0u8; 17];
    assert(prev@ =~= Seq::new(17, |k: int| 0u8));
    let mut t: usize = 0;
    while t < tiles.len()
        invariant
            t <= tiles@.len(),
            i < 65536,
            forall|k: int|
                0 <= k < tiles@.len() ==> (#[trigger] tiles@[k])@.len() >= COLUMN_TILE_BYTES,
            prev@.len() == 17,
            spec_diff_state(tiles@, i as int, t as int) == (DiffState {
                prev: prev@,
                changed,
                height_changed,
                block_changed,
            }),
        decreases tiles@.len() - t,
    {
        assert(tiles@[t as int]@.len() >= COLUMN_TILE_BYTES);
        let column: &[u8] = slice_subrange(tiles[t].as_slice(), i * 17, i * 17 + 17);
        if !is_empty(column) {
            if !is_empty(prev.as_slice()) && !crate::text::bytes_eq(column, prev.as_slice()) {
                changed = true;
                if column[0] != prev[0] {
                    height_changed = true;
                }
                if column[1] != prev[1] || column[2] != prev[2] {
                    block_changed = true;
                }
            }
            prev = vstd::slice::slice_to_vec(column);
        }
        t += 1;
    }
    if height_changed {
        DIFF_HEIGHT
    } else if block_changed {
        DIFF_BLOCK
    } else if changed {
        DIFF_OTHER
    } else {
        DIFF_NONE
    }
}

/// The picture of where the records of one tile differ, a color for each
/// column. There must be two records at least.
pub fn analyze_tile(tiles: &Vec<Vec<u8>>) -> (r: Result<Vec<u32>, DiffError>)
    requires
        forall|t: int| 0 <= t < tiles@.len() ==> (#[trigger] tiles@[t])@.len() >= COLUMN_TILE_BYTES,
    ensures
        tiles@.len() == 0 ==> r == Err::<Vec<u32>, DiffError>(DiffError::NoTiles),
        tiles@.len() == 1 ==> r == Err::<Vec<u32>, DiffError>(DiffError::OnlyOneTile),
        tiles@.len() >= 2 ==> (r matches Ok(pixels) && pixels@.len() == 65536 && forall|i: int|
            0 <= i < 65536 ==> #[trigger] pixels@[i] == spec_diff_color(
                spec_diff_state(tiles@, i, tiles@.len() as int),
            )),
{
    if tiles.len() == 0 {
        return Err(DiffError::NoTiles);
    }
    if tiles.len() == 1 {
        return Err(DiffError::OnlyOneTile);
    }
    let mut pixbuf: Vec<u32> = Vec::new();
    let mut i: usize = 0;
    while i < 65536
        invariant
            i <= 65536,
            forall|t: int|
                0 <= t < tiles@.len() ==> (#[trigger] tiles@[t])@.len() >= COLUMN_TILE_BYTES,
            pixbuf@.len() == i,
            forall|k: int|
                0 <= k < i ==> #[trigger] pixbuf@[k] == spec_diff_color(
                    spec_diff_state(tiles@, k, tiles@.len() as int),
                ),
        decreases 65536 - i,
    {
        pixbuf.push(diff_pixel(tiles, i));
        i += 1;
    }
    Ok(pixbuf)
}

/// The colors of land and of water by height, side by side: a picture 100
/// wide and 256 high, the height 1 at the bottom, land on the left.
pub fn palette_pixels() -> (pixbuf: Vec<u32>)
    ensures
        pixbuf@.len() == 25600,
        forall|h: int, x: int|
            1 <= h <= 256 && 0 <= x < 100 ==> #[trigger] pixbuf@[x + 100 * (256 - h)] == if x
                < 50 {
                spec_land_color((h % 256) as u8)
            } else {
                spec_sea_color((h % 256) as u8)
            },
{
    let mut pixbuf: Vec<u32> = vec![0u32; 25600];
    let mut h: usize = 1;
    while h < 257
        invariant
            1 <= h <= 257,
            pixbuf@.len() == 25600,
            forall|k: int, x: int|
                1 <= k < h && 0 <= x < 100 ==> #[trigger] pixbuf@[x + 100 * (256 - k)] == if x
                    < 50 {
                    spec_land_color((k % 256) as u8)
                } else {
                    spec_sea_color((k % 256) as u8)
                },
        decreases 257 - h,
    {
        let level: u8 = (h % 256) as u8;
        let color_land: u32 = get_land_color(level);
        let color_water: u32 = get_sea_color(level);
        let row: usize = 100 * (256 - h);
        let mut x: usize = 0;
        while x < 100
            invariant
                x <= 100,
                1 <= h < 257,
                row == 100 * (256 - h),
                pixbuf@.len() == 25600,
                color_land == spec_land_color((h % 256) as u8),
                color_water == spec_sea_color((h % 256) as u8),
                forall|k: int, y: int|
                    1 <= k < h && 0 <= y < 100 ==> #[trigger] pixbuf@[y + 100 * (256 - k)] == if y
                        < 50 {
                        spec_land_color((k % 256) as u8)
                    } else {
                        spec_sea_color((k % 256) as u8)
                    },
                forall|y: int|
                    0 <= y < x ==> #[trigger] pixbuf@[y + row] == if y < 50 {
                        color_land
                    } else {
                        color_water
                    },
            decreases 100 - x,
        {
            let ghost before = pixbuf@;
            pixbuf.set(
                row + x,
                if x < 50 {
                    color_land
                } else {
                    color_water
                },
            );
            proof {
                assert forall|k: int, y: int| 1 <= k < h && 0 <= y < 100 implies #[trigger] pixbuf@[y
                    + 100 * (256 - k)] == before[y + 100 * (256 - k)] by {
                    assert(y + 100 * (256 - k) != row + x);
                }
            }
            x += 1;
        }
        proof {
            assert forall|k: int, y: int| 1 <= k < h + 1 && 0 <= y < 100 implies #[trigger] pixbuf@[y
                + 100 * (256 - k)] == if y < 50 {
                spec_land_color((k % 256) as u8)
            } else {
                spec_sea_color((k % 256) as u8)
            } by {
                if k == h {
                    assert(pixbuf@[y + row] == if y < 50 {
                        color_land
                    } else {
                        color_water
                    });
                }
            }
        }
        h += 1;
    }
    pixbuf
}

} // verus!
