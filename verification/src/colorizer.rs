//! The colors that a column of a tile is drawn with.

use crate::keys::spec_get;
use crate::text::{bytes_eq, find_byte, first_index_of, has_suffix, spec_has_suffix, str_eq};
use crate::tile::{
    spec_get_u16, spec_get_u8, spec_is_col_empty, Tile, BIOMEIDPOS, BLOCKSTATEPOS, HEIGHTPOS,
    LIGHTPOS, OCEANFLOORHEIGHTPOS, TILE_COLUMNS,
};
use vstd::prelude::*;
use vstd::slice::slice_subrange;
use vstd::utf8::*;

verus! {

pub const S_WATER: u32 = 0xff_ff_c5_a6;

pub const S_LAND: u32 = 0xff_dc_e4_e7;

pub const BLACK: u32 = 0xff_00_00_00;

pub const WHITE: u32 = 0xff_ff_ff_ff;

pub const SKY_COLOR: u32 = 0xff_88_00_88;

pub const MTN_COLOR: u32 = 0xff_32_6e_9f;

pub const MID_COLOR: u32 = 0xff_00_ff_ff;

pub const COAST_COLOR: u32 = 0xff_00_b6_00;

pub const SEA_COLOR: u32 = 0xff_ff_d9_00;

pub const HIGH_LEVEL: u8 = 240;

pub const MTN_LEVEL: u8 = 150;

pub const MID_LEVEL: u8 = 100;

pub const SEA_LEVEL: u8 = 64;

/// The opaque color of red `r`, green `g` and blue `b`: red in the lowest
/// byte, then green, then blue, and 255 in the highest.
pub open spec fn spec_rgb(r: u8, g: u8, b: u8) -> u32 {
    (0xff00_0000 + b * 0x1_0000 + g * 0x100 + r) as u32
}

/// The red, green or blue of a color: byte `i` of it, the lowest first.
pub open spec fn spec_component(color: u32, i: int) -> int {
    if i == 0 {
        color as int % 256
    } else if i == 1 {
        color as int / 256 % 256
    } else {
        color as int / 65536 % 256
    }
}

/// The value between `col_start` and `col_stop` that lies where `val`
/// lies between `val_start` and `val_stop`, rounded down.
pub open spec fn spec_interpolate_component(
    col_start: int,
    col_stop: int,
    val_start: u8,
    val_stop: u8,
    val: u8,
) -> int {
    (col_start * (val_stop - val) + col_stop * (val - val_start)) / (val_stop - val_start)
}

/// The color between two colors, component by component.
pub open spec fn spec_interpolate(
    col_start: u32,
    col_stop: u32,
    val_start: u8,
    val_stop: u8,
    val: u8,
) -> u32 {
    spec_rgb(
        spec_interpolate_component(
            spec_component(col_start, 0),
            spec_component(col_stop, 0),
            val_start,
            val_stop,
            val,
        ) as u8,
        spec_interpolate_component(
            spec_component(col_start, 1),
            spec_component(col_stop, 1),
            val_start,
            val_stop,
            val,
        ) as u8,
        spec_interpolate_component(
            spec_component(col_start, 2),
            spec_component(col_stop, 2),
            val_start,
            val_stop,
            val,
        ) as u8,
    )
}

/// The color of water over a floor at the height `ocean_floor_height`:
/// from black at the bottom to the color of the sea at sea level.
pub open spec fn spec_sea_color(ocean_floor_height: u8) -> u32 {
    if ocean_floor_height < SEA_LEVEL {
        spec_interpolate(BLACK, SEA_COLOR, 0, SEA_LEVEL, ocean_floor_height)
    } else {
        SEA_COLOR
    }
}

/// The color of land at the height `surface_height`, where 0 stands for
/// the top of the world: through the colors of coast, hills, mountains and
/// peaks up to that of the sky.
pub open spec fn spec_land_color(surface_height: u8) -> u32 {
    let h = if surface_height == 0 {
        255u8
    } else {
        surface_height
    };
    if h < SEA_LEVEL {
        spec_interpolate(BLACK, COAST_COLOR, 0, SEA_LEVEL, h)
    } else if h < MID_LEVEL {
        spec_interpolate(COAST_COLOR, MID_COLOR, SEA_LEVEL, MID_LEVEL, h)
    } else if h < MTN_LEVEL {
        spec_interpolate(MID_COLOR, MTN_COLOR, MID_LEVEL, MTN_LEVEL, h)
    } else if h < HIGH_LEVEL {
        spec_interpolate(MTN_COLOR, WHITE, MTN_LEVEL, HIGH_LEVEL, h)
    } else {
        spec_interpolate(WHITE, SKY_COLOR, HIGH_LEVEL, 255, h)
    }
}

/// The name of still water.
pub open spec fn water_name() -> Seq<char> {
    "minecraft:water[level=0]"@
}

/// Whether the surface of a column is still water. In a tile whose key
/// table has no water, the block of the largest id counts as water.
pub open spec fn spec_is_water(data: Seq<u8>, keys: crate::keys::KeySeq, column_nr: int) -> bool {
    spec_get_u16(data, column_nr, BLOCKSTATEPOS as int) == match spec_get(keys, water_name()) {
        Some(id) => id,
        None => u16::MAX,
    }
}

/// Water and land in two colors, nothing where nothing is recorded.
pub open spec fn spec_colorize_simple(data: Seq<u8>, keys: crate::keys::KeySeq, column_nr: int) -> u32 {
    if spec_is_col_empty(data, column_nr) {
        0
    } else if spec_is_water(data, keys, column_nr) {
        S_WATER
    } else {
        S_LAND
    }
}

/// The block light of the surface as a grey: the low four bits of the
/// light, spread over the range of a byte.
pub open spec fn spec_colorize_light(data: Seq<u8>, column_nr: int) -> u32 {
    if spec_is_col_empty(data, column_nr) {
        0
    } else {
        let bl = (spec_get_u8(data, column_nr, LIGHTPOS as int) % 16 * 17) as u8;
        spec_rgb(bl, bl, bl)
    }
}

/// The height of the surface as a grey; the height 0 stands for the top
/// of the world and is white.
pub open spec fn spec_colorize_height_bw(data: Seq<u8>, column_nr: int) -> u32 {
    if spec_is_col_empty(data, column_nr) {
        0
    } else {
        let h = spec_get_u8(data, column_nr, HEIGHTPOS as int);
        let h = if h == 0 {
            255u8
        } else {
            h
        };
        spec_rgb(h, h, h)
    }
}

/// The height in colors: water by the depth of its floor, land by its
/// height.
pub open spec fn spec_colorize_height(data: Seq<u8>, keys: crate::keys::KeySeq, column_nr: int) -> u32 {
    if spec_is_col_empty(data, column_nr) {
        0
    } else if spec_is_water(data, keys, column_nr) {
        spec_sea_color(spec_get_u8(data, column_nr, OCEANFLOORHEIGHTPOS as int))
    } else {
        spec_land_color(spec_get_u8(data, column_nr, HEIGHTPOS as int))
    }
}

/// The color of the biome of a column, by the table `biome_colors`.
pub open spec fn spec_colorize_biome(data: Seq<u8>, biome_colors: Seq<u32>, column_nr: int) -> u32 {
    if spec_is_col_empty(data, column_nr) {
        0
    } else {
        biome_colors[spec_get_u16(data, column_nr, BIOMEIDPOS as int) as int]
    }
}

/// The opaque color of red, green and blue.
pub fn rgb(r: u8, g: u8, b: u8) -> (color: u32)
    ensures
        color == spec_rgb(r, g, b),
{
    assert(0xff000000u32 | ((b as u32) << 16) | ((g as u32) << 8) | (r as u32) == 0xff00_0000
        + b * 0x1_0000 + g * 0x100 + r) by (bit_vector);
    0xff000000 | ((b as u32) << 16) | ((g as u32) << 8) | (r as u32)
}

/// One component of the color between two colors.
pub fn interpolate_color_component(
    col_start: u32,
    col_stop: u32,
    val_start: u8,
    val_stop: u8,
    val: u8,
) -> (r: u8)
    requires
        col_start <= 255,
        col_stop <= 255,
        val_start <= val <= val_stop,
        val_start < val_stop,
    ensures
        r == spec_interpolate_component(
            col_start as int,
            col_stop as int,
            val_start,
            val_stop,
            val,
        ),
{
    let diff_start: u32 = (val - val_start) as u32;
    let diff_stop: u32 = (val_stop - val) as u32;
    let val_diff: u32 = (val_stop - val_start) as u32;
    assert(col_start * diff_stop + col_stop * diff_start <= 255 * val_diff) by (nonlinear_arith)
        requires
            col_start <= 255,
            col_stop <= 255,
            diff_start + diff_stop == val_diff,
    ;
    assert(col_start * diff_stop <= 255 * 255 && col_stop * diff_start <= 255 * 255)
        by (nonlinear_arith)
        requires
            col_start <= 255,
            col_stop <= 255,
            diff_start <= 255,
            diff_stop <= 255,
    ;
    let sum: u32 = col_start * diff_stop + col_stop * diff_start;
    assert(sum / val_diff <= 255) by (nonlinear_arith)
        requires
            sum <= 255 * val_diff,
            val_diff > 0,
    ;
    (sum / val_diff) as u8
}

/// The color between two colors that lies where `val` lies between
/// `val_start` and `val_stop`.
pub fn interpolate(col_start: u32, col_stop: u32, val_start: u8, val_stop: u8, val: u8) -> (color:
    u32)
    requires
        val_start <= val <= val_stop,
        val_start < val_stop,
    ensures
        color == spec_interpolate(col_start, col_stop, val_start, val_stop, val),
{
    assert(col_start & 0xff == col_start % 256 && col_start >> 8 & 0xff == col_start / 256 % 256
        && col_start >> 16 & 0xff == col_start / 65536 % 256) by (bit_vector);
    assert(col_stop & 0xff == col_stop % 256 && col_stop >> 8 & 0xff == col_stop / 256 % 256
        && col_stop >> 16 & 0xff == col_stop / 65536 % 256) by (bit_vector);
    let r_st: u32 = col_start & 0xff;
    let g_st: u32 = col_start >> 8 & 0xff;
    let b_st: u32 = col_start >> 16 & 0xff;
    let r_sp: u32 = col_stop & 0xff;
    let g_sp: u32 = col_stop >> 8 & 0xff;
    let b_sp: u32 = col_stop >> 16 & 0xff;
    rgb(
        interpolate_color_component(r_st, r_sp, val_start, val_stop, val),
        interpolate_color_component(g_st, g_sp, val_start, val_stop, val),
        interpolate_color_component(b_st, b_sp, val_start, val_stop, val),
    )
}

/// The color of water over a floor at this height.
pub fn get_sea_color(ocean_floor_height: u8) -> (color: u32)
    ensures
        color == spec_sea_color(ocean_floor_height),
{
    if ocean_floor_height < SEA_LEVEL {
        interpolate(BLACK, SEA_COLOR, 0, SEA_LEVEL, ocean_floor_height)
    } else {
        SEA_COLOR
    }
}

/// The color of land at this height.
pub fn get_land_color(surface_height: u8) -> (color: u32)
    ensures
        color == spec_land_color(surface_height),
{
    let h: u8 = if surface_height == 0 {
        255
    } else {
        surface_height
    };
    if h < SEA_LEVEL {
        interpolate(BLACK, COAST_COLOR, 0, SEA_LEVEL, h)
    } else if h < MID_LEVEL {
        interpolate(COAST_COLOR, MID_COLOR, SEA_LEVEL, MID_LEVEL, h)
    } else if h < MTN_LEVEL {
        interpolate(MID_COLOR, MTN_COLOR, MID_LEVEL, MTN_LEVEL, h)
    } else if h < HIGH_LEVEL {
        interpolate(MTN_COLOR, WHITE, MTN_LEVEL, HIGH_LEVEL, h)
    } else {
        interpolate(WHITE, SKY_COLOR, HIGH_LEVEL, 255, h)
    }
}

/// Whether the surface of a column is still water.
pub fn is_water(tile: &Tile, column_nr: usize) -> (water: bool)
    requires
        tile.wf(),
        column_nr < TILE_COLUMNS,
    ensures
        water == spec_is_water(tile@.data, tile@.keys, column_nr as int),
{
    let block_nr: u16 = tile.get_blockstate(column_nr);
    match tile.keys().get("minecraft:water[level=0]") {
        Some(id) => block_nr == id,
        None => block_nr == u16::MAX,
    }
}

/// The color of the biome of a column.
pub fn colorize_biome(tile: &Tile, column_nr: usize, biome_colors: &Vec<u32>) -> (color: u32)
    requires
        tile.wf(),
        column_nr < TILE_COLUMNS,
        spec_get_u16(tile@.data, column_nr as int, BIOMEIDPOS as int) < biome_colors@.len(),
    ensures
        color == spec_colorize_biome(tile@.data, biome_colors@, column_nr as int),
{
    if tile.is_col_empty(column_nr) {
        return 0;
    }
    let b: u16 = tile.get_biome_id(column_nr);
    biome_colors[b as usize]
}

/// Water and land in two colors.
pub fn colorize_simple(tile: &Tile, column_nr: usize) -> (color: u32)
    requires
        tile.wf(),
        column_nr < TILE_COLUMNS,
    ensures
        color == spec_colorize_simple(tile@.data, tile@.keys, column_nr as int),
{
    if tile.is_col_empty(column_nr) {
        return 0;
    }
    if is_water(tile, column_nr) {
        return S_WATER;
    }
    S_LAND
}

/// The block light of a column as a grey.
pub fn colorize_light(tile: &Tile, column_nr: usize) -> (color: u32)
    requires
        tile.wf(),
        column_nr < TILE_COLUMNS,
    ensures
        color == spec_colorize_light(tile@.data, column_nr as int),
{
    if tile.is_col_empty(column_nr) {
        return 0;
    }
    let light: u8 = tile.get_light(column_nr);
    assert(light & 0xf == light % 16) by (bit_vector);
    let bl: u8 = light & 0xf;
    rgb(bl * 17, bl * 17, bl * 17)
}

/// The height of a column as a grey.
pub fn colorize_height_bw(tile: &Tile, column_nr: usize) -> (color: u32)
    requires
        tile.wf(),
        column_nr < TILE_COLUMNS,
    ensures
        color == spec_colorize_height_bw(tile@.data, column_nr as int),
{
    if tile.is_col_empty(column_nr) {
        return 0;
    }
    let mut h: u8 = tile.get_height(column_nr);
    if h == 0 {
        h = 255;
    }
    rgb(h, h, h)
}

/// The height of a column in colors.
pub fn colorize_height(tile: &Tile, column_nr: usize) -> (color: u32)
    requires
        tile.wf(),
        column_nr < TILE_COLUMNS,
    ensures
        color == spec_colorize_height(tile@.data, tile@.keys, column_nr as int),
{
    if tile.is_col_empty(column_nr) {
        return 0;
    }
    if is_water(tile, column_nr) {
        get_sea_color(tile.get_ocean_floor_height(column_nr))
    } else {
        get_land_color(tile.get_height(column_nr))
    }
}

/// How natural a block counts as: the rank `naturality` for the block
/// called `block`, in the biome `biome` or, without one, in any biome.
pub struct NaturalityRule {
    pub block: String,
    pub biome: Option<u8>,
    pub naturality: u8,
}

/// The rules by which blocks are ranked and the colors of the ranks.
pub struct NaturalityPalette {
    pub rules: Vec<NaturalityRule>,
    /// The color of each rank.
    pub colors: Vec<u32>,
    /// The rank of a block that no rule names.
    pub unknown: u8,
}

/// The name of a block without its properties and without its namespace:
/// what stands before the first `[`, and of that what stands after the
/// last `:`.
pub open spec fn spec_block_stem(name: Seq<u8>) -> Seq<u8> {
    let bare = name.subrange(0, first_index_of(name, 0x5b));
    bare.subrange(spec_after_last(bare, 0x3a), bare.len() as int)
}

/// The place after the last `b` in `s`, 0 where there is none.
pub open spec fn spec_after_last(s: Seq<u8>, b: u8) -> int
    decreases s.len(),
{
    if s.len() == 0 {
        0
    } else if s.last() == b {
        s.len() as int
    } else {
        spec_after_last(s.drop_last(), b)
    }
}

/// The rank of the first of the first `n` rules that names the block for
/// the biome, if `for_biome`, or for any biome, if not.
pub open spec fn spec_rule_rank(
    rules: Seq<NaturalityRule>,
    stem: Seq<u8>,
    biome: u8,
    for_biome: bool,
    n: int,
) -> Option<u8>
    decreases n,
{
    if n <= 0 {
        None
    } else {
        match spec_rule_rank(rules, stem, biome, for_biome, n - 1) {
            Some(rank) => Some(rank),
            None => if encode_utf8(rules[n - 1].block@) == stem && rules[n - 1].biome == (
            if for_biome {
                Some(biome)
            } else {
                None
            }) {
                Some(rules[n - 1].naturality)
            } else {
                None
            },
        }
    }
}

/// The rank of a block in a biome: by the first rule for the block in the
/// biome, else by the first rule for the block in any biome, else the rank
/// of the unknown.
pub open spec fn spec_naturality(
    rules: Seq<NaturalityRule>,
    unknown: u8,
    stem: Seq<u8>,
    biome: u8,
) -> u8 {
    match spec_rule_rank(rules, stem, biome, true, rules.len() as int) {
        Some(rank) => rank,
        None => match spec_rule_rank(rules, stem, biome, false, rules.len() as int) {
            Some(rank) => rank,
            None => unknown,
        },
    }
}

/// Whether a block of this name is ranked: it is a block, its name is
/// known, and it is no air.
pub open spec fn spec_block_ranked(block_nr: u16, name: Seq<char>) -> bool {
    block_nr != 0 && name != crate::keys::unknown_name() && !spec_has_suffix(
        encode_utf8(name),
        encode_utf8(":air"@),
    )
}

/// The highest rank among the first `n` of the four blocks of a column:
/// surface, ocean floor, transparent layer and foliage.
pub open spec fn spec_best_rank(
    data: Seq<u8>,
    names: Seq<Seq<char>>,
    rules: Seq<NaturalityRule>,
    unknown: u8,
    column_nr: int,
    n: int,
) -> Option<u8>
    decreases n,
{
    if n <= 0 {
        None
    } else {
        let before = spec_best_rank(data, names, rules, unknown, column_nr, n - 1);
        let block_nr = spec_get_u16(data, column_nr, 1 + 4 * (n - 1));
        if spec_block_ranked(block_nr, names[block_nr as int]) {
            let rank = spec_naturality(
                rules,
                unknown,
                spec_block_stem(encode_utf8(names[block_nr as int])),
                spec_get_u16(data, column_nr, BIOMEIDPOS as int) as u8,
            );
            match before {
                Some(best) => if best < rank {
                    Some(rank)
                } else {
                    Some(best)
                },
                None => Some(rank),
            }
        } else {
            before
        }
    }
}

/// The color of the most natural block of a column.
pub open spec fn spec_colorize_naturality(
    tile: crate::tile::TileView,
    rules: Seq<NaturalityRule>,
    colors: Seq<u32>,
    unknown: u8,
    column_nr: int,
) -> u32 {
    if spec_is_col_empty(tile.data, column_nr) {
        0
    } else {
        match spec_best_rank(tile.data, tile.names, rules, unknown, column_nr, 4) {
            Some(rank) => colors[rank as int],
            None => 0,
        }
    }
}

/// What a palette must be for every rank it gives to have a color.
pub open spec fn spec_palette_covers(palette: NaturalityPalette) -> bool {
    &&& palette.unknown < palette.colors@.len()
    &&& forall|i: int|
        0 <= i < palette.rules@.len() ==> (#[trigger] palette.rules@[i]).naturality
            < palette.colors@.len()
}

/// What a column must be for its blocks to be ranked: its biome fits a
/// byte, and each of its blocks has a place among the names.
pub open spec fn spec_column_rankable(tile: crate::tile::TileView, column_nr: int) -> bool {
    &&& spec_get_u16(tile.data, column_nr, BIOMEIDPOS as int) <= 255
    &&& forall|j: int|
        0 <= j < 4 ==> #[trigger] spec_get_u16(tile.data, column_nr, 1 + 4 * j) < tile.names.len()
            || spec_get_u16(tile.data, column_nr, 1 + 4 * j) == 0
}

/// The name of a block without its properties and without its namespace.
pub fn block_name_stem(name: &[u8]) -> (stem: &[u8])
    ensures
        stem@ == spec_block_stem(name@),
{
    assert(name@.subrange(0, name@.len() as int) =~= name@);
    let end: usize = find_byte(name, 0, 0x5b);
    let bare = slice_subrange(name, 0, end);
    let mut start: usize = bare.len();
    assert(bare@.take(bare@.len() as int) =~= bare@);
    while start > 0 && bare[start - 1] != 0x3a
        invariant
            start <= bare@.len(),
            spec_after_last(bare@, 0x3a) == spec_after_last(bare@.take(start as int), 0x3a),
        decreases start,
    {
        assert(bare@.take(start as int).drop_last() =~= bare@.take(start - 1));
        start -= 1;
    }
    assert(bare@.take(bare@.len() as int) =~= bare@);
    slice_subrange(bare, start, bare.len())
}

/// The rank of the first rule that names the block.
fn rule_rank(rules: &Vec<NaturalityRule>, stem: &[u8], biome: u8, for_biome: bool) -> (rank: Option<
    u8,
>)
    ensures
        rank == spec_rule_rank(rules@, stem@, biome, for_biome, rules@.len() as int),
{
    let mut i: usize = 0;
    while i < rules.len()
        invariant
            i <= rules@.len(),
            spec_rule_rank(rules@, stem@, biome, for_biome, i as int) is None,
        decreases rules@.len() - i,
    {
        let fits: bool = match rules[i].biome {
            Some(b) => for_biome && b == biome,
            None => !for_biome,
        };
        if fits && bytes_eq(rules[i].block.as_str().as_bytes(), stem) {
            proof {
                lemma_rule_rank_stays(rules@, stem@, biome, for_biome, i + 1, rules@.len() as int);
            }
            return Some(rules[i].naturality);
        }
        i += 1;
    }
    None
}

/// A rule that was found stays the rule found.
pub proof fn lemma_rule_rank_stays(
    rules: Seq<NaturalityRule>,
    stem: Seq<u8>,
    biome: u8,
    for_biome: bool,
    n: int,
    m: int,
)
    requires
        0 <= n <= m,
        spec_rule_rank(rules, stem, biome, for_biome, n) is Some,
    ensures
        spec_rule_rank(rules, stem, biome, for_biome, m) == spec_rule_rank(
            rules,
            stem,
            biome,
            for_biome,
            n,
        ),
    decreases m - n,
{
    if n < m {
        lemma_rule_rank_stays(rules, stem, biome, for_biome, n, m - 1);
    }
}

/// The rank of every rule is the rank of a rule.
pub proof fn lemma_rule_rank_is_of_rule(
    rules: Seq<NaturalityRule>,
    stem: Seq<u8>,
    biome: u8,
    for_biome: bool,
    n: int,
)
    requires
        0 <= n <= rules.len(),
    ensures
        spec_rule_rank(rules, stem, biome, for_biome, n) matches Some(rank) ==> exists|i: int|
            0 <= i < rules.len() && (#[trigger] rules[i]).naturality == rank,
    decreases n,
{
    if n > 0 {
        lemma_rule_rank_is_of_rule(rules, stem, biome, for_biome, n - 1);
    }
}

/// The color of the most natural block of a column.
pub fn colorize_naturality(tile: &Tile, column_nr: usize, palette: &NaturalityPalette) -> (color:
    u32)
    requires
        tile.wf(),
        column_nr < TILE_COLUMNS,
        spec_palette_covers(*palette),
        spec_column_rankable(tile@, column_nr as int),
    ensures
        color == spec_colorize_naturality(
            tile@,
            palette.rules@,
            palette.colors@,
            palette.unknown,
            column_nr as int,
        ),
{
    if tile.is_col_empty(column_nr) {
        return 0;
    }
    let biome: u8 = tile.get_biome_id(column_nr) as u8;
    let names = tile.names();
    let mut best: Option<u8> = None;
    let mut j: usize = 0;
    while j < 4
        invariant
            j <= 4,
            tile.wf(),
            column_nr < TILE_COLUMNS,
            spec_palette_covers(*palette),
            spec_column_rankable(tile@, column_nr as int),
            biome == spec_get_u16(tile@.data, column_nr as int, BIOMEIDPOS as int),
            Seq::new(names@.len(), |i: int| names@[i]@) == tile@.names,
            best == spec_best_rank(
                tile@.data,
                tile@.names,
                palette.rules@,
                palette.unknown,
                column_nr as int,
                j as int,
            ),
            best matches Some(rank) ==> rank < palette.colors@.len(),
        decreases 4 - j,
    {
        let block_nr: u16 = tile.get_u16(column_nr, 1 + 4 * j);
        assert(spec_get_u16(tile@.data, column_nr as int, 1 + 4 * j) < tile@.names.len()
            || block_nr == 0);
        if block_nr != 0 {
            let name: &String = &names[block_nr as usize];
            assert(tile@.names[block_nr as int] == name@);
            proof {
                reveal_strlit("?UNKNOWN_BLOCK?");
            }
            if !str_eq(name.as_str(), "?UNKNOWN_BLOCK?") && !has_suffix(
                name.as_str().as_bytes(),
                ":air".as_bytes(),
            ) {
                let stem: &[u8] = block_name_stem(name.as_str().as_bytes());
                let rank: u8 = match rule_rank(&palette.rules, stem, biome, true) {
                    Some(rank) => rank,
                    None => match rule_rank(&palette.rules, stem, biome, false) {
                        Some(rank) => rank,
                        None => palette.unknown,
                    },
                };
                proof {
                    lemma_rule_rank_is_of_rule(
                        palette.rules@,
                        stem@,
                        biome,
                        true,
                        palette.rules@.len() as int,
                    );
                    lemma_rule_rank_is_of_rule(
                        palette.rules@,
                        stem@,
                        biome,
                        false,
                        palette.rules@.len() as int,
                    );
                }
                best = match best {
                    Some(b) => if b < rank {
                        Some(rank)
                    } else {
                        Some(b)
                    },
                    None => Some(rank),
                };
            }
        }
        j += 1;
    }
    match best {
        Some(rank) => palette.colors[rank as usize],
        None => 0,
    }
}

/// Whether every rank that the palette gives has a color.
pub fn palette_covers(palette: &NaturalityPalette) -> (covers: bool)
    ensures
        covers == spec_palette_covers(*palette),
{
    if palette.unknown as usize >= palette.colors.len() {
        return false;
    }
    let mut i: usize = 0;
    while i < palette.rules.len()
        invariant
            i <= palette.rules@.len(),
            palette.unknown < palette.colors@.len(),
            forall|k: int|
                0 <= k < i ==> (#[trigger] palette.rules@[k]).naturality < palette.colors@.len(),
        decreases palette.rules@.len() - i,
    {
        if palette.rules[i].naturality as usize >= palette.colors.len() {
            assert(palette.rules@[i as int].naturality >= palette.colors@.len());
            return false;
        }
        i += 1;
    }
    true
}

/// Whether the blocks of a column can be ranked.
pub fn column_rankable(tile: &Tile, column_nr: usize) -> (rankable: bool)
    requires
        tile.wf(),
        column_nr < TILE_COLUMNS,
    ensures
        rankable == spec_column_rankable(tile@, column_nr as int),
{
    if tile.get_biome_id(column_nr) > 255 {
        return false;
    }
    let names_len: usize = tile.names().len();
    let mut j: usize = 0;
    while j < 4
        invariant
            j <= 4,
            tile.wf(),
            column_nr < TILE_COLUMNS,
            names_len == tile@.names.len(),
            spec_get_u16(tile@.data, column_nr as int, BIOMEIDPOS as int) <= 255,
            forall|k: int|
                0 <= k < j ==> #[trigger] spec_get_u16(tile@.data, column_nr as int, 1 + 4 * k)
                    < tile@.names.len() || spec_get_u16(tile@.data, column_nr as int, 1 + 4 * k)
                    == 0,
        decreases 4 - j,
    {
        let block_nr: u16 = tile.get_u16(column_nr, 1 + 4 * j);
        if block_nr != 0 && block_nr as usize >= names_len {
            assert(!(spec_get_u16(tile@.data, column_nr as int, 1 + 4 * j) < tile@.names.len()
                || spec_get_u16(tile@.data, column_nr as int, 1 + 4 * j) == 0));
            return false;
        }
        j += 1;
    }
    true
}

/// The ways to color a column.
#[derive(Clone, Copy, Debug, PartialEq, Eq, Structural)]
pub enum Colorizer {
    Biome,
    Height,
    HeightBW,
    Light,
    Simple,
    Naturality,
}

/// The color that a way of coloring gives a column.
pub open spec fn spec_column_color(
    colorizer: Colorizer,
    tile: crate::tile::TileView,
    biome_colors: Seq<u32>,
    palette: NaturalityPalette,
    column_nr: int,
) -> u32 {
    match colorizer {
        Colorizer::Biome => spec_colorize_biome(tile.data, biome_colors, column_nr),
        Colorizer::Height => spec_colorize_height(tile.data, tile.keys, column_nr),
        Colorizer::HeightBW => spec_colorize_height_bw(tile.data, column_nr),
        Colorizer::Light => spec_colorize_light(tile.data, column_nr),
        Colorizer::Naturality => spec_colorize_naturality(
            tile,
            palette.rules@,
            palette.colors@,
            palette.unknown,
            column_nr,
        ),
        Colorizer::Simple => spec_colorize_simple(tile.data, tile.keys, column_nr),
    }
}

/// What a way of coloring asks of a column and of the tables.
pub open spec fn spec_can_color(
    colorizer: Colorizer,
    tile: crate::tile::TileView,
    biome_colors: Seq<u32>,
    palette: NaturalityPalette,
    column_nr: int,
) -> bool {
    match colorizer {
        Colorizer::Biome => spec_get_u16(tile.data, column_nr, BIOMEIDPOS as int)
            < biome_colors.len(),
        Colorizer::Naturality => spec_palette_covers(palette) && spec_column_rankable(
            tile,
            column_nr,
        ),
        _ => true,
    }
}

impl Colorizer {
    /// The color of a column of a tile.
    pub fn get_column_color_fn(
        &self,
        tile: &Tile,
        column_nr: usize,
        biome_colors: &Vec<u32>,
        palette: &NaturalityPalette,
    ) -> (color: u32)
        requires
            tile.wf(),
            column_nr < TILE_COLUMNS,
            spec_can_color(*self, tile@, biome_colors@, *palette, column_nr as int),
        ensures
            color == spec_column_color(*self, tile@, biome_colors@, *palette, column_nr as int),
    {
        match self {
            Colorizer::Biome => colorize_biome(tile, column_nr, biome_colors),
            Colorizer::Height => colorize_height(tile, column_nr),
            Colorizer::HeightBW => colorize_height_bw(tile, column_nr),
            Colorizer::Light => colorize_light(tile, column_nr),
            Colorizer::Naturality => colorize_naturality(tile, column_nr, palette),
            Colorizer::Simple => colorize_simple(tile, column_nr),
        }
    }

    /// Whether the column can be colored: `get_column_color_fn` asks for
    /// it.
    pub fn can_color(
        &self,
        tile: &Tile,
        column_nr: usize,
        biome_colors: &Vec<u32>,
        palette: &NaturalityPalette,
    ) -> (can: bool)
        requires
            tile.wf(),
            column_nr < TILE_COLUMNS,
        ensures
            can == spec_can_color(*self, tile@, biome_colors@, *palette, column_nr as int),
    {
        match self {
            Colorizer::Biome => (tile.get_biome_id(column_nr) as usize) < biome_colors.len(),
            Colorizer::Naturality => palette_covers(palette) && column_rankable(
                tile,
                column_nr,
            ),
            _ => true,
        }
    }
}

/// The colors of all the columns of a tile; `None` where a column cannot
/// be colored.
pub fn render_tile(
    tile: &Tile,
    colorizer: Colorizer,
    biome_colors: &Vec<u32>,
    palette: &NaturalityPalette,
) -> (pixbuf: Option<Vec<u32>>)
    requires
        tile.wf(),
    ensures
        pixbuf is Some <==> forall|i: int|
            0 <= i < TILE_COLUMNS ==> #[trigger] spec_can_color(
                colorizer,
                tile@,
                biome_colors@,
                *palette,
                i,
            ),
        pixbuf matches Some(pixels) ==> pixels@.len() == TILE_COLUMNS && forall|i: int|
            0 <= i < TILE_COLUMNS ==> #[trigger] pixels@[i] == spec_column_color(
                colorizer,
                tile@,
                biome_colors@,
                *palette,
                i,
            ),
{
    let mut pixbuf: Vec<u32> = Vec::new();
    let mut i: usize = 0;
    while i < TILE_COLUMNS
        invariant
            i <= TILE_COLUMNS,
            tile.wf(),
            pixbuf@.len() == i,
            forall|k: int|
                0 <= k < i ==> #[trigger] spec_can_color(
                    colorizer,
                    tile@,
                    biome_colors@,
                    *palette,
                    k,
                ),
            forall|k: int|
                0 <= k < i ==> #[trigger] pixbuf@[k] == spec_column_color(
                    colorizer,
                    tile@,
                    biome_colors@,
                    *palette,
                    k,
                ),
        decreases TILE_COLUMNS - i,
    {
        if !colorizer.can_color(tile, i, biome_colors, palette) {
            return None;
        }
        pixbuf.push(colorizer.get_column_color_fn(tile, i, biome_colors, palette));
        i += 1;
    }
    Some(pixbuf)
}

} // verus!
