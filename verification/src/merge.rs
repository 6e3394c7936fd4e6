//! Merging the record of a tile into the merged tile, chunk by chunk.

use crate::converter::{
    keys_prefix, merge_keys_and_build_converter, spec_converter, spec_merged_keys, MergeError,
};
use crate::keys::{keys_dense, keys_valid, KeySeq, KeyTable};
use crate::tile::{
    first_column_nr_of_chunk_nr, spec_chunk_of_column, spec_first_column_nr_of_chunk_nr,
    spec_get_u16, spec_is_chunk_empty, Tile, TileView, TILE_BYTES, TILE_CHUNKS, TILE_COLUMNS,
};
use vstd::prelude::*;

verus! {

/// The id that the converter gives for `id`. The id 0, "no block", stays
/// 0. An id beyond the converter shows a corrupt record. An id whose slot
/// holds 0 has no name in the key table of its tile.
pub open spec fn spec_convert_id(converter: Seq<u16>, id: u16) -> Result<u16, MergeError> {
    if id == 0 {
        Ok(0u16)
    } else if id >= converter.len() {
        Err(MergeError::CorruptData)
    } else if converter[id as int] == 0 {
        Err(MergeError::Logic)
    } else {
        Ok(converter[id as int])
    }
}

/// The converted id, where there is one.
pub open spec fn spec_converted(converter: Seq<u16>, id: u16) -> u16 {
    match spec_convert_id(converter, id) {
        Ok(out_id) => out_id,
        Err(_) => 0u16,
    }
}

/// Column `k` of a chunk, its columns counted row by row.
pub open spec fn spec_chunk_column(chunk_nr: int, k: int) -> int {
    spec_first_column_nr_of_chunk_nr(chunk_nr) + (k / 16) * 256 + k % 16
}

/// The place of a column in its chunk.
pub open spec fn spec_rank_in_chunk(column_nr: int) -> int {
    ((column_nr / 256) % 16) * 16 + column_nr % 16
}

/// Block id `m` of a chunk in the order of copying: the columns row by
/// row, in each column the surface, the ocean floor, the transparent layer
/// and the foliage.
pub open spec fn spec_chunk_id(src: Seq<u8>, chunk_nr: int, m: int) -> u16 {
    spec_get_u16(src, spec_chunk_column(chunk_nr, m / 4), 1 + 4 * (m % 4))
}

/// The error of the first among the first `n` block ids of a chunk that
/// cannot be converted.
pub open spec fn spec_chunk_error_upto(
    converter: Seq<u16>,
    src: Seq<u8>,
    chunk_nr: int,
    n: int,
) -> Option<MergeError>
    decreases n,
{
    if n <= 0 {
        None
    } else {
        match spec_chunk_error_upto(converter, src, chunk_nr, n - 1) {
            Some(e) => Some(e),
            None => match spec_convert_id(converter, spec_chunk_id(src, chunk_nr, n - 1)) {
                Err(e) => Some(e),
                Ok(_) => None,
            },
        }
    }
}

/// Why a chunk cannot be copied, if it cannot.
pub open spec fn spec_chunk_error(converter: Seq<u16>, src: Seq<u8>, chunk_nr: int) -> Option<
    MergeError,
> {
    spec_chunk_error_upto(converter, src, chunk_nr, 1024)
}

/// Byte `i` of a tile as it is copied: heights, lights and biomes as they
/// are, the two bytes of a block id from the converted id.
pub open spec fn spec_copied_byte(src: Seq<u8>, converter: Seq<u16>, i: int) -> u8 {
    let column = i % 65536;
    let layer = i / 65536;
    if layer < 16 && layer % 4 == 1 {
        (spec_converted(converter, spec_get_u16(src, column, layer)) / 256) as u8
    } else if layer < 16 && layer % 4 == 2 {
        (spec_converted(converter, spec_get_u16(src, column, layer - 1)) % 256) as u8
    } else {
        src[i]
    }
}

/// `out` with the column `column_nr` copied from `src`.
pub open spec fn spec_copy_column(
    out: Seq<u8>,
    src: Seq<u8>,
    converter: Seq<u16>,
    column_nr: int,
) -> Seq<u8> {
    Seq::new(
        out.len(),
        |i: int|
            if i % 65536 == column_nr {
                spec_copied_byte(src, converter, i)
            } else {
                out[i]
            },
    )
}

/// `out` with the chunk `chunk_nr` copied from `src`: every byte of every
/// column of the chunk, and no other byte.
pub open spec fn spec_copy_chunk(
    out: Seq<u8>,
    src: Seq<u8>,
    converter: Seq<u16>,
    chunk_nr: int,
) -> Seq<u8> {
    Seq::new(
        out.len(),
        |i: int|
            if spec_chunk_of_column(i % 65536) == chunk_nr {
                spec_copied_byte(src, converter, i)
            } else {
                out[i]
            },
    )
}

/// Converts one block id.
pub fn convert_id(converter: &Vec<u16>, id: u16) -> (r: Result<u16, MergeError>)
    ensures
        r == spec_convert_id(converter@, id),
{
    if id == 0 {
        Ok(0)
    } else if id as usize >= converter.len() {
        Err(MergeError::CorruptData)
    } else if converter[id as usize] == 0 {
        Err(MergeError::Logic)
    } else {
        Ok(converter[id as usize])
    }
}

/// Why the chunk `chunk_nr` of `under_tile` cannot be copied, if it cannot.
pub fn check_chunk(converter: &Vec<u16>, under_tile: &Tile, chunk_nr: usize) -> (r: Option<
    MergeError,
>)
    requires
        under_tile.wf(),
        chunk_nr < TILE_CHUNKS,
    ensures
        r == spec_chunk_error(converter@, under_tile@.data, chunk_nr as int),
{
    let first: usize = first_column_nr_of_chunk_nr(chunk_nr);
    let mut m: usize = 0;
    while m < 1024
        invariant
            m <= 1024,
            under_tile.wf(),
            chunk_nr < TILE_CHUNKS,
            first == spec_first_column_nr_of_chunk_nr(chunk_nr as int),
            first + 15 * 256 + 15 < TILE_COLUMNS,
            spec_chunk_error_upto(converter@, under_tile@.data, chunk_nr as int, m as int) is None,
        decreases 1024 - m,
    {
        let k: usize = m / 4;
        let column_nr: usize = first + (k / 16) * 256 + k % 16;
        let id: u16 = under_tile.get_u16(column_nr, 1 + 4 * (m % 4));
        match convert_id(converter, id) {
            Err(e) => {
                assert(spec_chunk_error_upto(
                    converter@,
                    under_tile@.data,
                    chunk_nr as int,
                    m + 1,
                ) == Some(e));
                proof {
                    lemma_chunk_error_stays(
                        converter@,
                        under_tile@.data,
                        chunk_nr as int,
                        m + 1,
                        1024,
                    );
                }
                return Some(e);
            },
            Ok(_) => {},
        }
        m += 1;
    }
    None
}

/// An error among the first ids of a chunk is the error of the chunk.
pub proof fn lemma_chunk_error_stays(
    converter: Seq<u16>,
    src: Seq<u8>,
    chunk_nr: int,
    n: int,
    m: int,
)
    requires
        0 <= n <= m,
        spec_chunk_error_upto(converter, src, chunk_nr, n) is Some,
    ensures
        spec_chunk_error_upto(converter, src, chunk_nr, m) == spec_chunk_error_upto(
            converter,
            src,
            chunk_nr,
            n,
        ),
    decreases m - n,
{
    if n < m {
        lemma_chunk_error_stays(converter, src, chunk_nr, n, m - 1);
    }
}

/// In a chunk without an error every block id is converted.
pub proof fn lemma_chunk_ids_convert(converter: Seq<u16>, src: Seq<u8>, chunk_nr: int, n: int)
    requires
        0 <= n,
        spec_chunk_error_upto(converter, src, chunk_nr, n) is None,
    ensures
        forall|m: int|
            0 <= m < n ==> (#[trigger] spec_convert_id(
                converter,
                spec_chunk_id(src, chunk_nr, m),
            )) is Ok,
    decreases n,
{
    if n > 0 {
        lemma_chunk_ids_convert(converter, src, chunk_nr, n - 1);
    }
}

/// Copies one column of `under_tile` into `out_tile`, its block ids
/// through the converter.
pub fn copy_convert_column(
    converter: &Vec<u16>,
    out_tile: &mut Tile,
    under_tile: &Tile,
    column_nr: usize,
)
    requires
        old(out_tile).wf(),
        under_tile.wf(),
        column_nr < TILE_COLUMNS,
        forall|j: int|
            0 <= j < 4 ==> (#[trigger] spec_convert_id(
                converter@,
                spec_get_u16(under_tile@.data, column_nr as int, 1 + 4 * j),
            )) is Ok,
    ensures
        final(out_tile).wf(),
        final(out_tile)@ == old(out_tile)@.with_data(
            spec_copy_column(old(out_tile)@.data, under_tile@.data, converter@, column_nr as int),
        ),
{
    let ghost src = under_tile@.data;
    let ghost conv = converter@;
    proof {
        assert(spec_convert_id(conv, spec_get_u16(src, column_nr as int, 1 + 4 * 0int)) is Ok);
        assert(spec_convert_id(conv, spec_get_u16(src, column_nr as int, 1 + 4 * 1int)) is Ok);
        assert(spec_convert_id(conv, spec_get_u16(src, column_nr as int, 1 + 4 * 2int)) is Ok);
        assert(spec_convert_id(conv, spec_get_u16(src, column_nr as int, 1 + 4 * 3int)) is Ok);
    }
    let block: u16 = match convert_id(converter, under_tile.get_blockstate(column_nr)) {
        Ok(id) => id,
        Err(_) => 0,
    };
    let ocean_floor_block: u16 = match convert_id(
        converter,
        under_tile.get_ocean_floor_blockstate(column_nr),
    ) {
        Ok(id) => id,
        Err(_) => 0,
    };
    let transparent_block: u16 = match convert_id(
        converter,
        under_tile.get_transparent_blockstate(column_nr),
    ) {
        Ok(id) => id,
        Err(_) => 0,
    };
    let foliage_block: u16 = match convert_id(
        converter,
        under_tile.get_foliage_blockstate(column_nr),
    ) {
        Ok(id) => id,
        Err(_) => 0,
    };
    out_tile.set_height(column_nr, under_tile.get_height(column_nr));
    out_tile.set_light(column_nr, under_tile.get_light(column_nr));
    out_tile.set_ocean_floor_height(column_nr, under_tile.get_ocean_floor_height(column_nr));
    out_tile.set_ocean_floor_light(column_nr, under_tile.get_ocean_floor_light(column_nr));
    out_tile.set_transparent_height(column_nr, under_tile.get_transparent_height(column_nr));
    out_tile.set_transparent_light(column_nr, under_tile.get_transparent_light(column_nr));
    out_tile.set_foliage_height(column_nr, under_tile.get_foliage_height(column_nr));
    out_tile.set_foliage_light(column_nr, under_tile.get_foliage_light(column_nr));
    out_tile.set_biome_id(column_nr, under_tile.get_biome_id(column_nr));
    out_tile.set_blockstate(column_nr, block);
    out_tile.set_ocean_floor_blockstate(column_nr, ocean_floor_block);
    out_tile.set_transparent_blockstate(column_nr, transparent_block);
    out_tile.set_foliage_blockstate(column_nr, foliage_block);
    proof {
        let want = spec_copy_column(old(out_tile)@.data, src, conv, column_nr as int);
        let got = out_tile@.data;
        assert(got.len() == want.len());
        assert forall|i: int| 0 <= i < got.len() implies got[i] == want[i] by {
            let layer = i / 65536;
            if i % 65536 == column_nr {
                assert(i == column_nr + 65536 * layer);
                lemma_u16_bytes(spec_get_u16(src, column_nr as int, 16), src[column_nr + 65536 * 16], src[column_nr + 65536 * 17]);
            }
        }
        assert(got =~= want);
    }
}

/// The two bytes of a number made of two bytes are those bytes.
pub proof fn lemma_u16_bytes(value: u16, high: u8, low: u8)
    requires
        value == high * 256 + low,
    ensures
        (value / 256) as u8 == high,
        (value % 256) as u8 == low,
{
}

/// Copies the chunk `chunk_nr` of `under_tile` into `out_tile`: heights,
/// lights and biomes as they are, block ids through the converter. Where a
/// block id of the chunk cannot be converted nothing is copied.
pub fn copy_convert_chunk(
    converter: &Vec<u16>,
    out_tile: &mut Tile,
    under_tile: &Tile,
    chunk_nr: usize,
) -> (r: Result<(), MergeError>)
    requires
        old(out_tile).wf(),
        under_tile.wf(),
        chunk_nr < TILE_CHUNKS,
    ensures
        final(out_tile).wf(),
        match spec_chunk_error(converter@, under_tile@.data, chunk_nr as int) {
            Some(e) => r == Err::<(), MergeError>(e) && final(out_tile)@ == old(out_tile)@,
            None => r == Ok::<(), MergeError>(()) && final(out_tile)@ == old(out_tile)@.with_data(
                spec_copy_chunk(
                    old(out_tile)@.data,
                    under_tile@.data,
                    converter@,
                    chunk_nr as int,
                ),
            ),
        },
{
    match check_chunk(converter, under_tile, chunk_nr) {
        Some(e) => Err(e),
        None => {
            copy_checked_chunk(converter, out_tile, under_tile, chunk_nr);
            Ok(())
        },
    }
}

/// Copies a chunk whose block ids can all be converted.
fn copy_checked_chunk(
    converter: &Vec<u16>,
    out_tile: &mut Tile,
    under_tile: &Tile,
    chunk_nr: usize,
)
    requires
        old(out_tile).wf(),
        under_tile.wf(),
        chunk_nr < TILE_CHUNKS,
        spec_chunk_error(converter@, under_tile@.data, chunk_nr as int) is None,
    ensures
        final(out_tile).wf(),
        final(out_tile)@ == old(out_tile)@.with_data(
            spec_copy_chunk(old(out_tile)@.data, under_tile@.data, converter@, chunk_nr as int),
        ),
{
    let ghost src = under_tile@.data;
    let ghost conv = converter@;
    let ghost start = out_tile@;
    proof {
        lemma_chunk_ids_convert(conv, src, chunk_nr as int, 1024);
    }
    let first_chunk_column: usize = first_column_nr_of_chunk_nr(chunk_nr);
    let mut k: usize = 0;
    proof {
        lemma_copy_chunk_whole(start.data, src, conv, chunk_nr as int);
    }
    while k < 256
        invariant
            k <= 256,
            chunk_nr < TILE_CHUNKS,
            out_tile.wf(),
            under_tile.wf(),
            src == under_tile@.data,
            conv == converter@,
            start.data.len() == TILE_BYTES,
            first_chunk_column == spec_first_column_nr_of_chunk_nr(chunk_nr as int),
            first_chunk_column + 15 * 256 + 15 < TILE_COLUMNS,
            forall|m: int|
                0 <= m < 1024 ==> (#[trigger] spec_convert_id(
                    conv,
                    spec_chunk_id(src, chunk_nr as int, m),
                )) is Ok,
            out_tile@ == start.with_data(
                spec_copy_chunk_upto(start.data, src, conv, chunk_nr as int, k as int),
            ),
        decreases 256 - k,
    {
        let column_nr: usize = first_chunk_column + (k / 16) * 256 + k % 16;
        proof {
            assert(column_nr == spec_chunk_column(chunk_nr as int, k as int));
            assert forall|j: int| 0 <= j < 4 implies (#[trigger] spec_convert_id(
                conv,
                spec_get_u16(src, column_nr as int, 1 + 4 * j),
            )) is Ok by {
                let m = 4 * k + j;
                assert(m / 4 == k && m % 4 == j);
                assert(spec_convert_id(conv, spec_chunk_id(src, chunk_nr as int, m)) is Ok);
            }
        }
        copy_convert_column(converter, out_tile, under_tile, column_nr);
        proof {
            lemma_copy_chunk_step(start.data, src, conv, chunk_nr as int, k as int);
        }
        k += 1;
    }
    proof {
        lemma_copy_chunk_whole(start.data, src, conv, chunk_nr as int);
    }
}

/// The columns of a chunk are those of its ranks.
pub proof fn lemma_chunk_column(chunk_nr: int, k: int)
    requires
        0 <= chunk_nr < 256,
        0 <= k < 256,
    ensures
        0 <= spec_chunk_column(chunk_nr, k) < 65536,
        spec_chunk_of_column(spec_chunk_column(chunk_nr, k)) == chunk_nr,
        spec_rank_in_chunk(spec_chunk_column(chunk_nr, k)) == k,
{
    let cx = chunk_nr % 16;
    let cz = chunk_nr / 16;
    let kx = k % 16;
    let kz = k / 16;
    let c = spec_chunk_column(chunk_nr, k);
    assert(c == (cz * 16 + kz) * 256 + (cx * 16 + kx));
    assert(c / 256 == cz * 16 + kz && c % 256 == cx * 16 + kx);
    assert(c / 4096 == cz);
}

/// A column is the column of its rank in its chunk.
pub proof fn lemma_column_of_rank(column_nr: int)
    requires
        0 <= column_nr < 65536,
    ensures
        0 <= spec_chunk_of_column(column_nr) < 256,
        0 <= spec_rank_in_chunk(column_nr) < 256,
        spec_chunk_column(spec_chunk_of_column(column_nr), spec_rank_in_chunk(column_nr))
            == column_nr,
{
    let x = column_nr % 256;
    let z = column_nr / 256;
    let chunk = spec_chunk_of_column(column_nr);
    let k = spec_rank_in_chunk(column_nr);
    assert(column_nr / 4096 == z / 16);
    assert(chunk == (z / 16) * 16 + x / 16);
    assert(chunk % 16 == x / 16 && chunk / 16 == z / 16);
    assert(k == (z % 16) * 16 + x % 16);
    assert(k / 16 == z % 16 && k % 16 == x % 16);
}

/// Copying column `k` of a chunk after its first `k` columns gives its
/// first `k + 1` columns copied.
pub proof fn lemma_copy_chunk_step(
    out: Seq<u8>,
    src: Seq<u8>,
    converter: Seq<u16>,
    chunk_nr: int,
    k: int,
)
    requires
        0 <= chunk_nr < 256,
        0 <= k < 256,
        out.len() == TILE_BYTES,
    ensures
        spec_copy_column(
            spec_copy_chunk_upto(out, src, converter, chunk_nr, k),
            src,
            converter,
            spec_chunk_column(chunk_nr, k),
        ) == spec_copy_chunk_upto(out, src, converter, chunk_nr, k + 1),
{
    let before = spec_copy_chunk_upto(out, src, converter, chunk_nr, k);
    let column_nr = spec_chunk_column(chunk_nr, k);
    let got = spec_copy_column(before, src, converter, column_nr);
    let want = spec_copy_chunk_upto(out, src, converter, chunk_nr, k + 1);
    lemma_chunk_column(chunk_nr, k);
    assert forall|i: int| 0 <= i < got.len() implies got[i] == want[i] by {
        let c = i % 65536;
        lemma_column_of_rank(c);
    }
    assert(got =~= want);
}

/// All 256 columns of a chunk copied are the chunk copied.
pub proof fn lemma_copy_chunk_whole(out: Seq<u8>, src: Seq<u8>, converter: Seq<u16>, chunk_nr: int)
    requires
        0 <= chunk_nr < 256,
        out.len() == TILE_BYTES,
    ensures
        spec_copy_chunk_upto(out, src, converter, chunk_nr, 256) == spec_copy_chunk(
            out,
            src,
            converter,
            chunk_nr,
        ),
        spec_copy_chunk_upto(out, src, converter, chunk_nr, 0) == out,
{
    let got = spec_copy_chunk_upto(out, src, converter, chunk_nr, 256);
    let want = spec_copy_chunk(out, src, converter, chunk_nr);
    assert forall|i: int| 0 <= i < got.len() implies got[i] == want[i] by {
        lemma_column_of_rank(i % 65536);
    }
    assert(got =~= want);
    let none = spec_copy_chunk_upto(out, src, converter, chunk_nr, 0);
    assert forall|i: int| 0 <= i < none.len() implies none[i] == out[i] by {
        lemma_column_of_rank(i % 65536);
    }
    assert(none =~= out);
}

/// `out` with the first `k` columns of the chunk `chunk_nr` copied.
pub open spec fn spec_copy_chunk_upto(
    out: Seq<u8>,
    src: Seq<u8>,
    converter: Seq<u16>,
    chunk_nr: int,
    k: int,
) -> Seq<u8> {
    Seq::new(
        out.len(),
        |i: int|
            if spec_chunk_of_column(i % 65536) == chunk_nr && spec_rank_in_chunk(i % 65536) < k {
                spec_copied_byte(src, converter, i)
            } else {
                out[i]
            },
    )
}

/// Whether the chunk `c` of a record is wanted: it is not resolved yet, and
/// the record has it.
pub open spec fn spec_wanted(done: Seq<bool>, src: Seq<u8>, src_keys: KeySeq, c: int) -> bool {
    !done[c] && !spec_is_chunk_empty(src, src_keys, c)
}

/// The first wanted chunk below `n` that cannot be copied, or `n` if there
/// is none.
pub open spec fn spec_failing_chunk(
    converter: Seq<u16>,
    src: Seq<u8>,
    src_keys: KeySeq,
    done: Seq<bool>,
    n: int,
) -> int
    decreases n,
{
    if n <= 0 {
        0
    } else {
        let before = spec_failing_chunk(converter, src, src_keys, done, n - 1);
        if before < n - 1 {
            before
        } else if spec_wanted(done, src, src_keys, n - 1) && spec_chunk_error(
            converter,
            src,
            n - 1,
        ) is Some {
            n - 1
        } else {
            n
        }
    }
}

/// The number of wanted chunks below `n`.
pub open spec fn spec_count_wanted(done: Seq<bool>, src: Seq<u8>, src_keys: KeySeq, n: int) -> nat
    decreases n,
{
    if n <= 0 {
        0
    } else if spec_wanted(done, src, src_keys, n - 1) {
        spec_count_wanted(done, src, src_keys, n - 1) + 1
    } else {
        spec_count_wanted(done, src, src_keys, n - 1)
    }
}

/// `out` with the wanted chunks below `n` copied from `src`.
pub open spec fn spec_merge_data(
    out: Seq<u8>,
    src: Seq<u8>,
    src_keys: KeySeq,
    converter: Seq<u16>,
    done: Seq<bool>,
    n: int,
) -> Seq<u8> {
    Seq::new(
        out.len(),
        |i: int|
            if spec_chunk_of_column(i % 65536) < n && spec_wanted(
                done,
                src,
                src_keys,
                spec_chunk_of_column(i % 65536),
            ) {
                spec_copied_byte(src, converter, i)
            } else {
                out[i]
            },
    )
}

/// `done` with the wanted chunks below `n` resolved.
pub open spec fn spec_merge_done(done: Seq<bool>, src: Seq<u8>, src_keys: KeySeq, n: int) -> Seq<
    bool,
> {
    Seq::new(done.len(), |c: int| done[c] || (c < n && spec_wanted(done, src, src_keys, c)))
}

/// Why the record cannot be merged, if it cannot: the error of its first
/// wanted chunk that cannot be copied.
pub open spec fn spec_merge_error(
    converter: Seq<u16>,
    src: Seq<u8>,
    src_keys: KeySeq,
    done: Seq<bool>,
) -> Option<MergeError> {
    let failing = spec_failing_chunk(converter, src, src_keys, done, 256);
    if failing < 256 {
        spec_chunk_error(converter, src, failing)
    } else {
        None
    }
}

/// What merging the record `under` into `out` gives: the merged tile, the
/// chunks resolved, and the number of chunks copied or the reason why the
/// record is given up.
///
/// A record is merged whole or not at all. It is given up where its names
/// do not fit into the key table, or where one of its wanted chunks holds
/// a block id that cannot be converted. Else its names are merged into the
/// key table and every wanted chunk is copied and resolved.
pub open spec fn spec_merge_two(out: TileView, under: TileView, done: Seq<bool>) -> (
    TileView,
    Seq<bool>,
    Result<nat, MergeError>,
) {
    let keys = spec_merged_keys(out.keys, under.keys);
    if keys.len() > u16::MAX {
        (out, done, Err(MergeError::KeyTableFull))
    } else {
        let converter = spec_converter(keys, under.keys);
        match spec_merge_error(converter, under.data, under.keys, done) {
            Some(e) => (out, done, Err(e)),
            None => (
                out.with_keys(keys).with_data(
                    spec_merge_data(out.data, under.data, under.keys, converter, done, 256),
                ),
                spec_merge_done(done, under.data, under.keys, 256),
                Ok(spec_count_wanted(done, under.data, under.keys, 256)),
            ),
        }
    }
}

/// Once a chunk fails, it is the failing chunk whatever follows.
pub proof fn lemma_failing_chunk_stays(
    converter: Seq<u16>,
    src: Seq<u8>,
    src_keys: KeySeq,
    done: Seq<bool>,
    n: int,
    m: int,
)
    requires
        0 <= n <= m,
        spec_failing_chunk(converter, src, src_keys, done, n) < n,
    ensures
        spec_failing_chunk(converter, src, src_keys, done, m) == spec_failing_chunk(
            converter,
            src,
            src_keys,
            done,
            n,
        ),
    decreases m - n,
{
    if n < m {
        lemma_failing_chunk_stays(converter, src, src_keys, done, n, m - 1);
    }
}

/// The failing chunk is a wanted chunk with an error, and the wanted
/// chunks before it have none.
pub proof fn lemma_failing_chunk(
    converter: Seq<u16>,
    src: Seq<u8>,
    src_keys: KeySeq,
    done: Seq<bool>,
    n: int,
)
    requires
        0 <= n,
    ensures
        0 <= spec_failing_chunk(converter, src, src_keys, done, n) <= n,
        spec_failing_chunk(converter, src, src_keys, done, n) < n ==> spec_wanted(
            done,
            src,
            src_keys,
            spec_failing_chunk(converter, src, src_keys, done, n),
        ) && spec_chunk_error(
            converter,
            src,
            spec_failing_chunk(converter, src, src_keys, done, n),
        ) is Some,
        forall|c: int|
            0 <= c < spec_failing_chunk(converter, src, src_keys, done, n) && spec_wanted(
                done,
                src,
                src_keys,
                c,
            ) ==> (#[trigger] spec_chunk_error(converter, src, c)) is None,
    decreases n,
{
    if n > 0 {
        lemma_failing_chunk(converter, src, src_keys, done, n - 1);
    }
}

/// Copying the chunk `n` after the wanted chunks below `n` gives the wanted
/// chunks below `n + 1` copied, where `n` is wanted; where it is not,
/// nothing is to copy.
pub proof fn lemma_merge_data_step(
    out: Seq<u8>,
    src: Seq<u8>,
    src_keys: KeySeq,
    converter: Seq<u16>,
    done: Seq<bool>,
    n: int,
)
    requires
        0 <= n < 256,
        out.len() == TILE_BYTES,
    ensures
        spec_wanted(done, src, src_keys, n) ==> spec_copy_chunk(
            spec_merge_data(out, src, src_keys, converter, done, n),
            src,
            converter,
            n,
        ) == spec_merge_data(out, src, src_keys, converter, done, n + 1),
        !spec_wanted(done, src, src_keys, n) ==> spec_merge_data(
            out,
            src,
            src_keys,
            converter,
            done,
            n,
        ) == spec_merge_data(out, src, src_keys, converter, done, n + 1),
        spec_merge_data(out, src, src_keys, converter, done, 0) == out,
{
    let before = spec_merge_data(out, src, src_keys, converter, done, n);
    let after = spec_merge_data(out, src, src_keys, converter, done, n + 1);
    if spec_wanted(done, src, src_keys, n) {
        assert(spec_copy_chunk(before, src, converter, n) =~= after);
    } else {
        assert(before =~= after);
    }
    assert forall|i: int| 0 <= i < out.len() implies spec_merge_data(
        out,
        src,
        src_keys,
        converter,
        done,
        0,
    )[i] == out[i] by {
        lemma_column_of_rank(i % 65536);
    }
    assert(spec_merge_data(out, src, src_keys, converter, done, 0) =~= out);
}

/// Merges the record `under_tile` into `out_tile`: the chunks that are
/// not resolved yet and that the record has are copied, and are resolved
/// from then on. Gives the number of chunks copied. Where the record
/// cannot be merged nothing changes.
pub fn merge_two_tiles(out_tile: &mut Tile, under_tile: &Tile, chunks_done: &mut Vec<bool>) -> (r:
    Result<usize, MergeError>)
    requires
        old(out_tile).wf(),
        keys_dense(old(out_tile)@.keys),
        under_tile.wf(),
        old(chunks_done)@.len() == TILE_CHUNKS,
    ensures
        final(out_tile).wf(),
        keys_dense(final(out_tile)@.keys),
        keys_prefix(old(out_tile)@.keys, final(out_tile)@.keys),
        final(chunks_done)@.len() == TILE_CHUNKS,
        final(out_tile)@ == spec_merge_two(old(out_tile)@, under_tile@, old(chunks_done)@).0,
        final(chunks_done)@ == spec_merge_two(old(out_tile)@, under_tile@, old(chunks_done)@).1,
        match r {
            Ok(copied) => spec_merge_two(old(out_tile)@, under_tile@, old(chunks_done)@).2 == Ok::<
                nat,
                MergeError,
            >(copied as nat),
            Err(e) => spec_merge_two(old(out_tile)@, under_tile@, old(chunks_done)@).2 == Err::<
                nat,
                MergeError,
            >(e),
        },
{
    let ghost start = out_tile@;
    let ghost done = chunks_done@;
    let ghost src = under_tile@.data;
    let ghost src_keys = under_tile@.keys;
    let mut keys: KeyTable = out_tile.take_keys();
    let old_len: usize = keys.len();
    let converter: Vec<u16> = match merge_keys_and_build_converter(&mut keys, under_tile.keys()) {
        Ok(converter) => converter,
        Err(e) => {
            out_tile.put_keys(keys);
            assert(out_tile@ == start);
            assert(start.keys.take(start.keys.len() as int) =~= start.keys);
            return Err(e);
        },
    };
    let ghost conv = converter@;
    let ghost merged = keys@;
    // Every wanted chunk is checked before the first is copied.
    let mut chunk_nr: usize = 0;
    while chunk_nr < TILE_CHUNKS
        invariant
            chunk_nr <= TILE_CHUNKS,
            under_tile.wf(),
            src == under_tile@.data,
            src_keys == under_tile@.keys,
            conv == converter@,
            chunks_done@ == done,
            done.len() == TILE_CHUNKS,
            start == old(out_tile)@,
            done == old(chunks_done)@,
            keys_dense(start.keys),
            keys_valid(start.keys),
            start.data.len() == TILE_BYTES,
            keys.wf(),
            keys@ == merged,
            keys_dense(merged),
            keys_prefix(start.keys, merged),
            old_len == start.keys.len(),
            merged == spec_merged_keys(start.keys, src_keys),
            merged.len() <= u16::MAX,
            conv == spec_converter(merged, src_keys),
            out_tile.wf(),
            out_tile@ == start.with_keys(Seq::empty()),
            spec_failing_chunk(conv, src, src_keys, done, chunk_nr as int) == chunk_nr,
        decreases TILE_CHUNKS - chunk_nr,
    {
        let resolved: bool = chunks_done[chunk_nr];
        if !resolved && !under_tile.is_chunk_empty(chunk_nr) {
            match check_chunk(&converter, under_tile, chunk_nr) {
                Some(e) => {
                    proof {
                        lemma_failing_chunk_stays(
                            conv,
                            src,
                            src_keys,
                            done,
                            chunk_nr + 1,
                            256,
                        );
                    }
                    keys.truncate(old_len);
                    out_tile.put_keys(keys);
                    assert(out_tile@ == start);
                    assert(start.keys.take(start.keys.len() as int) =~= start.keys);
                    return Err(e);
                },
                None => {},
            }
        }
        chunk_nr += 1;
    }
    out_tile.put_keys(keys);
    let ghost with_keys = out_tile@;
    proof {
        lemma_failing_chunk(conv, src, src_keys, done, 256);
        lemma_merge_data_step(start.data, src, src_keys, conv, done, 0);
        assert(chunks_done@ =~= spec_merge_done(done, src, src_keys, 0));
    }
    let mut chunks_processed: usize = 0;
    chunk_nr = 0;
    while chunk_nr < TILE_CHUNKS
        invariant
            chunk_nr <= TILE_CHUNKS,
            out_tile.wf(),
            under_tile.wf(),
            src == under_tile@.data,
            src_keys == under_tile@.keys,
            conv == converter@,
            done.len() == TILE_CHUNKS,
            start.data.len() == TILE_BYTES,
            with_keys == start.with_keys(merged),
            start == old(out_tile)@,
            done == old(chunks_done)@,
            keys_dense(merged),
            keys_prefix(start.keys, merged),
            merged == spec_merged_keys(start.keys, src_keys),
            merged.len() <= u16::MAX,
            conv == spec_converter(merged, src_keys),
            spec_merge_error(conv, src, src_keys, done) is None,
            forall|c: int|
                0 <= c < 256 && spec_wanted(done, src, src_keys, c) ==> (
                #[trigger] spec_chunk_error(conv, src, c)) is None,
            out_tile@ == with_keys.with_data(
                spec_merge_data(start.data, src, src_keys, conv, done, chunk_nr as int),
            ),
            chunks_done@ == spec_merge_done(done, src, src_keys, chunk_nr as int),
            chunks_processed == spec_count_wanted(done, src, src_keys, chunk_nr as int),
            chunks_processed <= chunk_nr,
        decreases TILE_CHUNKS - chunk_nr,
    {
        proof {
            lemma_merge_data_step(start.data, src, src_keys, conv, done, chunk_nr as int);
        }
        let resolved: bool = chunks_done[chunk_nr];
        if !resolved && !under_tile.is_chunk_empty(chunk_nr) {
            assert(spec_wanted(done, src, src_keys, chunk_nr as int));
            assert(spec_chunk_error(conv, src, chunk_nr as int) is None);
            copy_checked_chunk(&converter, out_tile, under_tile, chunk_nr);
            chunks_done.set(chunk_nr, true);
            chunks_processed += 1;
        }
        proof {
            assert(chunks_done@ =~= spec_merge_done(done, src, src_keys, chunk_nr + 1));
        }
        chunk_nr += 1;
    }
    Ok(chunks_processed)
}

} // verus!
