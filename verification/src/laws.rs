//! What holds of every merge.

use crate::archive::archive_entry;
use crate::codec::{lemma_entries_round_trip, spec_holds_tile, spec_read_tile};
use crate::converter::{
    keys_prefix, lemma_converter_maps_names, lemma_get_in_prefix, lemma_merged_keys, lemma_name_of,
    spec_converter, spec_merged_keys, spec_missing_names,
};
use crate::keys::{
    has_name, keys_dense, keys_valid, lemma_max_id_bounds, name_index, names_distinct, spec_get,
    spec_max_id, spec_name_of, KeySeq,
};
use crate::merge::{
    lemma_chunk_ids_convert, lemma_column_of_rank, lemma_failing_chunk, lemma_u16_bytes,
    spec_chunk_error, spec_chunk_error_upto, spec_chunk_id, spec_convert_id, spec_converted,
    spec_failing_chunk, spec_merge_two, spec_wanted,
};
use crate::position::{
    spec_complete, spec_feed, spec_merge_all, spec_merge_in_order, spec_mtimes,
    spec_new_accumulator, AccumulatorView, ContributionView, SkipReasonView,
};
use crate::recency::{lemma_order_of_two, spec_newer, spec_recency_order, Mtime};
use crate::tile::{
    spec_chunk_of_column, spec_get_u16, spec_get_u8, spec_is_chunk_empty, TileView, TILE_BYTES,
    TILE_CHUNKS,
};
use vstd::prelude::*;

verus! {

/// Validity of what a tile holds.
pub open spec fn tile_valid(tile: TileView) -> bool {
    tile.data.len() == TILE_BYTES && keys_valid(tile.keys)
}

/// Whether a layer holds one of the two bytes of a block id.
pub open spec fn spec_is_block_layer(layer: int) -> bool {
    layer < 16 && (layer % 4 == 1 || layer % 4 == 2)
}

/// Whether the block id `out_id` of the merged tile stands for the block
/// that `src_id` stands for in the record: both for none, or both for one
/// name.
pub open spec fn spec_same_block(out_keys: KeySeq, out_id: u16, src_keys: KeySeq, src_id: u16) -> bool {
    if src_id == 0 {
        out_id == 0
    } else {
        &&& out_id != 0
        &&& spec_name_of(src_keys, src_id as int) is Some
        &&& spec_name_of(out_keys, out_id as int) == spec_name_of(src_keys, src_id as int)
    }
}

/// Whether a column of the merged tile shows what the column of the
/// record shows: the same heights, lights and biome, and the same blocks.
pub open spec fn spec_column_matches(out: TileView, src: TileView, column_nr: int) -> bool {
    &&& forall|layer: int|
        0 <= layer < 18 && !spec_is_block_layer(layer) ==> spec_get_u8(
            out.data,
            column_nr,
            layer,
        ) == #[trigger] spec_get_u8(src.data, column_nr, layer)
    &&& forall|j: int|
        0 <= j < 4 ==> spec_same_block(
            out.keys,
            spec_get_u16(out.data, column_nr, 1 + 4 * j),
            src.keys,
            #[trigger] spec_get_u16(src.data, column_nr, 1 + 4 * j),
        )
}

/// Whether a chunk of the merged tile shows what the chunk of the record
/// shows.
pub open spec fn spec_chunk_matches(out: TileView, src: TileView, chunk_nr: int) -> bool {
    forall|column_nr: int|
        0 <= column_nr < 65536 && spec_chunk_of_column(column_nr) == chunk_nr
            ==> #[trigger] spec_column_matches(out, src, column_nr)
}

/// Whether two tiles hold the same bytes in a chunk.
pub open spec fn spec_same_chunk_bytes(a: Seq<u8>, b: Seq<u8>, chunk_nr: int) -> bool {
    forall|i: int|
        0 <= i < TILE_BYTES && spec_chunk_of_column(i % 65536) == chunk_nr ==> #[trigger] a[i]
            == b[i]
}

/// In a dense table the id `i + 1` has the name of entry `i`, and a name
/// with the id `id` stands at place `id - 1`.
pub proof fn lemma_dense_names(t: KeySeq, id: int)
    requires
        keys_dense(t),
        1 <= id <= t.len(),
    ensures
        spec_name_of(t, id) == Some(t[id - 1].0),
    decreases t.len(),
{
    if t.len() > 0 {
        if t.last().1 == id {
            assert(t[t.len() - 1].1 == t.len());
        } else {
            assert(t[t.len() - 1].1 == t.len());
            let shorter = t.drop_last();
            assert forall|i: int| 0 <= i < shorter.len() implies (#[trigger] shorter[i]).1 == i
                + 1 by {
                assert(shorter[i] == t[i]);
            }
            lemma_dense_names(shorter, id);
            assert(shorter[id - 1] == t[id - 1]);
        }
    }
}

/// In a dense table without a repeated name, the id of a name is the id
/// whose name it is.
pub proof fn lemma_dense_get(t: KeySeq, name: Seq<char>)
    requires
        keys_dense(t),
        names_distinct(t),
        has_name(t, name),
    ensures
        spec_get(t, name) matches Some(id) && 1 <= id <= t.len() && spec_name_of(t, id as int)
            == Some(name),
{
    let k = name_index(t, name);
    assert(t[k].1 == k + 1);
    lemma_dense_names(t, k + 1);
}

/// A dense table that grows keeps the name of every id it had.
pub proof fn lemma_dense_prefix_names(before: KeySeq, after: KeySeq, id: int)
    requires
        keys_dense(before),
        keys_dense(after),
        keys_prefix(before, after),
        1 <= id <= before.len(),
    ensures
        spec_name_of(after, id) == spec_name_of(before, id),
{
    lemma_dense_names(before, id);
    lemma_dense_names(after, id);
    assert(after.take(before.len() as int)[id - 1] == after[id - 1]);
}

/// The converter of a merge that fits: it has a slot for each id of the
/// record up to the largest, a slot holds 0 exactly where the id has no
/// name, and the id in any other slot has, in the merged table, the name
/// that the slot's id has in the record.
pub proof fn lemma_converter(out: KeySeq, inp: KeySeq)
    requires
        keys_valid(out),
        keys_dense(out),
        keys_valid(inp),
        spec_merged_keys(out, inp).len() <= u16::MAX,
    ensures
        spec_converter(spec_merged_keys(out, inp), inp).len() == 1 + spec_max_id(inp),
        forall|id: int|
            0 <= id < 1 + spec_max_id(inp) ==> (#[trigger] spec_converter(
                spec_merged_keys(out, inp),
                inp,
            )[id] == 0 <==> spec_name_of(inp, id) is None),
        forall|id: int|
            0 <= id < 1 + spec_max_id(inp) && spec_name_of(inp, id) is Some ==> spec_name_of(
                spec_merged_keys(out, inp),
                #[trigger] spec_converter(spec_merged_keys(out, inp), inp)[id] as int,
            ) == spec_name_of(inp, id),
{
    let merged = spec_merged_keys(out, inp);
    let conv = spec_converter(merged, inp);
    lemma_max_id_bounds(inp);
    lemma_merged_keys(out, inp);
    assert forall|id: int| 0 <= id < 1 + spec_max_id(inp) implies (#[trigger] conv[id] == 0
        <==> spec_name_of(inp, id) is None) by {
        if spec_name_of(inp, id) is Some {
            lemma_converter_maps_names(out, inp, id);
        }
    }
    assert forall|id: int|
        0 <= id < 1 + spec_max_id(inp) && spec_name_of(inp, id) is Some implies spec_name_of(
        merged,
        #[trigger] conv[id] as int,
    ) == spec_name_of(inp, id) by {
        lemma_converter_maps_names(out, inp, id);
        let name = spec_name_of(inp, id)->0;
        assert(has_name(merged, name));
        lemma_dense_get(merged, name);
    }
}

/// Whether a record can be merged does not depend on the tile it is
/// merged into, but for the room that its names need: the error of a chunk
/// is that of the chunk under the converter into the empty table.
pub proof fn lemma_chunk_error_alike(a: Seq<u16>, b: Seq<u16>, src: Seq<u8>, chunk_nr: int, n: int)
    requires
        a.len() == b.len(),
        forall|id: int| 0 <= id < a.len() ==> (#[trigger] a[id] == 0 <==> b[id] == 0),
        0 <= n,
    ensures
        spec_chunk_error_upto(a, src, chunk_nr, n) == spec_chunk_error_upto(b, src, chunk_nr, n),
    decreases n,
{
    if n > 0 {
        lemma_chunk_error_alike(a, b, src, chunk_nr, n - 1);
        let id = spec_chunk_id(src, chunk_nr, n - 1);
        if id != 0 && id < a.len() {
            assert(a[id as int] == 0 <==> b[id as int] == 0);
        }
    }
}

/// The converter of a record into the empty table.
pub open spec fn spec_own_converter(keys: KeySeq) -> Seq<u16> {
    spec_converter(spec_merged_keys(Seq::empty(), keys), keys)
}

/// A record that can be merged as far as its own content goes: its names
/// are not more than ids exist, and every block id in the chunks it has
/// is one that its key table names.
pub open spec fn spec_clean(tile: TileView) -> bool {
    &&& tile.keys.len() <= u16::MAX
    &&& forall|c: int|
        0 <= c < 256 && !spec_is_chunk_empty(tile.data, tile.keys, c) ==> (
        #[trigger] spec_chunk_error(spec_own_converter(tile.keys), tile.data, c)) is None
}

/// Into the empty table every name of a table is missing.
pub proof fn lemma_missing_from_empty(inp: KeySeq)
    requires
        names_distinct(inp),
    ensures
        spec_missing_names(inp, Seq::empty()).len() == inp.len(),
        spec_merged_keys(Seq::empty(), inp).len() == inp.len(),
        forall|k: int|
            0 <= k < inp.len() ==> #[trigger] spec_missing_names(inp, Seq::empty())[k] == inp[k].0,
    decreases inp.len(),
{
    if inp.len() > 0 {
        let shorter = inp.drop_last();
        assert forall|i: int, j: int| 0 <= i < j < shorter.len() implies (#[trigger] shorter[i]).0
            != (#[trigger] shorter[j]).0 by {
            assert(shorter[i] == inp[i] && shorter[j] == inp[j]);
        }
        lemma_missing_from_empty(shorter);
        assert(!has_name(Seq::<(Seq<char>, u16)>::empty(), inp.last().0));
        assert forall|k: int| 0 <= k < inp.len() implies #[trigger] spec_missing_names(
            inp,
            Seq::empty(),
        )[k] == inp[k].0 by {
            if k < inp.len() - 1 {
                assert(shorter[k] == inp[k]);
            }
        }
    }
}

/// A clean record is merged into any merged tile that has room for its
/// names, whatever chunks are resolved.
pub proof fn lemma_clean_merges(out: TileView, under: TileView, done: Seq<bool>)
    requires
        tile_valid(out),
        keys_dense(out.keys),
        tile_valid(under),
        spec_clean(under),
        done.len() == TILE_CHUNKS,
        spec_merged_keys(out.keys, under.keys).len() <= u16::MAX,
    ensures
        spec_merge_two(out, under, done).2 is Ok,
{
    let merged = spec_merged_keys(out.keys, under.keys);
    let conv = spec_converter(merged, under.keys);
    let own = spec_own_converter(under.keys);
    lemma_missing_from_empty(under.keys);
    lemma_converter(out.keys, under.keys);
    lemma_converter(Seq::empty(), under.keys);
    lemma_failing_chunk(conv, under.data, under.keys, done, 256);
    let failing = spec_failing_chunk(conv, under.data, under.keys, done, 256);
    if failing < 256 {
        lemma_chunk_error_alike(conv, own, under.data, failing, 1024);
        assert(spec_chunk_error(own, under.data, failing) is None);
    }
}

/// After a record was merged, every chunk that it filled shows what the
/// record shows there, and every other chunk is as it was.
pub proof fn lemma_merged_chunks(out: TileView, under: TileView, done: Seq<bool>, c: int)
    requires
        tile_valid(out),
        keys_dense(out.keys),
        tile_valid(under),
        done.len() == TILE_CHUNKS,
        spec_merge_two(out, under, done).2 is Ok,
        0 <= c < 256,
    ensures
        spec_wanted(done, under.data, under.keys, c) ==> spec_chunk_matches(
            spec_merge_two(out, under, done).0,
            under,
            c,
        ),
        !spec_wanted(done, under.data, under.keys, c) ==> spec_same_chunk_bytes(
            spec_merge_two(out, under, done).0.data,
            out.data,
            c,
        ),
        spec_merge_two(out, under, done).1[c] == (done[c] || spec_wanted(
            done,
            under.data,
            under.keys,
            c,
        )),
        tile_valid(spec_merge_two(out, under, done).0),
        keys_dense(spec_merge_two(out, under, done).0.keys),
        keys_prefix(out.keys, spec_merge_two(out, under, done).0.keys),
        spec_merge_two(out, under, done).1.len() == TILE_CHUNKS,
{
    let merged = spec_merged_keys(out.keys, under.keys);
    let conv = spec_converter(merged, under.keys);
    let result = spec_merge_two(out, under, done).0;
    lemma_merged_keys(out.keys, under.keys);
    lemma_converter(out.keys, under.keys);
    lemma_failing_chunk(conv, under.data, under.keys, done, 256);
    if spec_wanted(done, under.data, under.keys, c) {
        assert(spec_chunk_error(conv, under.data, c) is None);
        lemma_chunk_ids_convert(conv, under.data, c, 1024);
        assert forall|column_nr: int|
            0 <= column_nr < 65536 && spec_chunk_of_column(column_nr) == c implies #[trigger] spec_column_matches(
            result,
            under,
            column_nr,
        ) by {
            lemma_column_of_rank(column_nr);
            let k = crate::merge::spec_rank_in_chunk(column_nr);
            assert forall|layer: int|
                0 <= layer < 18 && !spec_is_block_layer(layer) implies spec_get_u8(
                result.data,
                column_nr,
                layer,
            ) == #[trigger] spec_get_u8(under.data, column_nr, layer) by {
                let i = column_nr + 65536 * layer;
                assert(i % 65536 == column_nr && i / 65536 == layer);
            }
            assert forall|j: int| 0 <= j < 4 implies spec_same_block(
                result.keys,
                spec_get_u16(result.data, column_nr, 1 + 4 * j),
                under.keys,
                #[trigger] spec_get_u16(under.data, column_nr, 1 + 4 * j),
            ) by {
                let layer = 1 + 4 * j;
                let src_id = spec_get_u16(under.data, column_nr, layer);
                let m = 4 * k + j;
                assert(m / 4 == k && m % 4 == j);
                assert(spec_chunk_id(under.data, c, m) == src_id);
                assert(spec_convert_id(conv, src_id) is Ok);
                let out_id = spec_converted(conv, src_id);
                let high = column_nr + 65536 * layer;
                let low = column_nr + 65536 * (layer + 1);
                assert(high % 65536 == column_nr && high / 65536 == layer);
                assert(low % 65536 == column_nr && low / 65536 == layer + 1);
                assert(result.data[high] == (out_id / 256) as u8);
                assert(result.data[low] == (out_id % 256) as u8);
                assert(spec_get_u16(result.data, column_nr, layer) == out_id);
            }
        }
    } else {
        assert forall|i: int|
            0 <= i < TILE_BYTES && spec_chunk_of_column(i % 65536) == c implies #[trigger] result.data[i]
            == out.data[i] by {}
    }
}

/// What a chunk shows stays what it shows while the chunk's bytes stay
/// and the key table only grows.
pub proof fn lemma_chunk_matches_stays(before: TileView, after: TileView, src: TileView, c: int)
    requires
        keys_dense(before.keys),
        keys_dense(after.keys),
        keys_prefix(before.keys, after.keys),
        before.data.len() == TILE_BYTES,
        after.data.len() == TILE_BYTES,
        spec_same_chunk_bytes(after.data, before.data, c),
        spec_chunk_matches(before, src, c),
    ensures
        spec_chunk_matches(after, src, c),
{
    assert forall|column_nr: int|
        0 <= column_nr < 65536 && spec_chunk_of_column(column_nr) == c implies #[trigger] spec_column_matches(
        after,
        src,
        column_nr,
    ) by {
        assert(spec_column_matches(before, src, column_nr));
        assert forall|layer: int| 0 <= layer < 18 implies #[trigger] spec_get_u8(
            after.data,
            column_nr,
            layer,
        ) == spec_get_u8(before.data, column_nr, layer) by {
            let i = column_nr + 65536 * layer;
            assert(i % 65536 == column_nr);
            assert(after.data[i] == before.data[i]);
        }
        assert forall|layer: int|
            0 <= layer < 18 && !spec_is_block_layer(layer) implies spec_get_u8(
            after.data,
            column_nr,
            layer,
        ) == #[trigger] spec_get_u8(src.data, column_nr, layer) by {
            assert(spec_get_u8(after.data, column_nr, layer) == spec_get_u8(
                before.data,
                column_nr,
                layer,
            ));
        }
        assert forall|j: int| 0 <= j < 4 implies spec_same_block(
            after.keys,
            spec_get_u16(after.data, column_nr, 1 + 4 * j),
            src.keys,
            #[trigger] spec_get_u16(src.data, column_nr, 1 + 4 * j),
        ) by {
            let layer = 1 + 4 * j;
            assert(spec_get_u8(after.data, column_nr, layer) == spec_get_u8(
                before.data,
                column_nr,
                layer,
            ));
            assert(spec_get_u8(after.data, column_nr, layer + 1) == spec_get_u8(
                before.data,
                column_nr,
                layer + 1,
            ));
            let out_id = spec_get_u16(before.data, column_nr, layer);
            let src_id = spec_get_u16(src.data, column_nr, layer);
            assert(spec_same_block(before.keys, out_id, src.keys, src_id));
            if src_id != 0 {
                lemma_name_of(before.keys, out_id as int);
                let i = choose|i: int|
                    0 <= i < before.keys.len() && (#[trigger] before.keys[i]).1 == out_id;
                assert(before.keys[i].1 == i + 1);
                lemma_dense_prefix_names(before.keys, after.keys, out_id as int);
            }
        }
    }
}

/// Handing a record in keeps the merge valid: the merged tile is a valid
/// tile, its block ids count up from 1, and the names it had keep their
/// ids.
pub proof fn lemma_feed_valid(
    acc: AccumulatorView,
    path: Seq<char>,
    mtime: Mtime,
    content: Result<TileView, SkipReasonView>,
)
    requires
        tile_valid(acc.tile),
        keys_dense(acc.tile.keys),
        acc.done.len() == TILE_CHUNKS,
        content matches Ok(tile) ==> tile_valid(tile),
    ensures
        tile_valid(spec_feed(acc, path, mtime, content).tile),
        keys_dense(spec_feed(acc, path, mtime, content).tile.keys),
        spec_feed(acc, path, mtime, content).done.len() == TILE_CHUNKS,
        keys_prefix(acc.tile.keys, spec_feed(acc, path, mtime, content).tile.keys),
{
    assert(acc.tile.keys.take(acc.tile.keys.len() as int) =~= acc.tile.keys);
    match content {
        Ok(under) => {
            if spec_merge_two(acc.tile, under, acc.done).2 is Ok {
                lemma_merged_chunks(acc.tile, under, acc.done, 0);
            }
        },
        Err(_) => {},
    }
}

/// Whether every record that could be read is a valid tile.
pub open spec fn spec_items_valid(items: Seq<ContributionView>) -> bool {
    forall|i: int|
        0 <= i < items.len() ==> ((#[trigger] items[i]).content matches Ok(tile) ==> tile_valid(
            tile,
        ))
}

/// No two names ever share an id of the merged tile, no name has the id
/// 0, and a name keeps the id it was given for the rest of the merge:
/// after any number of records, the key table of the merged tile is valid
/// and dense and starts with the table of any earlier moment.
pub proof fn lemma_namespace_growth(
    items: Seq<ContributionView>,
    order: Seq<int>,
    j: int,
    k: int,
)
    requires
        spec_items_valid(items),
        0 <= j <= k <= order.len(),
        forall|i: int| 0 <= i < order.len() ==> 0 <= #[trigger] order[i] < items.len(),
    ensures
        tile_valid(spec_merge_in_order(items, order, k).tile),
        keys_dense(spec_merge_in_order(items, order, k).tile.keys),
        spec_merge_in_order(items, order, k).done.len() == TILE_CHUNKS,
        keys_prefix(
            spec_merge_in_order(items, order, j).tile.keys,
            spec_merge_in_order(items, order, k).tile.keys,
        ),
        forall|name: Seq<char>|
            has_name(spec_merge_in_order(items, order, j).tile.keys, name) ==> spec_get(
                spec_merge_in_order(items, order, k).tile.keys,
                name,
            ) == spec_get(spec_merge_in_order(items, order, j).tile.keys, name),
        forall|a: int, b: int|
            0 <= a < b < spec_merge_in_order(items, order, k).tile.keys.len() ==> (
            #[trigger] spec_merge_in_order(items, order, k).tile.keys[a]).1 != (
            #[trigger] spec_merge_in_order(items, order, k).tile.keys[b]).1,
        forall|a: int|
            0 <= a < spec_merge_in_order(items, order, k).tile.keys.len() ==> (
            #[trigger] spec_merge_in_order(items, order, k).tile.keys[a]).1 != 0,
    decreases k,
{
    let after = spec_merge_in_order(items, order, k);
    if k == 0 {
        assert(after.tile.keys.take(0) =~= after.tile.keys);
    } else {
        lemma_namespace_growth(items, order, if j < k {
            j
        } else {
            k - 1
        }, k - 1);
        let before = spec_merge_in_order(items, order, k - 1);
        if !spec_complete(before.done) {
            let item = items[order[k - 1]];
            lemma_feed_valid(before, item.path, item.mtime, item.content);
        }
        assert(keys_prefix(before.tile.keys, after.tile.keys)) by {
            assert(before.tile.keys.take(before.tile.keys.len() as int) =~= before.tile.keys);
        }
        let early = spec_merge_in_order(items, order, j);
        if j < k {
            assert(after.tile.keys.take(early.tile.keys.len() as int) =~= before.tile.keys.take(
                early.tile.keys.len() as int,
            ));
        } else {
            assert(after.tile.keys.take(after.tile.keys.len() as int) =~= after.tile.keys);
        }
    }
    let early = spec_merge_in_order(items, order, j);
    assert forall|name: Seq<char>| has_name(early.tile.keys, name) implies spec_get(
        after.tile.keys,
        name,
    ) == spec_get(early.tile.keys, name) by {
        lemma_get_in_prefix(early.tile.keys, after.tile.keys, name);
    }
}

/// The merge of two records, the first of `order` handed in first.
pub proof fn lemma_merge_of_two(items: Seq<ContributionView>, order: Seq<int>)
    requires
        order.len() == 2,
    ensures
        spec_merge_in_order(items, order, 2) == {
            let first = spec_feed(
                spec_new_accumulator(),
                items[order[0]].path,
                items[order[0]].mtime,
                items[order[0]].content,
            );
            if spec_complete(first.done) {
                first
            } else {
                spec_feed(first, items[order[1]].path, items[order[1]].mtime, items[order[1]].content)
            }
        },
{
    reveal_with_fuel(spec_merge_in_order, 3);
    let none = spec_new_accumulator();
    assert(!none.done[0]);
    assert(!spec_complete(none.done));
}

/// Recency precedence. Of two records that both have a chunk, the merged
/// tile shows in that chunk what the newer record shows, whichever of the
/// two comes first among the candidates, and whatever the older record
/// holds. The newer record must be one that can be merged.
pub proof fn lemma_recency_precedence(items: Seq<ContributionView>, newer_one: int, c: int)
    requires
        items.len() == 2,
        0 <= newer_one < 2,
        spec_items_valid(items),
        spec_newer(items[newer_one].mtime, items[1 - newer_one].mtime),
        items[newer_one].content matches Ok(tile) && spec_clean(tile),
        0 <= c < 256,
        !spec_is_chunk_empty(
            items[newer_one].content->Ok_0.data,
            items[newer_one].content->Ok_0.keys,
            c,
        ),
    ensures
        spec_chunk_matches(spec_merge_all(items).tile, items[newer_one].content->Ok_0, c),
{
    let mtimes = spec_mtimes(items);
    lemma_order_of_two(mtimes);
    let order = spec_recency_order(mtimes, 2);
    assert(order[0] == newer_one && order[1] == 1 - newer_one);
    lemma_merge_of_two(items, order);
    let a = items[newer_one];
    let b = items[1 - newer_one];
    let ta = a.content->Ok_0;
    let none = spec_new_accumulator();
    lemma_missing_from_empty(ta.keys);
    lemma_clean_merges(none.tile, ta, none.done);
    lemma_merged_chunks(none.tile, ta, none.done, c);
    let first = spec_feed(none, a.path, a.mtime, a.content);
    assert(spec_wanted(none.done, ta.data, ta.keys, c));
    assert(spec_chunk_matches(first.tile, ta, c));
    if !spec_complete(first.done) {
        let second = spec_feed(first, b.path, b.mtime, b.content);
        lemma_still_shown(first, b, ta, c);
    }
}

/// A chunk that is resolved shows after a further record what it showed
/// before.
pub proof fn lemma_still_shown(acc: AccumulatorView, item: ContributionView, src: TileView, c: int)
    requires
        tile_valid(acc.tile),
        keys_dense(acc.tile.keys),
        acc.done.len() == TILE_CHUNKS,
        item.content matches Ok(tile) ==> tile_valid(tile),
        0 <= c < 256,
        acc.done[c],
        spec_chunk_matches(acc.tile, src, c),
    ensures
        spec_chunk_matches(spec_feed(acc, item.path, item.mtime, item.content).tile, src, c),
        spec_feed(acc, item.path, item.mtime, item.content).done[c],
{
    match item.content {
        Ok(under) => {
            if spec_merge_two(acc.tile, under, acc.done).2 is Ok {
                lemma_merged_chunks(acc.tile, under, acc.done, c);
                let after = spec_feed(acc, item.path, item.mtime, item.content);
                lemma_chunk_matches_stays(acc.tile, after.tile, src, c);
            }
        },
        Err(_) => {},
    }
}

/// The number of names of two records together.
pub open spec fn spec_names_together(first: TileView, second: TileView) -> nat {
    spec_merged_keys(spec_merged_keys(Seq::empty(), first.keys), second.keys).len()
}

/// Disjoint coverage. Of two records that have no chunk in common, the
/// merged tile shows in every chunk of either what that record shows
/// there, whatever their times. Both records must be such as can be
/// merged, and their names together must not be more than ids exist.
pub proof fn lemma_disjoint_coverage(items: Seq<ContributionView>, c: int)
    requires
        items.len() == 2,
        items[0].content matches Ok(tile) && tile_valid(tile) && spec_clean(tile),
        items[1].content matches Ok(tile) && tile_valid(tile) && spec_clean(tile),
        spec_names_together(items[0].content->Ok_0, items[1].content->Ok_0) <= u16::MAX,
        spec_names_together(items[1].content->Ok_0, items[0].content->Ok_0) <= u16::MAX,
        forall|k: int|
            0 <= k < 256 ==> #[trigger] spec_is_chunk_empty(
                items[0].content->Ok_0.data,
                items[0].content->Ok_0.keys,
                k,
            ) || spec_is_chunk_empty(
                items[1].content->Ok_0.data,
                items[1].content->Ok_0.keys,
                k,
            ),
        0 <= c < 256,
    ensures
        !spec_is_chunk_empty(items[0].content->Ok_0.data, items[0].content->Ok_0.keys, c)
            ==> spec_chunk_matches(spec_merge_all(items).tile, items[0].content->Ok_0, c),
        !spec_is_chunk_empty(items[1].content->Ok_0.data, items[1].content->Ok_0.keys, c)
            ==> spec_chunk_matches(spec_merge_all(items).tile, items[1].content->Ok_0, c),
{
    let mtimes = spec_mtimes(items);
    lemma_order_of_two(mtimes);
    let order = spec_recency_order(mtimes, 2);
    lemma_merge_of_two(items, order);
    let x = order[0];
    let y = order[1];
    assert(x + y == 1);
    let tx = items[x].content->Ok_0;
    let ty = items[y].content->Ok_0;
    let none = spec_new_accumulator();
    lemma_missing_from_empty(tx.keys);
    lemma_clean_merges(none.tile, tx, none.done);
    lemma_merged_chunks(none.tile, tx, none.done, c);
    let first = spec_feed(none, items[x].path, items[x].mtime, items[x].content);
    assert(first.done[c] == !spec_is_chunk_empty(tx.data, tx.keys, c));
    assert(spec_is_chunk_empty(items[0].content->Ok_0.data, items[0].content->Ok_0.keys, c)
        || spec_is_chunk_empty(items[1].content->Ok_0.data, items[1].content->Ok_0.keys, c));
    if spec_complete(first.done) {
        assert(first.done[c]);
    } else {
        assert(first.tile.keys == spec_merged_keys(Seq::empty(), tx.keys));
        lemma_clean_merges(first.tile, ty, first.done);
        lemma_merged_chunks(first.tile, ty, first.done, c);
        let second = spec_feed(first, items[y].path, items[y].mtime, items[y].content);
        if !spec_is_chunk_empty(tx.data, tx.keys, c) {
            lemma_chunk_matches_stays(first.tile, second.tile, tx, c);
        }
    }
}

/// Whether the record at place `k` of the order is merged: the merge is
/// not complete before it, the record could be read, and it can be
/// merged into what the records before it made.
pub open spec fn spec_merged_at(items: Seq<ContributionView>, order: Seq<int>, k: int) -> bool {
    let before = spec_merge_in_order(items, order, k);
    &&& !spec_complete(before.done)
    &&& items[order[k]].content matches Ok(tile) && spec_merge_two(
        before.tile,
        tile,
        before.done,
    ).2 is Ok
}

/// Whether the record at place `k` of the order is merged and has the
/// chunk `c`.
pub open spec fn spec_gives_chunk(
    items: Seq<ContributionView>,
    order: Seq<int>,
    k: int,
    c: int,
) -> bool {
    spec_merged_at(items, order, k) && !spec_is_chunk_empty(
        items[order[k]].content->Ok_0.data,
        items[order[k]].content->Ok_0.keys,
        c,
    )
}

/// The place in the order of the first of the first `k` records that gives
/// the chunk `c`, or `k` if none of them does.
pub open spec fn spec_first_giver(
    items: Seq<ContributionView>,
    order: Seq<int>,
    c: int,
    k: int,
) -> int
    decreases k,
{
    if k <= 0 {
        0
    } else {
        let before = spec_first_giver(items, order, c, k - 1);
        if before < k - 1 {
            before
        } else if spec_gives_chunk(items, order, k - 1, c) {
            k - 1
        } else {
            k
        }
    }
}

/// Whether a chunk holds nothing but zeros.
pub open spec fn spec_chunk_blank(data: Seq<u8>, c: int) -> bool {
    forall|i: int|
        0 <= i < TILE_BYTES && spec_chunk_of_column(i % 65536) == c ==> #[trigger] data[i] == 0
}

/// The merged tile, chunk by chunk. After any number of records, a chunk
/// is resolved exactly if one of the records merged so far has it; it
/// then shows what the first of them in the order of merging shows, which
/// is the most recent; and a chunk that none of them has is blank.
pub proof fn lemma_chunk_shows_most_recent(
    items: Seq<ContributionView>,
    order: Seq<int>,
    c: int,
    k: int,
)
    requires
        spec_items_valid(items),
        0 <= k <= order.len(),
        forall|i: int| 0 <= i < order.len() ==> 0 <= #[trigger] order[i] < items.len(),
        0 <= c < 256,
    ensures
        0 <= spec_first_giver(items, order, c, k) <= k,
        spec_merge_in_order(items, order, k).done[c] == (spec_first_giver(items, order, c, k)
            < k),
        spec_first_giver(items, order, c, k) < k ==> spec_gives_chunk(
            items,
            order,
            spec_first_giver(items, order, c, k),
            c,
        ) && spec_chunk_matches(
            spec_merge_in_order(items, order, k).tile,
            items[order[spec_first_giver(items, order, c, k)]].content->Ok_0,
            c,
        ),
        spec_first_giver(items, order, c, k) == k ==> spec_chunk_blank(
            spec_merge_in_order(items, order, k).tile.data,
            c,
        ),
    decreases k,
{
    if k > 0 {
        lemma_chunk_shows_most_recent(items, order, c, k - 1);
        lemma_namespace_growth(items, order, k - 1, k - 1);
        let before = spec_merge_in_order(items, order, k - 1);
        let after = spec_merge_in_order(items, order, k);
        let first = spec_first_giver(items, order, c, k - 1);
        let item = items[order[k - 1]];
        if spec_complete(before.done) {
            assert(before.done[c]);
        } else {
            match item.content {
                Err(_) => {},
                Ok(under) => {
                    if spec_merge_two(before.tile, under, before.done).2 is Ok {
                        lemma_merged_chunks(before.tile, under, before.done, c);
                        if first < k - 1 {
                            lemma_chunk_matches_stays(
                                before.tile,
                                after.tile,
                                items[order[first]].content->Ok_0,
                                c,
                            );
                        } else if spec_is_chunk_empty(under.data, under.keys, c) {
                            assert forall|i: int|
                                0 <= i < TILE_BYTES && spec_chunk_of_column(i % 65536)
                                    == c implies #[trigger] after.tile.data[i] == 0 by {
                                assert(after.tile.data[i] == before.tile.data[i]);
                            }
                        }
                    }
                },
            }
        }
    } else {
        let none = spec_new_accumulator();
        assert(!none.done[c]);
    }
}

/// The records merged among the first `k` of the order, in that order.
pub open spec fn spec_used_upto(items: Seq<ContributionView>, order: Seq<int>, k: int) -> Seq<
    Seq<char>,
>
    decreases k,
{
    if k <= 0 {
        Seq::empty()
    } else if spec_merged_at(items, order, k - 1) {
        spec_used_upto(items, order, k - 1).push(items[order[k - 1]].path)
    } else {
        spec_used_upto(items, order, k - 1)
    }
}

/// The reason for which the record at place `k` of the order is given up,
/// if it is: it could not be read, or it cannot be merged. A record that
/// comes after the merge is complete is left alone.
pub open spec fn spec_given_up_at(items: Seq<ContributionView>, order: Seq<int>, k: int) -> Option<
    SkipReasonView,
> {
    let before = spec_merge_in_order(items, order, k);
    if spec_complete(before.done) {
        None
    } else {
        match items[order[k]].content {
            Err(reason) => Some(reason),
            Ok(tile) => match spec_merge_two(before.tile, tile, before.done).2 {
                Err(e) => Some(SkipReasonView::Merge(e)),
                Ok(_) => None,
            },
        }
    }
}

/// The records given up among the first `k` of the order, each with its
/// reason, in that order.
pub open spec fn spec_skipped_upto(
    items: Seq<ContributionView>,
    order: Seq<int>,
    k: int,
) -> Seq<(Seq<char>, SkipReasonView)>
    decreases k,
{
    if k <= 0 {
        Seq::empty()
    } else {
        match spec_given_up_at(items, order, k - 1) {
            Some(reason) => spec_skipped_upto(items, order, k - 1).push(
                (items[order[k - 1]].path, reason),
            ),
            None => spec_skipped_upto(items, order, k - 1),
        }
    }
}

/// The lists of a merge. The records reported as used are the records
/// merged, in the order of merging; the records reported as skipped are
/// the records given up, each with its reason; and a record is merged,
/// given up or, after the merge is complete, left alone.
pub proof fn lemma_used_and_skipped(items: Seq<ContributionView>, order: Seq<int>, k: int)
    requires
        0 <= k <= order.len(),
    ensures
        spec_merge_in_order(items, order, k).used == spec_used_upto(items, order, k),
        spec_merge_in_order(items, order, k).skipped == spec_skipped_upto(items, order, k),
        forall|i: int|
            0 <= i < k ==> #[trigger] spec_merged_at(items, order, i) || spec_given_up_at(
                items,
                order,
                i,
            ) is Some || spec_complete(spec_merge_in_order(items, order, i).done),
    decreases k,
{
    if k > 0 {
        lemma_used_and_skipped(items, order, k - 1);
    }
}

/// Round trip. A file that holds the entries of a valid tile, as every
/// file does that `write_tile` hands out, is read by `read_tile` as a tile
/// with the bytes and the key table of that tile, whatever the file is
/// called.
pub proof fn lemma_round_trip(
    archive: Seq<u8>,
    tile: TileView,
    name: Seq<char>,
    legacy_names: Seq<Seq<char>>,
)
    requires
        tile_valid(tile),
        spec_holds_tile(archive, tile),
    ensures
        spec_read_tile(
            archive_entry(archive, "control"@),
            archive_entry(archive, "key"@),
            archive_entry(archive, "data"@),
            name,
            legacy_names,
        ) matches Ok(read) && read.data == tile.data && read.keys == tile.keys,
{
    lemma_entries_round_trip(tile.data, tile.keys, legacy_names);
}

/// A record alone. Merging a single record whose block ids count up from
/// 1 into the empty tile gives a tile with the key table of the record and,
/// in every chunk that the record has, the very bytes of the record.
pub proof fn lemma_single_record(under: TileView, c: int)
    requires
        tile_valid(under),
        keys_dense(under.keys),
        spec_clean(under),
        0 <= c < 256,
        !spec_is_chunk_empty(under.data, under.keys, c),
    ensures
        spec_merge_two(spec_new_accumulator().tile, under, spec_new_accumulator().done).2 is Ok,
        spec_merge_two(spec_new_accumulator().tile, under, spec_new_accumulator().done).0.keys
            == under.keys,
        spec_same_chunk_bytes(
            spec_merge_two(spec_new_accumulator().tile, under, spec_new_accumulator().done).0.data,
            under.data,
            c,
        ),
{
    let none = spec_new_accumulator();
    let empty = Seq::<(Seq<char>, u16)>::empty();
    let merged = spec_merged_keys(empty, under.keys);
    let conv = spec_converter(merged, under.keys);
    lemma_missing_from_empty(under.keys);
    assert(merged =~= under.keys);
    lemma_clean_merges(none.tile, under, none.done);
    lemma_converter(empty, under.keys);
    lemma_max_id_bounds(under.keys);
    lemma_failing_chunk(conv, under.data, under.keys, none.done, 256);
    assert(spec_wanted(none.done, under.data, under.keys, c));
    assert(spec_chunk_error(conv, under.data, c) is None);
    lemma_chunk_ids_convert(conv, under.data, c, 1024);
    let result = spec_merge_two(none.tile, under, none.done).0;
    assert forall|i: int|
        0 <= i < TILE_BYTES && spec_chunk_of_column(i % 65536) == c implies #[trigger] result.data[i]
        == under.data[i] by {
        let column_nr = i % 65536;
        let layer = i / 65536;
        if spec_is_block_layer(layer) {
            let base = if layer % 4 == 1 {
                layer
            } else {
                layer - 1
            };
            let j = base / 4;
            lemma_column_of_rank(column_nr);
            let k = crate::merge::spec_rank_in_chunk(column_nr);
            let m = 4 * k + j;
            assert(m / 4 == k && m % 4 == j);
            let id = spec_get_u16(under.data, column_nr, base);
            assert(spec_chunk_id(under.data, c, m) == id);
            assert(spec_convert_id(conv, id) is Ok);
            if id != 0 {
                // The id keeps its name, and in a table without a repeated
                // name that makes it keep itself.
                let out_id = conv[id as int];
                assert(spec_name_of(under.keys, out_id as int) == spec_name_of(
                    under.keys,
                    id as int,
                ));
                lemma_name_of(under.keys, id as int);
                lemma_name_of(under.keys, out_id as int);
                let p = choose|p: int|
                    0 <= p < under.keys.len() && (#[trigger] under.keys[p]).1 == id
                        && under.keys[p].0 == spec_name_of(under.keys, id as int)->0;
                let q = choose|q: int|
                    0 <= q < under.keys.len() && (#[trigger] under.keys[q]).1 == out_id
                        && under.keys[q].0 == spec_name_of(under.keys, out_id as int)->0;
                assert(p == q);
            }
            assert(spec_converted(conv, id) == id);
            lemma_u16_bytes(
                id,
                under.data[column_nr + 65536 * base],
                under.data[column_nr + 65536 * (base + 1)],
            );
        }
    }
}

} // verus!
