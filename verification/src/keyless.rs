//! Tiles without a key table. Their block ids are those of the old
//! numbering of blocks, packed with the block's data value, and their
//! names come from a table of that numbering which the caller holds.

use crate::keys::{has_name, is_plain_name, plain_name, KeySeq, KeyTable};
use crate::text::str_eq;
use crate::tile::{TILE_BYTES, TILE_COLUMNS};
use vstd::prelude::*;

verus! {

/// Number of places of the table of legacy names that a block id can
/// reach.
pub const LEGACY_NAMES: usize = 4096;

/// The place in the table of legacy names of the block written with the
/// bytes `high` and `low`: the table goes by block number and data value,
/// `number * 16 + value`, the bytes hold `value * 4096 + number`.
pub open spec fn spec_legacy_index(high: u8, low: u8) -> int {
    low * 16 + high / 16
}

/// The first place from `from` on at which `name` stands in `names`, or
/// the length of `names`.
pub open spec fn spec_first_place(names: Seq<Seq<char>>, name: Seq<char>, from: int) -> int
    decreases names.len() - from,
{
    if from >= names.len() {
        names.len() as int
    } else if names[from] == name {
        from
    } else {
        spec_first_place(names, name, from + 1)
    }
}

/// Whether the place `idx` of the table gives a name that a key table can
/// hold.
pub open spec fn spec_named_place(names: Seq<Seq<char>>, idx: int) -> bool {
    1 <= idx < names.len() && idx < LEGACY_NAMES && plain_name(names[idx])
}

/// The block id that a tile without a key table gets for the place `idx`
/// of the table: the first place after 0 at which the name of `idx`
/// stands, so that one name has one id. The place 0 is air and becomes
/// "no block". A place that gives no name stays as it is and will have no
/// name in the key table of the tile.
pub open spec fn spec_legacy_id(names: Seq<Seq<char>>, idx: int) -> u16 {
    if spec_named_place(names, idx) {
        spec_first_place(names, names[idx], 1) as u16
    } else {
        idx as u16
    }
}

/// The place in the table of block `m` of a tile: block `m % 4` of column
/// `m / 4`.
pub open spec fn spec_raw_place(data: Seq<u8>, m: int) -> int {
    spec_legacy_index(
        data[m / 4 + 65536 * (1 + 4 * (m % 4))],
        data[m / 4 + 65536 * (2 + 4 * (m % 4))],
    )
}

/// Whether one of the first `n` blocks of the tile has the id `id`.
pub open spec fn spec_id_used(names: Seq<Seq<char>>, data: Seq<u8>, id: int, n: int) -> bool {
    exists|m: int| 0 <= m < n && #[trigger] spec_legacy_id(names, spec_raw_place(data, m)) == id
}

/// Whether the key table of the tile gets an entry for the place `j`: the
/// place gives a name, it is the first place of that name, and the tile
/// has a block of it.
pub open spec fn spec_key_place(names: Seq<Seq<char>>, data: Seq<u8>, j: int) -> bool {
    spec_named_place(names, j) && spec_first_place(names, names[j], 1) == j && spec_id_used(
        names,
        data,
        j,
        262144,
    )
}

/// The key table of a tile without one: an entry for each name that the
/// tile uses, by ascending place, the place being the id.
pub open spec fn spec_keyless_keys(names: Seq<Seq<char>>, data: Seq<u8>, upto: int) -> KeySeq
    decreases upto,
{
    if upto <= 1 {
        Seq::empty()
    } else {
        let before = spec_keyless_keys(names, data, upto - 1);
        if spec_key_place(names, data, upto - 1) {
            before.push((names[upto - 1], (upto - 1) as u16))
        } else {
            before
        }
    }
}

/// Byte `i` of a tile without a key table after its block ids were set to
/// the ids of `spec_legacy_id`.
pub open spec fn spec_keyless_byte(names: Seq<Seq<char>>, data: Seq<u8>, i: int) -> u8 {
    let column = i % 65536;
    let layer = i / 65536;
    if layer < 16 && layer % 4 == 1 {
        (spec_legacy_id(names, spec_legacy_index(data[i], data[i + 65536])) / 256) as u8
    } else if layer < 16 && layer % 4 == 2 {
        (spec_legacy_id(names, spec_legacy_index(data[i - 65536], data[i])) % 256) as u8
    } else {
        data[i]
    }
}

/// The bytes of a tile without a key table with the block ids of the first
/// `n` blocks set.
pub open spec fn spec_keyless_data_upto(names: Seq<Seq<char>>, data: Seq<u8>, n: int) -> Seq<u8> {
    Seq::new(
        data.len(),
        |i: int|
            if i / 65536 < 16 && (i / 65536) % 4 == 1 && 4 * (i % 65536) + (i / 65536) / 4 < n {
                spec_keyless_byte(names, data, i)
            } else if i / 65536 < 16 && (i / 65536) % 4 == 2 && 4 * (i % 65536) + (i / 65536) / 4
                < n {
                spec_keyless_byte(names, data, i)
            } else {
                data[i]
            },
    )
}

/// The bytes of a tile without a key table with all its block ids set.
pub open spec fn spec_keyless_data(names: Seq<Seq<char>>, data: Seq<u8>) -> Seq<u8> {
    Seq::new(data.len(), |i: int| spec_keyless_byte(names, data, i))
}

pub open spec fn spec_name_views(names: Seq<String>) -> Seq<Seq<char>> {
    Seq::new(names.len(), |i: int| names[i]@)
}

/// The first place of a name lies at or before any place of the name, and
/// the name stands at it.
pub proof fn lemma_first_place(names: Seq<Seq<char>>, name: Seq<char>, from: int, at: int)
    requires
        0 <= from <= at < names.len(),
        names[at] == name,
    ensures
        from <= spec_first_place(names, name, from) <= at,
        names[spec_first_place(names, name, from)] == name,
        forall|k: int| from <= k < spec_first_place(names, name, from) ==> names[k] != name,
    decreases names.len() - from,
{
    if names[from] != name {
        lemma_first_place(names, name, from + 1, at);
    }
}

/// The name of a block in the old numbering.
pub fn get_block_name_from_voxelmap(names: &Vec<String>, vm_a: u8, vm_b: u8) -> (name: &String)
    requires
        spec_legacy_index(vm_a, vm_b) < names@.len(),
    ensures
        *name == names@[spec_legacy_index(vm_a, vm_b)],
{
    &names[legacy_index(vm_a, vm_b)]
}

/// The place in the table of legacy names of the block written with the
/// bytes `high` and `low`.
pub fn legacy_index(high: u8, low: u8) -> (idx: usize)
    ensures
        idx == spec_legacy_index(high, low),
        idx < LEGACY_NAMES,
{
    assert((low as usize) << 4 | (high as usize) >> 4 == low * 16 + high / 16) by (bit_vector);
    (low as usize) << 4 | (high as usize) >> 4
}

/// The ids of the places of the table.
fn legacy_ids(names: &Vec<String>) -> (ids: Vec<u16>)
    ensures
        ids@.len() == LEGACY_NAMES,
        forall|idx: int|
            0 <= idx < LEGACY_NAMES ==> #[trigger] ids@[idx] == spec_legacy_id(
                spec_name_views(names@),
                idx,
            ),
{
    let ghost views = spec_name_views(names@);
    let mut ids: Vec<u16> = Vec::new();
    let mut idx: usize = 0;
    while idx < LEGACY_NAMES
        invariant
            idx <= LEGACY_NAMES,
            views == spec_name_views(names@),
            ids@.len() == idx,
            forall|k: int| 0 <= k < idx ==> #[trigger] ids@[k] == spec_legacy_id(views, k),
        decreases LEGACY_NAMES - idx,
    {
        let mut id: usize = idx;
        if idx >= 1 && idx < names.len() && is_plain_name(names[idx].as_str()) {
            let mut j: usize = 1;
            while !str_eq(names[j].as_str(), names[idx].as_str())
                invariant
                    1 <= j <= idx < names@.len(),
                    views == spec_name_views(names@),
                    spec_first_place(views, views[idx as int], 1) == spec_first_place(
                        views,
                        views[idx as int],
                        j as int,
                    ),
                decreases idx - j,
            {
                assert(views[j as int] == names@[j as int]@);
                assert(views[j as int] != views[idx as int]);
                j += 1;
            }
            assert(views[j as int] == names@[j as int]@);
            id = j;
        }
        ids.push(id as u16);
        idx += 1;
    }
    ids
}

/// Gives a tile without a key table the block ids and the key table of
/// `spec_legacy_id`: `data` are the bytes of the tile, `names` is the
/// table of legacy names.
pub fn keyless_to_keyed(data: &mut Vec<u8>, names: &Vec<String>) -> (keys: KeyTable)
    requires
        old(data)@.len() == TILE_BYTES,
    ensures
        final(data)@ == spec_keyless_data(spec_name_views(names@), old(data)@),
        keys.wf(),
        keys@ == spec_keyless_keys(
            spec_name_views(names@),
            old(data)@,
            if names@.len() < LEGACY_NAMES {
                names@.len() as int
            } else {
                LEGACY_NAMES as int
            },
        ),
{
    let ghost views = spec_name_views(names@);
    let ghost raw = data@;
    let ids: Vec<u16> = legacy_ids(names);
    let mut used: Vec<bool> = vec![false; LEGACY_NAMES];
    let mut m: usize = 0;
    assert(data@ =~= spec_keyless_data_upto(views, raw, 0));
    while m < 262144
        invariant
            m <= 262144,
            raw.len() == TILE_BYTES,
            views == spec_name_views(names@),
            ids@.len() == LEGACY_NAMES,
            forall|idx: int|
                0 <= idx < LEGACY_NAMES ==> #[trigger] ids@[idx] == spec_legacy_id(views, idx),
            used@.len() == LEGACY_NAMES,
            forall|id: int|
                0 <= id < LEGACY_NAMES ==> (#[trigger] used@[id] <==> spec_id_used(
                    views,
                    raw,
                    id,
                    m as int,
                )),
            data@ == spec_keyless_data_upto(views, raw, m as int),
        decreases 262144 - m,
    {
        let column: usize = m / 4;
        let layer: usize = 1 + 4 * (m % 4);
        let high_at: usize = column + TILE_COLUMNS * layer;
        let low_at: usize = high_at + TILE_COLUMNS;
        proof {
            assert(high_at / 65536 == layer && high_at % 65536 == column);
            assert(low_at / 65536 == layer + 1 && low_at % 65536 == column);
            assert(4 * column + layer / 4 == m);
            assert(data@[high_at as int] == raw[high_at as int]);
            assert(data@[low_at as int] == raw[low_at as int]);
        }
        let idx: usize = legacy_index(data[high_at], data[low_at]);
        let id: u16 = ids[idx];
        assert(idx == spec_raw_place(raw, m as int));
        assert(id == spec_legacy_id(views, spec_raw_place(raw, m as int)));
        assert(id / 256 == id >> 8 && id % 256 == id & 0xff) by (bit_vector);
        let ghost before = data@;
        let ghost used_before = used@;
        data.set(high_at, (id >> 8) as u8);
        data.set(low_at, (id & 0xff) as u8);
        proof {
            lemma_legacy_id_bound(views, idx as int);
        }
        used.set(id as usize, true);
        proof {
            let want = spec_keyless_data_upto(views, raw, m + 1);
            assert forall|i: int| 0 <= i < want.len() implies data@[i] == want[i] by {
                if i == high_at || i == low_at {
                } else {
                    assert(data@[i] == before[i]);
                    let c = i % 65536;
                    let l = i / 65536;
                    if l < 16 && (l % 4 == 1 || l % 4 == 2) {
                        assert(4 * c + l / 4 != m);
                    }
                }
            }
            assert(data@ =~= want);
            assert forall|j: int| 0 <= j < LEGACY_NAMES implies (#[trigger] used@[j]
                <==> spec_id_used(views, raw, j, m + 1)) by {
                if j == id {
                    assert(spec_legacy_id(views, spec_raw_place(raw, m as int)) == j);
                } else {
                    assert(used@[j] == used_before[j]);
                    if spec_id_used(views, raw, j, m + 1) {
                        let w = choose|w: int|
                            0 <= w < m + 1 && #[trigger] spec_legacy_id(
                                views,
                                spec_raw_place(raw, w),
                            ) == j;
                        assert(w < m);
                    }
                    if spec_id_used(views, raw, j, m as int) {
                        let w = choose|w: int|
                            0 <= w < m && #[trigger] spec_legacy_id(
                                views,
                                spec_raw_place(raw, w),
                            ) == j;
                        assert(w < m + 1);
                    }
                }
            }
        }
        m += 1;
    }
    proof {
        let want = spec_keyless_data(views, raw);
        assert forall|i: int| 0 <= i < want.len() implies data@[i] == want[i] by {
            let c = i % 65536;
            let l = i / 65536;
            if l < 16 {
                assert(4 * c + l / 4 < 262144);
            }
        }
        assert(data@ =~= want);
    }
    let limit: usize = if names.len() < LEGACY_NAMES {
        names.len()
    } else {
        LEGACY_NAMES
    };
    let mut keys = KeyTable::new();
    let mut j: usize = 1;
    assert(keys@ =~= spec_keyless_keys(views, raw, 1));
    while j < limit
        invariant
            1 <= j,
            j <= limit || j == 1,
            limit <= LEGACY_NAMES,
            limit <= names@.len(),
            views == spec_name_views(names@),
            ids@.len() == LEGACY_NAMES,
            forall|idx: int|
                0 <= idx < LEGACY_NAMES ==> #[trigger] ids@[idx] == spec_legacy_id(views, idx),
            used@.len() == LEGACY_NAMES,
            forall|id: int|
                0 <= id < LEGACY_NAMES ==> (#[trigger] used@[id] <==> spec_id_used(
                    views,
                    raw,
                    id,
                    262144,
                )),
            keys.wf(),
            keys@ == spec_keyless_keys(views, raw, j as int),
            forall|k: int|
                0 <= k < keys@.len() ==> 1 <= (#[trigger] keys@[k]).1 < j && views[keys@[k].1 as int]
                    == keys@[k].0,
        decreases limit - j,
    {
        assert(views[j as int] == names@[j as int]@);
        let plain: bool = is_plain_name(names[j].as_str());
        proof {
            if plain {
                lemma_first_place(views, views[j as int], 1, j as int);
            }
        }
        if used[j] && plain && ids[j] as usize == j {
            proof {
                assert(spec_key_place(views, raw, j as int));
                if has_name(keys@, views[j as int]) {
                    let k = choose|k: int| 0 <= k < keys@.len() && (#[trigger] keys@[k]).0
                        == views[j as int];
                    assert(views[keys@[k].1 as int] == views[j as int]);
                }
            }
            keys.push_new(names[j].clone(), j as u16);
        } else {
            assert(!spec_key_place(views, raw, j as int));
        }
        j += 1;
    }
    proof {
        if limit == 0 {
            assert(spec_keyless_keys(views, raw, 0) =~= spec_keyless_keys(views, raw, 1));
        }
    }
    keys
}

/// The id of a place is below the number of places.
pub proof fn lemma_legacy_id_bound(names: Seq<Seq<char>>, idx: int)
    requires
        0 <= idx < LEGACY_NAMES,
    ensures
        0 <= spec_legacy_id(names, idx) <= idx,
        spec_named_place(names, idx) ==> 1 <= spec_legacy_id(names, idx) && names[spec_legacy_id(
            names,
            idx,
        ) as int] == names[idx],
{
    if spec_named_place(names, idx) {
        lemma_first_place(names, names[idx], 1, idx);
    }
}

/// The key table of all the names of the table of legacy names: an entry
/// for each name that a key table can hold, at the first place of the name
/// after the place 0, the place being the id.
pub open spec fn spec_global_keys(names: Seq<Seq<char>>, upto: int) -> KeySeq
    decreases upto,
{
    if upto <= 1 {
        Seq::empty()
    } else {
        let before = spec_global_keys(names, upto - 1);
        if spec_named_place(names, upto - 1) && spec_first_place(names, names[upto - 1], 1)
            == upto - 1 {
            before.push((names[upto - 1], (upto - 1) as u16))
        } else {
            before
        }
    }
}

/// The key table of all the names of the table of legacy names.
pub fn build_global_keys_map(names: &Vec<String>) -> (keys: KeyTable)
    ensures
        keys.wf(),
        keys@ == spec_global_keys(
            spec_name_views(names@),
            if names@.len() < LEGACY_NAMES {
                names@.len() as int
            } else {
                LEGACY_NAMES as int
            },
        ),
{
    let ghost views = spec_name_views(names@);
    let ids: Vec<u16> = legacy_ids(names);
    let limit: usize = if names.len() < LEGACY_NAMES {
        names.len()
    } else {
        LEGACY_NAMES
    };
    let mut keys = KeyTable::new();
    let mut j: usize = 1;
    assert(keys@ =~= spec_global_keys(views, 1));
    while j < limit
        invariant
            1 <= j,
            j <= limit || j == 1,
            limit <= LEGACY_NAMES,
            limit <= names@.len(),
            views == spec_name_views(names@),
            ids@.len() == LEGACY_NAMES,
            forall|idx: int|
                0 <= idx < LEGACY_NAMES ==> #[trigger] ids@[idx] == spec_legacy_id(views, idx),
            keys.wf(),
            keys@ == spec_global_keys(views, j as int),
            forall|k: int|
                0 <= k < keys@.len() ==> 1 <= (#[trigger] keys@[k]).1 < j && views[keys@[k].1 as int]
                    == keys@[k].0,
        decreases limit - j,
    {
        assert(views[j as int] == names@[j as int]@);
        let plain: bool = is_plain_name(names[j].as_str());
        proof {
            if plain {
                lemma_first_place(views, views[j as int], 1, j as int);
            }
        }
        if plain && ids[j] as usize == j {
            proof {
                if has_name(keys@, views[j as int]) {
                    let k = choose|k: int| 0 <= k < keys@.len() && (#[trigger] keys@[k]).0
                        == views[j as int];
                    assert(views[keys@[k].1 as int] == views[j as int]);
                }
            }
            keys.push_new(names[j].clone(), j as u16);
        }
        j += 1;
    }
    proof {
        if limit == 0 {
            assert(spec_global_keys(views, 0) =~= spec_global_keys(views, 1));
        }
    }
    keys
}

} // verus!
