//! The converter of block ids: from the ids of one recorded tile to the
//! ids of the tile that the records are merged into.

use crate::keys::{
    has_name, keys_dense, keys_valid, lemma_get_at, lemma_max_id_bounds, name_index, names_distinct,
    plain_name, spec_get, spec_max_id, spec_name_of, KeySeq, KeyTable,
};
use vstd::prelude::*;

verus! {

/// Why a record cannot be merged.
#[derive(Clone, Copy, Debug, PartialEq, Eq, Structural)]
pub enum MergeError {
    /// A column holds a block id that lies beyond the converter: the
    /// record is corrupt.
    CorruptData,
    /// A column holds a block id that the key table of its tile has no name
    /// for, so that the converter has nothing to give for it.
    Logic,
    /// The merged tile would need more block names than ids exist.
    KeyTableFull,
}

/// The names of `inp` that `out` lacks, in the order of `inp`.
pub open spec fn spec_missing_names(inp: KeySeq, out: KeySeq) -> Seq<Seq<char>>
    decreases inp.len(),
{
    if inp.len() == 0 {
        Seq::empty()
    } else {
        let before = spec_missing_names(inp.drop_last(), out);
        if has_name(out, inp.last().0) {
            before
        } else {
            before.push(inp.last().0)
        }
    }
}

/// `out` with the names `missing` added, each with the next id after the
/// last: the first new name gets the id `out.len() + 1`.
pub open spec fn spec_extend_keys(out: KeySeq, missing: Seq<Seq<char>>) -> KeySeq {
    out + Seq::new(missing.len(), |k: int| (missing[k], (out.len() + 1 + k) as u16))
}

/// The key table of the merged tile after the names of `inp` were merged
/// into it: the names it had keep their ids, the names it lacked follow.
pub open spec fn spec_merged_keys(out: KeySeq, inp: KeySeq) -> KeySeq {
    spec_extend_keys(out, spec_missing_names(inp, out))
}

/// The converter from the ids of `inp` to those of `out`: one slot for each
/// id up to the largest of `inp`; the slot of an id holds the id that `out`
/// has for the id's name, and 0 where the id has no name. Slot 0 holds 0.
pub open spec fn spec_converter(out: KeySeq, inp: KeySeq) -> Seq<u16> {
    Seq::new(
        (1 + spec_max_id(inp)) as nat,
        |id: int|
            match spec_name_of(inp, id) {
                Some(name) => match spec_get(out, name) {
                    Some(out_id) => out_id,
                    None => 0u16,
                },
                None => 0u16,
            },
    )
}

/// Whether `t` starts with `prefix`.
pub open spec fn keys_prefix(prefix: KeySeq, t: KeySeq) -> bool {
    prefix.len() <= t.len() && t.take(prefix.len() as int) == prefix
}

/// A name of the first part of a table has the same id in the whole table,
/// where no name occurs twice.
pub proof fn lemma_get_in_prefix(prefix: KeySeq, t: KeySeq, name: Seq<char>)
    requires
        keys_prefix(prefix, t),
        names_distinct(t),
        has_name(prefix, name),
    ensures
        has_name(t, name),
        spec_get(t, name) == spec_get(prefix, name),
{
    let k = name_index(prefix, name);
    assert(t.take(prefix.len() as int)[k] == t[k]);
    assert(t[k].0 == name);
    lemma_get_at(t, k);
    assert forall|i: int, j: int| 0 <= i < j < prefix.len() implies (#[trigger] prefix[i]).0 != (
    #[trigger] prefix[j]).0 by {
        assert(t.take(prefix.len() as int)[i] == t[i]);
        assert(t.take(prefix.len() as int)[j] == t[j]);
    }
    lemma_get_at(prefix, k);
}

/// The names missing from `out` are names of `inp`, are not in `out`, and
/// none comes twice where `inp` has no name twice.
pub proof fn lemma_missing_names(inp: KeySeq, out: KeySeq)
    requires
        names_distinct(inp),
    ensures
        spec_missing_names(inp, out).len() <= inp.len(),
        forall|k: int|
            0 <= k < spec_missing_names(inp, out).len() ==> !has_name(
                out,
                #[trigger] spec_missing_names(inp, out)[k],
            ) && has_name(inp, spec_missing_names(inp, out)[k]),
        forall|k: int, l: int|
            0 <= k < l < spec_missing_names(inp, out).len() ==> spec_missing_names(inp, out)[k]
                != spec_missing_names(inp, out)[l],
        forall|name: Seq<char>|
            has_name(inp, name) && !has_name(out, name) ==> spec_missing_names(
                inp,
                out,
            ).contains(name),
    decreases inp.len(),
{
    let missing = spec_missing_names(inp, out);
    if inp.len() > 0 {
        let shorter = inp.drop_last();
        let before = spec_missing_names(shorter, out);
        assert(names_distinct(shorter)) by {
            assert forall|i: int, j: int| 0 <= i < j < shorter.len() implies (
            #[trigger] shorter[i]).0 != (#[trigger] shorter[j]).0 by {
                assert(shorter[i] == inp[i] && shorter[j] == inp[j]);
            }
        }
        lemma_missing_names(shorter, out);
        let last = inp.last().0;
        assert(inp[inp.len() - 1].0 == last);
        assert forall|k: int| 0 <= k < missing.len() implies !has_name(out, #[trigger] missing[k])
            && has_name(inp, missing[k]) by {
            if k < before.len() {
                assert(missing[k] == before[k]);
                let i = name_index(shorter, before[k]);
                assert(inp[i] == shorter[i]);
            }
        }
        assert forall|k: int, l: int| 0 <= k < l < missing.len() implies missing[k]
            != missing[l] by {
            if l == before.len() {
                assert(has_name(shorter, before[k]));
                let i = name_index(shorter, before[k]);
                assert(inp[i] == shorter[i]);
            } else {
                assert(missing[k] == before[k] && missing[l] == before[l]);
            }
        }
        assert forall|name: Seq<char>| has_name(inp, name) && !has_name(out, name) implies missing.contains(
            name,
        ) by {
            let i = name_index(inp, name);
            if i < inp.len() - 1 {
                assert(shorter[i] == inp[i]);
                assert(has_name(shorter, name));
                let k = choose|k: int| 0 <= k < before.len() && before[k] == name;
                assert(missing[k] == name);
            } else {
                assert(missing[missing.len() - 1] == name);
            }
        }
    }
}

/// Merging keeps what the merged tile's table promises: the table stays
/// valid and dense, and the names it had keep their places and ids.
pub proof fn lemma_merged_keys(out: KeySeq, inp: KeySeq)
    requires
        keys_valid(out),
        keys_dense(out),
        keys_valid(inp),
        spec_merged_keys(out, inp).len() <= u16::MAX,
    ensures
        keys_valid(spec_merged_keys(out, inp)),
        keys_dense(spec_merged_keys(out, inp)),
        keys_prefix(out, spec_merged_keys(out, inp)),
        forall|i: int| 0 <= i < inp.len() ==> has_name(spec_merged_keys(out, inp), (#[trigger] inp[i]).0),
{
    let missing = spec_missing_names(inp, out);
    let merged = spec_merged_keys(out, inp);
    lemma_missing_names(inp, out);
    assert(merged.take(out.len() as int) =~= out);
    assert forall|i: int, j: int| 0 <= i < j < merged.len() implies (#[trigger] merged[i]).0 != (
    #[trigger] merged[j]).0 by {
        if j < out.len() {
        } else if i < out.len() {
            assert(!has_name(out, missing[j - out.len()]));
        } else {
            assert(missing[i - out.len()] != missing[j - out.len()]);
        }
    }
    assert forall|i: int| 0 <= i < merged.len() implies plain_name((#[trigger] merged[i]).0) by {
        if i >= out.len() {
            let name = missing[i - out.len()];
            assert(has_name(inp, name));
            let k = name_index(inp, name);
            assert(plain_name(inp[k].0));
        }
    }
    assert forall|i: int| 0 <= i < inp.len() implies has_name(merged, (#[trigger] inp[i]).0) by {
        let name = inp[i].0;
        if has_name(out, name) {
            let k = name_index(out, name);
            assert(merged[k].0 == name);
        } else {
            assert(has_name(inp, name));
            assert(missing.contains(name));
            let k = choose|k: int| 0 <= k < missing.len() && missing[k] == name;
            assert(merged[out.len() + k].0 == name);
        }
    }
}

/// Every id of `inp` that has a name is converted to the id that the merged
/// table has for that name, which is not 0.
pub proof fn lemma_converter_maps_names(out: KeySeq, inp: KeySeq, id: int)
    requires
        keys_valid(out),
        keys_dense(out),
        keys_valid(inp),
        spec_merged_keys(out, inp).len() <= u16::MAX,
        spec_name_of(inp, id) is Some,
    ensures
        0 < id < spec_converter(spec_merged_keys(out, inp), inp).len(),
        spec_get(spec_merged_keys(out, inp), spec_name_of(inp, id)->0) == Some(
            spec_converter(spec_merged_keys(out, inp), inp)[id],
        ),
        spec_converter(spec_merged_keys(out, inp), inp)[id] != 0,
{
    let merged = spec_merged_keys(out, inp);
    lemma_merged_keys(out, inp);
    lemma_name_of(inp, id);
    lemma_max_id_bounds(inp);
    let name = spec_name_of(inp, id)->0;
    let i = choose|i: int| 0 <= i < inp.len() && (#[trigger] inp[i]).1 == id && inp[i].0 == name;
    assert(has_name(merged, inp[i].0));
    let k = name_index(merged, name);
    assert(merged[k].1 != 0);
}

/// The name of an id is the name of an entry with that id.
pub proof fn lemma_name_of(t: KeySeq, id: int)
    ensures
        spec_name_of(t, id) matches Some(name) ==> exists|i: int|
            0 <= i < t.len() && (#[trigger] t[i]).1 == id && t[i].0 == name,
        spec_name_of(t, id) is None ==> forall|i: int|
            0 <= i < t.len() ==> (#[trigger] t[i]).1 != id,
    decreases t.len(),
{
    if t.len() > 0 {
        if t.last().1 == id {
            assert(t[t.len() - 1].1 == id);
        } else {
            lemma_name_of(t.drop_last(), id);
            if spec_name_of(t, id) is Some {
                let name = spec_name_of(t, id)->0;
                let i = choose|i: int|
                    0 <= i < t.drop_last().len() && (#[trigger] t.drop_last()[i]).1 == id
                        && t.drop_last()[i].0 == name;
                assert(t[i] == t.drop_last()[i]);
            } else {
                assert forall|i: int| 0 <= i < t.len() implies (#[trigger] t[i]).1 != id by {
                    if i < t.len() - 1 {
                        assert(t[i] == t.drop_last()[i]);
                    }
                }
            }
        }
    }
}

/// Merges the names of `keys_in` into `keys_out` and builds the converter
/// from the ids of the one to those of the other. Nothing is merged where
/// the names would be more than ids exist.
pub fn merge_keys_and_build_converter(keys_out: &mut KeyTable, keys_in: &KeyTable) -> (r: Result<
    Vec<u16>,
    MergeError,
>)
    requires
        old(keys_out).wf(),
        keys_dense(old(keys_out)@),
        keys_in.wf(),
    ensures
        final(keys_out).wf(),
        keys_dense(final(keys_out)@),
        keys_prefix(old(keys_out)@, final(keys_out)@),
        r is Ok <==> spec_merged_keys(old(keys_out)@, keys_in@).len() <= u16::MAX,
        r matches Ok(converter) ==> {
            &&& final(keys_out)@ == spec_merged_keys(old(keys_out)@, keys_in@)
            &&& converter@ == spec_converter(final(keys_out)@, keys_in@)
        },
        r matches Err(e) ==> e == MergeError::KeyTableFull && final(keys_out)@ == old(keys_out)@,
{
    let ghost old_out = keys_out@;
    let ghost inp = keys_in@;
    let old_len: usize = keys_out.len();
    let len_in: usize = 1 + keys_in.max_id() as usize;
    let mut converter: Vec<u16> = vec![0u16; len_in];
    proof {
        lemma_max_id_bounds(inp);
        assert(old_out.take(old_out.len() as int) =~= old_out);
        assert(inp.take(0).len() == 0);
        if old_out.len() > 0 {
            assert(old_out[old_out.len() - 1].1 == old_out.len());
        }
        assert(keys_out@ =~= spec_extend_keys(old_out, spec_missing_names(inp.take(0), old_out)));
    }
    let mut i: usize = 0;
    while i < keys_in.len()
        invariant
            i <= inp.len(),
            inp == keys_in@,
            old_out == old(keys_out)@,
            keys_valid(inp),
            keys_valid(old_out),
            keys_dense(old_out),
            old_len == old_out.len(),
            keys_out.wf(),
            keys_out@ == spec_extend_keys(old_out, spec_missing_names(inp.take(i as int), old_out)),
            keys_out@.len() <= u16::MAX,
            converter@.len() == 1 + spec_max_id(inp),
            forall|j: int| 0 <= j < inp.len() ==> (#[trigger] inp[j]).1 <= spec_max_id(inp),
            forall|id: int|
                0 <= id < converter@.len() ==> #[trigger] converter@[id] == match spec_name_of(
                    inp.take(i as int),
                    id,
                ) {
                    Some(name) => match spec_get(keys_out@, name) {
                        Some(out_id) => out_id,
                        None => 0u16,
                    },
                    None => 0u16,
                },
            forall|id: int|
                0 <= id < converter@.len() ==> (#[trigger] spec_name_of(inp.take(i as int), id)
                    matches Some(name) ==> has_name(keys_out@, name)),
        decreases inp.len() - i,
    {
        let ghost before = keys_out@;
        let ghost missing = spec_missing_names(inp.take(i as int), old_out);
        let ghost part = inp.take(i as int);
        let ghost next_part = inp.take(i + 1);
        let name: &String = keys_in.entry_name(i);
        let in_id: u16 = keys_in.entry_id(i);
        proof {
            assert(next_part.drop_last() =~= part);
            assert(next_part.last() == inp[i as int]);
            assert(names_distinct(part)) by {
                assert forall|a: int, b: int| 0 <= a < b < part.len() implies (
                #[trigger] part[a]).0 != (#[trigger] part[b]).0 by {
                    assert(part[a] == inp[a] && part[b] == inp[b]);
                }
            }
            lemma_missing_names(part, old_out);
            // The name is in the table as it stands exactly if it was there
            // from the start: the names added so far are other names.
            if has_name(before, name@) {
                let k = name_index(before, name@);
                if k >= old_out.len() {
                    let m = missing[k - old_out.len()];
                    assert(has_name(part, m));
                    let a = name_index(part, m);
                    assert(part[a] == inp[a]);
                    assert(inp[a].0 != inp[i as int].0);
                } else {
                    assert(old_out[k].0 == name@);
                }
            }
            if has_name(old_out, name@) {
                let k = name_index(old_out, name@);
                assert(before[k] == old_out[k]);
            }
            assert(has_name(before, name@) == has_name(old_out, name@));
        }
        let out_id: u16 = match keys_out.get(name.as_str()) {
            Some(out_id) => out_id,
            None => {
                if keys_out.len() >= 65535 {
                    keys_out.truncate(old_len);
                    proof {
                        assert(before.take(old_len as int) =~= old_out);
                        assert(old_out.take(old_len as int) =~= old_out);
                        assert(spec_missing_names(next_part, old_out) == missing.push(name@));
                        lemma_missing_grows(inp, old_out, i + 1);
                        assert(before.len() == old_out.len() + missing.len());
                        assert(spec_merged_keys(old_out, inp).len() == old_out.len()
                            + spec_missing_names(inp, old_out).len());
                    }
                    return Err(MergeError::KeyTableFull);
                }
                let next_id: u16 = (keys_out.len() + 1) as u16;
                keys_out.push_new(name.clone(), next_id);
                proof {
                    assert(keys_out@ =~= spec_extend_keys(old_out, missing.push(name@)));
                    assert(keys_out@[before.len() as int].0 == name@);
                    lemma_get_at(keys_out@, before.len() as int);
                }
                next_id
            },
        };
        proof {
            assert(keys_out@ == spec_extend_keys(old_out, spec_missing_names(next_part, old_out)));
            assert(keys_prefix(before, keys_out@)) by {
                assert(keys_out@.take(before.len() as int) =~= before);
            }
            assert(spec_get(keys_out@, name@) == Some(out_id)) by {
                if has_name(before, name@) {
                    lemma_get_in_prefix(before, keys_out@, name@);
                }
            }
            assert(has_name(keys_out@, name@));
        }
        let ghost conv_before = converter@;
        converter.set(in_id as usize, out_id);
        proof {
            assert forall|id: int| 0 <= id < converter@.len() implies (#[trigger] spec_name_of(
                next_part,
                id,
            ) matches Some(n) ==> has_name(keys_out@, n)) by {
                if id != in_id {
                    if spec_name_of(part, id) is Some {
                        lemma_get_in_prefix(before, keys_out@, spec_name_of(part, id)->0);
                    }
                }
            }
            assert forall|id: int| 0 <= id < converter@.len() implies #[trigger] converter@[id]
                == match spec_name_of(next_part, id) {
                Some(n) => match spec_get(keys_out@, n) {
                    Some(out_id) => out_id,
                    None => 0u16,
                },
                None => 0u16,
            } by {
                if id != in_id {
                    assert(converter@[id] == conv_before[id]);
                    assert(spec_name_of(next_part, id) == spec_name_of(part, id));
                    if spec_name_of(part, id) is Some {
                        lemma_get_in_prefix(before, keys_out@, spec_name_of(part, id)->0);
                    }
                }
            }
        }
        i += 1;
    }
    proof {
        assert(inp.take(i as int) =~= inp);
        assert(converter@ =~= spec_converter(keys_out@, inp));
        assert(keys_out@.take(old_out.len() as int) =~= old_out);
        lemma_dense_extended(old_out, spec_missing_names(inp, old_out));
    }
    Ok(converter)
}

/// The names missing after more of `inp` was looked at are at least those
/// missing before.
pub proof fn lemma_missing_grows(inp: KeySeq, out: KeySeq, k: int)
    requires
        0 <= k <= inp.len(),
    ensures
        spec_missing_names(inp.take(k), out).len() <= spec_missing_names(inp, out).len(),
    decreases inp.len() - k,
{
    if k < inp.len() {
        lemma_missing_grows(inp, out, k + 1);
        assert(inp.take(k + 1).drop_last() =~= inp.take(k));
    } else {
        assert(inp.take(k) =~= inp);
    }
}

/// A dense table extended by new names is dense.
pub proof fn lemma_dense_extended(out: KeySeq, missing: Seq<Seq<char>>)
    requires
        keys_dense(out),
        out.len() + missing.len() <= u16::MAX,
    ensures
        keys_dense(spec_extend_keys(out, missing)),
{
}

} // verus!
