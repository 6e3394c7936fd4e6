//! Counting blocks: by biome and name in the tiles of a cache, by number
//! and data value in the regions of a world.

use crate::decimal::{parse_i32, parse_u8, spec_parse_i32, spec_parse_u8, IntParseError};
use crate::text::{find_byte, first_index_of, lemma_first_index_of, string_from_utf8};
use crate::tile::{spec_get_u16, Tile, TileView, BIOMEIDPOS};
use vstd::prelude::*;
use vstd::slice::slice_subrange;
use vstd::string::StringSliceAdditionalSpecFns;
use vstd::utf8::*;

verus! {

/// Whether a packet of this kind tells where a player is.
pub fn is_player_id(id: u8) -> (r: bool)
    ensures
        r == (id == 0x05 || id == 0x26 || id == 0x27 || id == 0x4c),
{
    id == 0x05 || id == 0x26 || id == 0x27 || id == 0x4C
}

/// The kinds of packets that a list names: numbers parted by commas. The
/// first part that is no number of a byte is the error.
pub open spec fn spec_id_filter(s: Seq<u8>) -> Result<Seq<u8>, IntParseError>
    decreases s.len(),
{
    let comma = first_index_of(s, 0x2c);
    if 0 <= comma < s.len() {
        match spec_parse_u8(s.subrange(0, comma)) {
            Err(e) => Err(e),
            Ok(id) => match spec_id_filter(s.subrange(comma + 1, s.len() as int)) {
                Err(e) => Err(e),
                Ok(rest) => Ok(seq![id] + rest),
            },
        }
    } else {
        match spec_parse_u8(s) {
            Err(e) => Err(e),
            Ok(id) => Ok(seq![id]),
        }
    }
}

/// Reads a list of kinds of packets.
pub fn parse_id_filter(filter: &str) -> (r: Result<Vec<u8>, IntParseError>)
    ensures
        match r {
            Ok(ids) => spec_id_filter(filter.spec_bytes()) == Ok::<Seq<u8>, IntParseError>(ids@),
            Err(e) => spec_id_filter(filter.spec_bytes()) == Err::<Seq<u8>, IntParseError>(e),
        },
{
    let s = filter.as_bytes();
    let mut ids: Vec<u8> = Vec::new();
    let mut pos: usize = 0;
    assert(s@.subrange(0, s@.len() as int) =~= s@);
    proof {
        match spec_id_filter(s@) {
            Ok(rest) => {
                assert(ids@ + rest =~= rest);
            },
            Err(_) => {},
        }
    }
    loop
        invariant_except_break
            s@ == filter.spec_bytes(),
            pos <= s@.len(),
            match spec_id_filter(s@.subrange(pos as int, s@.len() as int)) {
                Err(e) => spec_id_filter(s@) == Err::<Seq<u8>, IntParseError>(e),
                Ok(rest) => spec_id_filter(s@) == Ok::<Seq<u8>, IntParseError>(ids@ + rest),
            },
        ensures
            spec_id_filter(s@) == Ok::<Seq<u8>, IntParseError>(ids@),
        decreases s@.len() - pos,
    {
        let ghost here = s@.subrange(pos as int, s@.len() as int);
        let comma: usize = find_byte(s, pos, 0x2c);
        proof {
            lemma_first_index_of(here, 0x2c);
        }
        if comma < s.len() {
            let part = slice_subrange(s, pos, comma);
            assert(part@ =~= here.subrange(0, comma - pos));
            assert(s@.subrange(comma + 1, s@.len() as int) =~= here.subrange(
                comma - pos + 1,
                here.len() as int,
            ));
            match parse_u8(part) {
                Err(e) => {
                    return Err(e);
                },
                Ok(id) => {
                    let ghost before = ids@;
                    ids.push(id);
                    proof {
                        match spec_id_filter(s@.subrange(comma + 1, s@.len() as int)) {
                            Ok(rest) => {
                                assert(before + (seq![id] + rest) =~= ids@ + rest);
                            },
                            Err(_) => {},
                        }
                    }
                },
            }
            pos = comma + 1;
        } else {
            let part = slice_subrange(s, pos, s.len());
            assert(part@ =~= here);
            match parse_u8(part) {
                Err(e) => {
                    return Err(e);
                },
                Ok(id) => {
                    let ghost before = ids@;
                    ids.push(id);
                    assert(before + seq![id] =~= ids@);
                },
            }
            break;
        }
    }
    Ok(ids)
}

/// Why a file name names no region.
#[derive(Clone, Copy, Debug, PartialEq, Eq, Structural)]
pub enum RegionPathError {
    /// The name has nothing before its extension of four bytes, or no
    /// dot, or one dot only.
    MissingPart,
    BadX(IntParseError),
    BadZ(IntParseError),
}

/// The region position that a file name of the form `r.<x>.<z>.mca`
/// gives: what stands between the first and the second dot is `x`, all
/// between the second dot and the extension is `z`.
pub open spec fn spec_xz_from_region_name(name: Seq<u8>) -> Result<(i32, i32), RegionPathError> {
    if name.len() < 4 {
        Err(RegionPathError::MissingPart)
    } else {
        let stem = name.subrange(0, name.len() - 4);
        let first = first_index_of(stem, 0x2e);
        if first >= stem.len() {
            Err(RegionPathError::MissingPart)
        } else {
            let rest = stem.subrange(first + 1, stem.len() as int);
            let second = first_index_of(rest, 0x2e);
            if second >= rest.len() {
                Err(RegionPathError::MissingPart)
            } else {
                match spec_parse_i32(rest.subrange(0, second)) {
                    Err(e) => Err(RegionPathError::BadX(e)),
                    Ok(x) => match spec_parse_i32(rest.subrange(second + 1, rest.len() as int)) {
                        Err(e) => Err(RegionPathError::BadZ(e)),
                        Ok(z) => Ok((x, z)),
                    },
                }
            }
        }
    }
}

/// The position of the region in the file called `file_name`.
pub fn xz_from_region_path(file_name: &str) -> (r: Result<(i32, i32), RegionPathError>)
    ensures
        r == spec_xz_from_region_name(file_name.spec_bytes()),
{
    let name = file_name.as_bytes();
    if name.len() < 4 {
        return Err(RegionPathError::MissingPart);
    }
    let stem = slice_subrange(name, 0, name.len() - 4);
    assert(stem@.subrange(0, stem@.len() as int) =~= stem@);
    let first: usize = find_byte(stem, 0, 0x2e);
    if first >= stem.len() {
        return Err(RegionPathError::MissingPart);
    }
    let rest = slice_subrange(stem, first + 1, stem.len());
    assert(rest@.subrange(0, rest@.len() as int) =~= rest@);
    let second: usize = find_byte(rest, 0, 0x2e);
    if second >= rest.len() {
        return Err(RegionPathError::MissingPart);
    }
    let x: i32 = match parse_i32(slice_subrange(rest, 0, second)) {
        Ok(x) => x,
        Err(e) => {
            return Err(RegionPathError::BadX(e));
        },
    };
    match parse_i32(slice_subrange(rest, second + 1, rest.len())) {
        Ok(z) => Ok((x, z)),
        Err(e) => Err(RegionPathError::BadZ(e)),
    }
}

/// Whether a region lies within the border of the world: ten regions from
/// the origin each way.
pub fn region_in_border(x: i32, z: i32) -> (inside: bool)
    ensures
        inside == (-10 <= x < 10 && -10 <= z < 10),
{
    -10 <= x && x < 10 && -10 <= z && z < 10
}

/// The place in the counts of block `i` of a section: 16 times its number
/// plus its data value. The data values stand two to a byte, the value
/// of an even block in the low half.
pub open spec fn spec_block_idmeta(blocks: Seq<u8>, data: Seq<u8>, i: int) -> int {
    blocks[i] * 16 + if i % 2 == 0 {
        data[i / 2] % 16
    } else {
        data[i / 2] / 16
    }
}

/// The number of blocks among the first `n` of a section whose place in
/// the counts is `k`.
pub open spec fn spec_count_idmeta(blocks: Seq<u8>, data: Seq<u8>, k: int, n: int) -> nat
    decreases n,
{
    if n <= 0 {
        0
    } else if spec_block_idmeta(blocks, data, n - 1) == k {
        spec_count_idmeta(blocks, data, k, n - 1) + 1
    } else {
        spec_count_idmeta(blocks, data, k, n - 1)
    }
}

/// A count raised by `n`, stopping at the largest number.
pub open spec fn spec_raised(count: u64, n: nat) -> u64 {
    if count + n <= u64::MAX {
        (count + n) as u64
    } else {
        u64::MAX
    }
}

/// Number of places of the counts of a region: 256 block numbers with 16
/// data values each.
pub const IDMETA_COUNTS: usize = 4096;

/// Counts the blocks of a section.
pub fn count_section_blocks(blocks: &[u8], data: &[u8], counts: &mut Vec<u64>)
    requires
        old(counts)@.len() == IDMETA_COUNTS,
        blocks@.len() <= 2 * data@.len(),
    ensures
        final(counts)@.len() == IDMETA_COUNTS,
        forall|k: int|
            0 <= k < IDMETA_COUNTS ==> #[trigger] final(counts)@[k] == spec_raised(
                old(counts)@[k],
                spec_count_idmeta(blocks@, data@, k, blocks@.len() as int),
            ),
{
    let mut i: usize = 0;
    while i < blocks.len()
        invariant
            i <= blocks@.len(),
            blocks@.len() <= 2 * data@.len(),
            counts@.len() == IDMETA_COUNTS,
            forall|k: int|
                0 <= k < IDMETA_COUNTS ==> #[trigger] counts@[k] == spec_raised(
                    old(counts)@[k],
                    spec_count_idmeta(blocks@, data@, k, i as int),
                ),
        decreases blocks@.len() - i,
    {
        let pair: u8 = data[i / 2];
        assert(pair & 0xf == pair % 16 && pair >> 4 == pair / 16) by (bit_vector);
        let block_meta: u8 = if i % 2 == 0 {
            pair & 0xf
        } else {
            pair >> 4
        };
        let block_id: u8 = blocks[i];
        assert((block_id as usize) << 4 | (block_meta as usize) == block_id * 16 + block_meta)
            by (bit_vector)
            requires
                block_meta < 16,
        ;
        let block_idmeta: usize = (block_id as usize) << 4 | (block_meta as usize);
        let count: u64 = counts[block_idmeta];
        if count < u64::MAX {
            counts.set(block_idmeta, count + 1);
        }
        i += 1;
    }
}

/// Adds the counts of a region to the counts of the world, place by
/// place.
pub fn add_counts(total: &mut Vec<u64>, region: &[u64])
    ensures
        final(total)@.len() == old(total)@.len(),
        forall|k: int|
            0 <= k < old(total)@.len() ==> #[trigger] final(total)@[k] == if k < region@.len() {
                spec_raised(old(total)@[k], region@[k] as nat)
            } else {
                old(total)@[k]
            },
{
    let mut k: usize = 0;
    while k < total.len() && k < region.len()
        invariant
            total@.len() == old(total)@.len(),
            k <= total@.len(),
            k <= region@.len(),
            forall|j: int|
                0 <= j < total@.len() ==> #[trigger] total@[j] == if j < k {
                    spec_raised(old(total)@[j], region@[j] as nat)
                } else {
                    old(total)@[j]
                },
        decreases total@.len() - k,
    {
        let sum: u64 = if total[k] <= u64::MAX - region[k] {
            total[k] + region[k]
        } else {
            u64::MAX
        };
        total.set(k, sum);
        k += 1;
    }
}

/// The block number and the data value of a place in the counts.
pub fn split_idmeta(block_idmeta: usize) -> (r: (usize, usize))
    ensures
        r.0 == block_idmeta / 16,
        r.1 == block_idmeta % 16,
{
    assert(block_idmeta >> 4 == block_idmeta / 16 && block_idmeta & 0xf == block_idmeta % 16)
        by (bit_vector);
    (block_idmeta >> 4, block_idmeta & 0xf)
}

/// The name of a block without its properties: what stands before the
/// first `[`.
pub open spec fn spec_bare_name(name: Seq<u8>) -> Seq<u8> {
    name.subrange(0, first_index_of(name, 0x5b))
}

/// What stands before a `[` in a string is a string.
pub proof fn lemma_bare_name_is_utf8(name: Seq<u8>)
    requires
        valid_utf8(name),
    ensures
        valid_utf8(spec_bare_name(name)),
{
    lemma_first_index_of(name, 0x5b);
    let end = first_index_of(name, 0x5b);
    if end < name.len() {
        let b = name[end];
        assert(!is_continuation_byte(b)) by {
            assert(b == 0x5b ==> b & 0xC0 != 0x80) by (bit_vector);
        }
        is_char_boundary_iff_not_is_continuation_byte(name, end);
        valid_utf8_split(name, end);
    } else {
        assert(name.subrange(0, end) =~= name);
    }
}

/// The name of a block without its properties, as characters.
pub open spec fn spec_bare_chars(name: Seq<char>) -> Seq<char> {
    decode_utf8(spec_bare_name(encode_utf8(name)))
}

/// The name of a block without its properties.
pub fn bare_name(name: &str) -> (bare: String)
    ensures
        encode_utf8(bare@) == spec_bare_name(encode_utf8(name@)),
        bare@ == spec_bare_chars(name@),
{
    let bytes = name.as_bytes();
    assert(bytes@.subrange(0, bytes@.len() as int) =~= bytes@);
    let end: usize = find_byte(bytes, 0, 0x5b);
    let prefix = slice_subrange(bytes, 0, end);
    proof {
        encode_utf8_valid_utf8(name@);
        lemma_bare_name_is_utf8(bytes@);
        decode_utf8_encode_utf8(prefix@);
    }
    match string_from_utf8(prefix) {
        Some(bare) => bare,
        None => String::new(),
    }
}

/// How often a block was counted in a biome.
pub struct CountEntry {
    pub biome: u16,
    pub block: String,
    pub count: usize,
}

/// The numbers of blocks by biome and name.
pub struct BiomeBlockCounts {
    entries: Vec<CountEntry>,
}

/// How often `block` was counted in `biome`.
pub open spec fn spec_count_in(entries: Seq<CountEntry>, biome: u16, block: Seq<char>) -> nat {
    if exists|i: int|
        0 <= i < entries.len() && (#[trigger] entries[i]).biome == biome && entries[i].block@
            == block {
        let i = choose|i: int|
            0 <= i < entries.len() && (#[trigger] entries[i]).biome == biome && entries[i].block@
                == block;
        entries[i].count as nat
    } else {
        0
    }
}

/// A count raised by `n`, stopping at the largest number.
pub open spec fn spec_raised_count(count: nat, n: nat) -> nat {
    if count + n <= usize::MAX {
        count + n
    } else {
        usize::MAX as nat
    }
}

impl BiomeBlockCounts {
    /// The entries of the counts.
    pub closed spec fn entries(&self) -> Seq<CountEntry> {
        self.entries@
    }

    /// Validity of the counts: no block stands twice for one biome.
    pub closed spec fn wf(&self) -> bool {
        forall|i: int, j: int|
            0 <= i < j < self.entries@.len() ==> !((#[trigger] self.entries@[i]).biome == (
            #[trigger] self.entries@[j]).biome && self.entries@[i].block@
                == self.entries@[j].block@)
    }

    /// How often `block` was counted in `biome`.
    pub open spec fn count(&self, biome: u16, block: Seq<char>) -> nat {
        spec_count_in(self.entries(), biome, block)
    }

    pub fn len(&self) -> (n: usize)
        ensures
            n == self.entries().len(),
    {
        self.entries.len()
    }

    /// The entry at place `i`.
    pub fn entry(&self, i: usize) -> (e: &CountEntry)
        requires
            i < self.entries().len(),
        ensures
            *e == self.entries()[i as int],
    {
        &self.entries[i]
    }

    /// Counts `n` more of `block` in `biome`.
    pub fn add(&mut self, biome: u16, block: &str, n: usize)
        requires
            old(self).wf(),
        ensures
            final(self).wf(),
            forall|b: u16, name: Seq<char>|
                #[trigger] final(self).count(b, name) == if b == biome && name == block@ {
                    spec_raised_count(old(self).count(b, name), n as nat)
                } else {
                    old(self).count(b, name)
                },
    {
        let ghost before = self.entries@;
        let mut i: usize = 0;
        while i < self.entries.len() && !(self.entries[i].biome == biome && crate::text::str_eq(
            self.entries[i].block.as_str(),
            block,
        ))
            invariant
                i <= self.entries@.len(),
                self.entries@ == before,
                forall|j: int|
                    0 <= j < i ==> !((#[trigger] before[j]).biome == biome && before[j].block@
                        == block@),
            decreases self.entries@.len() - i,
        {
            i += 1;
        }
        if i < self.entries.len() {
            let old_count: usize = self.entries[i].count;
            let count: usize = if old_count <= usize::MAX - n {
                old_count + n
            } else {
                usize::MAX
            };
            self.entries[i].count = count;
            proof {
                let after = self.entries@;
                assert(after[i as int].biome == biome && after[i as int].block@ == block@);
                assert forall|b: u16, name: Seq<char>| #[trigger]
                    spec_count_in(after, b, name) == if b == biome && name == block@ {
                        spec_raised_count(spec_count_in(before, b, name), n as nat)
                    } else {
                        spec_count_in(before, b, name)
                    } by {
                    lemma_count_in_same_keys(before, after, b, name);
                    if b == biome && name == block@ {
                        lemma_count_in_at(before, i as int);
                        lemma_count_in_at(after, i as int);
                    } else if spec_count_found(before, b, name) {
                        let k = spec_count_place(before, b, name);
                        lemma_count_in_at(before, k);
                        lemma_count_in_at(after, k);
                    }
                }
            }
        } else {
            self.entries.push(CountEntry { biome, block: block.to_owned(), count: n });
            proof {
                let after = self.entries@;
                assert forall|b: u16, name: Seq<char>| #[trigger]
                    spec_count_in(after, b, name) == if b == biome && name == block@ {
                        spec_raised_count(spec_count_in(before, b, name), n as nat)
                    } else {
                        spec_count_in(before, b, name)
                    } by {
                    if b == biome && name == block@ {
                        lemma_count_in_at(after, before.len() as int);
                        assert(!spec_count_found(before, b, name));
                    } else if spec_count_found(before, b, name) {
                        let k = spec_count_place(before, b, name);
                        assert(after[k] == before[k]);
                        lemma_count_in_at(before, k);
                        lemma_count_in_at(after, k);
                    } else {
                        if spec_count_found(after, b, name) {
                            let k = spec_count_place(after, b, name);
                            assert(k < before.len());
                            assert(before[k] == after[k]);
                        }
                    }
                }
            }
        }
    }
}

/// Whether `block` was counted in `biome`.
pub open spec fn spec_count_found(entries: Seq<CountEntry>, biome: u16, block: Seq<char>) -> bool {
    exists|i: int|
        0 <= i < entries.len() && (#[trigger] entries[i]).biome == biome && entries[i].block@
            == block
}

pub open spec fn spec_count_place(entries: Seq<CountEntry>, biome: u16, block: Seq<char>) -> int {
    choose|i: int|
        0 <= i < entries.len() && (#[trigger] entries[i]).biome == biome && entries[i].block@
            == block
}

/// The count of the block of an entry is the count of the entry, where no
/// block stands twice for one biome.
pub proof fn lemma_count_in_at(entries: Seq<CountEntry>, i: int)
    requires
        0 <= i < entries.len(),
        forall|a: int, b: int|
            0 <= a < b < entries.len() ==> !((#[trigger] entries[a]).biome == (
            #[trigger] entries[b]).biome && entries[a].block@ == entries[b].block@),
    ensures
        spec_count_in(entries, entries[i].biome, entries[i].block@) == entries[i].count,
{
    let k = spec_count_place(entries, entries[i].biome, entries[i].block@);
    if k < i {
        assert(!(entries[k].biome == entries[i].biome && entries[k].block@ == entries[i].block@));
    } else if i < k {
        assert(!(entries[i].biome == entries[k].biome && entries[i].block@ == entries[k].block@));
    }
}

/// Counts with the same blocks for the same biomes know the same blocks.
pub proof fn lemma_count_in_same_keys(
    before: Seq<CountEntry>,
    after: Seq<CountEntry>,
    biome: u16,
    block: Seq<char>,
)
    requires
        before.len() == after.len(),
        forall|i: int|
            0 <= i < before.len() ==> (#[trigger] before[i]).biome == after[i].biome
                && before[i].block@ == after[i].block@,
    ensures
        spec_count_found(before, biome, block) == spec_count_found(after, biome, block),
{
    if spec_count_found(before, biome, block) {
        let k = spec_count_place(before, biome, block);
        assert(after[k].biome == biome && after[k].block@ == block);
    }
    if spec_count_found(after, biome, block) {
        let k = spec_count_place(after, biome, block);
        assert(before[k].biome == after[k].biome);
    }
}

/// Counts in which nothing is counted yet.
pub fn new_biome_block_counts() -> (counts: BiomeBlockCounts)
    ensures
        counts.wf(),
        counts.entries().len() == 0,
        forall|b: u16, name: Seq<char>| #[trigger] counts.count(b, name) == 0,
{
    BiomeBlockCounts { entries: Vec::new() }
}

/// Adds the counts of `other` to `counts`.
pub fn merge_biome_block_counts_into(counts: &mut BiomeBlockCounts, other: &BiomeBlockCounts)
    requires
        old(counts).wf(),
        other.wf(),
    ensures
        final(counts).wf(),
        forall|b: u16, name: Seq<char>|
            #[trigger] final(counts).count(b, name) == spec_raised_count(
                old(counts).count(b, name),
                other.count(b, name),
            ),
{
    let ghost start = counts.entries();
    let mut i: usize = 0;
    while i < other.len()
        invariant
            i <= other.entries().len(),
            counts.wf(),
            other.wf(),
            forall|b: u16, name: Seq<char>|
                #[trigger] counts.count(b, name) == spec_raised_count(
                    spec_count_in(start, b, name),
                    spec_count_in(other.entries().take(i as int), b, name),
                ),
        decreases other.entries().len() - i,
    {
        let e: &CountEntry = other.entry(i);
        let ghost before = counts.entries();
        counts.add(e.biome, e.block.as_str(), e.count);
        proof {
            let part = other.entries().take(i as int);
            let next = other.entries().take(i + 1);
            other.lemma_entries_distinct();
            assert forall|b: u16, name: Seq<char>| #[trigger]
                counts.count(b, name) == spec_raised_count(
                    spec_count_in(start, b, name),
                    spec_count_in(next, b, name),
                ) by {
                assert(next[i as int] == other.entries()[i as int]);
                if b == e.biome && name == e.block@ {
                    lemma_count_in_at(next, i as int);
                    if spec_count_found(part, b, name) {
                        let k = spec_count_place(part, b, name);
                        assert(part[k] == other.entries()[k]);
                    }
                } else if spec_count_found(part, b, name) {
                    let k = spec_count_place(part, b, name);
                    assert(next[k] == part[k]);
                    lemma_count_in_at(part, k);
                    lemma_count_in_at(next, k);
                } else if spec_count_found(next, b, name) {
                    let k = spec_count_place(next, b, name);
                    assert(k < i);
                    assert(part[k] == next[k]);
                }
            }
        }
        i += 1;
    }
    assert(other.entries().take(i as int) =~= other.entries());
}

impl BiomeBlockCounts {
    /// No block stands twice for one biome.
    pub proof fn lemma_entries_distinct(&self)
        requires
            self.wf(),
        ensures
            forall|a: int, b: int, n: int|
                0 <= a < b < n <= self.entries().len() ==> !((#[trigger] self.entries().take(
                    n,
                )[a]).biome == (#[trigger] self.entries().take(n)[b]).biome && self.entries().take(
                    n,
                )[a].block@ == self.entries().take(n)[b].block@),
            forall|a: int, b: int|
                0 <= a < b < self.entries().len() ==> !((#[trigger] self.entries()[a]).biome == (
                #[trigger] self.entries()[b]).biome && self.entries()[a].block@
                    == self.entries()[b].block@),
    {
        assert forall|a: int, b: int, n: int|
            0 <= a < b < n <= self.entries().len() implies !((#[trigger] self.entries().take(
            n,
        )[a]).biome == (#[trigger] self.entries().take(n)[b]).biome && self.entries().take(
            n,
        )[a].block@ == self.entries().take(n)[b].block@) by {
            assert(self.entries().take(n)[a] == self.entries()[a]);
            assert(self.entries().take(n)[b] == self.entries()[b]);
        }
    }
}

/// Block `n` of a tile: block `n % 4` of column `n / 4`.
pub open spec fn spec_tile_block(tile: TileView, n: int) -> u16 {
    spec_get_u16(tile.data, n / 4, 1 + 4 * (n % 4))
}

/// Whether block `n` of a tile counts as `block` in `biome`.
pub open spec fn spec_counts_as(tile: TileView, n: int, biome: u16, block: Seq<char>) -> bool {
    &&& spec_tile_block(tile, n) != 0
    &&& spec_get_u16(tile.data, n / 4, BIOMEIDPOS as int) == biome
    &&& spec_bare_chars(tile.names[spec_tile_block(tile, n) as int]) == block
}

/// How many of the first `n` blocks of a tile count as `block` in
/// `biome`.
pub open spec fn spec_tile_counted(tile: TileView, n: int, biome: u16, block: Seq<char>) -> nat
    decreases n,
{
    if n <= 0 {
        0
    } else if spec_counts_as(tile, n - 1, biome, block) {
        spec_tile_counted(tile, n - 1, biome, block) + 1
    } else {
        spec_tile_counted(tile, n - 1, biome, block)
    }
}

/// Whether each of the first `n` blocks of a tile has a place among the
/// names.
pub open spec fn spec_blocks_named(tile: TileView, n: int) -> bool {
    forall|k: int|
        0 <= k < n ==> #[trigger] spec_tile_block(tile, k) == 0 || spec_tile_block(tile, k)
            < tile.names.len()
}

/// Why the blocks of a tile cannot be counted.
#[derive(Clone, Copy, Debug, PartialEq, Eq, Structural)]
pub enum CountError {
    /// A block has an id beyond the names of the tile.
    UnnamedBlock,
}

pub proof fn lemma_tile_counted_bound(tile: TileView, n: int, biome: u16, block: Seq<char>)
    requires
        0 <= n,
    ensures
        spec_tile_counted(tile, n, biome, block) <= n,
    decreases n,
{
    if n > 0 {
        lemma_tile_counted_bound(tile, n - 1, biome, block);
    }
}

/// Counts the blocks of a tile by biome and name: the four blocks of
/// every column, each under its name without properties.
pub fn count_tile(tile: &Tile) -> (r: Result<BiomeBlockCounts, CountError>)
    requires
        tile.wf(),
    ensures
        r is Ok <==> spec_blocks_named(tile@, 262144),
        r matches Ok(counts) ==> counts.wf() && forall|b: u16, name: Seq<char>|
            #[trigger] counts.count(b, name) == spec_tile_counted(tile@, 262144, b, name),
{
    let mut counts = new_biome_block_counts();
    let names = tile.names();
    let mut n: usize = 0;
    while n < 262144
        invariant
            n <= 262144,
            tile.wf(),
            Seq::new(names@.len(), |i: int| names@[i]@) == tile@.names,
            counts.wf(),
            spec_blocks_named(tile@, n as int),
            forall|b: u16, name: Seq<char>|
                #[trigger] counts.count(b, name) == spec_tile_counted(tile@, n as int, b, name),
        decreases 262144 - n,
    {
        let column_nr: usize = n / 4;
        let block_nr: u16 = tile.get_u16(column_nr, 1 + 4 * (n % 4));
        assert(block_nr == spec_tile_block(tile@, n as int));
        if block_nr != 0 {
            if block_nr as usize >= names.len() {
                assert(!spec_blocks_named(tile@, 262144));
                return Err(CountError::UnnamedBlock);
            }
            let biome: u16 = tile.get_biome_id(column_nr);
            let block: String = bare_name(names[block_nr as usize].as_str());
            assert(tile@.names[block_nr as int] == names@[block_nr as int]@);
            counts.add(biome, block.as_str(), 1);
            proof {
                assert forall|b: u16, name: Seq<char>| #[trigger]
                    counts.count(b, name) == spec_tile_counted(tile@, n + 1, b, name) by {
                    lemma_tile_counted_bound(tile@, n as int, b, name);
                }
            }
        }
        n += 1;
    }
    Ok(counts)
}

/// The sum of the counts of the first `n` entries for one biome, stopping
/// at the largest number.
pub open spec fn spec_biome_total(entries: Seq<CountEntry>, biome: u16, n: int) -> nat
    decreases n,
{
    if n <= 0 {
        0
    } else if entries[n - 1].biome == biome {
        spec_raised_count(spec_biome_total(entries, biome, n - 1), entries[n - 1].count as nat)
    } else {
        spec_biome_total(entries, biome, n - 1)
    }
}

/// The number of blocks counted in one biome.
pub fn biome_total(counts: &BiomeBlockCounts, biome: u16) -> (total: usize)
    ensures
        total == spec_biome_total(counts.entries(), biome, counts.entries().len() as int),
{
    let mut total: usize = 0;
    let mut i: usize = 0;
    while i < counts.len()
        invariant
            i <= counts.entries().len(),
            total == spec_biome_total(counts.entries(), biome, i as int),
        decreases counts.entries().len() - i,
    {
        let e: &CountEntry = counts.entry(i);
        if e.biome == biome {
            total = if total <= usize::MAX - e.count {
                total + e.count
            } else {
                usize::MAX
            };
        }
        i += 1;
    }
    total
}

} // verus!
