//! Around the merges of a run: which files are tiles, which tiles lie in
//! the bounds, which files belong to one position, in what order the
//! positions are taken, and what is reported at the end.

use crate::decimal::{
    lemma_decimal_digits, push_decimal, spec_decimal, spec_parse_i32, IntParseError,
};
use crate::sort::{
    descending_order, spec_descending_order, spec_is_descending_order, spec_place_ints,
};
use crate::text::{
    first_index_of, has_suffix, lemma_ascii_is_utf8, lemma_first_index_of_is, spec_has_suffix,
    str_eq, string_from_utf8,
};
use crate::tile::TilePos;
use crate::tile_path::{get_xz_from_tile_path, spec_stem, spec_xz_from_name, TilePathError};
use vstd::prelude::*;
use vstd::string::StringSliceAdditionalSpecFns;
use vstd::utf8::*;

verus! {

/// What a file of a cache directory is.
#[derive(Clone, Copy, Debug, PartialEq, Eq)]
pub enum DirEntryKind {
    /// A tile file of this position.
    Tile(TilePos),
    /// A file named like a tile that is no archive: it is reported and
    /// left out.
    NotZip(TilePos),
    /// The file of chunk times that lies beside the tiles: it is left out
    /// and not reported.
    ChunkTimes,
    /// Any other file: it is left out, and reported on request.
    NotTile(TilePathError),
}

/// What a file is, by its name.
pub open spec fn spec_classify(name: Seq<u8>) -> DirEntryKind {
    match spec_xz_from_name(name) {
        Ok(pos) => if spec_has_suffix(name, encode_utf8(".zip"@)) {
            DirEntryKind::Tile(pos)
        } else {
            DirEntryKind::NotZip(pos)
        },
        Err(e) => if spec_has_suffix(name, encode_utf8("_chunk-times.gz"@)) {
            DirEntryKind::ChunkTimes
        } else {
            DirEntryKind::NotTile(e)
        },
    }
}

/// What the file called `file_name` is.
pub fn classify_dir_entry(file_name: &str) -> (kind: DirEntryKind)
    ensures
        kind == spec_classify(file_name.spec_bytes()),
{
    match get_xz_from_tile_path(file_name) {
        Ok(pos) => if has_suffix(file_name.as_bytes(), ".zip".as_bytes()) {
            DirEntryKind::Tile(pos)
        } else {
            DirEntryKind::NotZip(pos)
        },
        Err(e) => if has_suffix(file_name.as_bytes(), "_chunk-times.gz".as_bytes()) {
            DirEntryKind::ChunkTimes
        } else {
            DirEntryKind::NotTile(e)
        },
    }
}

/// The files of one tile position, by their places in the list of files.
pub struct TileGroup {
    pub pos: TilePos,
    pub members: Vec<usize>,
}

/// Whether `groups` parts the files at `positions` by position: every file
/// is in the group of its position and in no other, no group is empty, no
/// two groups have one position, the files of a group stand in the order
/// of the list, and so do the groups by their first files.
pub open spec fn spec_is_grouping(positions: Seq<TilePos>, groups: Seq<TileGroup>) -> bool {
    &&& forall|g: int| 0 <= g < groups.len() ==> (#[trigger] groups[g]).members@.len() > 0
    &&& forall|g: int, m: int|
        0 <= g < groups.len() && 0 <= m < groups[g].members@.len() ==> (
        #[trigger] groups[g].members@[m]) < positions.len()
            && positions[groups[g].members@[m] as int] == groups[g].pos
    &&& forall|g: int, m: int, n: int|
        0 <= g < groups.len() && 0 <= m < n < groups[g].members@.len() ==> (
        #[trigger] groups[g].members@[m]) < (#[trigger] groups[g].members@[n])
    &&& forall|g: int, h: int|
        0 <= g < h < groups.len() ==> (#[trigger] groups[g]).pos != (#[trigger] groups[h]).pos
            && groups[g].members@[0] < groups[h].members@[0]
    &&& forall|i: int| 0 <= i < positions.len() ==> #[trigger] spec_grouped(groups, i)
}

/// Whether the file at place `i` is in one of the groups.
pub open spec fn spec_grouped(groups: Seq<TileGroup>, i: int) -> bool {
    exists|g: int, m: int|
        0 <= g < groups.len() && 0 <= m < groups[g].members@.len() && (
        #[trigger] groups[g].members@[m]) == i
}

/// Parts the files at `positions` by position.
pub fn group_by_pos(positions: &Vec<TilePos>) -> (groups: Vec<TileGroup>)
    ensures
        spec_is_grouping(positions@, groups@),
{
    let mut groups: Vec<TileGroup> = Vec::new();
    let mut i: usize = 0;
    while i < positions.len()
        invariant
            i <= positions@.len(),
            spec_is_grouping(positions@.take(i as int), groups@),
        decreases positions@.len() - i,
    {
        let ghost before = groups@;
        let ghost part = positions@.take(i as int);
        let ghost next_part = positions@.take(i + 1);
        let pos: TilePos = positions[i];
        let mut g: usize = 0;
        while g < groups.len() && !(groups[g].pos.0 == pos.0 && groups[g].pos.1 == pos.1)
            invariant
                g <= groups@.len(),
                forall|h: int| 0 <= h < g ==> (#[trigger] groups@[h]).pos != pos,
            decreases groups@.len() - g,
        {
            g += 1;
        }
        if g < groups.len() {
            groups[g].members.push(i);
            proof {
                let after = groups@;
                assert(after[g as int].members@ == before[g as int].members@.push(i));
                assert forall|h: int, m: int|
                    0 <= h < after.len() && 0 <= m < after[h].members@.len() implies (
                #[trigger] after[h].members@[m]) < next_part.len()
                    && next_part[after[h].members@[m] as int] == after[h].pos by {
                    if h == g && m == before[g as int].members@.len() {
                    } else {
                        assert(before[h].members@[m] == after[h].members@[m]);
                        assert(part[before[h].members@[m] as int] == before[h].pos);
                    }
                }
                assert forall|h: int, m: int, n: int|
                    0 <= h < after.len() && 0 <= m < n < after[h].members@.len() implies (
                #[trigger] after[h].members@[m]) < (#[trigger] after[h].members@[n]) by {
                    if h == g && n == before[g as int].members@.len() {
                        assert(before[h].members@[m] == after[h].members@[m]);
                        assert(before[h].members@[m] < part.len());
                    } else {
                        assert(before[h].members@[m] == after[h].members@[m]);
                        assert(before[h].members@[n] == after[h].members@[n]);
                    }
                }
                assert forall|h: int, k: int| 0 <= h < k < after.len() implies (
                #[trigger] after[h]).pos != (#[trigger] after[k]).pos && after[h].members@[0]
                    < after[k].members@[0] by {
                    assert(before[h].pos != before[k].pos);
                    assert(before[h].members@[0] == after[h].members@[0]);
                    assert(before[k].members@[0] == after[k].members@[0]);
                }
                assert forall|j: int| 0 <= j < next_part.len() implies #[trigger] spec_grouped(
                    after,
                    j,
                ) by {
                    if j == i {
                        assert(after[g as int].members@[before[g as int].members@.len() as int]
                            == i);
                    } else {
                        assert(spec_grouped(before, j));
                        let (h, m) = choose|h: int, m: int|
                            0 <= h < before.len() && 0 <= m < before[h].members@.len() && (
                            #[trigger] before[h].members@[m]) == j;
                        assert(after[h].members@[m] == j);
                    }
                }
                assert forall|h: int| 0 <= h < after.len() implies (#[trigger] after[h]).members@.len()
                    > 0 by {
                    assert(before[h].members@.len() > 0);
                }
            }
        } else {
            let mut members: Vec<usize> = Vec::new();
            members.push(i);
            groups.push(TileGroup { pos, members });
            proof {
                let after = groups@;
                assert forall|h: int, m: int|
                    0 <= h < after.len() && 0 <= m < after[h].members@.len() implies (
                #[trigger] after[h].members@[m]) < next_part.len()
                    && next_part[after[h].members@[m] as int] == after[h].pos by {
                    if h < before.len() {
                        assert(after[h] == before[h]);
                        assert(part[before[h].members@[m] as int] == before[h].pos);
                    }
                }
                assert forall|h: int, m: int, n: int|
                    0 <= h < after.len() && 0 <= m < n < after[h].members@.len() implies (
                #[trigger] after[h].members@[m]) < (#[trigger] after[h].members@[n]) by {
                    assert(after[h] == before[h]);
                }
                assert forall|h: int, k: int| 0 <= h < k < after.len() implies (
                #[trigger] after[h]).pos != (#[trigger] after[k]).pos && after[h].members@[0]
                    < after[k].members@[0] by {
                    assert(after[h] == before[h]);
                    if k < before.len() {
                        assert(after[k] == before[k]);
                    } else {
                        assert(before[h].members@.len() > 0);
                        assert(before[h].members@[0] < part.len());
                    }
                }
                assert forall|j: int| 0 <= j < next_part.len() implies #[trigger] spec_grouped(
                    after,
                    j,
                ) by {
                    if j == i {
                        assert(after[before.len() as int].members@[0] == i);
                    } else {
                        assert(spec_grouped(before, j));
                        let (h, m) = choose|h: int, m: int|
                            0 <= h < before.len() && 0 <= m < before[h].members@.len() && (
                            #[trigger] before[h].members@[m]) == j;
                        assert(after[h] == before[h]);
                        assert(after[h].members@[m] == j);
                    }
                }
                assert forall|h: int| 0 <= h < after.len() implies (#[trigger] after[h]).members@.len()
                    > 0 by {
                    if h < before.len() {
                        assert(after[h] == before[h]);
                    }
                }
            }
        }
        i += 1;
    }
    assert(positions@.take(i as int) =~= positions@);
    groups
}

pub open spec fn spec_group_sizes(groups: Seq<TileGroup>) -> Seq<int> {
    Seq::new(groups.len(), |g: int| groups[g].members@.len() as int)
}

/// The order in which the positions are merged: the places of the groups,
/// those with the most files first, groups of one size in the order given.
/// The order only serves to start the longest merges first.
pub fn most_contested_first(groups: &Vec<TileGroup>) -> (order: Vec<usize>)
    ensures
        order@.len() == groups@.len(),
        spec_place_ints(order@) == spec_descending_order(
            spec_group_sizes(groups@),
            groups@.len() as int,
        ),
        spec_is_descending_order(
            spec_group_sizes(groups@),
            spec_place_ints(order@),
            groups@.len() as int,
        ),
        forall|i: int| 0 <= i < order@.len() ==> #[trigger] order@[i] < groups@.len(),
{
    let mut sizes: Vec<i128> = Vec::new();
    let mut g: usize = 0;
    while g < groups.len()
        invariant
            g <= groups@.len(),
            sizes@.len() == g,
            forall|h: int| 0 <= h < g ==> #[trigger] sizes@[h] == groups@[h].members@.len(),
        decreases groups@.len() - g,
    {
        sizes.push(groups[g].members.len() as i128);
        g += 1;
    }
    assert(crate::sort::spec_key_ints(sizes@) =~= spec_group_sizes(groups@));
    descending_order(&sizes)
}

/// The digits of a number with its sign.
pub open spec fn spec_decimal_int(v: int) -> Seq<u8> {
    if v < 0 {
        seq![0x2du8] + spec_decimal((-v) as nat)
    } else {
        spec_decimal(v as nat)
    }
}

/// The name of the file of the merged tile at `pos`: `<x>,<z>.zip`.
pub open spec fn spec_tile_file_name(pos: TilePos) -> Seq<u8> {
    spec_decimal_int(pos.0 as int) + seq![0x2cu8] + spec_decimal_int(pos.1 as int) + seq![
        0x2eu8,
        0x7au8,
        0x69u8,
        0x70u8,
    ]
}

/// A number written with its sign is read as that number, and holds
/// nothing but the sign and digits.
pub proof fn lemma_parse_decimal_int(v: i32)
    ensures
        spec_parse_i32(spec_decimal_int(v as int)) == Ok::<i32, IntParseError>(v),
        forall|i: int|
            0 <= i < spec_decimal_int(v as int).len() ==> #[trigger] spec_decimal_int(v as int)[i]
                != 0x2c && spec_decimal_int(v as int)[i] < 0x80,
{
    let s = spec_decimal_int(v as int);
    if v < 0 {
        let digits = spec_decimal((-v) as nat);
        lemma_decimal_digits((-v) as nat);
        assert(s.subrange(1, s.len() as int) =~= digits);
        assert forall|i: int| 0 <= i < s.len() implies #[trigger] s[i] != 0x2c && s[i] < 0x80 by {
            if i > 0 {
                assert(s[i] == digits[i - 1]);
            }
        }
    } else {
        lemma_decimal_digits(v as nat);
        assert(crate::decimal::is_digit(s[0]));
    }
}

/// The name made for a position is read as that position.
pub proof fn lemma_tile_file_name(pos: TilePos)
    ensures
        spec_xz_from_name(spec_tile_file_name(pos)) == Ok::<TilePos, TilePathError>(pos),
        spec_has_suffix(spec_tile_file_name(pos), seq![0x2eu8, 0x7au8, 0x69u8, 0x70u8]),
        forall|i: int|
            0 <= i < spec_tile_file_name(pos).len() ==> #[trigger] spec_tile_file_name(pos)[i]
                < 0x80,
{
    let x = spec_decimal_int(pos.0 as int);
    let z = spec_decimal_int(pos.1 as int);
    let name = spec_tile_file_name(pos);
    lemma_parse_decimal_int(pos.0);
    lemma_parse_decimal_int(pos.1);
    let stem = spec_stem(name);
    assert(stem =~= x + seq![0x2cu8] + z);
    assert(first_index_of(stem, 0x2c) == x.len()) by {
        assert forall|j: int| 0 <= j < x.len() implies stem[j] != 0x2c by {
            assert(stem[j] == x[j]);
        }
        lemma_first_index_of_is(stem, 0x2c, x.len() as int);
    }
    assert(stem.subrange(0, x.len() as int) =~= x);
    let rest = stem.subrange(x.len() as int + 1, stem.len() as int);
    assert(rest =~= z);
    assert(first_index_of(rest, 0x2c) == rest.len()) by {
        lemma_first_index_of_is(rest, 0x2c, rest.len() as int);
    }
    assert(rest.subrange(0, rest.len() as int) =~= z);
    assert(name.subrange(name.len() - 4, name.len() as int) =~= seq![
        0x2eu8,
        0x7au8,
        0x69u8,
        0x70u8,
    ]);
    assert forall|i: int| 0 <= i < name.len() implies #[trigger] name[i] < 0x80 by {
        if i < x.len() {
            assert(name[i] == x[i]);
        } else if i == x.len() {
        } else if i < x.len() + 1 + z.len() {
            assert(name[i] == z[i - x.len() - 1]);
        }
    }
}

/// Appends a number with its sign.
pub fn push_decimal_int(out: &mut Vec<u8>, v: i32)
    ensures
        final(out)@ == old(out)@ + spec_decimal_int(v as int),
{
    if v < 0 {
        out.push(0x2d);
        push_decimal(out, (-(v as i64)) as u64);
        assert(out@ =~= old(out)@ + spec_decimal_int(v as int));
    } else {
        push_decimal(out, v as u64);
    }
}

/// The name of the file of the merged tile at `pos`.
pub fn tile_file_name(pos: TilePos) -> (name: String)
    ensures
        encode_utf8(name@) == spec_tile_file_name(pos),
{
    let mut bytes: Vec<u8> = Vec::new();
    push_decimal_int(&mut bytes, pos.0);
    bytes.push(0x2c);
    push_decimal_int(&mut bytes, pos.1);
    bytes.push(0x2e);
    bytes.push(0x7a);
    bytes.push(0x69);
    bytes.push(0x70);
    proof {
        assert(bytes@ =~= spec_tile_file_name(pos));
        lemma_tile_file_name(pos);
        lemma_ascii_is_utf8(bytes@);
        decode_utf8_encode_utf8(bytes@);
    }
    match string_from_utf8(bytes.as_slice()) {
        Some(name) => name,
        None => String::new(),
    }
}

/// For each contributor, how many of its files were given up and why the
/// first of them was.
pub struct SkipSummary {
    names: Vec<String>,
    counts: Vec<usize>,
    messages: Vec<String>,
}

impl View for SkipSummary {
    type V = Seq<(Seq<char>, nat, Seq<char>)>;

    closed spec fn view(&self) -> Seq<(Seq<char>, nat, Seq<char>)> {
        Seq::new(
            self.names@.len(),
            |i: int| (self.names@[i]@, self.counts@[i] as nat, self.messages@[i]@),
        )
    }
}

/// Whether the summary knows the contributor.
pub open spec fn spec_has_contributor(s: Seq<(Seq<char>, nat, Seq<char>)>, name: Seq<char>) -> bool {
    exists|i: int| 0 <= i < s.len() && (#[trigger] s[i]).0 == name
}

/// The summary after one more file of the contributor `name` was given up
/// with the reason `message`. The count stops at the largest number.
pub open spec fn spec_record_skip(
    s: Seq<(Seq<char>, nat, Seq<char>)>,
    name: Seq<char>,
    message: Seq<char>,
) -> Seq<(Seq<char>, nat, Seq<char>)> {
    if spec_has_contributor(s, name) {
        let i = choose|i: int| 0 <= i < s.len() && (#[trigger] s[i]).0 == name;
        s.update(
            i,
            (
                name,
                if s[i].1 < usize::MAX {
                    s[i].1 + 1
                } else {
                    s[i].1
                },
                s[i].2,
            ),
        )
    } else {
        s.push((name, 1nat, message))
    }
}

impl SkipSummary {
    /// Validity of a summary: no contributor stands in it twice.
    pub closed spec fn wf(&self) -> bool {
        &&& self.names@.len() == self.counts@.len()
        &&& self.names@.len() == self.messages@.len()
        &&& forall|i: int, j: int|
            0 <= i < j < self.names@.len() ==> (#[trigger] self.names@[i])@ != (
            #[trigger] self.names@[j])@
    }

    pub fn new() -> (s: SkipSummary)
        ensures
            s.wf(),
            s@.len() == 0,
    {
        SkipSummary { names: Vec::new(), counts: Vec::new(), messages: Vec::new() }
    }

    /// Counts one more file of `contributor` given up. Says whether it is
    /// the contributor's first, the one whose reason is reported.
    pub fn record(&mut self, contributor: &str, message: &str) -> (first: bool)
        requires
            old(self).wf(),
        ensures
            final(self).wf(),
            first == !spec_has_contributor(old(self)@, contributor@),
            final(self)@ == spec_record_skip(old(self)@, contributor@, message@),
    {
        let ghost before = self@;
        let mut i: usize = 0;
        while i < self.names.len() && !str_eq(self.names[i].as_str(), contributor)
            invariant
                i <= self.names@.len(),
                forall|j: int| 0 <= j < i ==> (#[trigger] self.names@[j])@ != contributor@,
            decreases self.names@.len() - i,
        {
            i += 1;
        }
        if i < self.names.len() {
            proof {
                assert(before[i as int].0 == contributor@);
                let k = choose|k: int| 0 <= k < before.len() && (#[trigger] before[k]).0
                    == contributor@;
                if k != i {
                    assert(self.names@[k]@ == before[k].0);
                    assert(self.names@[i as int]@ == before[i as int].0);
                }
            }
            let count: usize = self.counts[i];
            if count < usize::MAX {
                self.counts.set(i, count + 1);
            }
            assert(self@ =~= spec_record_skip(before, contributor@, message@));
            false
        } else {
            proof {
                if spec_has_contributor(before, contributor@) {
                    let k = choose|k: int| 0 <= k < before.len() && (#[trigger] before[k]).0
                        == contributor@;
                    assert(self.names@[k]@ == contributor@);
                }
            }
            self.names.push(contributor.to_owned());
            self.counts.push(1);
            self.messages.push(message.to_owned());
            assert(self@ =~= spec_record_skip(before, contributor@, message@));
            true
        }
    }

    /// The number of contributors in the summary.
    pub fn len(&self) -> (n: usize)
        requires
            self.wf(),
        ensures
            n == self@.len(),
    {
        self.names.len()
    }

    /// The contributor at place `i`, the number of its files given up,
    /// and the reason of the first.
    pub fn entry(&self, i: usize) -> (e: (&String, usize, &String))
        requires
            self.wf(),
            i < self@.len(),
        ensures
            e.0@ == self@[i as int].0,
            e.1 == self@[i as int].1,
            e.2@ == self@[i as int].2,
    {
        (&self.names[i], self.counts[i], &self.messages[i])
    }
}

/// Seconds between two progress lines.
pub const PROGRESS_INTERVAL: u64 = 3;

/// Whether a progress line is due after `done` of `total` items took
/// `elapsed` seconds: the first item is done, and the time `next` of the
/// next line has come.
pub open spec fn spec_progress_due(done: int, total: int, elapsed: int, next: int) -> bool {
    total > 0 && 0 < done <= total && elapsed >= next
}

/// The seconds that the rest will take at the pace so far.
pub open spec fn spec_seconds_left(done: int, total: int, elapsed: int) -> int {
    elapsed * (total - done) / done
}

/// The time at and after which the next line is due, after a line was due
/// at `elapsed`.
pub open spec fn spec_next_progress(elapsed: int, interval: int) -> int {
    if elapsed + interval <= u64::MAX {
        elapsed + interval
    } else {
        u64::MAX as int
    }
}

/// Decides whether a progress line is due, and what it says: the minutes
/// and seconds left. Where a line is due the time of the next is set,
/// `interval` seconds on.
pub fn progress_left_every(
    done: usize,
    total: usize,
    elapsed: u64,
    next_msg_elapsed: &mut u64,
    interval: u64,
) -> (left: Option<(u128, u128)>)
    ensures
        left is Some <==> spec_progress_due(
            done as int,
            total as int,
            elapsed as int,
            *old(next_msg_elapsed) as int,
        ),
        left is None ==> *final(next_msg_elapsed) == *old(next_msg_elapsed),
        left matches Some((min, sec)) ==> {
            &&& min == spec_seconds_left(done as int, total as int, elapsed as int) / 60
            &&& sec == spec_seconds_left(done as int, total as int, elapsed as int) % 60
            &&& *final(next_msg_elapsed) == spec_next_progress(elapsed as int, interval as int)
        },
{
    if total == 0 || done == 0 || done > total {
        return None;
    }
    if elapsed < *next_msg_elapsed {
        return None;
    }
    *next_msg_elapsed = if elapsed <= u64::MAX - interval {
        elapsed + interval
    } else {
        u64::MAX
    };
    let work_left: u128 = (total - done) as u128;
    assert(elapsed as u128 * work_left <= 0xffff_ffff_ffff_ffff * 0xffff_ffff_ffff_ffff)
        by (nonlinear_arith)
        requires
            elapsed <= 0xffff_ffff_ffff_ffff,
            work_left <= 0xffff_ffff_ffff_ffff,
    ;
    let sec_left: u128 = elapsed as u128 * work_left / done as u128;
    Some((sec_left / 60, sec_left % 60))
}

/// Decides whether a progress line is due, a line every
/// `PROGRESS_INTERVAL` seconds.
pub fn progress_left(done: usize, total: usize, elapsed: u64, next_msg_elapsed: &mut u64) -> (left:
    Option<(u128, u128)>)
    ensures
        left is Some <==> spec_progress_due(
            done as int,
            total as int,
            elapsed as int,
            *old(next_msg_elapsed) as int,
        ),
        left is None ==> *final(next_msg_elapsed) == *old(next_msg_elapsed),
        left matches Some((min, sec)) ==> {
            &&& min == spec_seconds_left(done as int, total as int, elapsed as int) / 60
            &&& sec == spec_seconds_left(done as int, total as int, elapsed as int) % 60
            &&& *final(next_msg_elapsed) == spec_next_progress(
                elapsed as int,
                PROGRESS_INTERVAL as int,
            )
        },
{
    progress_left_every(done, total, elapsed, next_msg_elapsed, PROGRESS_INTERVAL)
}

/// Minutes and seconds of a number of seconds.
pub fn minutes_seconds(secs: u64) -> (r: (u64, u64))
    ensures
        r.0 == secs / 60,
        r.1 == secs % 60,
{
    (secs / 60, secs % 60)
}

/// The milliseconds that one item took where `items` items took
/// `elapsed_nanos` nanoseconds; 0 where there was no item.
pub fn millis_per_item(elapsed_nanos: u128, items: usize) -> (ms: u128)
    ensures
        ms == if items == 0 {
            0
        } else {
            elapsed_nanos as int / items as int / 1_000_000
        },
{
    if items == 0 {
        0
    } else {
        elapsed_nanos / items as u128 / 1_000_000
    }
}

} // verus!
