//! The merge of all the records of one tile position.

use crate::archive::archive_entry;
use crate::codec::{
    read_tile, spec_holds_tile, spec_opt, spec_read_tile, spec_write_tile, write_tile,
    FormatError,
};
use crate::converter::{keys_prefix, MergeError};
use crate::keyless::spec_name_views;
use crate::keys::keys_dense;
use crate::merge::{merge_two_tiles, spec_merge_done, spec_merge_two};
use crate::recency::{newer, recency_order, spec_newer, spec_recency_order, Mtime};
use crate::sort::spec_place_ints;
use crate::tile::{Tile, TileView, TILE_BYTES, TILE_CHUNKS};
use vstd::prelude::*;

verus! {

/// Why a record took no part in a merge.
pub enum SkipReason {
    /// The file could not be read, or not be linked; the text says why.
    Io(String),
    /// The file is no tile file.
    Format(FormatError),
    /// The record could not be merged.
    Merge(MergeError),
}

pub enum SkipReasonView {
    Io(Seq<char>),
    Format(FormatError),
    Merge(MergeError),
}

impl View for SkipReason {
    type V = SkipReasonView;

    open spec fn view(&self) -> SkipReasonView {
        match *self {
            SkipReason::Io(text) => SkipReasonView::Io(text@),
            SkipReason::Format(e) => SkipReasonView::Format(e),
            SkipReason::Merge(e) => SkipReasonView::Merge(e),
        }
    }
}

/// The text that a reason is reported with.
pub open spec fn spec_skip_message(reason: SkipReasonView) -> Seq<char> {
    match reason {
        SkipReasonView::Io(text) => text,
        SkipReasonView::Format(FormatError::Unreadable) => "not a readable tile archive"@,
        SkipReasonView::Format(FormatError::MissingData) => "No data file in tile zip"@,
        SkipReasonView::Format(FormatError::BadControl) => "malformed control file in tile zip"@,
        SkipReasonView::Format(FormatError::UnsupportedVersion) => "unsupported tile version"@,
        SkipReasonView::Format(FormatError::BadKey(_)) => "malformed key file in tile zip"@,
        SkipReasonView::Format(FormatError::WrongDataLength) => "data file has the wrong length"@,
        SkipReasonView::Merge(MergeError::CorruptData) => "corrupt data: block id out of range"@,
        SkipReasonView::Merge(MergeError::Logic) => "block id without a name"@,
        SkipReasonView::Merge(MergeError::KeyTableFull) => "too many block names"@,
    }
}

impl SkipReason {
    /// The text that the reason is reported with.
    pub fn message(&self) -> (text: String)
        ensures
            text@ == spec_skip_message(self@),
    {
        match self {
            SkipReason::Io(text) => text.clone(),
            SkipReason::Format(FormatError::Unreadable) => "not a readable tile archive".to_owned(),
            SkipReason::Format(FormatError::MissingData) => "No data file in tile zip".to_owned(),
            SkipReason::Format(FormatError::BadControl) => "malformed control file in tile zip".to_owned(),
            SkipReason::Format(FormatError::UnsupportedVersion) => "unsupported tile version".to_owned(),
            SkipReason::Format(FormatError::BadKey(_)) => "malformed key file in tile zip".to_owned(),
            SkipReason::Format(FormatError::WrongDataLength) => "data file has the wrong length".to_owned(),
            SkipReason::Merge(MergeError::CorruptData) => "corrupt data: block id out of range".to_owned(),
            SkipReason::Merge(MergeError::Logic) => "block id without a name".to_owned(),
            SkipReason::Merge(MergeError::KeyTableFull) => "too many block names".to_owned(),
        }
    }
}

/// What a merge holds at one moment.
pub struct AccumulatorView {
    /// The merged tile.
    pub tile: TileView,
    /// For each chunk, whether a record has filled it.
    pub done: Seq<bool>,
    /// The records merged, in the order of merging.
    pub used: Seq<Seq<char>>,
    /// The time of the oldest record merged.
    pub oldest_used: Option<Mtime>,
    /// The records given up, each with the reason.
    pub skipped: Seq<(Seq<char>, SkipReasonView)>,
}

/// The merge before the first record: an empty tile, no chunk resolved.
pub open spec fn spec_new_accumulator() -> AccumulatorView {
    AccumulatorView {
        tile: TileView {
            data: Seq::new(TILE_BYTES as nat, |i: int| 0u8),
            keys: Seq::empty(),
            names: Seq::empty(),
            pos: None,
            source: None,
        },
        done: Seq::new(TILE_CHUNKS as nat, |c: int| false),
        used: Seq::empty(),
        oldest_used: None,
        skipped: Seq::empty(),
    }
}

/// Whether every chunk is resolved, so that no further record can add
/// anything.
pub open spec fn spec_complete(done: Seq<bool>) -> bool {
    forall|c: int| 0 <= c < done.len() ==> #[trigger] done[c]
}

/// The number of chunks below `n` that are not resolved.
pub open spec fn spec_count_unresolved(done: Seq<bool>, n: int) -> nat
    decreases n,
{
    if n <= 0 {
        0
    } else if done[n - 1] {
        spec_count_unresolved(done, n - 1)
    } else {
        spec_count_unresolved(done, n - 1) + 1
    }
}

/// The older of a time and the oldest so far.
pub open spec fn spec_oldest(oldest: Option<Mtime>, mtime: Mtime) -> Option<Mtime> {
    match oldest {
        None => Some(mtime),
        Some(o) => if spec_newer(o, mtime) {
            Some(mtime)
        } else {
            Some(o)
        },
    }
}

/// The merge after the record `path`, written at `mtime`, was handed in
/// with what reading it gave. A record that could not be read, and one that
/// cannot be merged, is given up with its reason and changes nothing else.
/// A record that is merged counts as used, whether or not it filled a
/// chunk.
pub open spec fn spec_feed(
    acc: AccumulatorView,
    path: Seq<char>,
    mtime: Mtime,
    content: Result<TileView, SkipReasonView>,
) -> AccumulatorView {
    match content {
        Err(reason) => AccumulatorView { skipped: acc.skipped.push((path, reason)), ..acc },
        Ok(under) => {
            let merged = spec_merge_two(acc.tile, under, acc.done);
            match merged.2 {
                Err(e) => AccumulatorView {
                    skipped: acc.skipped.push((path, SkipReasonView::Merge(e))),
                    ..acc
                },
                Ok(_) => AccumulatorView {
                    tile: merged.0,
                    done: merged.1,
                    used: acc.used.push(path),
                    oldest_used: spec_oldest(acc.oldest_used, mtime),
                    skipped: acc.skipped,
                },
            }
        },
    }
}

/// What reading the archive of a record gives: the tile, or the reason
/// why there is none. `archive` is the file's content, or the text of the
/// error that reading the file ended in.
pub open spec fn spec_load(
    archive: Result<Seq<u8>, Seq<char>>,
    name: Seq<char>,
    legacy_names: Seq<Seq<char>>,
) -> Result<TileView, SkipReasonView> {
    match archive {
        Err(text) => Err(SkipReasonView::Io(text)),
        Ok(bytes) => match spec_read_tile(
            archive_entry(bytes, "control"@),
            archive_entry(bytes, "key"@),
            archive_entry(bytes, "data"@),
            name,
            legacy_names,
        ) {
            Ok(tile) => Ok(tile),
            Err(e) => Err(SkipReasonView::Format(e)),
        },
    }
}

pub open spec fn spec_archive_view(archive: Result<Vec<u8>, String>) -> Result<
    Seq<u8>,
    Seq<char>,
> {
    match archive {
        Ok(bytes) => Ok(bytes@),
        Err(text) => Err(text@),
    }
}

pub open spec fn spec_content_view(content: Result<Tile, SkipReason>) -> Result<
    TileView,
    SkipReasonView,
> {
    match content {
        Ok(tile) => Ok(tile@),
        Err(reason) => Err(reason@),
    }
}

/// Resolving chunks lowers the number of those left by the number
/// resolved.
pub proof fn lemma_count_after_merge(done: Seq<bool>, src: Seq<u8>, src_keys: crate::keys::KeySeq, n: int)
    requires
        0 <= n <= done.len(),
    ensures
        spec_count_unresolved(spec_merge_done(done, src, src_keys, 256), n)
            + crate::merge::spec_count_wanted(done, src, src_keys, n) == spec_count_unresolved(
            done,
            n,
        ) || n > 256,
    decreases n,
{
    if n > 0 && n <= 256 {
        lemma_count_after_merge(done, src, src_keys, n - 1);
    }
}

/// No chunk is left exactly when every chunk is resolved.
pub proof fn lemma_count_unresolved(done: Seq<bool>, n: int)
    requires
        0 <= n <= done.len(),
    ensures
        spec_count_unresolved(done, n) <= n,
        spec_count_unresolved(done, n) == 0 <==> forall|c: int| 0 <= c < n ==> #[trigger] done[c],
    decreases n,
{
    if n > 0 {
        lemma_count_unresolved(done, n - 1);
    }
}

/// The merge of the records of one tile position, fed one record after
/// the other, the most recent first.
pub struct Accumulator {
    tile: Tile,
    chunks_done: Vec<bool>,
    remaining: usize,
    used: Vec<String>,
    oldest_used: Option<Mtime>,
    skipped: Vec<(String, SkipReason)>,
}

impl View for Accumulator {
    type V = AccumulatorView;

    closed spec fn view(&self) -> AccumulatorView {
        AccumulatorView {
            tile: self.tile@,
            done: self.chunks_done@,
            used: Seq::new(self.used@.len(), |i: int| self.used@[i]@),
            oldest_used: self.oldest_used,
            skipped: Seq::new(
                self.skipped@.len(),
                |i: int| (self.skipped@[i].0@, self.skipped@[i].1@),
            ),
        }
    }
}

/// What a merge ends in.
pub struct MergeOutput {
    /// The file of the merged tile; `None` where it could not be written.
    pub archive: Option<Vec<u8>>,
    /// The time to give the file: that of the oldest record merged, so
    /// that the file is as old as the oldest thing in it.
    pub mtime: Option<Mtime>,
    /// The records merged, in the order of merging.
    pub used: Vec<String>,
    /// The records given up, each with the reason.
    pub skipped: Vec<(String, SkipReason)>,
}

impl Accumulator {
    /// Validity of a merge.
    pub closed spec fn wf(&self) -> bool {
        &&& self.tile.wf()
        &&& keys_dense(self.tile@.keys)
        &&& self.chunks_done@.len() == TILE_CHUNKS
        &&& self.remaining == spec_count_unresolved(self.chunks_done@, 256)
    }

    pub fn new() -> (acc: Accumulator)
        ensures
            acc.wf(),
            acc@ == spec_new_accumulator(),
    {
        let chunks_done: Vec<bool> = vec![false; TILE_CHUNKS];
        proof {
            lemma_all_unresolved(chunks_done@, 256);
        }
        let acc = Accumulator {
            tile: Tile::new(),
            chunks_done,
            remaining: TILE_CHUNKS,
            used: Vec::new(),
            oldest_used: None,
            skipped: Vec::new(),
        };
        assert(acc@.done =~= spec_new_accumulator().done);
        assert(acc@.used =~= spec_new_accumulator().used);
        assert(acc@.skipped =~= spec_new_accumulator().skipped);
        assert(acc@.tile.keys =~= spec_new_accumulator().tile.keys);
        assert(acc@.tile.names =~= spec_new_accumulator().tile.names);
        acc
    }

    /// Whether every chunk is resolved: the merge can end.
    pub fn is_complete(&self) -> (complete: bool)
        requires
            self.wf(),
        ensures
            complete == spec_complete(self@.done),
    {
        proof {
            lemma_count_unresolved(self.chunks_done@, 256);
        }
        self.remaining == 0
    }

    /// The number of chunks that no record has filled yet.
    pub fn chunks_remaining(&self) -> (n: usize)
        requires
            self.wf(),
        ensures
            n == spec_count_unresolved(self@.done, 256),
    {
        self.remaining
    }

    /// Hands in the record `path`, written at `mtime`: the tile read from
    /// it, or the reason why it could not be read.
    pub fn feed_tile(&mut self, path: String, mtime: Mtime, content: Result<Tile, SkipReason>)
        requires
            old(self).wf(),
            content matches Ok(tile) ==> tile.wf(),
        ensures
            final(self).wf(),
            final(self)@ == spec_feed(old(self)@, path@, mtime, spec_content_view(content)),
            keys_prefix(old(self)@.tile.keys, final(self)@.tile.keys),
    {
        let ghost before = self@;
        assert(before.tile.keys.take(before.tile.keys.len() as int) =~= before.tile.keys);
        match content {
            Err(reason) => {
                self.skipped.push((path, reason));
                assert(self@.skipped =~= before.skipped.push((path@, reason@)));
                assert(self@.used =~= before.used);
            },
            Ok(under) => {
                match merge_two_tiles(&mut self.tile, &under, &mut self.chunks_done) {
                    Err(e) => {
                        self.skipped.push((path, SkipReason::Merge(e)));
                        assert(self@.skipped =~= before.skipped.push(
                            (path@, SkipReasonView::Merge(e)),
                        ));
                        assert(self@.used =~= before.used);
                    },
                    Ok(copied) => {
                        proof {
                            lemma_count_after_merge(before.done, under@.data, under@.keys, 256);
                        }
                        self.remaining = self.remaining - copied;
                        self.used.push(path);
                        self.oldest_used = match self.oldest_used {
                            None => Some(mtime),
                            Some(oldest) => if newer(oldest, mtime) {
                                Some(mtime)
                            } else {
                                Some(oldest)
                            },
                        };
                        assert(self@.used =~= before.used.push(path@));
                        assert(self@.skipped =~= before.skipped);
                    },
                }
            },
        }
    }

    /// Hands in the record `path`, written at `mtime`: the content of its
    /// file, or the text of the error that reading the file ended in.
    /// `legacy_names` is the table of the names of the old numbering of
    /// blocks, for a file without a key entry.
    pub fn feed(
        &mut self,
        path: &str,
        mtime: Mtime,
        archive: &Result<Vec<u8>, String>,
        legacy_names: &Vec<String>,
    )
        requires
            old(self).wf(),
        ensures
            final(self).wf(),
            final(self)@ == spec_feed(
                old(self)@,
                path@,
                mtime,
                spec_load(spec_archive_view(*archive), path@, spec_name_views(legacy_names@)),
            ),
            keys_prefix(old(self)@.tile.keys, final(self)@.tile.keys),
    {
        let content: Result<Tile, SkipReason> = match archive {
            Err(text) => Err(SkipReason::Io(text.clone())),
            Ok(bytes) => match read_tile(bytes.as_slice(), path, legacy_names) {
                Ok(tile) => Ok(tile),
                Err(e) => Err(SkipReason::Format(e)),
            },
        };
        self.feed_tile(path.to_owned(), mtime, content);
    }

    /// The merged tile as it stands: a valid tile whose block ids count up
    /// from 1.
    pub fn tile(&self) -> (tile: &Tile)
        requires
            self.wf(),
        ensures
            tile@ == self@.tile,
            tile.wf(),
            keys_dense(tile@.keys),
            self@.done.len() == TILE_CHUNKS,
    {
        &self.tile
    }

    /// Ends the merge: writes the file of the merged tile and hands out
    /// the lists of the records merged and given up.
    pub fn finish(self) -> (output: MergeOutput)
        requires
            self.wf(),
        ensures
            spec_opt(output.archive) == spec_write_tile(self@.tile),
            output.archive matches Some(archive) ==> spec_holds_tile(archive@, self@.tile),
            output.mtime == self@.oldest_used,
            spec_paths(output.used@) == self@.used,
            spec_skips(output.skipped@) == self@.skipped,
    {
        let archive = write_tile(&self.tile);
        assert(spec_paths(self.used@) =~= self@.used);
        assert(spec_skips(self.skipped@) =~= self@.skipped);
        MergeOutput { archive, mtime: self.oldest_used, used: self.used, skipped: self.skipped }
    }
}

pub open spec fn spec_paths(paths: Seq<String>) -> Seq<Seq<char>> {
    Seq::new(paths.len(), |i: int| paths[i]@)
}

pub open spec fn spec_skips(skips: Seq<(String, SkipReason)>) -> Seq<(Seq<char>, SkipReasonView)> {
    Seq::new(skips.len(), |i: int| (skips[i].0@, skips[i].1@))
}

/// Where no chunk is resolved, all are left.
pub proof fn lemma_all_unresolved(done: Seq<bool>, n: int)
    requires
        0 <= n <= done.len(),
        forall|c: int| 0 <= c < done.len() ==> !#[trigger] done[c],
    ensures
        spec_count_unresolved(done, n) == n,
    decreases n,
{
    if n > 0 {
        lemma_all_unresolved(done, n - 1);
    }
}

/// One record of a tile position: the path of its file, the time the file
/// was written at, and what reading the file gave.
pub struct Contribution {
    pub path: String,
    pub mtime: Mtime,
    /// The content of the file, or the text of the error that reading it
    /// ended in.
    pub archive: Result<Vec<u8>, String>,
}

pub struct ContributionView {
    pub path: Seq<char>,
    pub mtime: Mtime,
    /// The tile read from the file, or the reason why there is none.
    pub content: Result<TileView, SkipReasonView>,
}

/// What the records are, read with the table `legacy_names`.
pub open spec fn spec_contributions(
    contribs: Seq<Contribution>,
    legacy_names: Seq<Seq<char>>,
) -> Seq<ContributionView> {
    Seq::new(
        contribs.len(),
        |i: int|
            ContributionView {
                path: contribs[i].path@,
                mtime: contribs[i].mtime,
                content: spec_load(
                    spec_archive_view(contribs[i].archive),
                    contribs[i].path@,
                    legacy_names,
                ),
            },
    )
}

pub open spec fn spec_mtimes(items: Seq<ContributionView>) -> Seq<Mtime> {
    Seq::new(items.len(), |i: int| items[i].mtime)
}

/// The merge after the first `k` records of `order` were handed in. Once
/// every chunk is resolved the records that follow are left alone: they
/// are neither merged nor given up.
pub open spec fn spec_merge_in_order(
    items: Seq<ContributionView>,
    order: Seq<int>,
    k: int,
) -> AccumulatorView
    decreases k,
{
    if k <= 0 {
        spec_new_accumulator()
    } else {
        let before = spec_merge_in_order(items, order, k - 1);
        if spec_complete(before.done) {
            before
        } else {
            let item = items[order[k - 1]];
            spec_feed(before, item.path, item.mtime, item.content)
        }
    }
}

/// The merge of all the records of a tile position, the most recent
/// first.
pub open spec fn spec_merge_all(items: Seq<ContributionView>) -> AccumulatorView {
    spec_merge_in_order(
        items,
        spec_recency_order(spec_mtimes(items), items.len() as int),
        items.len() as int,
    )
}

/// How the records of a tile position become its merged file.
pub enum MergePlan {
    /// There is one record: its file is the merged file, to be linked or
    /// copied as it is.
    Link,
    /// The records are merged in this order, given by their places.
    Merge(Vec<usize>),
}

/// Decides how the records written at the times `mtimes` are merged.
pub fn plan_merge(mtimes: &Vec<Mtime>) -> (plan: MergePlan)
    ensures
        mtimes@.len() == 1 <==> plan is Link,
        plan matches MergePlan::Merge(order) ==> spec_place_ints(order@) == spec_recency_order(
            mtimes@,
            mtimes@.len() as int,
        ) && order@.len() == mtimes@.len() && forall|i: int|
            0 <= i < order@.len() ==> #[trigger] order@[i] < mtimes@.len(),
{
    if mtimes.len() == 1 {
        MergePlan::Link
    } else {
        MergePlan::Merge(recency_order(mtimes))
    }
}

/// What becomes of a tile position.
pub enum MergeOutcome {
    /// The file of this path is the merged file.
    Link(String),
    /// The records were merged.
    Merged(MergeOutput),
}

/// What linking the only record of a tile position ends in: the record is
/// used where the link was made, and given up with the error's text where
/// it was not.
pub fn link_outcome(path: String, linked: Result<(), String>) -> (output: MergeOutput)
    ensures
        output.archive is None,
        output.mtime is None,
        linked is Ok ==> spec_paths(output.used@) == seq![path@] && output.skipped@.len() == 0,
        linked matches Err(text) ==> output.used@.len() == 0 && spec_skips(output.skipped@)
            == seq![(path@, SkipReasonView::Io(text@))],
{
    let mut used: Vec<String> = Vec::new();
    let mut skipped: Vec<(String, SkipReason)> = Vec::new();
    match linked {
        Ok(()) => {
            used.push(path);
            assert(spec_paths(used@) =~= seq![path@]);
        },
        Err(text) => {
            skipped.push((path, SkipReason::Io(text)));
            assert(spec_skips(skipped@) =~= seq![(path@, SkipReasonView::Io(text@))]);
        },
    }
    MergeOutput { archive: None, mtime: None, used, skipped }
}

/// Merges the records of one tile position. A single record is not
/// merged: its file is the result. Else the records are merged in the
/// order of their times, the most recent first, until every chunk is
/// resolved, and the merged tile is written. `legacy_names` is the table of
/// the names of the old numbering of blocks, for files without a key
/// entry.
pub fn merge_tile_from_contribs(contribs: &Vec<Contribution>, legacy_names: &Vec<String>) -> (outcome:
    MergeOutcome)
    ensures
        contribs@.len() == 1 <==> outcome is Link,
        outcome matches MergeOutcome::Link(path) ==> path@ == contribs@[0].path@,
        outcome matches MergeOutcome::Merged(output) ==> {
            let merged = spec_merge_all(
                spec_contributions(contribs@, spec_name_views(legacy_names@)),
            );
            &&& spec_opt(output.archive) == spec_write_tile(merged.tile)
            &&& output.archive matches Some(archive) ==> spec_holds_tile(archive@, merged.tile)
            &&& output.mtime == merged.oldest_used
            &&& spec_paths(output.used@) == merged.used
            &&& spec_skips(output.skipped@) == merged.skipped
        },
{
    if contribs.len() == 1 {
        return MergeOutcome::Link(contribs[0].path.clone());
    }
    let ghost items = spec_contributions(contribs@, spec_name_views(legacy_names@));
    let mut mtimes: Vec<Mtime> = Vec::new();
    let mut i: usize = 0;
    while i < contribs.len()
        invariant
            i <= contribs@.len(),
            mtimes@.len() == i,
            forall|j: int| 0 <= j < i ==> #[trigger] mtimes@[j] == contribs@[j].mtime,
        decreases contribs@.len() - i,
    {
        mtimes.push(contribs[i].mtime);
        i += 1;
    }
    assert(mtimes@ =~= spec_mtimes(items));
    let order: Vec<usize> = recency_order(&mtimes);
    let ghost order_ints = spec_place_ints(order@);
    let mut acc = Accumulator::new();
    let mut k: usize = 0;
    while k < order.len()
        invariant
            k <= order@.len(),
            order@.len() == contribs@.len(),
            order_ints == spec_place_ints(order@),
            forall|i: int| 0 <= i < order@.len() ==> #[trigger] order@[i] < contribs@.len(),
            items == spec_contributions(contribs@, spec_name_views(legacy_names@)),
            acc.wf(),
            acc@ == spec_merge_in_order(items, order_ints, k as int),
        decreases order@.len() - k,
    {
        assert(order_ints[k as int] == order@[k as int]);
        if !acc.is_complete() {
            let item: &Contribution = &contribs[order[k]];
            acc.feed(item.path.as_str(), item.mtime, &item.archive, legacy_names);
        }
        k += 1;
    }
    MergeOutcome::Merged(acc.finish())
}

} // verus!
