use std::io::Write;

use voxelmap_cache::codec::{read_tile, write_tile, FormatError};
use voxelmap_cache::converter::{merge_keys_and_build_converter, MergeError};
use voxelmap_cache::keys::KeyTable;
use voxelmap_cache::merge::{copy_convert_chunk, merge_two_tiles};
use voxelmap_cache::position::{
    link_outcome, merge_tile_from_contribs, plan_merge, Accumulator, Contribution, MergeOutcome,
    MergeOutput, MergePlan, SkipReason,
};
use voxelmap_cache::recency::Mtime;
use voxelmap_cache::tile::{first_column_nr_of_chunk_nr, Tile, TILE_BYTES, TILE_CHUNKS};

fn keys_of(entries: &[(&str, u16)]) -> KeyTable {
    let mut keys = KeyTable::new();
    for (name, id) in entries {
        keys.insert(name, *id).unwrap();
    }
    keys
}

fn empty_tile(entries: &[(&str, u16)]) -> Tile {
    Tile::from_parts(vec![0; TILE_BYTES], keys_of(entries), Vec::new(), None, None).unwrap()
}

fn fill_chunk(tile: &mut Tile, chunk_nr: usize, height: u8, block: u16) {
    let first = first_column_nr_of_chunk_nr(chunk_nr);
    for z in 0..16 {
        for x in 0..16 {
            let column = first + z * 256 + x;
            tile.set_height(column, height);
            tile.set_blockstate(column, block);
            tile.set_light(column, 15);
            tile.set_biome_id(column, 4);
            tile.set_foliage_height(column, height.wrapping_add(1));
        }
    }
}

fn tile_with_chunk(chunk_nr: usize, name: &str, id: u16, height: u8) -> Tile {
    let mut tile = empty_tile(&[(name, id)]);
    fill_chunk(&mut tile, chunk_nr, height, id);
    tile
}

fn contribution(path: &str, secs: i64, tile: &Tile) -> Contribution {
    Contribution {
        path: path.to_string(),
        mtime: Mtime { secs, nanos: 0 },
        archive: Ok(write_tile(tile).unwrap()),
    }
}

fn merged(outcome: MergeOutcome) -> MergeOutput {
    match outcome {
        MergeOutcome::Merged(output) => output,
        MergeOutcome::Link(path) => panic!("linked {}", path),
    }
}

fn block_name(tile: &Tile, column: usize) -> String {
    let id = tile.get_blockstate(column);
    tile.names()[id as usize].clone()
}

fn three_contributions() -> Vec<Contribution> {
    let a = tile_with_chunk(5, "stone", 7, 60);
    let b = tile_with_chunk(5, "dirt", 3, 61);
    let c = tile_with_chunk(9, "sand", 3, 62);
    vec![
        contribution("0,0,a.zip", 100, &a),
        contribution("0,0,b.zip", 200, &b),
        contribution("0,0,c.zip", 300, &c),
    ]
}

fn check_three_merged(output: MergeOutput) {
    assert_eq!(output.used, vec!["0,0,c.zip", "0,0,b.zip", "0,0,a.zip"]);
    assert!(output.skipped.is_empty());
    assert_eq!(output.mtime, Some(Mtime { secs: 100, nanos: 0 }));
    let tile = read_tile(&output.archive.unwrap(), "0,0.zip", &Vec::new()).unwrap();
    assert_eq!(tile.pos(), Some((0, 0)));
    for chunk in 0..TILE_CHUNKS {
        let column = first_column_nr_of_chunk_nr(chunk) + 3 * 256 + 7;
        match chunk {
            5 => {
                assert!(!tile.is_chunk_empty(chunk));
                assert_eq!(block_name(&tile, column), "dirt");
                assert_eq!(tile.get_height(column), 61);
                assert_eq!(tile.get_light(column), 15);
                assert_eq!(tile.get_biome_id(column), 4);
                assert_eq!(tile.get_foliage_height(column), 62);
            }
            9 => {
                assert!(!tile.is_chunk_empty(chunk));
                assert_eq!(block_name(&tile, column), "sand");
                assert_eq!(tile.get_height(column), 62);
            }
            _ => {
                assert!(tile.is_chunk_empty(chunk));
                assert!(tile.is_col_empty(column));
            }
        }
    }
    // The names were entered in the order of merging: sand, dirt, stone.
    assert_eq!(tile.keys().get("sand"), Some(1));
    assert_eq!(tile.keys().get("dirt"), Some(2));
    assert_eq!(tile.keys().get("stone"), Some(3));
    assert_eq!(tile.keys().len(), 3);
}

#[test]
fn three_contributions_scenario() {
    check_three_merged(merged(merge_tile_from_contribs(&three_contributions(), &Vec::new())));
}

#[test]
fn three_contributions_in_any_order() {
    let mut contribs = three_contributions();
    contribs.reverse();
    check_three_merged(merged(merge_tile_from_contribs(&contribs, &Vec::new())));
    contribs.swap(0, 2);
    contribs.swap(0, 1);
    check_three_merged(merged(merge_tile_from_contribs(&contribs, &Vec::new())));
}

#[test]
fn single_contribution_is_linked() {
    let a = tile_with_chunk(5, "stone", 7, 60);
    let contribs = vec![contribution("3,-4,a.zip", 100, &a)];
    match merge_tile_from_contribs(&contribs, &Vec::new()) {
        MergeOutcome::Link(path) => assert_eq!(path, "3,-4,a.zip"),
        MergeOutcome::Merged(_) => panic!("merged a single contribution"),
    }
    assert!(matches!(plan_merge(&vec![Mtime { secs: 1, nanos: 0 }]), MergePlan::Link));
}

#[test]
fn link_outcome_reports_failure_as_skip() {
    let done = link_outcome("a.zip".to_string(), Ok(()));
    assert_eq!(done.used, vec!["a.zip"]);
    assert!(done.skipped.is_empty());
    let failed = link_outcome("a.zip".to_string(), Err("no space".to_string()));
    assert!(failed.used.is_empty());
    assert_eq!(failed.skipped.len(), 1);
    assert_eq!(failed.skipped[0].0, "a.zip");
    assert_eq!(failed.skipped[0].1.message(), "no space");
}

#[test]
fn plan_orders_most_recent_first_and_keeps_ties() {
    let mtimes = vec![
        Mtime { secs: 5, nanos: 0 },
        Mtime { secs: 9, nanos: 1 },
        Mtime { secs: 5, nanos: 0 },
        Mtime { secs: 9, nanos: 2 },
        Mtime { secs: -3, nanos: 999 },
    ];
    match plan_merge(&mtimes) {
        MergePlan::Merge(order) => assert_eq!(order, vec![3, 1, 0, 2, 4]),
        MergePlan::Link => panic!("linked"),
    }
    match plan_merge(&Vec::new()) {
        MergePlan::Merge(order) => assert!(order.is_empty()),
        MergePlan::Link => panic!("linked"),
    }
}

fn archive_of_entries(entries: &[(&str, &[u8])]) -> Vec<u8> {
    let mut writer = zip::ZipWriter::new(std::io::Cursor::new(Vec::new()));
    let options = zip::write::FileOptions::default();
    for (name, content) in entries {
        writer.start_file(*name, options).unwrap();
        writer.write_all(content).unwrap();
    }
    writer.finish().unwrap().into_inner()
}

#[test]
fn truncated_data_is_skipped_with_format_error() {
    let good = tile_with_chunk(9, "sand", 3, 62);
    let short = vec![1u8; TILE_BYTES - 1];
    let broken = archive_of_entries(&[
        ("control", b"version:2\r\n"),
        ("data", &short),
        ("key", b"1 minecraft:stone\r\n"),
    ]);
    assert!(matches!(read_tile(&broken, "0,0,x.zip", &Vec::new()), Err(FormatError::WrongDataLength)));
    let contribs = vec![
        Contribution {
            path: "0,0,broken.zip".to_string(),
            mtime: Mtime { secs: 500, nanos: 0 },
            archive: Ok(broken),
        },
        contribution("0,0,good.zip", 100, &good),
    ];
    let output = merged(merge_tile_from_contribs(&contribs, &Vec::new()));
    assert_eq!(output.used, vec!["0,0,good.zip"]);
    assert_eq!(output.skipped.len(), 1);
    assert_eq!(output.skipped[0].0, "0,0,broken.zip");
    assert!(matches!(output.skipped[0].1, SkipReason::Format(FormatError::WrongDataLength)));
    assert_eq!(output.skipped[0].1.message(), "data file has the wrong length");
    assert_eq!(output.mtime, Some(Mtime { secs: 100, nanos: 0 }));
    let tile = read_tile(&output.archive.unwrap(), "0,0.zip", &Vec::new()).unwrap();
    assert!(!tile.is_chunk_empty(9));
    assert_eq!(block_name(&tile, first_column_nr_of_chunk_nr(9)), "sand");
}

#[test]
fn unreadable_files_are_skipped() {
    let good = tile_with_chunk(9, "sand", 3, 62);
    let contribs = vec![
        Contribution {
            path: "io.zip".to_string(),
            mtime: Mtime { secs: 3, nanos: 0 },
            archive: Err("permission denied".to_string()),
        },
        Contribution {
            path: "garbage.zip".to_string(),
            mtime: Mtime { secs: 2, nanos: 0 },
            archive: Ok(vec![1, 2, 3, 4, 5]),
        },
        contribution("good.zip", 1, &good),
    ];
    let output = merged(merge_tile_from_contribs(&contribs, &Vec::new()));
    assert_eq!(output.used, vec!["good.zip"]);
    assert_eq!(output.skipped.len(), 2);
    assert_eq!(output.skipped[0].0, "io.zip");
    assert_eq!(output.skipped[0].1.message(), "permission denied");
    assert_eq!(output.skipped[1].0, "garbage.zip");
    assert!(matches!(output.skipped[1].1, SkipReason::Format(FormatError::Unreadable)));
}

#[test]
fn nothing_usable_gives_an_empty_tile() {
    let contribs = vec![
        Contribution {
            path: "a.zip".to_string(),
            mtime: Mtime { secs: 3, nanos: 0 },
            archive: Err("gone".to_string()),
        },
        Contribution {
            path: "b.zip".to_string(),
            mtime: Mtime { secs: 2, nanos: 0 },
            archive: Err("gone".to_string()),
        },
    ];
    let output = merged(merge_tile_from_contribs(&contribs, &Vec::new()));
    assert!(output.used.is_empty());
    assert_eq!(output.skipped.len(), 2);
    assert_eq!(output.mtime, None);
    let tile = read_tile(&output.archive.unwrap(), "x", &Vec::new()).unwrap();
    assert!(tile.data().iter().all(|b| *b == 0));
    assert_eq!(tile.keys().len(), 0);
    assert_eq!(tile.pos(), None);
}

#[test]
fn corrupt_block_id_skips_the_record_and_changes_nothing() {
    // The key table knows the ids up to 3; the chunk uses the id 9.
    let mut corrupt = empty_tile(&[("stone", 3)]);
    fill_chunk(&mut corrupt, 2, 10, 3);
    fill_chunk(&mut corrupt, 4, 10, 9);
    let good = tile_with_chunk(4, "sand", 1, 62);
    let contribs =
        vec![contribution("corrupt.zip", 9, &corrupt), contribution("good.zip", 1, &good)];
    let output = merged(merge_tile_from_contribs(&contribs, &Vec::new()));
    assert_eq!(output.used, vec!["good.zip"]);
    assert_eq!(output.skipped.len(), 1);
    assert!(matches!(output.skipped[0].1, SkipReason::Merge(MergeError::CorruptData)));
    let tile = read_tile(&output.archive.unwrap(), "0,0.zip", &Vec::new()).unwrap();
    assert!(tile.is_chunk_empty(2));
    assert_eq!(block_name(&tile, first_column_nr_of_chunk_nr(4)), "sand");
    assert_eq!(tile.keys().len(), 1);
    assert_eq!(tile.keys().get("stone"), None);
}

#[test]
fn unnamed_block_id_is_a_logic_error() {
    // The id 2 lies within the converter but has no name.
    let mut odd = empty_tile(&[("stone", 3)]);
    fill_chunk(&mut odd, 2, 10, 2);
    let mut out = Tile::new();
    let mut done = vec![false; TILE_CHUNKS];
    assert_eq!(merge_two_tiles(&mut out, &odd, &mut done), Err(MergeError::Logic));
    assert!(done.iter().all(|d| !d));
    assert!(out.data().iter().all(|b| *b == 0));
    assert_eq!(out.keys().len(), 0);

    let mut keys = KeyTable::new();
    let converter = merge_keys_and_build_converter(&mut keys, odd.keys()).unwrap();
    assert_eq!(converter, vec![0, 0, 0, 1]);
    assert_eq!(copy_convert_chunk(&converter, &mut out, &odd, 2), Err(MergeError::Logic));
    assert_eq!(copy_convert_chunk(&converter, &mut out, &odd, 3), Ok(()));
    assert!(out.data().iter().all(|b| *b == 0));
}

#[test]
fn merge_two_tiles_counts_and_resolves_chunks() {
    let mut under = empty_tile(&[("stone", 5), ("dirt", 2)]);
    fill_chunk(&mut under, 0, 1, 5);
    fill_chunk(&mut under, 17, 2, 2);
    fill_chunk(&mut under, 255, 3, 5);
    let mut out = Tile::new();
    let mut done = vec![false; TILE_CHUNKS];
    done[17] = true;
    assert_eq!(merge_two_tiles(&mut out, &under, &mut done), Ok(2));
    for chunk in 0..TILE_CHUNKS {
        assert_eq!(done[chunk], chunk == 0 || chunk == 17 || chunk == 255);
        assert_eq!(out.is_chunk_empty(chunk), !(chunk == 0 || chunk == 255));
    }
    // stone was entered first and has the id 1 now, dirt the id 2.
    assert_eq!(out.keys().get("stone"), Some(1));
    assert_eq!(out.keys().get("dirt"), Some(2));
    let last = first_column_nr_of_chunk_nr(255) + 15 * 256 + 15;
    assert_eq!(last, 65535);
    assert_eq!(out.get_blockstate(last), 1);
    assert_eq!(out.get_height(last), 3);
    assert_eq!(out.get_foliage_height(last), 4);
    // Merging the same record again finds nothing to do.
    assert_eq!(merge_two_tiles(&mut out, &under, &mut done), Ok(0));
}

#[test]
fn converter_maps_known_names_and_adds_new_ones() {
    let mut out = keys_of(&[("a", 1), ("b", 2)]);
    let inp = keys_of(&[("x", 4), ("b", 1), ("y", 6)]);
    let converter = merge_keys_and_build_converter(&mut out, &inp).unwrap();
    assert_eq!(converter, vec![0, 2, 0, 0, 3, 0, 4]);
    assert_eq!(out.len(), 4);
    assert_eq!(out.get("a"), Some(1));
    assert_eq!(out.get("b"), Some(2));
    assert_eq!(out.get("x"), Some(3));
    assert_eq!(out.get("y"), Some(4));
    assert!(out.is_dense());
    // A second merge of the same names changes nothing and gives the
    // same converter.
    assert_eq!(merge_keys_and_build_converter(&mut out, &inp).unwrap(), converter);
    assert_eq!(out.len(), 4);
    // An empty table gives the converter of the one slot 0.
    assert_eq!(merge_keys_and_build_converter(&mut out, &KeyTable::new()).unwrap(), vec![0]);
}

#[test]
fn accumulator_stops_when_complete() {
    let mut full = empty_tile(&[("stone", 1)]);
    for chunk in 0..TILE_CHUNKS {
        fill_chunk(&mut full, chunk, 9, 1);
    }
    let other = tile_with_chunk(3, "dirt", 1, 5);
    let mut acc = Accumulator::new();
    assert!(!acc.is_complete());
    assert_eq!(acc.chunks_remaining(), 256);
    acc.feed_tile("other".to_string(), Mtime { secs: 9, nanos: 0 }, Ok(other));
    assert_eq!(acc.chunks_remaining(), 255);
    acc.feed_tile("full".to_string(), Mtime { secs: 8, nanos: 0 }, Ok(full));
    assert!(acc.is_complete());
    assert_eq!(acc.chunks_remaining(), 0);
    assert_eq!(acc.tile().get_blockstate(first_column_nr_of_chunk_nr(3)), 1);
    assert_eq!(acc.tile().get_blockstate(first_column_nr_of_chunk_nr(4)), 2);

    // The driver leaves the records after completion alone.
    let mut full = empty_tile(&[("stone", 1)]);
    for chunk in 0..TILE_CHUNKS {
        fill_chunk(&mut full, chunk, 9, 1);
    }
    let contribs = vec![
        contribution("full.zip", 9, &full),
        Contribution {
            path: "late.zip".to_string(),
            mtime: Mtime { secs: 1, nanos: 0 },
            archive: Err("never read".to_string()),
        },
    ];
    let output = merged(merge_tile_from_contribs(&contribs, &Vec::new()));
    assert_eq!(output.used, vec!["full.zip"]);
    assert!(output.skipped.is_empty());
}

#[test]
fn recency_decides_whatever_the_input_order() {
    let old = tile_with_chunk(5, "stone", 1, 60);
    let new = tile_with_chunk(5, "dirt", 1, 61);
    for flip in [false, true] {
        let mut contribs =
            vec![contribution("old.zip", 1, &old), contribution("new.zip", 2, &new)];
        if flip {
            contribs.reverse();
        }
        let output = merged(merge_tile_from_contribs(&contribs, &Vec::new()));
        assert_eq!(output.used, vec!["new.zip", "old.zip"]);
        let tile = read_tile(&output.archive.unwrap(), "0,0.zip", &Vec::new()).unwrap();
        assert_eq!(block_name(&tile, first_column_nr_of_chunk_nr(5)), "dirt");
        assert_eq!(tile.get_height(first_column_nr_of_chunk_nr(5) + 5), 61);
    }
}

#[test]
fn disjoint_chunks_are_both_kept() {
    let a = tile_with_chunk(1, "stone", 1, 60);
    let b = tile_with_chunk(200, "stone", 4, 61);
    let contribs = vec![contribution("a.zip", 7, &a), contribution("b.zip", 7, &b)];
    let output = merged(merge_tile_from_contribs(&contribs, &Vec::new()));
    assert_eq!(output.used, vec!["a.zip", "b.zip"]);
    let tile = read_tile(&output.archive.unwrap(), "0,0.zip", &Vec::new()).unwrap();
    assert_eq!(tile.keys().len(), 1);
    for chunk in 0..TILE_CHUNKS {
        assert_eq!(tile.is_chunk_empty(chunk), chunk != 1 && chunk != 200);
    }
    assert_eq!(tile.get_height(first_column_nr_of_chunk_nr(1)), 60);
    assert_eq!(tile.get_height(first_column_nr_of_chunk_nr(200)), 61);
    assert_eq!(block_name(&tile, first_column_nr_of_chunk_nr(200)), "stone");
}

#[test]
fn air_in_the_first_column_makes_a_chunk_empty() {
    let mut tile = empty_tile(&[("minecraft:air", 1), ("stone", 2)]);
    let first = first_column_nr_of_chunk_nr(7);
    tile.set_blockstate(first, 1);
    tile.set_blockstate(first + 1, 2);
    tile.set_height(first + 1, 80);
    // Only the first column counts.
    assert!(tile.is_chunk_empty(7));
    assert!(!tile.is_col_empty(first));
    tile.set_blockstate(first, 2);
    assert!(!tile.is_chunk_empty(7));
    tile.set_blockstate(first, 0);
    tile.set_height(first, 1);
    assert!(!tile.is_chunk_empty(7));
}

#[test]
fn tiles_without_keys_are_merged_by_name() {
    let mut names = vec!["unused".to_string(); 4096];
    names[16] = "stone".to_string();
    // An old tile: columns one after the other, no key entry, stone with
    // the number 1 in the first column of chunk 2.
    let mut legacy = vec![0u8; 65536 * 17];
    let column = first_column_nr_of_chunk_nr(2);
    legacy[column * 17] = 64;
    legacy[column * 17 + 1] = 0;
    legacy[column * 17 + 2] = 1;
    let old = archive_of_entries(&[("data", &legacy)]);
    let new = tile_with_chunk(5, "stone", 9, 70);
    let contribs = vec![
        Contribution { path: "old.zip".to_string(), mtime: Mtime { secs: 1, nanos: 0 }, archive: Ok(old) },
        contribution("new.zip", 2, &new),
    ];
    let output = merged(merge_tile_from_contribs(&contribs, &names));
    assert_eq!(output.used, vec!["new.zip", "old.zip"]);
    assert!(output.skipped.is_empty());
    let tile = read_tile(&output.archive.unwrap(), "0,0.zip", &names).unwrap();
    assert_eq!(tile.keys().len(), 1);
    assert_eq!(tile.get_blockstate(column), 1);
    assert_eq!(tile.get_height(column), 64);
    assert_eq!(block_name(&tile, column), "stone");
    assert_eq!(block_name(&tile, first_column_nr_of_chunk_nr(5)), "stone");

    // Without the names the block of the old tile has no name: the record
    // is given up.
    let output = merged(merge_tile_from_contribs(&contribs, &Vec::new()));
    assert_eq!(output.used, vec!["new.zip"]);
    assert_eq!(output.skipped.len(), 1);
    assert!(matches!(output.skipped[0].1, SkipReason::Merge(MergeError::CorruptData)));
}
