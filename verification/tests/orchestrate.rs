use voxelmap_cache::decimal::{parse_i32, parse_u16, parse_u8, push_decimal, IntParseError};
use voxelmap_cache::orchestrate::{
    classify_dir_entry, group_by_pos, millis_per_item, minutes_seconds, most_contested_first,
    progress_left, tile_file_name, DirEntryKind, SkipSummary,
};
use voxelmap_cache::tile::{first_column_nr_of_chunk_nr, is_tile_pos_in_bounds};
use voxelmap_cache::tile_path::{
    get_contrib_from_tile_path, get_xz_from_tile_path, TilePathError,
};

#[test]
fn tile_positions_from_file_names() {
    assert_eq!(get_xz_from_tile_path("3,-4.zip"), Ok((3, -4)));
    assert_eq!(get_xz_from_tile_path("-12,7,someone.zip"), Ok((-12, 7)));
    assert_eq!(get_xz_from_tile_path("+1,2,a,b.zip"), Ok((1, 2)));
    assert_eq!(get_xz_from_tile_path("1,2.png"), Ok((1, 2)));
    assert_eq!(get_xz_from_tile_path(".zip"), Err(TilePathError::TooShort));
    assert_eq!(get_xz_from_tile_path("1234"), Err(TilePathError::TooShort));
    assert_eq!(get_xz_from_tile_path("12.zip"), Err(TilePathError::MissingZ));
    assert_eq!(
        get_xz_from_tile_path("x,1.zip"),
        Err(TilePathError::BadX(IntParseError::InvalidDigit))
    );
    assert_eq!(get_xz_from_tile_path(",1.zip"), Err(TilePathError::BadX(IntParseError::Empty)));
    assert_eq!(get_xz_from_tile_path("1,.zip"), Err(TilePathError::BadZ(IntParseError::Empty)));
    assert_eq!(
        get_xz_from_tile_path("1,99999999999.zip"),
        Err(TilePathError::BadZ(IntParseError::PosOverflow))
    );
    assert_eq!(
        get_xz_from_tile_path("-2147483649,0.zip"),
        Err(TilePathError::BadX(IntParseError::NegOverflow))
    );
    assert_eq!(get_xz_from_tile_path("-2147483648,2147483647.zip"), Ok((i32::MIN, i32::MAX)));
}

#[test]
fn contributors_from_file_names() {
    assert_eq!(get_contrib_from_tile_path("1,2,someone.zip"), Ok("someone".to_string()));
    assert_eq!(get_contrib_from_tile_path("1,2,a,b.zip"), Ok("a,b".to_string()));
    assert_eq!(get_contrib_from_tile_path("1,2,.zip"), Ok("".to_string()));
    assert_eq!(get_contrib_from_tile_path("x,y,gr\u{fc}n.zip"), Ok("gr\u{fc}n".to_string()));
    assert_eq!(get_contrib_from_tile_path("1,2.zip"), Err(TilePathError::MissingContrib));
    assert_eq!(get_contrib_from_tile_path("12.zip"), Err(TilePathError::MissingContrib));
    assert_eq!(get_contrib_from_tile_path("abc"), Err(TilePathError::MissingContrib));
    // The four bytes of the extension cut the last character in two.
    assert_eq!(
        get_contrib_from_tile_path("1,2,a\u{fc}zip"),
        Err(TilePathError::ContribNotUtf8)
    );
}

#[test]
fn tiles_in_bounds() {
    let bounds = vec![-256, 0, 256, 512];
    assert!(is_tile_pos_in_bounds((-1, 0), &bounds));
    assert!(is_tile_pos_in_bounds((0, 1), &bounds));
    assert!(!is_tile_pos_in_bounds((-2, 0), &bounds));
    assert!(is_tile_pos_in_bounds((-2, 0), &vec![-257, 0, 256, 512]));
    assert!(!is_tile_pos_in_bounds((1, 0), &bounds));
    assert!(!is_tile_pos_in_bounds((0, 2), &bounds));
    assert!(!is_tile_pos_in_bounds((0, -1), &bounds));
    assert!(is_tile_pos_in_bounds((0, -1), &vec![-256, -1, 256, 512]));
    let all = vec![i32::MIN, i32::MIN, i32::MAX, i32::MAX];
    assert!(!is_tile_pos_in_bounds((i32::MAX, i32::MIN), &all));
    assert!(is_tile_pos_in_bounds((8388607, -8388608), &all));
}

#[test]
fn first_columns_of_chunks() {
    assert_eq!(first_column_nr_of_chunk_nr(0), 0);
    assert_eq!(first_column_nr_of_chunk_nr(1), 16);
    assert_eq!(first_column_nr_of_chunk_nr(15), 240);
    assert_eq!(first_column_nr_of_chunk_nr(16), 4096);
    assert_eq!(first_column_nr_of_chunk_nr(17), 4112);
    assert_eq!(first_column_nr_of_chunk_nr(255), 61680);
}

#[test]
fn directory_entries_are_classified() {
    assert_eq!(classify_dir_entry("1,2.zip"), DirEntryKind::Tile((1, 2)));
    assert_eq!(classify_dir_entry("1,2,someone.zip"), DirEntryKind::Tile((1, 2)));
    assert_eq!(classify_dir_entry("1,2.png"), DirEntryKind::NotZip((1, 2)));
    assert_eq!(classify_dir_entry("1,2_chunk-times.gz"), DirEntryKind::ChunkTimes);
    assert_eq!(classify_dir_entry("_chunk-times.gz"), DirEntryKind::ChunkTimes);
    assert_eq!(
        classify_dir_entry("readme.txt"),
        DirEntryKind::NotTile(TilePathError::BadX(IntParseError::InvalidDigit))
    );
    assert_eq!(classify_dir_entry("a"), DirEntryKind::NotTile(TilePathError::TooShort));
}

#[test]
fn files_are_grouped_by_position() {
    let positions = vec![(0, 0), (1, 0), (0, 0), (0, 1), (1, 0), (0, 0)];
    let groups = group_by_pos(&positions);
    assert_eq!(groups.len(), 3);
    assert_eq!(groups[0].pos, (0, 0));
    assert_eq!(groups[0].members, vec![0, 2, 5]);
    assert_eq!(groups[1].pos, (1, 0));
    assert_eq!(groups[1].members, vec![1, 4]);
    assert_eq!(groups[2].pos, (0, 1));
    assert_eq!(groups[2].members, vec![3]);
    assert!(group_by_pos(&Vec::new()).is_empty());
    let order = most_contested_first(&groups);
    assert_eq!(order, vec![0, 1, 2]);
    let positions = vec![(5, 5), (1, 0), (0, 0), (1, 0), (0, 0), (9, 9), (1, 0)];
    let groups = group_by_pos(&positions);
    assert_eq!(most_contested_first(&groups), vec![1, 2, 0, 3]);
}

#[test]
fn merged_file_names() {
    assert_eq!(tile_file_name((3, -4)), "3,-4.zip");
    assert_eq!(tile_file_name((0, 0)), "0,0.zip");
    assert_eq!(tile_file_name((i32::MIN, i32::MAX)), "-2147483648,2147483647.zip");
    for pos in [(3, -4), (0, 0), (i32::MIN, i32::MAX), (-1, 10)] {
        assert_eq!(get_xz_from_tile_path(&tile_file_name(pos)), Ok(pos));
        assert_eq!(classify_dir_entry(&tile_file_name(pos)), DirEntryKind::Tile(pos));
    }
}

#[test]
fn skips_are_counted_by_contributor() {
    let mut summary = SkipSummary::new();
    assert!(summary.record("anna", "first reason"));
    assert!(summary.record("bert", "other reason"));
    assert!(!summary.record("anna", "second reason"));
    assert!(!summary.record("anna", "third reason"));
    assert_eq!(summary.len(), 2);
    let (name, count, message) = summary.entry(0);
    assert_eq!((name.as_str(), count, message.as_str()), ("anna", 3, "first reason"));
    let (name, count, message) = summary.entry(1);
    assert_eq!((name.as_str(), count, message.as_str()), ("bert", 1, "other reason"));
}

#[test]
fn progress_lines() {
    let mut next = 3;
    assert_eq!(progress_left(0, 10, 100, &mut next), None);
    assert_eq!(progress_left(5, 0, 100, &mut next), None);
    assert_eq!(progress_left(5, 10, 2, &mut next), None);
    assert_eq!(next, 3);
    assert_eq!(progress_left(2, 10, 100, &mut next), Some((6, 40)));
    assert_eq!(next, 103);
    assert_eq!(progress_left(3, 10, 102, &mut next), None);
    assert_eq!(progress_left(10, 10, 103, &mut next), Some((0, 0)));
    assert_eq!(next, 106);
    let mut late = 0;
    assert_eq!(progress_left(1, usize::MAX, u64::MAX, &mut late).is_some(), true);
    assert_eq!(late, u64::MAX);
    assert_eq!(minutes_seconds(0), (0, 0));
    assert_eq!(minutes_seconds(3601), (60, 1));
    assert_eq!(millis_per_item(10_000_000_000, 4), 2500);
    assert_eq!(millis_per_item(10_000_000_000, 0), 0);
    assert_eq!(millis_per_item(999_999, 1), 0);
}

#[test]
fn decimal_numbers() {
    assert_eq!(parse_i32(b"0"), Ok(0));
    assert_eq!(parse_i32(b"-0"), Ok(0));
    assert_eq!(parse_i32(b"+17"), Ok(17));
    assert_eq!(parse_i32(b"0000000000000000000000012"), Ok(12));
    assert_eq!(parse_i32(b"2147483647"), Ok(i32::MAX));
    assert_eq!(parse_i32(b"-2147483648"), Ok(i32::MIN));
    assert_eq!(parse_i32(b"2147483648"), Err(IntParseError::PosOverflow));
    assert_eq!(parse_i32(b"-2147483649"), Err(IntParseError::NegOverflow));
    assert_eq!(parse_i32(b"99999999999999999999999999"), Err(IntParseError::PosOverflow));
    assert_eq!(parse_i32(b""), Err(IntParseError::Empty));
    assert_eq!(parse_i32(b"-"), Err(IntParseError::InvalidDigit));
    assert_eq!(parse_i32(b"+"), Err(IntParseError::InvalidDigit));
    assert_eq!(parse_i32(b"1 "), Err(IntParseError::InvalidDigit));
    assert_eq!(parse_i32(b"99999999999999999999x"), Err(IntParseError::InvalidDigit));
    assert_eq!(parse_u16(b"65535"), Ok(65535));
    assert_eq!(parse_u16(b"65536"), Err(IntParseError::PosOverflow));
    assert_eq!(parse_u16(b"-1"), Err(IntParseError::InvalidDigit));
    assert_eq!(parse_u8(b"255"), Ok(255));
    assert_eq!(parse_u8(b"256"), Err(IntParseError::PosOverflow));
    let mut out = b"n=".to_vec();
    push_decimal(&mut out, 0);
    push_decimal(&mut out, 1234567890123456789);
    push_decimal(&mut out, u64::MAX);
    assert_eq!(out, b"n=0123456789012345678918446744073709551615");
}
