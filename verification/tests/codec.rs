use std::io::Write;

use voxelmap_cache::codec::{
    confirm_written, control_text, legacy_to_modern, parse_control, read_tile, tile_from_entries,
    write_tile, FormatError, LEGACY_TILE_BYTES,
};
use voxelmap_cache::decimal::IntParseError;
use voxelmap_cache::key_text::{key_text, parse_key_text, KeyTextError};
use voxelmap_cache::keyless::{get_block_name_from_voxelmap, keyless_to_keyed, legacy_index};
use voxelmap_cache::keys::{KeyError, KeyTable};
use voxelmap_cache::tile::{column_nr_of_pos, Tile, TILE_BYTES, TILE_COLUMNS};

fn zip_of(entries: &[(&str, &[u8])]) -> Vec<u8> {
    let mut writer = zip::ZipWriter::new(std::io::Cursor::new(Vec::new()));
    let options = zip::write::FileOptions::default();
    for (name, content) in entries {
        writer.start_file(*name, options).unwrap();
        writer.write_all(content).unwrap();
    }
    writer.finish().unwrap().into_inner()
}

fn sample_tile() -> Tile {
    let mut keys = KeyTable::new();
    keys.insert("minecraft:stone", 1).unwrap();
    keys.insert("minecraft:water[level=0]", 2).unwrap();
    keys.insert("minecraft:grass_block[snowy=false]", 700).unwrap();
    let mut data = vec![0u8; TILE_BYTES];
    for (i, byte) in data.iter_mut().enumerate() {
        *byte = (i * 7 + i / 65536) as u8;
    }
    Tile::from_parts(data, keys, Vec::new(), Some((1, 2)), None).unwrap()
}

#[test]
fn written_tile_is_read_back() {
    let tile = sample_tile();
    let archive = write_tile(&tile).unwrap();
    let read = read_tile(&archive, "-12,7,someone.zip", &Vec::new()).unwrap();
    assert_eq!(read.data(), tile.data());
    assert_eq!(read.keys().len(), 3);
    for i in 0..3 {
        assert_eq!(read.keys().entry_name(i), tile.keys().entry_name(i));
        assert_eq!(read.keys().entry_id(i), tile.keys().entry_id(i));
    }
    assert_eq!(read.pos(), Some((-12, 7)));
    assert_eq!(read.source().as_deref(), Some("-12,7,someone.zip"));
    assert_eq!(read.names().len(), 701);
    assert_eq!(read.names()[0], "?UNKNOWN_BLOCK?");
    assert_eq!(read.names()[1], "minecraft:stone");
    assert_eq!(read.names()[2], "minecraft:water[level=0]");
    assert_eq!(read.names()[3], "?UNKNOWN_BLOCK?");
    assert_eq!(read.names()[700], "minecraft:grass_block[snowy=false]");
}

#[test]
fn written_archive_has_the_three_entries() {
    let tile = sample_tile();
    let archive = write_tile(&tile).unwrap();
    let mut zip = zip::ZipArchive::new(std::io::Cursor::new(archive)).unwrap();
    let names: Vec<String> = zip.file_names().map(|n| n.to_string()).collect();
    assert_eq!(zip.len(), 3);
    assert!(names.contains(&"control".to_string()));
    assert!(names.contains(&"data".to_string()));
    assert!(names.contains(&"key".to_string()));
    let mut control = Vec::new();
    std::io::Read::read_to_end(&mut zip.by_name("control").unwrap(), &mut control).unwrap();
    assert_eq!(control, b"version:2\r\n");
    let mut key = Vec::new();
    std::io::Read::read_to_end(&mut zip.by_name("key").unwrap(), &mut key).unwrap();
    assert_eq!(
        key,
        b"1 minecraft:stone\r\n2 minecraft:water[level=0]\r\n700 minecraft:grass_block[snowy=false]\r\n"
    );
    let mut data = Vec::new();
    std::io::Read::read_to_end(&mut zip.by_name("data").unwrap(), &mut data).unwrap();
    assert_eq!(&data, tile.data());
}

#[test]
fn writing_is_repeatable() {
    let tile = sample_tile();
    assert_eq!(write_tile(&tile).unwrap(), write_tile(&tile).unwrap());
}

#[test]
fn confirming_hands_on_only_what_holds_the_tile() {
    let tile = sample_tile();
    let key = key_text(tile.keys());
    let right = zip_of(&[
        ("control", b"version:2\r\n"),
        ("data", tile.data().as_slice()),
        ("key", key.as_slice()),
    ]);
    assert_eq!(confirm_written(Some(right.clone()), &tile), Some(right));
    assert_eq!(confirm_written(None, &tile), None);
    assert_eq!(confirm_written(Some(b"no archive".to_vec()), &tile), None);

    let old_control = zip_of(&[
        ("control", b"version:1\r\n"),
        ("data", tile.data().as_slice()),
        ("key", key.as_slice()),
    ]);
    assert_eq!(confirm_written(Some(old_control), &tile), None);

    let mut other_data = tile.data().clone();
    other_data[5] ^= 1;
    let wrong_data = zip_of(&[
        ("control", b"version:2\r\n"),
        ("data", other_data.as_slice()),
        ("key", key.as_slice()),
    ]);
    assert_eq!(confirm_written(Some(wrong_data), &tile), None);

    let wrong_key = zip_of(&[
        ("control", b"version:2\r\n"),
        ("data", tile.data().as_slice()),
        ("key", b"1 minecraft:stone\r\n"),
    ]);
    assert_eq!(confirm_written(Some(wrong_key), &tile), None);

    let no_key = zip_of(&[("control", b"version:2\r\n"), ("data", tile.data().as_slice())]);
    assert_eq!(confirm_written(Some(no_key), &tile), None);
}

#[test]
fn written_tile_is_confirmed() {
    let tile = sample_tile();
    let archive = write_tile(&tile).unwrap();
    assert_eq!(confirm_written(Some(archive.clone()), &tile), Some(archive));
}

#[test]
fn read_tile_reports_what_is_wrong() {
    let data = vec![0u8; TILE_BYTES];
    let key: &[u8] = b"1 stone\r\n";
    assert!(matches!(read_tile(b"not a zip", "0,0.zip", &Vec::new()), Err(FormatError::Unreadable)));
    assert!(matches!(
        read_tile(&zip_of(&[("control", b"version:2\r\n"), ("key", key)]), "0,0.zip", &Vec::new()),
        Err(FormatError::MissingData)
    ));
    assert!(matches!(
        read_tile(&zip_of(&[("control", b"vers:2\r\n"), ("key", key), ("data", &data)]), "0,0.zip", &Vec::new()),
        Err(FormatError::BadControl)
    ));
    assert!(matches!(
        read_tile(&zip_of(&[("control", b"version:3\r\n"), ("key", key), ("data", &data)]), "0,0.zip", &Vec::new()),
        Err(FormatError::UnsupportedVersion)
    ));
    assert!(matches!(
        read_tile(&zip_of(&[("control", b"version:2\r\n"), ("key", b"x stone\r\n"), ("data", &data)]), "0,0.zip", &Vec::new()),
        Err(FormatError::BadKey(KeyTextError::BadId(IntParseError::InvalidDigit)))
    ));
    // Without a control entry the file is of version 1 and wants 17 bytes
    // a column.
    assert!(matches!(
        read_tile(&zip_of(&[("key", key), ("data", &data)]), "0,0.zip", &Vec::new()),
        Err(FormatError::WrongDataLength)
    ));
    let mut long = data.clone();
    long.push(0);
    assert!(matches!(
        read_tile(&zip_of(&[("control", b"version:2\r\n"), ("key", key), ("data", &long)]), "0,0.zip", &Vec::new()),
        Err(FormatError::WrongDataLength)
    ));
    let tile =
        read_tile(&zip_of(&[("control", b"version:2\n"), ("key", key), ("data", &data)]), "nowhere", &Vec::new())
            .unwrap();
    assert_eq!(tile.pos(), None);
    assert_eq!(tile.keys().get("stone"), Some(1));
}

#[test]
fn legacy_columns_are_laid_out_by_layer() {
    let mut legacy = vec![0u8; LEGACY_TILE_BYTES];
    for column in 0..TILE_COLUMNS {
        for byte in 0..17 {
            legacy[column * 17 + byte] = (column * 31 + byte * 5) as u8;
        }
    }
    let modern = legacy_to_modern(&legacy);
    assert_eq!(modern.len(), TILE_BYTES);
    let tile = read_tile(&zip_of(&[("key", b"1 stone\r\n"), ("data", &legacy)]), "0,0.zip", &Vec::new()).unwrap();
    assert_eq!(tile.data(), &modern);
    for column in [0usize, 1, 255, 256, 4096, 65535] {
        let at = |byte: usize| legacy[column * 17 + byte];
        assert_eq!(tile.get_height(column), at(0));
        assert_eq!(tile.get_blockstate(column), (at(1) as u16) << 8 | at(2) as u16);
        assert_eq!(tile.get_light(column), at(3));
        assert_eq!(tile.get_ocean_floor_height(column), at(4));
        assert_eq!(tile.get_ocean_floor_blockstate(column), (at(5) as u16) << 8 | at(6) as u16);
        assert_eq!(tile.get_ocean_floor_light(column), at(7));
        assert_eq!(tile.get_transparent_height(column), at(8));
        assert_eq!(tile.get_transparent_blockstate(column), (at(9) as u16) << 8 | at(10) as u16);
        assert_eq!(tile.get_transparent_light(column), at(11));
        assert_eq!(tile.get_foliage_height(column), at(12));
        assert_eq!(tile.get_foliage_blockstate(column), (at(13) as u16) << 8 | at(14) as u16);
        assert_eq!(tile.get_foliage_light(column), at(15));
        assert_eq!(tile.get_biome_id(column), at(16) as u16);
    }
}

#[test]
fn control_text_round_trips() {
    assert_eq!(control_text(2), b"version:2\r\n");
    assert_eq!(control_text(65535), b"version:65535\r\n");
    assert_eq!(parse_control(b"version:2\r\n"), Ok(2));
    assert_eq!(parse_control(b"version:1"), Ok(1));
    assert_eq!(parse_control(b"version:+7\nrest"), Ok(7));
    assert_eq!(parse_control(b"version:\r\n"), Err(FormatError::BadControl));
    assert_eq!(parse_control(b""), Err(FormatError::BadControl));
    assert_eq!(parse_control(b"version:70000"), Err(FormatError::BadControl));
    assert_eq!(parse_control(b"Version:2"), Err(FormatError::BadControl));
}

#[test]
fn key_text_is_parsed_line_by_line() {
    let table = parse_key_text(b"1 minecraft:stone\r\n\r\n12 minecraft:dirt tail\n3 a\r\r\n1 x").unwrap();
    assert_eq!(table.len(), 4);
    assert_eq!(table.get("minecraft:stone"), Some(1));
    assert_eq!(table.get("minecraft:dirt"), Some(12));
    assert_eq!(table.get("a\r"), Some(3));
    assert_eq!(table.get("x"), Some(1));
    assert_eq!(table.max_id(), 12);
    // A name that comes again keeps its place and gets the later id.
    let again = parse_key_text(b"1 a\r\n2 b\r\n5 a\r\n").unwrap();
    assert_eq!(again.len(), 2);
    assert_eq!(again.entry_name(0), "a");
    assert_eq!(again.entry_id(0), 5);
    assert_eq!(parse_key_text(b"").unwrap().len(), 0);
    assert_eq!(parse_key_text(b"3 \r\n").unwrap().get(""), Some(3));
}

#[test]
fn key_text_errors() {
    assert!(matches!(parse_key_text(b"1 a\r\n0 b\r\n"), Err(KeyTextError::ZeroId)));
    assert!(matches!(parse_key_text(b"17\r\n"), Err(KeyTextError::MissingName)));
    assert!(matches!(
        parse_key_text(b" a\r\n"),
        Err(KeyTextError::BadId(IntParseError::Empty))
    ));
    assert!(matches!(
        parse_key_text(b"65536 a\r\n"),
        Err(KeyTextError::BadId(IntParseError::PosOverflow))
    ));
    assert!(matches!(
        parse_key_text(b"-1 a\r\n"),
        Err(KeyTextError::BadId(IntParseError::InvalidDigit))
    ));
    assert!(matches!(parse_key_text(b"1 \xff\xfe\r\n"), Err(KeyTextError::NameNotUtf8)));
}

#[test]
fn key_text_round_trips() {
    let mut table = KeyTable::new();
    table.insert("minecraft:stone", 9).unwrap();
    table.insert("gr\u{fc}n\r", 65535).unwrap();
    table.insert("", 1).unwrap();
    let text = key_text(&table);
    assert_eq!(text, "9 minecraft:stone\r\n65535 gr\u{fc}n\r\r\n1 \r\n".as_bytes());
    let read = parse_key_text(&text).unwrap();
    assert_eq!(read.len(), 3);
    for i in 0..3 {
        assert_eq!(read.entry_name(i), table.entry_name(i));
        assert_eq!(read.entry_id(i), table.entry_id(i));
    }
}

#[test]
fn key_table_refuses_what_cannot_be_written() {
    let mut table = KeyTable::new();
    assert_eq!(table.insert("a", 0), Err(KeyError::ZeroId));
    assert_eq!(table.insert("a b", 1), Err(KeyError::BadName));
    assert_eq!(table.insert("a\nb", 1), Err(KeyError::BadName));
    assert_eq!(table.len(), 0);
    assert_eq!(table.insert("a", 4), Ok(()));
    assert_eq!(table.insert("b", 4), Ok(()));
    assert_eq!(table.insert("a", 2), Ok(()));
    assert_eq!(table.len(), 2);
    assert_eq!(table.get("a"), Some(2));
    assert_eq!(table.get("b"), Some(4));
    assert_eq!(table.get("c"), None);
    assert!(!table.is_dense());
    // Of two names with one id the later gives the id its name.
    let mut two = KeyTable::new();
    two.insert("first", 1).unwrap();
    two.insert("second", 1).unwrap();
    assert_eq!(two.names_vec(), vec!["?UNKNOWN_BLOCK?", "second"]);
    assert_eq!(KeyTable::new().names_vec(), vec!["?UNKNOWN_BLOCK?"]);
}

#[test]
fn tile_accessors_use_the_layer_major_layout() {
    let mut tile = Tile::new();
    let column = column_nr_of_pos(3, 2);
    assert_eq!(column, 515);
    tile.set_height(column, 1);
    tile.set_blockstate(column, 0x0203);
    tile.set_light(column, 4);
    tile.set_ocean_floor_height(column, 5);
    tile.set_ocean_floor_blockstate(column, 0x0607);
    tile.set_ocean_floor_light(column, 8);
    tile.set_transparent_height(column, 9);
    tile.set_transparent_blockstate(column, 0x0a0b);
    tile.set_transparent_light(column, 12);
    tile.set_foliage_height(column, 13);
    tile.set_foliage_blockstate(column, 0x0e0f);
    tile.set_foliage_light(column, 16);
    tile.set_biome_id(column, 0x1112);
    for layer in 0..18 {
        assert_eq!(tile.data()[column + layer * TILE_COLUMNS], layer as u8 + 1);
    }
    assert_eq!(tile.data().iter().filter(|b| **b != 0).count(), 18);
    assert_eq!(tile.get_height(column), 1);
    assert_eq!(tile.get_blockstate(column), 0x0203);
    assert_eq!(tile.get_light(column), 4);
    assert_eq!(tile.get_ocean_floor_height(column), 5);
    assert_eq!(tile.get_ocean_floor_blockstate(column), 0x0607);
    assert_eq!(tile.get_ocean_floor_light(column), 8);
    assert_eq!(tile.get_transparent_height(column), 9);
    assert_eq!(tile.get_transparent_blockstate(column), 0x0a0b);
    assert_eq!(tile.get_transparent_light(column), 12);
    assert_eq!(tile.get_foliage_height(column), 13);
    assert_eq!(tile.get_foliage_blockstate(column), 0x0e0f);
    assert_eq!(tile.get_foliage_light(column), 16);
    assert_eq!(tile.get_biome_id(column), 0x1112);
    assert!(Tile::from_parts(vec![0; 5], KeyTable::new(), Vec::new(), None, None).is_none());
    let (data, keys, names, pos, source) = tile.into_parts();
    assert_eq!(data.len(), TILE_BYTES);
    assert_eq!(keys.len(), 0);
    assert!(names.is_empty());
    assert_eq!(pos, None);
    assert_eq!(source, None);
}

#[test]
fn entries_make_a_tile() {
    let data = vec![3u8; TILE_BYTES];
    let tile = tile_from_entries(
        Some(b"version:2\r\n".to_vec()),
        Some(b"771 stone\r\n".to_vec()),
        data.clone(),
        "5,6.zip",
        &Vec::new(),
    )
    .unwrap();
    assert_eq!(tile.data(), &data);
    assert_eq!(tile.get_blockstate(0), 0x0303);
    assert_eq!(tile.pos(), Some((5, 6)));
    assert_eq!(tile.names()[771], "stone");
}

fn legacy_names() -> Vec<String> {
    // Place 16 * number + value; the places 32 and 33 share a name.
    let mut names = vec!["unused".to_string(); 4096];
    names[0] = "minecraft:air".to_string();
    names[16] = "minecraft:stone".to_string();
    names[17] = "minecraft:granite".to_string();
    names[32] = "minecraft:grass".to_string();
    names[33] = "minecraft:grass".to_string();
    names[48] = "not plain".to_string();
    names
}

#[test]
fn tile_without_keys_gets_them_from_the_legacy_names() {
    let names = legacy_names();
    assert_eq!(get_block_name_from_voxelmap(&names, 0x10, 0x01), "minecraft:granite");
    assert_eq!(legacy_index(0x10, 0x01), 17);
    assert_eq!(legacy_index(0xff, 0xff), 4095);
    let mut data = vec![0u8; TILE_BYTES];
    let mut put = |column: usize, layer: usize, number: u8, value: u8| {
        data[column + layer * TILE_COLUMNS] = value << 4;
        data[column + (layer + 1) * TILE_COLUMNS] = number;
    };
    put(0, 1, 1, 1); // granite, place 17
    put(0, 5, 2, 1); // grass by its second place, 33
    put(1, 1, 2, 0); // grass by its first place, 32
    put(2, 13, 3, 0); // a name that no key table can hold, place 48
    put(3, 9, 200, 3); // place 3203, "unused"
    data[7] = 99; // a height
    let tile = read_tile(&zip_of(&[("control", b"version:2\r\n"), ("data", &data)]), "0,0.zip", &names)
        .unwrap();
    assert_eq!(tile.get_height(7), 99);
    assert_eq!(tile.get_blockstate(0), 17);
    assert_eq!(tile.get_ocean_floor_blockstate(0), 32);
    assert_eq!(tile.get_blockstate(1), 32);
    assert_eq!(tile.get_foliage_blockstate(2), 48);
    // The first place of "unused" after the place 0 is 1.
    assert_eq!(tile.get_transparent_blockstate(3), 1);
    assert_eq!(tile.get_blockstate(5), 0);
    assert_eq!(tile.keys().len(), 3);
    assert_eq!(tile.keys().entry_name(0), "unused");
    assert_eq!(tile.keys().entry_id(0), 1);
    assert_eq!(tile.keys().get("minecraft:granite"), Some(17));
    assert_eq!(tile.keys().get("minecraft:grass"), Some(32));
    assert_eq!(tile.keys().get("minecraft:stone"), None);
    assert_eq!(tile.keys().get("not plain"), None);
    assert_eq!(tile.names()[17], "minecraft:granite");

    // Without names the ids are the places, and the key table is empty.
    let bare = read_tile(&zip_of(&[("control", b"version:2\r\n"), ("data", &data)]), "0,0.zip", &Vec::new())
        .unwrap();
    assert_eq!(bare.get_blockstate(0), 17);
    assert_eq!(bare.get_ocean_floor_blockstate(0), 33);
    assert_eq!(bare.keys().len(), 0);

    let mut bytes = data.clone();
    let keys = keyless_to_keyed(&mut bytes, &names);
    assert_eq!(keys.len(), 3);
    assert_eq!(&bytes, tile.data());
}
