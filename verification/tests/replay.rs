use std::io::Write;

use voxelmap_cache::buf_rw::{BufError, BufReader, UUID};
use voxelmap_cache::mc::packet::McPacket;
use voxelmap_cache::replay::{
    info_players, read_info, read_replay, replay_info_from_json, InfoField, Replay, ReplayError,
    ReplayPacket,
};

fn zip_of(entries: &[(&str, &[u8])]) -> Vec<u8> {
    let mut writer = zip::ZipWriter::new(std::io::Cursor::new(Vec::new()));
    let options = zip::write::FileOptions::default();
    for (name, content) in entries {
        writer.start_file(*name, options).unwrap();
        writer.write_all(content).unwrap();
    }
    writer.finish().unwrap().into_inner()
}

#[test]
fn reader_reads_numbers_big_endian() {
    let mut r = BufReader::new(vec![
        0x12, 0x34, 0xff, 0xfe, 0x01, 0x02, 0x03, 0x04, 0x80, 0x00, 0x00, 0x01, 0x40, 0x09, 0x21,
        0xfb, 0x54, 0x44, 0x2d, 0x18, 0xff, 0x00, 0x07,
    ]);
    assert_eq!(r.len(), 23);
    assert_eq!(r.position(), 0);
    assert_eq!(r.read_u16(), Ok(0x1234));
    assert_eq!(r.read_i16(), Ok(-2));
    assert_eq!(r.read_u32(), Ok(0x01020304));
    assert_eq!(r.read_i32(), Ok(-2147483647));
    assert_eq!(r.read_f64_bits().map(f64::from_bits), Ok(std::f64::consts::PI));
    assert_eq!(r.read_i8(), Ok(-1));
    assert_eq!(r.read_bool(), Ok(false));
    assert_eq!(r.read_bool(), Ok(true));
    assert_eq!(r.position(), 23);
    assert_eq!(r.read_u8(), Err(BufError::UnexpectedEof));
    assert_eq!(r.read_remainder(), Vec::<u8>::new());
}

#[test]
fn reader_fails_at_the_end_and_stays_there() {
    let mut r = BufReader::new(vec![1, 2, 3]);
    assert_eq!(r.read_u32(), Err(BufError::UnexpectedEof));
    assert_eq!(r.position(), 3);
    let mut r = BufReader::new(vec![1, 2, 3]);
    assert_eq!(r.read_u8(), Ok(1));
    assert_eq!(r.read_bytes(3), Err(BufError::UnexpectedEof));
    assert_eq!(r.position(), 3);
    let mut r = BufReader::new(vec![1, 2, 3]);
    assert_eq!(r.read_bytes(2), Ok(vec![1, 2]));
    assert_eq!(r.read_bytes(0), Ok(vec![]));
    assert_eq!(r.read_remainder(), vec![3]);
    let mut r = BufReader::new(vec![0; 15]);
    assert_eq!(r.read_uuid(), Err(BufError::UnexpectedEof));
    let mut r = BufReader::new((1..=16).collect());
    assert_eq!(r.read_uuid(), Ok(UUID(0x0102030405060708, 0x090a0b0c0d0e0f10)));
}

#[test]
fn varints() {
    let read = |bytes: &[u8]| BufReader::new(bytes.to_vec()).read_varint();
    assert_eq!(read(&[0x00]), Ok(0));
    assert_eq!(read(&[0x7f]), Ok(127));
    assert_eq!(read(&[0x80, 0x01]), Ok(128));
    assert_eq!(read(&[0xff, 0x01]), Ok(255));
    assert_eq!(read(&[0xff, 0xff, 0xff, 0xff, 0x07]), Ok(2147483647));
    assert_eq!(read(&[0xff, 0xff, 0xff, 0xff, 0x0f]), Ok(-1));
    assert_eq!(read(&[0x80, 0x80, 0x80, 0x80, 0x08]), Ok(-2147483648));
    assert_eq!(read(&[0x80, 0x80, 0x80, 0x80, 0x80, 0x01]), Err(BufError::VarIntTooBig));
    assert_eq!(read(&[0x80, 0x80]), Err(BufError::UnexpectedEof));
    assert_eq!(read(&[]), Err(BufError::UnexpectedEof));
    let mut r = BufReader::new(vec![0x02, 9, 8, 7]);
    assert_eq!(r.read_varint_prefixed_bytes(), Ok(vec![9, 8]));
    assert_eq!(r.position(), 3);
    let mut r = BufReader::new(vec![0x05, 9, 8, 7]);
    assert_eq!(r.read_varint_prefixed_bytes(), Err(BufError::UnexpectedEof));
    let mut r = BufReader::new(vec![0xff, 0xff, 0xff, 0xff, 0x0f, 1]);
    assert_eq!(r.read_varint_prefixed_bytes(), Err(BufError::UnexpectedEof));
}

#[test]
fn uuids_from_strings() {
    let uuid = UUID(0x0123456789abcdef, 0xfedcba9876543210);
    assert_eq!(UUID::from_str("0123456789abcdeffedcba9876543210"), Ok(uuid));
    assert_eq!(UUID::from_str("01234567-89ab-cdef-fedc-ba9876543210"), Ok(uuid));
    assert_eq!(UUID::from_str("01234567-89AB-CDEF-FEDC-BA9876543210"), Ok(uuid));
    assert_eq!(UUID::from_str(""), Err(BufError::InvalidUuidFormat));
    assert_eq!(UUID::from_str("0123"), Err(BufError::InvalidUuidFormat));
    assert_eq!(UUID::from_str("0123456789abcdeffedcba987654321g"), Err(BufError::InvalidHex));
    // Blanks among the digits are passed over and leave too few bytes.
    assert_eq!(
        UUID::from_str("0123456789abcdef  fedcba9876543210  "),
        Ok(uuid)
    );
    assert_eq!(
        UUID::from_str("0123456789abcdef                "),
        Err(BufError::InvalidUuidFormat)
    );
    assert_eq!(UUID::from_str("0123456789abcdeffedcba98765432 1"), Err(BufError::InvalidHex));
    assert_eq!(UUID::from_bytes(&[0; 15]), None);
    assert_eq!(UUID::from_bytes(&[0xff; 17]), Some(UUID(u64::MAX, u64::MAX)));
    assert_eq!(uuid.to_hex(), "123456789abcdeffedcba9876543210");
    assert_eq!(UUID(0, 5).to_hex(), "0005");
    assert_eq!(UUID(255, 16).to_hex(), "ff10");
    assert_eq!(UUID(u64::MAX, 0).to_hex(), "ffffffffffffffff00");
}

#[test]
fn packets_are_decoded() {
    let mut move_packet = vec![0x26, 0x81, 0x01];
    move_packet.extend_from_slice(&[0x10, 0x00, 0xf0, 0x00, 0x00, 0x01, 0x01]);
    match McPacket::decode(&move_packet).unwrap() {
        McPacket::EntityRelativeMove { eid, dx, dy, dz, on_ground } => {
            assert_eq!((eid, dx, dy, dz, on_ground), (129, 4096, -4096, 1, true));
        }
        other => panic!("{:?}", other),
    }
    let mut look = vec![0x27, 0x05];
    look.extend_from_slice(&[0, 1, 0, 2, 0, 3, 90, 45, 0]);
    match McPacket::decode(&look).unwrap() {
        McPacket::EntityLookAndRelativeMove { eid, dx, dy, dz, yaw, pitch, on_ground } => {
            assert_eq!((eid, dx, dy, dz, yaw, pitch, on_ground), (5, 1, 2, 3, 90, 45, false));
        }
        other => panic!("{:?}", other),
    }
    let mut spawn = vec![0x05, 0x07];
    spawn.extend(1..=16u8);
    spawn.extend_from_slice(&1.5f64.to_be_bytes());
    spawn.extend_from_slice(&(-2.25f64).to_be_bytes());
    spawn.extend_from_slice(&64.0f64.to_be_bytes());
    spawn.extend_from_slice(&[10, 20, 0xaa, 0xbb]);
    match McPacket::decode(&spawn).unwrap() {
        McPacket::SpawnPlayer { eid, uuid, x_bits, y_bits, z_bits, yaw, pitch, metadata } => {
            assert_eq!(eid, 7);
            assert_eq!(uuid, UUID(0x0102030405060708, 0x090a0b0c0d0e0f10));
            assert_eq!(f64::from_bits(x_bits), 1.5);
            assert_eq!(f64::from_bits(y_bits), -2.25);
            assert_eq!(f64::from_bits(z_bits), 64.0);
            assert_eq!((yaw, pitch), (10, 20));
            assert_eq!(metadata, vec![0xaa, 0xbb]);
        }
        other => panic!("{:?}", other),
    }
    let mut teleport = vec![0x4c, 0x01];
    teleport.extend_from_slice(&0.0f64.to_be_bytes());
    teleport.extend_from_slice(&1.0f64.to_be_bytes());
    teleport.extend_from_slice(&2.0f64.to_be_bytes());
    teleport.extend_from_slice(&[1, 2, 1]);
    match McPacket::decode(&teleport).unwrap() {
        McPacket::EntityTeleport { eid, y_bits, on_ground, .. } => {
            assert_eq!((eid, f64::from_bits(y_bits), on_ground), (1, 1.0, true));
        }
        other => panic!("{:?}", other),
    }
    let mut chat = vec![0x0f, 0x03];
    chat.extend_from_slice("h\u{e9}".as_bytes());
    chat.push(0xff);
    match McPacket::decode(&chat).unwrap() {
        McPacket::Chat { message, position } => {
            assert_eq!((message.as_str(), position), ("h\u{e9}", -1));
        }
        other => panic!("{:?}", other),
    }
    let mut chunk = vec![0x20, 0, 0, 0, 3, 0xff, 0xff, 0xff, 0xfc, 1, 0x80, 0x01, 2, 7, 8, 9];
    match McPacket::decode(&chunk).unwrap() {
        McPacket::ChunkDataHack(data) => {
            assert_eq!((data.x, data.z, data.is_new, data.sections_mask), (3, -4, true, 0x8001));
            assert_eq!(data.chunk_data, vec![7, 8]);
            assert_eq!(data.tile_entities, vec![9]);
        }
        other => panic!("{:?}", other),
    }
    chunk.truncate(12);
    assert!(matches!(McPacket::decode(&chunk), Err(BufError::UnexpectedEof)));
    assert!(matches!(McPacket::decode(&vec![0x0f, 0x01, 0xff, 0]), Err(BufError::Utf8)));
    assert!(matches!(McPacket::decode(&vec![0x0f, 0x01, 0x41]), Err(BufError::UnexpectedEof)));
    assert!(matches!(McPacket::decode(&vec![0x99, 1, 2]), Ok(McPacket::Unimplemented)));
    assert!(matches!(McPacket::decode(&vec![0x99]), Ok(McPacket::Unimplemented)));
    assert!(matches!(McPacket::decode(&vec![]), Err(BufError::UnexpectedEof)));
    assert!(matches!(McPacket::decode(&vec![0x26]), Err(BufError::UnexpectedEof)));
}

const INFO: &[u8] = br#"{"singleplayer":false,"serverName":"play.example.org","duration":123456,
    "date":1500000000000,"mcversion":"1.12.2","players":["a-b","c"],"extra":[1,2]}"#;

#[test]
fn replay_information_from_json() {
    let info = replay_info_from_json(INFO).unwrap();
    assert_eq!(info.date, 1500000000000);
    assert_eq!(info.duration, 123456);
    assert_eq!(info.mc_version, "1.12.2");
    assert_eq!(info.server_name, "play.example.org");
    assert_eq!(info.players, vec!["a-b", "c"]);
    let err = |doc: &[u8]| replay_info_from_json(doc).unwrap_err();
    assert_eq!(err(b"{"), ReplayError::MalformedJson);
    assert_eq!(err(b""), ReplayError::MalformedJson);
    assert_eq!(err(b"[1]"), ReplayError::NoObject);
    assert_eq!(err(b"7"), ReplayError::NoObject);
    assert_eq!(err(b"{}"), ReplayError::Missing(InfoField::Date));
    assert_eq!(err(br#"{"date":"x"}"#), ReplayError::Malformed(InfoField::Date));
    assert_eq!(err(br#"{"date":1.5}"#), ReplayError::Malformed(InfoField::Date));
    assert_eq!(err(br#"{"date":-1}"#), ReplayError::Malformed(InfoField::Date));
    assert_eq!(err(br#"{"date":18446744073709551615}"#), ReplayError::Malformed(InfoField::Date));
    assert_eq!(err(br#"{"date":1}"#), ReplayError::Missing(InfoField::Duration));
    assert_eq!(err(br#"{"date":1,"duration":null}"#), ReplayError::Malformed(InfoField::Duration));
    assert_eq!(err(br#"{"date":1,"duration":2}"#), ReplayError::Missing(InfoField::McVersion));
    assert_eq!(
        err(br#"{"date":1,"duration":2,"mcversion":3}"#),
        ReplayError::Malformed(InfoField::McVersion)
    );
    assert_eq!(
        err(br#"{"date":1,"duration":2,"mcversion":"3"}"#),
        ReplayError::Missing(InfoField::ServerName)
    );
    assert_eq!(
        err(br#"{"date":1,"duration":2,"mcversion":"3","serverName":[]}"#),
        ReplayError::Malformed(InfoField::ServerName)
    );
    assert_eq!(
        err(br#"{"date":1,"duration":2,"mcversion":"3","serverName":"s"}"#),
        ReplayError::Missing(InfoField::Players)
    );
    assert_eq!(
        err(br#"{"date":1,"duration":2,"mcversion":"3","serverName":"s","players":{}}"#),
        ReplayError::Malformed(InfoField::Players)
    );
    assert_eq!(
        err(br#"{"date":1,"duration":2,"mcversion":"3","serverName":"s","players":["a",1]}"#),
        ReplayError::Malformed(InfoField::Players)
    );
    let empty =
        replay_info_from_json(br#"{"date":0,"duration":0,"mcversion":"","serverName":"","players":[]}"#)
            .unwrap();
    assert!(empty.players.is_empty());
    assert_eq!(info_players(br#"{"players":["x"]}"#), Ok(vec!["x".to_string()]));
}

fn recording() -> Vec<u8> {
    let mut data = Vec::new();
    for (offset, packet) in [(10u32, vec![0x26u8, 1, 0, 1, 0, 2, 0, 3, 1]), (25, vec![0x99])] {
        data.extend_from_slice(&offset.to_be_bytes());
        data.extend_from_slice(&(packet.len() as u32).to_be_bytes());
        data.extend_from_slice(&packet);
    }
    data
}

#[test]
fn replays_are_read_from_archives() {
    let archive = zip_of(&[("metaData.json", INFO), ("recording.tmcpr", &recording())]);
    assert_eq!(read_info(&archive).unwrap().server_name, "play.example.org");
    let mut replay = read_replay(&archive).unwrap();
    assert_eq!(replay.info.date, 1500000000000);
    let mut first = replay.next_packet().unwrap().unwrap();
    assert_eq!((first.date, first.size, first.id), (1500000000010, 9, 0x26));
    assert!(first.get_packet().is_none());
    assert_eq!(first.parse_packet(), Ok(()));
    assert!(matches!(
        first.get_packet(),
        Some(McPacket::EntityRelativeMove { eid: 1, dx: 1, dy: 2, dz: 3, on_ground: true })
    ));
    assert_eq!(first.parse_packet(), Ok(()));
    // The last packet has one byte only: with its eight bytes of times
    // that makes nine, and nine bytes left are read.
    let second = replay.next_packet().unwrap().unwrap();
    assert_eq!((second.date, second.size, second.id, second.data.len()), (1500000000025, 1, 0x99, 1));
    assert!(replay.next_packet().unwrap().is_none());
    assert!(replay.next_packet().unwrap().is_none());

    assert!(matches!(read_info(b"junk"), Err(ReplayError::Archive)));
    assert!(matches!(read_replay(b"junk"), Err(ReplayError::Archive)));
    assert!(matches!(
        read_info(&zip_of(&[("recording.tmcpr", &recording())])),
        Err(ReplayError::NoMetadata)
    ));
    assert!(matches!(
        read_replay(&zip_of(&[("metaData.json", INFO)])),
        Err(ReplayError::NoRecording)
    ));
    assert!(matches!(
        read_replay(&zip_of(&[("metaData.json", b"{}"), ("recording.tmcpr", b"")])),
        Err(ReplayError::Missing(InfoField::Date))
    ));
}

#[test]
fn malformed_recordings() {
    let info = || replay_info_from_json(INFO).unwrap();
    let mut short = Replay::new(info(), vec![0, 0, 0, 1, 0, 0, 0, 9, 1, 2]);
    assert!(matches!(short.next_packet(), Err(ReplayError::MalformedRecording)));
    let mut empty_packet = Replay::new(info(), vec![0, 0, 0, 1, 0, 0, 0, 0, 7]);
    assert!(matches!(empty_packet.next_packet(), Err(ReplayError::MalformedRecording)));
    let mut few = Replay::new(info(), vec![0, 0, 0, 1, 0, 0, 0, 0]);
    assert!(few.next_packet().unwrap().is_none());
    let mut bad = ReplayPacket::new(5, 2, 0x26, vec![0x26, 0x80]);
    assert_eq!(bad.parse_packet(), Err(BufError::UnexpectedEof));
    assert!(bad.get_packet().is_none());
}
