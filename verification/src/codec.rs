//! The tile file: an archive with the entries `control`, `key` and `data`.

use crate::archive::{
    archive_add, archive_entry, archive_finish, archive_of, archive_takes, archive_writer,
    read_archive_entry,
};
use crate::decimal::{
    lemma_decimal_digits, lemma_parse_decimal_u16, parse_u16, push_decimal, spec_decimal,
    spec_parse_u16,
};
use crate::key_text::{
    key_text, lemma_key_text_round_trip, parse_key_text, spec_key_text, spec_parse_key_text,
    strip_cr, KeyTextError,
};
use crate::keyless::{
    keyless_to_keyed, spec_keyless_data, spec_keyless_keys, spec_name_views, LEGACY_NAMES,
};
use crate::keys::{keys_valid, spec_names_vec, KeySeq, KeyTable};
use crate::text::{bytes_eq, find_byte, first_index_of, has_prefix, lemma_first_index_of_is};
use crate::tile::{Tile, TilePos, TileView, TILE_BYTES, TILE_COLUMNS};
use crate::tile_path::{get_xz_from_tile_path, spec_xz_from_name};
use vstd::prelude::*;
use vstd::slice::slice_subrange;

verus! {

/// Why an archive is no tile file.
#[derive(Clone, Copy, Debug, PartialEq, Eq, Structural)]
pub enum FormatError {
    /// The bytes are no archive, or an entry of it cannot be read.
    Unreadable,
    /// The archive has no entry `data`.
    MissingData,
    /// The entry `control` does not declare a version.
    BadControl,
    /// The declared version is neither 1 nor 2.
    UnsupportedVersion,
    /// The entry `key` is no key table.
    BadKey(KeyTextError),
    /// The entry `data` has not the length that the version asks for.
    WrongDataLength,
}

/// The version of the layout that is written.
pub const MODERN_VERSION: u16 = 2;

/// The version of the layout with one column after the other.
pub const LEGACY_VERSION: u16 = 1;

/// Number of bytes of a tile in the legacy layout.
pub const LEGACY_TILE_BYTES: usize = 1114112;

/// The bytes of `version:`.
pub open spec fn control_prefix() -> Seq<u8> {
    seq![0x76u8, 0x65u8, 0x72u8, 0x73u8, 0x69u8, 0x6fu8, 0x6eu8, 0x3au8]
}

/// The text of a control entry: `version:<N>`, ended by CR LF.
pub open spec fn spec_control_text(version: u16) -> Seq<u8> {
    control_prefix() + spec_decimal(version as nat) + seq![0x0du8, 0x0au8]
}

/// The version that a control entry declares in its first line.
pub open spec fn spec_parse_control(text: Seq<u8>) -> Result<u16, FormatError> {
    let line = strip_cr(text.subrange(0, first_index_of(text, 0x0a)));
    if line.len() >= 8 && line.subrange(0, 8) == control_prefix() {
        match spec_parse_u16(line.subrange(8, line.len() as int)) {
            Ok(version) => Ok(version),
            Err(_) => Err(FormatError::BadControl),
        }
    } else {
        Err(FormatError::BadControl)
    }
}

/// The version of a tile file: that of its control entry, 1 without one.
pub open spec fn spec_version(control: Option<Seq<u8>>) -> Result<u16, FormatError> {
    match control {
        None => Ok(LEGACY_VERSION),
        Some(text) => spec_parse_control(text),
    }
}

/// The layer-major bytes of a tile given column by column, each column
/// with the 16 bytes of its four layers and one byte of biome: layer
/// `l < 16` of column `c` is byte `l` of the column, and the biome, a `u16`
/// in layers 16 and 17, has the column's last byte as its low byte.
pub open spec fn spec_legacy_to_modern(legacy: Seq<u8>) -> Seq<u8> {
    Seq::new(
        TILE_BYTES as nat,
        |i: int|
            {
                let column = i % 65536;
                let layer = i / 65536;
                if layer < 16 {
                    legacy[column * 17 + layer]
                } else if layer == 16 {
                    0u8
                } else {
                    legacy[column * 17 + 16]
                }
            },
    )
}

/// The layer-major bytes that a data entry of the given version holds.
pub open spec fn spec_decode_data(version: u16, data: Seq<u8>) -> Result<Seq<u8>, FormatError> {
    if version == MODERN_VERSION {
        if data.len() == TILE_BYTES {
            Ok(data)
        } else {
            Err(FormatError::WrongDataLength)
        }
    } else if version == LEGACY_VERSION {
        if data.len() == LEGACY_TILE_BYTES {
            Ok(spec_legacy_to_modern(data))
        } else {
            Err(FormatError::WrongDataLength)
        }
    } else {
        Err(FormatError::UnsupportedVersion)
    }
}

/// The number of places of the table of legacy names that count.
pub open spec fn spec_legacy_limit(legacy_names: Seq<Seq<char>>) -> int {
    if legacy_names.len() < LEGACY_NAMES {
        legacy_names.len() as int
    } else {
        LEGACY_NAMES as int
    }
}

/// The bytes and the key table that the three entries of a tile file
/// give. The control entry is judged first, then the key, then the data.
/// A file without a key entry holds block ids of the old numbering: its
/// key table is made of `legacy_names`, the names of that numbering, and
/// holds the names that the tile uses.
pub open spec fn spec_decode_entries(
    control: Option<Seq<u8>>,
    key: Option<Seq<u8>>,
    data: Seq<u8>,
    legacy_names: Seq<Seq<char>>,
) -> Result<(Seq<u8>, KeySeq), FormatError> {
    match spec_version(control) {
        Err(e) => Err(e),
        Ok(version) => match key {
            None => match spec_decode_data(version, data) {
                Err(e) => Err(e),
                Ok(bytes) => Ok(
                    (
                        spec_keyless_data(legacy_names, bytes),
                        spec_keyless_keys(legacy_names, bytes, spec_legacy_limit(legacy_names)),
                    ),
                ),
            },
            Some(text) => match spec_parse_key_text(text) {
                Err(e) => Err(FormatError::BadKey(e)),
                Ok(keys) => match spec_decode_data(version, data) {
                    Err(e) => Err(e),
                    Ok(bytes) => Ok((bytes, keys)),
                },
            },
        },
    }
}

/// The place that a file name gives, if it gives one.
pub open spec fn spec_pos_of_name(name: Seq<u8>) -> Option<TilePos> {
    match spec_xz_from_name(name) {
        Ok(pos) => Some(pos),
        Err(_) => None,
    }
}

/// The tile made of decoded bytes and keys, read from the file `name`.
pub open spec fn spec_tile_read(bytes: Seq<u8>, keys: KeySeq, name: Seq<char>) -> TileView {
    TileView {
        data: bytes,
        keys,
        names: spec_names_vec(keys),
        pos: spec_pos_of_name(vstd::utf8::encode_utf8(name)),
        source: Some(name),
    }
}

/// What reading a tile file gives, from what the archive holds under its
/// three names.
pub open spec fn spec_read_tile(
    control: Option<Option<Seq<u8>>>,
    key: Option<Option<Seq<u8>>>,
    data: Option<Option<Seq<u8>>>,
    name: Seq<char>,
    legacy_names: Seq<Seq<char>>,
) -> Result<TileView, FormatError> {
    if control is None || key is None || data is None {
        Err(FormatError::Unreadable)
    } else {
        match data->0 {
            None => Err(FormatError::MissingData),
            Some(bytes) => match spec_decode_entries(control->0, key->0, bytes, legacy_names) {
                Err(e) => Err(e),
                Ok((bytes, keys)) => Ok(spec_tile_read(bytes, keys, name)),
            },
        }
    }
}

/// A control entry is read as the version it was written for.
pub proof fn lemma_control_round_trip(version: u16)
    ensures
        spec_parse_control(spec_control_text(version)) == Ok::<u16, FormatError>(version),
{
    let digits = spec_decimal(version as nat);
    let text = spec_control_text(version);
    lemma_decimal_digits(version as nat);
    lemma_parse_decimal_u16(version);
    let end: int = 8 + digits.len() as int;
    assert(first_index_of(text, 0x0a) == end + 1) by {
        assert forall|j: int| 0 <= j < end + 1 implies text[j] != 0x0a by {
            if 8 <= j < end {
                assert(text[j] == digits[j - 8]);
            }
        }
        lemma_first_index_of_is(text, 0x0a, end + 1);
    }
    let first = text.subrange(0, end + 1);
    assert(first.last() == 0x0d);
    let line = strip_cr(first);
    assert(line =~= control_prefix() + digits);
    assert(line.subrange(0, 8) =~= control_prefix());
    assert(line.subrange(8, line.len() as int) =~= digits);
}

/// The entries of a written tile are decoded to its bytes and keys.
pub proof fn lemma_entries_round_trip(data: Seq<u8>, keys: KeySeq, legacy_names: Seq<Seq<char>>)
    requires
        data.len() == TILE_BYTES,
        keys_valid(keys),
    ensures
        spec_decode_entries(
            Some(spec_control_text(MODERN_VERSION)),
            Some(spec_key_text(keys)),
            data,
            legacy_names,
        ) == Ok::<(Seq<u8>, KeySeq), FormatError>((data, keys)),
{
    lemma_control_round_trip(MODERN_VERSION);
    lemma_key_text_round_trip(keys);
}

/// The bytes of `version:`.
fn control_prefix_bytes() -> (prefix: Vec<u8>)
    ensures
        prefix@ == control_prefix(),
{
    let mut prefix: Vec<u8> = Vec::new();
    prefix.push(0x76);
    prefix.push(0x65);
    prefix.push(0x72);
    prefix.push(0x73);
    prefix.push(0x69);
    prefix.push(0x6f);
    prefix.push(0x6e);
    prefix.push(0x3a);
    assert(prefix@ =~= control_prefix());
    prefix
}

/// Writes a control entry.
pub fn control_text(version: u16) -> (text: Vec<u8>)
    ensures
        text@ == spec_control_text(version),
{
    let mut text: Vec<u8> = control_prefix_bytes();
    push_decimal(&mut text, version as u64);
    text.push(0x0d);
    text.push(0x0a);
    assert(text@ =~= spec_control_text(version));
    text
}

/// Reads the version out of a control entry.
pub fn parse_control(text: &[u8]) -> (r: Result<u16, FormatError>)
    ensures
        r == spec_parse_control(text@),
{
    assert(text@.subrange(0, text@.len() as int) =~= text@);
    let end: usize = find_byte(text, 0, 0x0a);
    let first = slice_subrange(text, 0, end);
    let n: usize = first.len();
    let line = if n > 0 && first[n - 1] == 0x0d {
        slice_subrange(first, 0, n - 1)
    } else {
        first
    };
    assert(line@ == strip_cr(first@)) by {
        assert(first@.drop_last() =~= first@.subrange(0, n - 1));
    }
    let prefix = control_prefix_bytes();
    if !has_prefix(line, prefix.as_slice()) {
        return Err(FormatError::BadControl);
    }
    match parse_u16(slice_subrange(line, 8, line.len())) {
        Ok(version) => Ok(version),
        Err(_) => Err(FormatError::BadControl),
    }
}

/// Lays the columns of a legacy tile out layer by layer.
pub fn legacy_to_modern(legacy: &[u8]) -> (modern: Vec<u8>)
    requires
        legacy@.len() == LEGACY_TILE_BYTES,
    ensures
        modern@ == spec_legacy_to_modern(legacy@),
{
    let mut modern: Vec<u8> = Vec::new();
    let mut layer: usize = 0;
    while layer < 18
        invariant
            layer <= 18,
            legacy@.len() == LEGACY_TILE_BYTES,
            modern@.len() == layer * 65536,
            forall|i: int|
                0 <= i < modern@.len() ==> modern@[i] == #[trigger] spec_legacy_to_modern(
                    legacy@,
                )[i],
        decreases 18 - layer,
    {
        let mut column: usize = 0;
        while column < TILE_COLUMNS
            invariant
                layer < 18,
                column <= TILE_COLUMNS,
                legacy@.len() == LEGACY_TILE_BYTES,
                modern@.len() == layer * 65536 + column,
                forall|i: int|
                    0 <= i < modern@.len() ==> modern@[i] == #[trigger] spec_legacy_to_modern(
                        legacy@,
                    )[i],
            decreases TILE_COLUMNS - column,
        {
            let ghost i = layer * 65536 + column;
            assert(i % 65536 == column && i / 65536 == layer);
            let byte: u8 = if layer < 16 {
                legacy[column * 17 + layer]
            } else if layer == 16 {
                0
            } else {
                legacy[column * 17 + 16]
            };
            modern.push(byte);
            column += 1;
        }
        layer += 1;
    }
    assert(modern@ =~= spec_legacy_to_modern(legacy@));
    modern
}

/// Decodes a data entry of the given version.
pub fn decode_data(version: u16, data: Vec<u8>) -> (r: Result<Vec<u8>, FormatError>)
    ensures
        match r {
            Ok(bytes) => spec_decode_data(version, data@) == Ok::<Seq<u8>, FormatError>(bytes@),
            Err(e) => spec_decode_data(version, data@) == Err::<Seq<u8>, FormatError>(e),
        },
{
    if version == MODERN_VERSION {
        if data.len() == TILE_BYTES {
            Ok(data)
        } else {
            Err(FormatError::WrongDataLength)
        }
    } else if version == LEGACY_VERSION {
        if data.len() == LEGACY_TILE_BYTES {
            Ok(legacy_to_modern(data.as_slice()))
        } else {
            Err(FormatError::WrongDataLength)
        }
    } else {
        Err(FormatError::UnsupportedVersion)
    }
}

/// The tile that the entries of a tile file make, read from the file
/// called `file_name`. A file name that gives no place is no error: the
/// tile then has no place. `legacy_names` is the table of the names of the
/// old numbering of blocks, for a file without a key entry.
pub fn tile_from_entries(
    control: Option<Vec<u8>>,
    key: Option<Vec<u8>>,
    data: Vec<u8>,
    file_name: &str,
    legacy_names: &Vec<String>,
) -> (r: Result<Tile, FormatError>)
    ensures
        match r {
            Ok(tile) => tile.wf() && spec_read_tile(
                Some(spec_opt(control)),
                Some(spec_opt(key)),
                Some(Some(data@)),
                file_name@,
                spec_name_views(legacy_names@),
            ) == Ok::<TileView, FormatError>(tile@),
            Err(e) => spec_read_tile(
                Some(spec_opt(control)),
                Some(spec_opt(key)),
                Some(Some(data@)),
                file_name@,
                spec_name_views(legacy_names@),
            ) == Err::<TileView, FormatError>(e),
        },
{
    let version: u16 = match &control {
        None => LEGACY_VERSION,
        Some(text) => match parse_control(text.as_slice()) {
            Ok(version) => version,
            Err(e) => {
                return Err(e);
            },
        },
    };
    let (bytes, keys): (Vec<u8>, KeyTable) = match &key {
        None => {
            let mut bytes: Vec<u8> = match decode_data(version, data) {
                Ok(bytes) => bytes,
                Err(e) => {
                    return Err(e);
                },
            };
            let keys = keyless_to_keyed(&mut bytes, legacy_names);
            (bytes, keys)
        },
        Some(text) => {
            let keys = match parse_key_text(text.as_slice()) {
                Ok(keys) => keys,
                Err(e) => {
                    return Err(FormatError::BadKey(e));
                },
            };
            match decode_data(version, data) {
                Ok(bytes) => (bytes, keys),
                Err(e) => {
                    return Err(e);
                },
            }
        },
    };
    let names: Vec<String> = keys.names_vec();
    let pos: Option<TilePos> = match get_xz_from_tile_path(file_name) {
        Ok(pos) => Some(pos),
        Err(_) => None,
    };
    let ghost names_view = Seq::new(names@.len(), |i: int| names@[i]@);
    assert(names_view =~= spec_names_vec(keys@));
    match Tile::from_parts(bytes, keys, names, pos, Some(file_name.to_owned())) {
        Some(tile) => Ok(tile),
        None => Err(FormatError::WrongDataLength),
    }
}

/// The bytes of an optional entry.
pub open spec fn spec_opt(entry: Option<Vec<u8>>) -> Option<Seq<u8>> {
    match entry {
        Some(bytes) => Some(bytes@),
        None => None,
    }
}

/// Reads the tile file held in `archive`, which was read from the file
/// called `file_name`. `legacy_names` is the table of the names of the old
/// numbering of blocks, for a file without a key entry.
pub fn read_tile(archive: &[u8], file_name: &str, legacy_names: &Vec<String>) -> (r: Result<
    Tile,
    FormatError,
>)
    ensures
        match r {
            Ok(tile) => tile.wf() && spec_read_tile(
                archive_entry(archive@, "control"@),
                archive_entry(archive@, "key"@),
                archive_entry(archive@, "data"@),
                file_name@,
                spec_name_views(legacy_names@),
            ) == Ok::<TileView, FormatError>(tile@),
            Err(e) => spec_read_tile(
                archive_entry(archive@, "control"@),
                archive_entry(archive@, "key"@),
                archive_entry(archive@, "data"@),
                file_name@,
                spec_name_views(legacy_names@),
            ) == Err::<TileView, FormatError>(e),
        },
{
    let control: Option<Vec<u8>> = match read_archive_entry(archive, "control") {
        Ok(entry) => entry,
        Err(_) => {
            return Err(FormatError::Unreadable);
        },
    };
    let key: Option<Vec<u8>> = match read_archive_entry(archive, "key") {
        Ok(entry) => entry,
        Err(_) => {
            return Err(FormatError::Unreadable);
        },
    };
    let data: Vec<u8> = match read_archive_entry(archive, "data") {
        Ok(Some(data)) => data,
        Ok(None) => {
            return Err(FormatError::MissingData);
        },
        Err(_) => {
            return Err(FormatError::Unreadable);
        },
    };
    tile_from_entries(control, key, data, file_name, legacy_names)
}

/// The entries of the file of a tile: the control entry of the modern
/// version, the bytes, and the text of the key table.
pub open spec fn spec_tile_entries(tile: TileView) -> Seq<(Seq<char>, Seq<u8>)> {
    seq![
        ("control"@, spec_control_text(MODERN_VERSION)),
        ("data"@, tile.data),
        ("key"@, spec_key_text(tile.keys)),
    ]
}

/// Whether the archive holds the entries of the file of a tile, as `zip`
/// reads them.
pub open spec fn spec_holds_tile(archive: Seq<u8>, tile: TileView) -> bool {
    &&& archive_entry(archive, "control"@) == Some(Some(spec_control_text(MODERN_VERSION)))
    &&& archive_entry(archive, "data"@) == Some(Some(tile.data))
    &&& archive_entry(archive, "key"@) == Some(Some(spec_key_text(tile.keys)))
}

/// The archive that `zip` makes of the entries of a tile, entry by entry:
/// `None` where it does not take one of them, or makes no archive of
/// them.
pub open spec fn spec_packed(tile: TileView) -> Option<Seq<u8>> {
    let entries = spec_tile_entries(tile);
    if !archive_takes(Seq::empty(), entries[0].0, entries[0].1) {
        None
    } else if !archive_takes(entries.take(1), entries[1].0, entries[1].1) {
        None
    } else if !archive_takes(entries.take(2), entries[2].0, entries[2].1) {
        None
    } else {
        archive_of(entries)
    }
}

/// What writing a tile gives, from the archive that `zip` made of its
/// entries: that archive, if `zip` made one and reads the three entries
/// back from it as they were written, and nothing else.
pub open spec fn spec_confirmed(packed: Option<Seq<u8>>, tile: TileView) -> Option<Seq<u8>> {
    match packed {
        Some(archive) => if spec_holds_tile(archive, tile) {
            Some(archive)
        } else {
            None
        },
        None => None,
    }
}

/// The file of a tile: the archive of its three entries, confirmed.
pub open spec fn spec_write_tile(tile: TileView) -> Option<Seq<u8>> {
    spec_confirmed(spec_packed(tile), tile)
}

/// Whether the archive holds under `name` the bytes `content`.
fn holds_entry(archive: &[u8], name: &str, content: &[u8]) -> (holds: bool)
    ensures
        holds == (archive_entry(archive@, name@) == Some(Some(content@))),
{
    match read_archive_entry(archive, name) {
        Ok(Some(bytes)) => bytes_eq(bytes.as_slice(), content),
        _ => false,
    }
}

/// Packs the three entries of a tile into an archive.
fn pack_tile(tile: &Tile) -> (r: Option<Vec<u8>>)
    requires
        tile.wf(),
    ensures
        spec_opt(r) == spec_packed(tile@),
{
    let ghost entries = spec_tile_entries(tile@);
    let mut writer = archive_writer();
    assert(crate::archive::writer_entries(writer) =~= Seq::empty());
    let control = control_text(MODERN_VERSION);
    if archive_add(&mut writer, "control", control.as_slice()).is_err() {
        return None;
    }
    assert(crate::archive::writer_entries(writer) =~= entries.take(1));
    if archive_add(&mut writer, "data", tile.data().as_slice()).is_err() {
        return None;
    }
    assert(crate::archive::writer_entries(writer) =~= entries.take(2));
    let key = key_text(tile.keys());
    if archive_add(&mut writer, "key", key.as_slice()).is_err() {
        return None;
    }
    assert(crate::archive::writer_entries(writer) =~= entries);
    match archive_finish(writer) {
        Ok(archive) => Some(archive),
        Err(_) => None,
    }
}

/// Confirms the archive that was made of the entries of a tile: reads the
/// three entries back and hands the archive on only if it holds what the
/// tile holds.
pub fn confirm_written(packed: Option<Vec<u8>>, tile: &Tile) -> (r: Option<Vec<u8>>)
    requires
        tile.wf(),
    ensures
        spec_opt(r) == spec_confirmed(spec_opt(packed), tile@),
{
    let archive: Vec<u8> = match packed {
        Some(archive) => archive,
        None => {
            return None;
        },
    };
    let control = control_text(MODERN_VERSION);
    let key = key_text(tile.keys());
    if holds_entry(archive.as_slice(), "control", control.as_slice()) && holds_entry(
        archive.as_slice(),
        "data",
        tile.data().as_slice(),
    ) && holds_entry(archive.as_slice(), "key", key.as_slice()) {
        Some(archive)
    } else {
        None
    }
}

/// Writes the file of a tile, always in the modern layout: a control
/// entry of version 2, the bytes, and the text of the key table. The
/// entries are read back, and a file is handed out exactly if `zip` made
/// an archive of the entries that holds what was written.
pub fn write_tile(tile: &Tile) -> (r: Option<Vec<u8>>)
    requires
        tile.wf(),
    ensures
        spec_opt(r) == spec_write_tile(tile@),
        r matches Some(archive) ==> archive_of(spec_tile_entries(tile@)) == Some(archive@)
            && spec_holds_tile(archive@, tile@),
{
    confirm_written(pack_tile(tile), tile)
}

} // verus!
