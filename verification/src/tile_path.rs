//! The names of tile files: `<x>,<z>.zip` for the cache of a world and
//! `<x>,<z>,<contributor>.zip` for what one contributor recorded.

use crate::decimal::{parse_i32, spec_parse_i32, IntParseError};
use crate::text::{find_byte, first_index_of, string_from_utf8};
use crate::tile::TilePos;
use vstd::prelude::*;
use vstd::slice::slice_subrange;
use vstd::string::StringSliceAdditionalSpecFns;
use vstd::utf8::*;

verus! {

/// Why a file name names no tile, or no contributor.
#[derive(Clone, Copy, Debug, PartialEq, Eq, Structural)]
pub enum TilePathError {
    /// The name has nothing before its extension of four bytes.
    TooShort,
    /// What stands before the first comma is no `i32`.
    BadX(IntParseError),
    /// The name has no comma.
    MissingZ,
    /// What stands after the first comma is no `i32`.
    BadZ(IntParseError),
    /// The name has no second comma.
    MissingContrib,
    /// The contributor's name is cut inside a character by the extension.
    ContribNotUtf8,
}

/// The name without its last four bytes, the extension.
pub open spec fn spec_stem(name: Seq<u8>) -> Seq<u8> {
    name.subrange(0, name.len() - 4)
}

/// The tile position that a file name gives: two decimal numbers parted by
/// a comma, before the extension or a second comma.
pub open spec fn spec_xz_from_name(name: Seq<u8>) -> Result<TilePos, TilePathError> {
    if name.len() <= 4 {
        Err(TilePathError::TooShort)
    } else {
        let stem = spec_stem(name);
        let comma = first_index_of(stem, 0x2c);
        match spec_parse_i32(stem.subrange(0, comma)) {
            Err(e) => Err(TilePathError::BadX(e)),
            Ok(x) => if comma >= stem.len() {
                Err(TilePathError::MissingZ)
            } else {
                let rest = stem.subrange(comma + 1, stem.len() as int);
                match spec_parse_i32(rest.subrange(0, first_index_of(rest, 0x2c))) {
                    Err(e) => Err(TilePathError::BadZ(e)),
                    Ok(z) => Ok((x, z)),
                }
            },
        }
    }
}

/// The bytes of the contributor's name: all that stands between the second
/// comma and the extension.
pub open spec fn spec_contrib_bytes(name: Seq<u8>) -> Option<Seq<u8>> {
    if name.len() <= 4 {
        None
    } else {
        let stem = spec_stem(name);
        let comma = first_index_of(stem, 0x2c);
        if comma >= stem.len() {
            None
        } else {
            let rest = stem.subrange(comma + 1, stem.len() as int);
            let second = first_index_of(rest, 0x2c);
            if second >= rest.len() {
                None
            } else {
                Some(rest.subrange(second + 1, rest.len() as int))
            }
        }
    }
}

/// The contributor that a file name gives.
pub open spec fn spec_contrib_from_name(name: Seq<u8>) -> Result<Seq<char>, TilePathError> {
    match spec_contrib_bytes(name) {
        None => Err(TilePathError::MissingContrib),
        Some(bytes) => if valid_utf8(bytes) {
            Ok(decode_utf8(bytes))
        } else {
            Err(TilePathError::ContribNotUtf8)
        },
    }
}

/// The position of the tile that the file called `file_name` holds.
/// `file_name` is the last part of the file's path.
pub fn get_xz_from_tile_path(file_name: &str) -> (r: Result<TilePos, TilePathError>)
    ensures
        r == spec_xz_from_name(file_name.spec_bytes()),
{
    let name = file_name.as_bytes();
    if name.len() <= 4 {
        return Err(TilePathError::TooShort);
    }
    let stem = slice_subrange(name, 0, name.len() - 4);
    assert(stem@.subrange(0, stem@.len() as int) =~= stem@);
    let comma: usize = find_byte(stem, 0, 0x2c);
    let x: i32 = match parse_i32(slice_subrange(stem, 0, comma)) {
        Ok(x) => x,
        Err(e) => {
            return Err(TilePathError::BadX(e));
        },
    };
    if comma >= stem.len() {
        return Err(TilePathError::MissingZ);
    }
    let rest = slice_subrange(stem, comma + 1, stem.len());
    assert(rest@.subrange(0, rest@.len() as int) =~= rest@);
    let second: usize = find_byte(rest, 0, 0x2c);
    match parse_i32(slice_subrange(rest, 0, second)) {
        Ok(z) => Ok((x, z)),
        Err(e) => Err(TilePathError::BadZ(e)),
    }
}

/// The contributor of the tile file called `file_name`.
pub fn get_contrib_from_tile_path(file_name: &str) -> (r: Result<String, TilePathError>)
    ensures
        match r {
            Ok(contributor) => spec_contrib_from_name(file_name.spec_bytes()) == Ok::<
                Seq<char>,
                TilePathError,
            >(contributor@),
            Err(e) => spec_contrib_from_name(file_name.spec_bytes()) == Err::<
                Seq<char>,
                TilePathError,
            >(e),
        },
{
    let name = file_name.as_bytes();
    if name.len() <= 4 {
        return Err(TilePathError::MissingContrib);
    }
    let stem = slice_subrange(name, 0, name.len() - 4);
    assert(stem@.subrange(0, stem@.len() as int) =~= stem@);
    let comma: usize = find_byte(stem, 0, 0x2c);
    if comma >= stem.len() {
        return Err(TilePathError::MissingContrib);
    }
    let rest = slice_subrange(stem, comma + 1, stem.len());
    assert(rest@.subrange(0, rest@.len() as int) =~= rest@);
    let second: usize = find_byte(rest, 0, 0x2c);
    if second >= rest.len() {
        return Err(TilePathError::MissingContrib);
    }
    match string_from_utf8(slice_subrange(rest, second + 1, rest.len())) {
        Some(contributor) => Ok(contributor),
        None => Err(TilePathError::ContribNotUtf8),
    }
}

} // verus!
