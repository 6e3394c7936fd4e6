//! The box of world coordinates that a run is limited to, written
//! `w,n,e,s`.

use crate::decimal::{parse_i32, spec_parse_i32, IntParseError};
use crate::text::{find_byte, first_index_of, lemma_first_index_of};
use vstd::prelude::*;
use vstd::slice::slice_subrange;
use vstd::string::StringSliceAdditionalSpecFns;

verus! {

pub const REGION_WIDTH: usize = 512;

pub const REGION_HEIGHT: usize = 512;

pub const REGION_COLUMNS: usize = 262144;

pub const REGION_CHUNKS: usize = 1024;

/// Why a text gives no bounds.
#[derive(Clone, Copy, Debug, PartialEq, Eq, Structural)]
pub enum BoundsError {
    /// One of the four parts is no number, or a number out of range.
    Number(IntParseError),
    /// There are not four parts, or west lies east of east, or north south
    /// of south.
    Shape,
}

/// The width of the unit that the first byte of a part names: `c` for
/// chunks, `t` for tiles, `r` for regions.
pub open spec fn spec_unit_width(unit: u8) -> Option<int> {
    if unit == 0x63 {
        Some(16int)
    } else if unit == 0x74 {
        Some(256int)
    } else if unit == 0x72 {
        Some(512int)
    } else {
        None
    }
}

/// The coordinate that one part gives: a number, or a unit and a number,
/// which then stands for the first column after that many units' western
/// or northern edge, `number * width + 1`.
pub open spec fn spec_bounds_part(part: Seq<u8>) -> Result<i32, BoundsError> {
    if part.len() == 0 {
        Err(BoundsError::Number(IntParseError::Empty))
    } else {
        match spec_unit_width(part[0]) {
            None => match spec_parse_i32(part) {
                Ok(v) => Ok(v),
                Err(e) => Err(BoundsError::Number(e)),
            },
            Some(width) => match spec_parse_i32(part.subrange(1, part.len() as int)) {
                Err(e) => Err(BoundsError::Number(e)),
                Ok(v) => if v * width + 1 > i32::MAX {
                    Err(BoundsError::Number(IntParseError::PosOverflow))
                } else if v * width + 1 < i32::MIN {
                    Err(BoundsError::Number(IntParseError::NegOverflow))
                } else {
                    Ok((v * width + 1) as i32)
                },
            },
        }
    }
}

/// The coordinates of the parts of `s`, parted at its first `n - 1`
/// commas, or the error of the first part that gives none.
pub open spec fn spec_bounds_values(s: Seq<u8>, n: int) -> Result<Seq<i32>, BoundsError>
    decreases n,
{
    let comma = first_index_of(s, 0x2c);
    if n > 1 && 0 <= comma < s.len() {
        match spec_bounds_part(s.subrange(0, comma)) {
            Err(e) => Err(e),
            Ok(v) => match spec_bounds_values(s.subrange(comma + 1, s.len() as int), n - 1) {
                Err(e) => Err(e),
                Ok(rest) => Ok(seq![v] + rest),
            },
        }
    } else {
        match spec_bounds_part(s) {
            Err(e) => Err(e),
            Ok(v) => Ok(seq![v]),
        }
    }
}

/// The bounds that `s` gives: four coordinates, west not east of east and
/// north not south of south.
pub open spec fn spec_parse_bounds(s: Seq<u8>) -> Result<Seq<i32>, BoundsError> {
    match spec_bounds_values(s, 4) {
        Err(e) => Err(e),
        Ok(v) => if v.len() != 4 || v[0] > v[2] || v[1] > v[3] {
            Err(BoundsError::Shape)
        } else {
            Ok(v)
        },
    }
}

/// The coordinate that one part gives.
pub fn parse_bounds_part(part: &[u8]) -> (r: Result<i32, BoundsError>)
    ensures
        r == spec_bounds_part(part@),
{
    if part.len() == 0 {
        return Err(BoundsError::Number(IntParseError::Empty));
    }
    let unit: u8 = part[0];
    let width: i64 = if unit == 0x63 {
        16
    } else if unit == 0x74 {
        256
    } else if unit == 0x72 {
        512
    } else {
        return match parse_i32(part) {
            Ok(v) => Ok(v),
            Err(e) => Err(BoundsError::Number(e)),
        };
    };
    match parse_i32(slice_subrange(part, 1, part.len())) {
        Err(e) => Err(BoundsError::Number(e)),
        Ok(v) => {
            let scaled: i64 = v as i64 * width + 1;
            if scaled > i32::MAX as i64 {
                Err(BoundsError::Number(IntParseError::PosOverflow))
            } else if scaled < i32::MIN as i64 {
                Err(BoundsError::Number(IntParseError::NegOverflow))
            } else {
                Ok(scaled as i32)
            }
        },
    }
}

/// Reads bounds written as `w,n,e,s`.
pub fn parse_bounds(bounds_str: &str) -> (r: Result<Vec<i32>, BoundsError>)
    ensures
        match r {
            Ok(bounds) => spec_parse_bounds(bounds_str.spec_bytes()) == Ok::<
                Seq<i32>,
                BoundsError,
            >(bounds@) && bounds@.len() == 4,
            Err(e) => spec_parse_bounds(bounds_str.spec_bytes()) == Err::<Seq<i32>, BoundsError>(e),
        },
{
    let s = bounds_str.as_bytes();
    let mut bounds: Vec<i32> = Vec::new();
    let mut pos: usize = 0;
    let mut left: usize = 4;
    assert(s@.subrange(0, s@.len() as int) =~= s@);
    proof {
        match spec_bounds_values(s@, 4) {
            Ok(rest) => {
                assert(bounds@ + rest =~= rest);
            },
            Err(_) => {},
        }
    }
    loop
        invariant_except_break
            s@ == bounds_str.spec_bytes(),
            1 <= left <= 4,
            pos <= s@.len(),
            bounds@.len() + left == 4,
            match spec_bounds_values(s@.subrange(pos as int, s@.len() as int), left as int) {
                Err(e) => spec_bounds_values(s@, 4) == Err::<Seq<i32>, BoundsError>(e),
                Ok(rest) => spec_bounds_values(s@, 4) == Ok::<Seq<i32>, BoundsError>(
                    bounds@ + rest,
                ),
            },
        ensures
            spec_bounds_values(s@, 4) == Ok::<Seq<i32>, BoundsError>(bounds@),
        decreases left,
    {
        let ghost here = s@.subrange(pos as int, s@.len() as int);
        let comma: usize = find_byte(s, pos, 0x2c);
        proof {
            lemma_first_index_of(here, 0x2c);
        }
        if left > 1 && comma < s.len() {
            let part = slice_subrange(s, pos, comma);
            assert(part@ =~= here.subrange(0, comma - pos));
            assert(s@.subrange(comma + 1, s@.len() as int) =~= here.subrange(
                comma - pos + 1,
                here.len() as int,
            ));
            match parse_bounds_part(part) {
                Err(e) => {
                    return Err(e);
                },
                Ok(v) => {
                    let ghost before = bounds@;
                    bounds.push(v);
                    proof {
                        match spec_bounds_values(
                            s@.subrange(comma + 1, s@.len() as int),
                            left - 1,
                        ) {
                            Ok(rest) => {
                                assert(before + (seq![v] + rest) =~= bounds@ + rest);
                            },
                            Err(_) => {},
                        }
                    }
                },
            }
            pos = comma + 1;
            left -= 1;
        } else {
            let part = slice_subrange(s, pos, s.len());
            assert(part@ =~= here);
            match parse_bounds_part(part) {
                Err(e) => {
                    return Err(e);
                },
                Ok(v) => {
                    let ghost before = bounds@;
                    bounds.push(v);
                    assert(before + seq![v] =~= bounds@);
                },
            }
            break;
        }
    }
    if bounds.len() != 4 || bounds[0] > bounds[2] || bounds[1] > bounds[3] {
        Err(BoundsError::Shape)
    } else {
        Ok(bounds)
    }
}

} // verus!
