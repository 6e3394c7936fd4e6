use voxelmap_cache::decimal::IntParseError;
use voxelmap_cache::{parse_bounds, BoundsError};

#[test]
fn parse_bounds_with_world_coords() {
    let bounds_str = "1,-22222,33333,-4";
    let bounds = parse_bounds(bounds_str);
    assert_eq!(Ok(vec![1, -22222, 33333, -4]), bounds);
}

#[test]
fn parse_bounds_with_tile_coords() {
    let bounds_str = "t-2,t-33,t4,t5";
    let bounds = parse_bounds(bounds_str);
    let bounds_regions = bounds.map(|b| b.iter().map(|c| *c >> 8).collect::<Vec<i32>>());
    assert_eq!(Ok(vec![-2, -33, 4, 5]), bounds_regions);
}

#[test]
fn parse_bounds_with_chunk_and_region_coords() {
    assert_eq!(Ok(vec![-31, 1, 513, 1025]), parse_bounds("c-2,c0,r1,r2"));
}

#[test]
fn parse_bounds_rejects_wrong_shape() {
    assert_eq!(Err(BoundsError::Shape), parse_bounds("1,2,3"));
    assert_eq!(Err(BoundsError::Shape), parse_bounds("5,0,1,9"));
    assert_eq!(Err(BoundsError::Shape), parse_bounds("0,5,9,1"));
}

#[test]
fn parse_bounds_rejects_bad_numbers() {
    assert_eq!(Err(BoundsError::Number(IntParseError::Empty)), parse_bounds("1,,3,4"));
    assert_eq!(Err(BoundsError::Number(IntParseError::InvalidDigit)), parse_bounds("1,2,3,4,5"));
    assert_eq!(Err(BoundsError::Number(IntParseError::InvalidDigit)), parse_bounds("a,2,3,4"));
    assert_eq!(Err(BoundsError::Number(IntParseError::PosOverflow)), parse_bounds("1,2,3,2147483648"));
    assert_eq!(Err(BoundsError::Number(IntParseError::PosOverflow)), parse_bounds("1,2,r4194304,4"));
    assert_eq!(Err(BoundsError::Number(IntParseError::NegOverflow)), parse_bounds("-2147483649,2,3,4"));
}
