//! What is done with the rendered regions: one image each, or all in one.

use crate::decimal::{lemma_decimal_digits, push_decimal, spec_decimal};
use crate::orchestrate::{lemma_parse_decimal_int, push_decimal_int, spec_decimal_int};
use crate::text::{lemma_ascii_is_utf8, string_from_utf8};
use vstd::prelude::*;
use vstd::string::{StrSliceExecFns, StringExecFns};

verus! {

pub const REGION_WIDTH: usize = 256;

pub const REGION_HEIGHT: usize = 256;

pub const REGION_BLOCKS: usize = 65536;

pub type RegionPos = (i32, i32);

pub type RegionPixels = [u32; 65536];

/// Width of the one image, in pixels: 45 regions.
pub const IMG_WIDTH: usize = 11520;

/// Height of the one image, in pixels: 45 regions.
pub const IMG_HEIGHT: usize = 11520;

/// The column of the world at the western edge of the one image.
pub const IMG_WEST: i32 = -5376;

/// The row of the world at the northern edge of the one image.
pub const IMG_NORTH: i32 = -5376;

/// Something that takes the rendered regions of a run, one after the
/// other.
pub trait Processor {
    fn process_region(&mut self, region_pos: RegionPos, region_pixels: Box<RegionPixels>);

    fn pre_process(&mut self) {
    }

    fn post_process(&mut self) {
    }
}

/// `s` with every `pat` in it replaced by `with`, from the left, an
/// occurrence starting where the one before ended at the earliest. An
/// empty `pat` is found nowhere.
pub open spec fn spec_replace(s: Seq<char>, pat: Seq<char>, with: Seq<char>) -> Seq<char>
    decreases s.len(),
{
    if pat.len() == 0 || s.len() < pat.len() {
        s
    } else if s.subrange(0, pat.len() as int) == pat {
        with + spec_replace(s.subrange(pat.len() as int, s.len() as int), pat, with)
    } else {
        seq![s[0]] + spec_replace(s.drop_first(), pat, with)
    }
}

/// The characters of a string.
fn chars_of(s: &str) -> (chars: Vec<char>)
    ensures
        chars@ == s@,
{
    let n: usize = s.unicode_len();
    let mut chars: Vec<char> = Vec::new();
    let mut i: usize = 0;
    while i < n
        invariant
            i <= n,
            n == s@.len(),
            chars@ == s@.take(i as int),
        decreases n - i,
    {
        chars.push(s.get_char(i));
        assert(s@.take(i + 1) =~= s@.take(i as int).push(s@[i as int]));
        i += 1;
    }
    assert(s@.take(n as int) =~= s@);
    chars
}

/// Replaces every `pat` in `s` by `with`.
pub fn replace_all(s: &str, pat: &str, with: &str) -> (r: String)
    ensures
        r@ == spec_replace(s@, pat@, with@),
{
    let text: Vec<char> = chars_of(s);
    let find: Vec<char> = chars_of(pat);
    let n: usize = text.len();
    let m: usize = find.len();
    let mut out: String = String::new();
    let mut i: usize = 0;
    assert(s@.skip(0) =~= s@);
    assert(out@ + spec_replace(s@, pat@, with@) =~= spec_replace(s@, pat@, with@));
    while i < n
        invariant
            i <= n,
            n == s@.len(),
            m == pat@.len(),
            text@ == s@,
            find@ == pat@,
            out@ + spec_replace(s@.skip(i as int), pat@, with@) == spec_replace(s@, pat@, with@),
        decreases n - i,
    {
        let ghost rest = s@.skip(i as int);
        let mut matches: bool = m > 0 && m <= n - i;
        if matches {
            let mut k: usize = 0;
            while k < m && text[i + k] == find[k]
                invariant
                    k <= m,
                    m <= n - i,
                    text@ == s@,
                    find@ == pat@,
                    m == pat@.len(),
                    n == s@.len(),
                    forall|j: int| 0 <= j < k ==> text@[i + j] == find@[j],
                decreases m - k,
            {
                k += 1;
            }
            matches = k == m;
            proof {
                let head = rest.subrange(0, m as int);
                if k == m {
                    assert(head =~= pat@);
                } else {
                    assert(head[k as int] == text@[i + k]);
                    assert(pat@[k as int] == find@[k as int]);
                    assert(head != pat@);
                }
            }
        }
        let ghost before = out@;
        if matches {
            out.append(with);
            proof {
                assert(rest.subrange(m as int, rest.len() as int) =~= s@.skip(i + m));
                assert(before + (with@ + spec_replace(s@.skip(i + m), pat@, with@)) =~= out@
                    + spec_replace(s@.skip(i + m), pat@, with@));
            }
            i += m;
        } else {
            out.append(s.substring_char(i, i + 1));
            proof {
                assert(s@.subrange(i as int, i + 1) =~= seq![rest[0]]);
                assert(rest.drop_first() =~= s@.skip(i + 1));
                assert(before + (seq![rest[0]] + spec_replace(s@.skip(i + 1), pat@, with@)) =~= out@
                    + spec_replace(s@.skip(i + 1), pat@, with@));
            }
            i += 1;
        }
    }
    proof {
        assert(s@.skip(n as int).len() == 0);
        assert(out@ + s@.skip(n as int) =~= out@);
    }
    out
}

/// The characters of bytes below 128.
pub open spec fn spec_ascii(bytes: Seq<u8>) -> Seq<char> {
    Seq::new(bytes.len(), |i: int| bytes[i] as char)
}

/// A number in decimal digits.
pub fn decimal_string(v: u64) -> (s: String)
    ensures
        s@ == spec_ascii(spec_decimal(v as nat)),
{
    let mut bytes: Vec<u8> = Vec::new();
    push_decimal(&mut bytes, v);
    proof {
        lemma_decimal_digits(v as nat);
        assert(bytes@ =~= spec_decimal(v as nat));
        lemma_ascii_is_utf8(bytes@);
    }
    match string_from_utf8(bytes.as_slice()) {
        Some(s) => s,
        None => String::new(),
    }
}

/// A number with its sign in decimal digits.
pub fn decimal_int_string(v: i32) -> (s: String)
    ensures
        s@ == spec_ascii(spec_decimal_int(v as int)),
{
    let mut bytes: Vec<u8> = Vec::new();
    push_decimal_int(&mut bytes, v);
    proof {
        lemma_parse_decimal_int(v);
        assert(bytes@ =~= spec_decimal_int(v as int));
        lemma_ascii_is_utf8(bytes@);
    }
    match string_from_utf8(bytes.as_slice()) {
        Some(s) => s,
        None => String::new(),
    }
}

/// Writes each region into an image file of its own.
pub struct TilesProcessor {
    /// The path of the images, with `{tile}` where `<x>,<z>` of the
    /// region goes, or `{x}` and `{z}` where the two numbers go.
    pub tiles_pattern: String,
}

/// The path of the image of a region.
pub open spec fn spec_tile_image_path(pattern: Seq<char>, region_pos: RegionPos) -> Seq<char> {
    let x = spec_ascii(spec_decimal_int(region_pos.0 as int));
    let z = spec_ascii(spec_decimal_int(region_pos.1 as int));
    spec_replace(
        spec_replace(spec_replace(pattern, "{tile}"@, x + ","@ + z), "{x}"@, x),
        "{z}"@,
        z,
    )
}

impl TilesProcessor {
    /// The path of the image of the region at `region_pos`.
    pub fn image_path(&self, region_pos: RegionPos) -> (path: String)
        ensures
            path@ == spec_tile_image_path(self.tiles_pattern@, region_pos),
    {
        let x: String = decimal_int_string(region_pos.0);
        let z: String = decimal_int_string(region_pos.1);
        let mut tile: String = x.clone();
        tile.append(",");
        tile.append(z.as_str());
        let first: String = replace_all(self.tiles_pattern.as_str(), "{tile}", tile.as_str());
        let second: String = replace_all(first.as_str(), "{x}", x.as_str());
        replace_all(second.as_str(), "{z}", z.as_str())
    }
}

/// Gathers all regions in one image.
pub struct SingleImageProcessor {
    pixbuf: Vec<u32>,
    img_path: String,
}

/// The line of the one image that the first line of a region goes to.
pub open spec fn spec_region_line(region_pos: RegionPos) -> int {
    (region_pos.0 * 256 - IMG_WEST) + (region_pos.1 * 256 - IMG_NORTH)
}

/// The one image after a region was put in: line `z` of the region stands
/// at the start of line `spec_region_line(region_pos) + z` of the image.
pub open spec fn spec_process_region(
    pixbuf: Seq<u32>,
    region_pos: RegionPos,
    region_pixels: Seq<u32>,
    lines: int,
) -> Seq<u32> {
    Seq::new(
        pixbuf.len(),
        |i: int|
            {
                let line = i / 11520 - spec_region_line(region_pos);
                if 0 <= line < lines && i % 11520 < 256 {
                    region_pixels[line * 256 + i % 11520]
                } else {
                    pixbuf[i]
                }
            },
    )
}

impl SingleImageProcessor {
    /// The pixels of the one image, line by line.
    pub closed spec fn pixels(&self) -> Seq<u32> {
        self.pixbuf@
    }

    /// The path that the image is written to.
    pub closed spec fn path(&self) -> Seq<char> {
        self.img_path@
    }

    /// An empty image, to be written to the path `img_pattern` with the
    /// time `unix_time` in place of `{t}`.
    pub fn new(img_pattern: &String, unix_time: u64) -> (processor: SingleImageProcessor)
        ensures
            processor.pixels() == Seq::new((IMG_WIDTH * IMG_HEIGHT) as nat, |i: int| 0u32),
            processor.path() == spec_replace(
                img_pattern@,
                "{t}"@,
                spec_ascii(spec_decimal(unix_time as nat)),
            ),
    {
        let pixbuf: Vec<u32> = vec![0u32; IMG_WIDTH * IMG_HEIGHT];
        assert(pixbuf@ =~= Seq::new((IMG_WIDTH * IMG_HEIGHT) as nat, |i: int| 0u32));
        SingleImageProcessor {
            pixbuf,
            img_path: SingleImageProcessor::replace_timestamp(img_pattern, unix_time),
        }
    }

    /// `img_pattern` with the time `unix_time`, in seconds since the Unix
    /// epoch, in place of `{t}`.
    pub fn replace_timestamp(img_pattern: &String, unix_time: u64) -> (path: String)
        ensures
            path@ == spec_replace(
                img_pattern@,
                "{t}"@,
                spec_ascii(spec_decimal(unix_time as nat)),
            ),
    {
        let time: String = decimal_string(unix_time);
        replace_all(img_pattern.as_str(), "{t}", time.as_str())
    }

    pub fn img_path(&self) -> (path: &String)
        ensures
            path@ == self.path(),
    {
        &self.img_path
    }

    pub fn pixbuf(&self) -> (pixels: &Vec<u32>)
        ensures
            pixels@ == self.pixels(),
    {
        &self.pixbuf
    }

    /// Whether the region at `region_pos` lies within the image.
    pub open spec fn spec_fits(region_pos: RegionPos) -> bool {
        0 <= spec_region_line(region_pos) && spec_region_line(region_pos) + 256 <= IMG_HEIGHT
    }

    /// Whether the region at `region_pos` lies within the image.
    pub fn fits(region_pos: RegionPos) -> (fits: bool)
        ensures
            fits == Self::spec_fits(region_pos),
    {
        let line: i64 = (region_pos.0 as i64 * 256 - IMG_WEST as i64) + (region_pos.1 as i64 * 256
            - IMG_NORTH as i64);
        0 <= line && line + 256 <= IMG_HEIGHT as i64
    }

    /// Puts the pixels of the region at `region_pos` into the image.
    pub fn process_region(&mut self, region_pos: RegionPos, region_pixels: &RegionPixels)
        requires
            old(self).pixels().len() == IMG_WIDTH * IMG_HEIGHT,
            Self::spec_fits(region_pos),
        ensures
            final(self).path() == old(self).path(),
            final(self).pixels() == spec_process_region(
                old(self).pixels(),
                region_pos,
                region_pixels@,
                256,
            ),
    {
        let first_line: usize = ((region_pos.0 as i64 * 256 - IMG_WEST as i64) + (region_pos.1
            as i64 * 256 - IMG_NORTH as i64)) as usize;
        let ghost start = self.pixbuf@;
        let mut line_z: usize = 0;
        assert(self.pixbuf@ =~= spec_process_region(start, region_pos, region_pixels@, 0));
        while line_z < REGION_HEIGHT
            invariant
                line_z <= REGION_HEIGHT,
                first_line == spec_region_line(region_pos),
                first_line + 256 <= IMG_HEIGHT,
                start.len() == IMG_WIDTH * IMG_HEIGHT,
                self.img_path@ == old(self).img_path@,
                self.pixbuf@ == spec_process_region(
                    start,
                    region_pos,
                    region_pixels@,
                    line_z as int,
                ),
            decreases REGION_HEIGHT - line_z,
        {
            let img_line: usize = (first_line + line_z) * IMG_WIDTH;
            let mut x: usize = 0;
            let ghost line_start = self.pixbuf@;
            while x < REGION_WIDTH
                invariant
                    x <= REGION_WIDTH,
                    line_z < REGION_HEIGHT,
                    img_line == (first_line + line_z) * IMG_WIDTH,
                    first_line + 256 <= IMG_HEIGHT,
                    self.pixbuf@.len() == IMG_WIDTH * IMG_HEIGHT,
                    line_start.len() == IMG_WIDTH * IMG_HEIGHT,
                    self.img_path@ == old(self).img_path@,
                    forall|i: int|
                        0 <= i < self.pixbuf@.len() ==> #[trigger] self.pixbuf@[i] == if img_line
                            <= i < img_line + x {
                            region_pixels@[line_z * 256 + (i - img_line)]
                        } else {
                            line_start[i]
                        },
                decreases REGION_WIDTH - x,
            {
                self.pixbuf.set(img_line + x, region_pixels[line_z * REGION_WIDTH + x]);
                x += 1;
            }
            proof {
                let want = spec_process_region(start, region_pos, region_pixels@, line_z + 1);
                assert forall|i: int| 0 <= i < want.len() implies self.pixbuf@[i] == want[i] by {
                    let row = i / 11520;
                    let col = i % 11520;
                    if img_line <= i < img_line + 256 {
                        assert(row == first_line + line_z && col == i - img_line);
                    } else {
                        assert(!(row == first_line + line_z && col < 256));
                    }
                }
                assert(self.pixbuf@ =~= want);
            }
            line_z += 1;
        }
    }
}

} // verus!
