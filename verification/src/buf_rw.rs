//! Reading numbers and byte strings out of a buffer, one after the other.

use crate::text::string_from_utf8;
use vstd::prelude::*;
use vstd::slice::slice_subrange;
use vstd::utf8::*;

verus! {

/// The error of `rustc_serialize::hex`. Nothing is known of it but that
/// it is one.
#[verifier::external_type_specification]
#[verifier::external_body]
pub struct ExFromHexError(rustc_serialize::hex::FromHexError);

/// Why a value cannot be read.
#[derive(Clone, Copy, Debug, PartialEq, Eq, Structural)]
pub enum BufError {
    /// The buffer ends before the value does.
    UnexpectedEof,
    /// A varint goes on after its fifth byte.
    VarIntTooBig,
    /// A UUID is written with neither 32 nor 36 bytes, or its digits make
    /// fewer than 16 bytes.
    InvalidUuidFormat,
    /// A UUID holds something that is no hexadecimal digit, or an odd
    /// number of digits.
    InvalidHex,
    /// A text is not UTF-8.
    Utf8,
}

/// The number that bytes write, the most significant first.
pub open spec fn spec_be_value(bytes: Seq<u8>) -> nat
    decreases bytes.len(),
{
    if bytes.len() == 0 {
        0
    } else {
        spec_be_value(bytes.drop_last()) * 256 + bytes.last() as nat
    }
}

/// The bytes that hexadecimal digits write, as `rustc_serialize` decodes
/// them: blanks between the digits are passed over; `None` where there is
/// anything else, or a digit without its pair.
pub uninterp spec fn hex_decoded(s: Seq<char>) -> Option<Seq<u8>>;

/// Decodes hexadecimal digits with `FromHex::from_hex` of
/// `rustc_serialize`. The result depends on the string alone and is what
/// `hex_decoded` names.
#[verifier::external_body]
fn hex_decode(s: &str) -> (r: Result<Vec<u8>, rustc_serialize::hex::FromHexError>)
    ensures
        match r {
            Ok(bytes) => hex_decoded(s@) == Some(bytes@),
            Err(_) => hex_decoded(s@) is None,
        },
{
    rustc_serialize::hex::FromHex::from_hex(s)
}

/// The number that the first two bytes of `bytes` write, the most
/// significant first: `read_u16` of `byteorder::BigEndian`, which fails on
/// fewer bytes.
#[verifier::external_body]
fn be_u16(bytes: &[u8]) -> (v: u16)
    requires
        bytes@.len() >= 2,
    ensures
        v == spec_be_value(bytes@.subrange(0, 2)),
{
    <byteorder::BigEndian as byteorder::ByteOrder>::read_u16(bytes)
}

/// The number that the first four bytes of `bytes` write, the most
/// significant first: `read_u32` of `byteorder::BigEndian`, which fails on
/// fewer bytes.
#[verifier::external_body]
fn be_u32(bytes: &[u8]) -> (v: u32)
    requires
        bytes@.len() >= 4,
    ensures
        v == spec_be_value(bytes@.subrange(0, 4)),
{
    <byteorder::BigEndian as byteorder::ByteOrder>::read_u32(bytes)
}

/// The number that the first eight bytes of `bytes` write, the most
/// significant first: `read_u64` of `byteorder::BigEndian`, which fails on
/// fewer bytes.
#[verifier::external_body]
fn be_u64(bytes: &[u8]) -> (v: u64)
    requires
        bytes@.len() >= 8,
    ensures
        v == spec_be_value(bytes@.subrange(0, 8)),
{
    <byteorder::BigEndian as byteorder::ByteOrder>::read_u64(bytes)
}

/// The signed number that the first two bytes of `bytes` write in two's
/// complement, the most significant first: `read_i16` of
/// `byteorder::BigEndian`, which fails on fewer bytes.
#[verifier::external_body]
fn be_i16(bytes: &[u8]) -> (v: i16)
    requires
        bytes@.len() >= 2,
    ensures
        v == if spec_be_value(bytes@.subrange(0, 2)) >= 0x8000 {
            spec_be_value(bytes@.subrange(0, 2)) - 0x1_0000
        } else {
            spec_be_value(bytes@.subrange(0, 2)) as int
        },
{
    <byteorder::BigEndian as byteorder::ByteOrder>::read_i16(bytes)
}

/// The signed number that the first four bytes of `bytes` write in two's
/// complement, the most significant first: `read_i32` of
/// `byteorder::BigEndian`, which fails on fewer bytes.
#[verifier::external_body]
fn be_i32(bytes: &[u8]) -> (v: i32)
    requires
        bytes@.len() >= 4,
    ensures
        v == if spec_be_value(bytes@.subrange(0, 4)) >= 0x8000_0000 {
            spec_be_value(bytes@.subrange(0, 4)) - 0x1_0000_0000
        } else {
            spec_be_value(bytes@.subrange(0, 4)) as int
        },
{
    <byteorder::BigEndian as byteorder::ByteOrder>::read_i32(bytes)
}

/// A universally unique identifier: its first and its last eight bytes as
/// numbers.
#[derive(PartialEq, Eq, Hash, Clone, Copy, Debug, Structural)]
pub struct UUID(pub u64, pub u64);

/// The string without its hyphens.
pub open spec fn spec_without_hyphens(s: Seq<u8>) -> Seq<u8>
    decreases s.len(),
{
    if s.len() == 0 {
        Seq::empty()
    } else if s.last() == 0x2d {
        spec_without_hyphens(s.drop_last())
    } else {
        spec_without_hyphens(s.drop_last()).push(s.last())
    }
}

/// The UUID that 16 bytes or more write: the first eight bytes make its
/// first number, the next eight its second.
pub open spec fn spec_uuid_of_bytes(parts: Seq<u8>) -> Option<UUID> {
    if parts.len() < 16 {
        None
    } else {
        Some(
            UUID(
                spec_be_value(parts.subrange(0, 8)) as u64,
                spec_be_value(parts.subrange(8, 16)) as u64,
            ),
        )
    }
}

/// The UUID that decoded digits give.
pub open spec fn spec_uuid_of_decoded(decoded: Option<Seq<u8>>) -> Result<UUID, BufError> {
    match decoded {
        None => Err(BufError::InvalidHex),
        Some(parts) => match spec_uuid_of_bytes(parts) {
            Some(uuid) => Ok(uuid),
            None => Err(BufError::InvalidUuidFormat),
        },
    }
}

/// The UUID that a string writes: 32 hexadecimal digits, or 36 bytes with
/// hyphens among the digits.
pub open spec fn spec_uuid_from_str(s: Seq<char>) -> Result<UUID, BufError> {
    let bytes = encode_utf8(s);
    if bytes.len() == 32 {
        spec_uuid_of_decoded(hex_decoded(s))
    } else if bytes.len() == 36 {
        if valid_utf8(spec_without_hyphens(bytes)) {
            spec_uuid_of_decoded(hex_decoded(decode_utf8(spec_without_hyphens(bytes))))
        } else {
            Err(BufError::InvalidUuidFormat)
        }
    } else {
        Err(BufError::InvalidUuidFormat)
    }
}

pub proof fn lemma_be_value_bound(bytes: Seq<u8>)
    ensures
        spec_be_value(bytes) < vstd::arithmetic::power2::pow2(8 * bytes.len()),
    decreases bytes.len(),
{
    vstd::arithmetic::power2::lemma2_to64();
    if bytes.len() == 0 {
    } else {
        lemma_be_value_bound(bytes.drop_last());
        let n = bytes.len() as nat;
        vstd::arithmetic::power2::lemma_pow2_adds((8 * (n - 1)) as nat, 8);
        assert(spec_be_value(bytes.drop_last()) + 1 <= vstd::arithmetic::power2::pow2(
            (8 * (n - 1)) as nat,
        ));
        assert((spec_be_value(bytes.drop_last()) + 1) * 256 <= vstd::arithmetic::power2::pow2(
            (8 * (n - 1)) as nat,
        ) * 256) by (nonlinear_arith)
            requires
                spec_be_value(bytes.drop_last()) + 1 <= vstd::arithmetic::power2::pow2(
                    (8 * (n - 1)) as nat,
                ),
        ;
    }
}

/// Removes the hyphens.
fn without_hyphens(s: &[u8]) -> (r: Vec<u8>)
    ensures
        r@ == spec_without_hyphens(s@),
{
    let mut r: Vec<u8> = Vec::new();
    let mut i: usize = 0;
    while i < s.len()
        invariant
            i <= s@.len(),
            r@ == spec_without_hyphens(s@.take(i as int)),
        decreases s@.len() - i,
    {
        proof {
            assert(s@.take(i + 1).drop_last() =~= s@.take(i as int));
            assert(s@.take(i + 1).last() == s@[i as int]);
        }
        if s[i] != 0x2d {
            r.push(s[i]);
        }
        i += 1;
    }
    assert(s@.take(i as int) =~= s@);
    r
}

/// The hexadecimal digit of a number below 16, in lower case.
pub open spec fn spec_hex_digit(v: nat) -> u8 {
    if v < 10 {
        (0x30 + v) as u8
    } else {
        (0x57 + v) as u8
    }
}

/// The hexadecimal digits of a number, without leading zeros.
pub open spec fn spec_hex(v: nat) -> Seq<u8>
    decreases v,
{
    if v < 16 {
        seq![spec_hex_digit(v)]
    } else {
        spec_hex(v / 16).push(spec_hex_digit(v % 16))
    }
}

/// The hexadecimal digits of a number, two at least.
pub open spec fn spec_hex_two(v: nat) -> Seq<u8> {
    if v < 16 {
        seq![0x30u8] + spec_hex(v)
    } else {
        spec_hex(v)
    }
}

/// Hexadecimal digits are below 128.
pub proof fn lemma_hex_is_ascii(v: nat)
    ensures
        forall|i: int| 0 <= i < spec_hex(v).len() ==> #[trigger] spec_hex(v)[i] < 0x80,
    decreases v,
{
    if v >= 16 {
        lemma_hex_is_ascii(v / 16);
        let shorter = spec_hex(v / 16);
        assert forall|i: int| 0 <= i < spec_hex(v).len() implies #[trigger] spec_hex(v)[i]
            < 0x80 by {
            if i < shorter.len() {
                assert(spec_hex(v)[i] == shorter[i]);
            }
        }
    }
}

/// Appends the hexadecimal digits of `v`, two at least.
fn push_hex_two(out: &mut Vec<u8>, v: u64)
    ensures
        final(out)@ == old(out)@ + spec_hex_two(v as nat),
{
    let mut digits: Vec<u8> = Vec::new();
    let mut rest: u64 = v;
    while rest >= 16
        invariant
            spec_hex(v as nat) == spec_hex(rest as nat) + digits@.reverse(),
        decreases rest,
    {
        let low: u8 = (rest % 16) as u8;
        let d: u8 = if low < 10 {
            0x30 + low
        } else {
            0x57 + low
        };
        proof {
            let old_rev = digits@.reverse();
            assert(digits@.push(d).reverse() =~= seq![d] + old_rev);
            assert(spec_hex(rest as nat) == spec_hex((rest / 16) as nat).push(d));
            assert(spec_hex((rest / 16) as nat).push(d) + old_rev =~= spec_hex((rest / 16) as nat)
                + (seq![d] + old_rev));
        }
        digits.push(d);
        rest = rest / 16;
    }
    let low: u8 = rest as u8;
    let first: u8 = if low < 10 {
        0x30 + low
    } else {
        0x57 + low
    };
    if v < 16 {
        out.push(0x30);
    }
    let ghost base = out@.push(first);
    out.push(first);
    let n: usize = digits.len();
    let mut k: usize = n;
    while k > 0
        invariant
            k <= n,
            n == digits.len(),
            out@ == base + digits@.reverse().subrange(0, n - k),
        decreases k,
    {
        k -= 1;
        proof {
            let rev = digits@.reverse();
            assert(rev[n - 1 - k] == digits@[k as int]);
            assert(rev.subrange(0, n - k) =~= rev.subrange(0, n - 1 - k).push(digits@[k as int]));
        }
        out.push(digits[k]);
    }
    proof {
        let rev = digits@.reverse();
        assert(rev.subrange(0, n as int) =~= rev);
        assert(spec_hex(rest as nat) == seq![first]);
        assert(old(out)@ + spec_hex_two(v as nat) =~= base + rev);
    }
}

impl UUID {
    /// The UUID as it is shown: the hexadecimal digits of its two
    /// numbers, two of each at least.
    pub fn to_hex(&self) -> (text: String)
        ensures
            vstd::utf8::encode_utf8(text@) == spec_hex_two(self.0 as nat) + spec_hex_two(
                self.1 as nat,
            ),
    {
        let mut bytes: Vec<u8> = Vec::new();
        push_hex_two(&mut bytes, self.0);
        push_hex_two(&mut bytes, self.1);
        proof {
            lemma_hex_is_ascii(self.0 as nat);
            lemma_hex_is_ascii(self.1 as nat);
            assert forall|i: int| 0 <= i < bytes@.len() implies #[trigger] bytes@[i] < 0x80 by {
                let a = spec_hex_two(self.0 as nat);
                let b = spec_hex_two(self.1 as nat);
                if i < a.len() {
                    assert(bytes@[i] == a[i]);
                    if self.0 < 16 && i > 0 {
                        assert(a[i] == spec_hex(self.0 as nat)[i - 1]);
                    }
                } else {
                    assert(bytes@[i] == b[i - a.len()]);
                    if self.1 < 16 && i - a.len() > 0 {
                        assert(b[i - a.len()] == spec_hex(self.1 as nat)[i - a.len() - 1]);
                    }
                }
            }
            crate::text::lemma_ascii_is_utf8(bytes@);
            decode_utf8_encode_utf8(bytes@);
        }
        match string_from_utf8(bytes.as_slice()) {
            Some(text) => text,
            None => String::new(),
        }
    }

    /// The UUID that 16 bytes or more write.
    pub fn from_bytes(parts: &[u8]) -> (r: Option<UUID>)
        ensures
            r == spec_uuid_of_bytes(parts@),
    {
        if parts.len() < 16 {
            return None;
        }
        let high: u64 = be_u64(slice_subrange(parts, 0, 8));
        let low: u64 = be_u64(slice_subrange(parts, 8, 16));
        proof {
            assert(parts@.subrange(0, 8).subrange(0, 8) =~= parts@.subrange(0, 8));
            assert(parts@.subrange(8, 16).subrange(0, 8) =~= parts@.subrange(8, 16));
        }
        Some(UUID(high, low))
    }

    /// Reads a UUID written in hexadecimal digits, with or without
    /// hyphens.
    pub fn from_str(s: &str) -> (r: Result<UUID, BufError>)
        ensures
            r == spec_uuid_from_str(s@),
    {
        let bytes = s.as_bytes();
        let decoded: Result<Vec<u8>, rustc_serialize::hex::FromHexError> = if bytes.len() == 36 {
            let plain = without_hyphens(bytes);
            match string_from_utf8(plain.as_slice()) {
                Some(digits) => hex_decode(digits.as_str()),
                None => {
                    return Err(BufError::InvalidUuidFormat);
                },
            }
        } else if bytes.len() == 32 {
            hex_decode(s)
        } else {
            return Err(BufError::InvalidUuidFormat);
        };
        match decoded {
            Err(_) => Err(BufError::InvalidHex),
            Ok(parts) => match UUID::from_bytes(parts.as_slice()) {
                Some(uuid) => Ok(uuid),
                None => Err(BufError::InvalidUuidFormat),
            },
        }
    }
}

/// What a reader holds: the bytes and the place of the next byte to read.
pub struct BufReaderView {
    pub data: Seq<u8>,
    pub pos: int,
}

/// A buffer that is read from its start to its end.
pub struct BufReader {
    data: Vec<u8>,
    pos: usize,
}

impl View for BufReader {
    type V = BufReaderView;

    closed spec fn view(&self) -> BufReaderView {
        BufReaderView { data: self.data@, pos: self.pos as int }
    }
}

/// The bytes read and the place after them, where `size` bytes are left.
pub open spec fn spec_read_bytes(data: Seq<u8>, pos: int, size: int) -> Result<
    (Seq<u8>, int),
    BufError,
> {
    if 0 <= size && pos + size <= data.len() {
        Ok((data.subrange(pos, pos + size), pos + size))
    } else {
        Err(BufError::UnexpectedEof)
    }
}

/// The number that the next `size` bytes write, and the place after them.
pub open spec fn spec_read_be(data: Seq<u8>, pos: int, size: int) -> Result<(nat, int), BufError> {
    match spec_read_bytes(data, pos, size) {
        Ok((bytes, next)) => Ok((spec_be_value(bytes), next)),
        Err(e) => Err(e),
    }
}

/// The varint that starts at `pos`, read from its byte `size` on, with the
/// value `val` of the bytes before: each byte gives seven bits, the least
/// significant first, and says in its top bit whether another follows.
/// There are five bytes at most.
pub open spec fn spec_read_varint_from(data: Seq<u8>, pos: int, size: int, val: u32) -> Result<
    (i32, int),
    BufError,
>
    decreases 6 - size,
{
    if pos >= data.len() {
        Err(BufError::UnexpectedEof)
    } else if size >= 5 {
        Err(BufError::VarIntTooBig)
    } else {
        let b = data[pos] as u32;
        let next = val | ((b & 0x7f) << ((size * 7) as u32));
        if b & 0x80 == 0 {
            Ok((next as i32, pos + 1))
        } else {
            spec_read_varint_from(data, pos + 1, size + 1, next)
        }
    }
}

pub open spec fn spec_read_varint(data: Seq<u8>, pos: int) -> Result<(i32, int), BufError> {
    spec_read_varint_from(data, pos, 0, 0)
}

/// The bytes that a varint says to follow it, and the place after them.
pub open spec fn spec_read_varint_prefixed(data: Seq<u8>, pos: int) -> Result<
    (Seq<u8>, int),
    BufError,
> {
    match spec_read_varint(data, pos) {
        Err(e) => Err(e),
        Ok((size, next)) => spec_read_bytes(data, next, size as int),
    }
}

/// The next byte and the place after it.
pub open spec fn spec_read_u8(data: Seq<u8>, pos: int) -> Result<(u8, int), BufError> {
    if 0 <= pos < data.len() {
        Ok((data[pos], pos + 1))
    } else {
        Err(BufError::UnexpectedEof)
    }
}

/// The next byte as a signed number in two's complement.
pub open spec fn spec_read_i8(data: Seq<u8>, pos: int) -> Result<(i8, int), BufError> {
    match spec_read_u8(data, pos) {
        Ok((v, next)) => Ok(
            (
                if v >= 128 {
                    (v - 256) as i8
                } else {
                    v as i8
                },
                next,
            ),
        ),
        Err(e) => Err(e),
    }
}

/// The next byte as a truth value: any byte but 0 is true.
pub open spec fn spec_read_bool(data: Seq<u8>, pos: int) -> Result<(bool, int), BufError> {
    match spec_read_u8(data, pos) {
        Ok((v, next)) => Ok((v != 0, next)),
        Err(e) => Err(e),
    }
}

pub open spec fn spec_read_u16(data: Seq<u8>, pos: int) -> Result<(u16, int), BufError> {
    match spec_read_be(data, pos, 2) {
        Ok((v, next)) => Ok((v as u16, next)),
        Err(e) => Err(e),
    }
}

pub open spec fn spec_read_i16(data: Seq<u8>, pos: int) -> Result<(i16, int), BufError> {
    match spec_read_be(data, pos, 2) {
        Ok((v, next)) => Ok(
            (
                if v >= 0x8000 {
                    (v - 0x1_0000) as i16
                } else {
                    v as i16
                },
                next,
            ),
        ),
        Err(e) => Err(e),
    }
}

pub open spec fn spec_read_u32(data: Seq<u8>, pos: int) -> Result<(u32, int), BufError> {
    match spec_read_be(data, pos, 4) {
        Ok((v, next)) => Ok((v as u32, next)),
        Err(e) => Err(e),
    }
}

pub open spec fn spec_read_i32(data: Seq<u8>, pos: int) -> Result<(i32, int), BufError> {
    match spec_read_be(data, pos, 4) {
        Ok((v, next)) => Ok(
            (
                if v >= 0x8000_0000 {
                    (v - 0x1_0000_0000) as i32
                } else {
                    v as i32
                },
                next,
            ),
        ),
        Err(e) => Err(e),
    }
}

/// The next eight bytes as a number: the bits of a 64-bit float.
pub open spec fn spec_read_u64(data: Seq<u8>, pos: int) -> Result<(u64, int), BufError> {
    match spec_read_be(data, pos, 8) {
        Ok((v, next)) => Ok((v as u64, next)),
        Err(e) => Err(e),
    }
}

pub open spec fn spec_read_uuid(data: Seq<u8>, pos: int) -> Result<(UUID, int), BufError> {
    match spec_read_u64(data, pos) {
        Err(e) => Err(e),
        Ok((high, next)) => match spec_read_u64(data, next) {
            Err(e) => Err(e),
            Ok((low, after)) => Ok((UUID(high, low), after)),
        },
    }
}

/// All the bytes from `pos` on.
pub open spec fn spec_read_remainder(data: Seq<u8>, pos: int) -> Seq<u8> {
    data.subrange(pos, data.len() as int)
}

impl BufReader {
    /// Validity of a reader: its place lies within the bytes or at their
    /// end.
    pub open spec fn wf(&self) -> bool {
        0 <= self@.pos <= self@.data.len()
    }

    pub fn new(data: Vec<u8>) -> (reader: BufReader)
        ensures
            reader.wf(),
            reader@.data == data@,
            reader@.pos == 0,
    {
        BufReader { data, pos: 0 }
    }

    pub fn len(&self) -> (n: usize)
        ensures
            n == self@.data.len(),
    {
        self.data.len()
    }

    pub fn position(&self) -> (pos: u64)
        requires
            self.wf(),
        ensures
            pos == self@.pos,
    {
        self.pos as u64
    }

    /// Reads the next `size` bytes. A read that fails leaves the reader at
    /// the end of the bytes, as every read does.
    pub fn read_bytes(&mut self, size: usize) -> (r: Result<Vec<u8>, BufError>)
        requires
            old(self).wf(),
        ensures
            final(self).wf(),
            final(self)@.data == old(self)@.data,
            match r {
                Ok(bytes) => spec_read_bytes(old(self)@.data, old(self)@.pos, size as int) == Ok::<
                    (Seq<u8>, int),
                    BufError,
                >((bytes@, final(self)@.pos)),
                Err(e) => spec_read_bytes(old(self)@.data, old(self)@.pos, size as int) == Err::<
                    (Seq<u8>, int),
                    BufError,
                >(e) && final(self)@.pos == old(self)@.data.len(),
            },
    {
        match self.take(size) {
            Some(bytes) => Ok(vstd::slice::slice_to_vec(bytes)),
            None => Err(BufError::UnexpectedEof),
        }
    }

    /// Reads a varint and as many bytes as it says.
    pub fn read_varint_prefixed_bytes(&mut self) -> (r: Result<Vec<u8>, BufError>)
        requires
            old(self).wf(),
        ensures
            final(self).wf(),
            final(self)@.data == old(self)@.data,
            match r {
                Ok(bytes) => spec_read_varint_prefixed(old(self)@.data, old(self)@.pos) == Ok::<
                    (Seq<u8>, int),
                    BufError,
                >((bytes@, final(self)@.pos)),
                Err(e) => spec_read_varint_prefixed(old(self)@.data, old(self)@.pos) == Err::<
                    (Seq<u8>, int),
                    BufError,
                >(e) && final(self)@.pos == old(self)@.data.len(),
            },
    {
        let size: i32 = match self.read_varint() {
            Ok(size) => size,
            Err(e) => {
                return Err(e);
            },
        };
        if size < 0 {
            self.pos = self.data.len();
            return Err(BufError::UnexpectedEof);
        }
        self.read_bytes(size as usize)
    }

    /// Reads all the bytes that are left.
    pub fn read_remainder(&mut self) -> (bytes: Vec<u8>)
        requires
            old(self).wf(),
        ensures
            final(self).wf(),
            final(self)@.data == old(self)@.data,
            final(self)@.pos == old(self)@.data.len(),
            bytes@ == spec_read_remainder(old(self)@.data, old(self)@.pos),
    {
        let size: usize = self.data.len() - self.pos;
        match self.read_bytes(size) {
            Ok(bytes) => bytes,
            Err(_) => Vec::new(),
        }
    }

    /// The next `size` bytes, if there are as many, and the reader moved
    /// past them or, if there are not, to the end.
    fn take(&mut self, size: usize) -> (r: Option<&[u8]>)
        requires
            old(self).wf(),
        ensures
            final(self).wf(),
            final(self)@.data == old(self)@.data,
            match r {
                Some(bytes) => spec_read_bytes(old(self)@.data, old(self)@.pos, size as int)
                    == Ok::<(Seq<u8>, int), BufError>((bytes@, final(self)@.pos)),
                None => spec_read_bytes(old(self)@.data, old(self)@.pos, size as int) is Err
                    && final(self)@.pos == old(self)@.data.len(),
            },
    {
        if size > self.data.len() - self.pos {
            self.pos = self.data.len();
            return None;
        }
        let start: usize = self.pos;
        self.pos = start + size;
        Some(slice_subrange(self.data.as_slice(), start, start + size))
    }

    pub fn read_u8(&mut self) -> (r: Result<u8, BufError>)
        requires
            old(self).wf(),
        ensures
            final(self).wf(),
            final(self)@.data == old(self)@.data,
            match r {
                Ok(v) => spec_read_u8(old(self)@.data, old(self)@.pos) == Ok::<(u8, int), BufError>(
                    (v, final(self)@.pos),
                ),
                Err(e) => spec_read_u8(old(self)@.data, old(self)@.pos) == Err::<(u8, int), BufError>(
                    e,
                ) && final(self)@.pos == old(self)@.data.len(),
            },
    {
        if self.pos >= self.data.len() {
            return Err(BufError::UnexpectedEof);
        }
        let v: u8 = self.data[self.pos];
        self.pos = self.pos + 1;
        Ok(v)
    }

    pub fn read_i8(&mut self) -> (r: Result<i8, BufError>)
        requires
            old(self).wf(),
        ensures
            final(self).wf(),
            final(self)@.data == old(self)@.data,
            match r {
                Ok(v) => spec_read_i8(old(self)@.data, old(self)@.pos) == Ok::<(i8, int), BufError>(
                    (v, final(self)@.pos),
                ),
                Err(e) => spec_read_i8(old(self)@.data, old(self)@.pos) == Err::<(i8, int), BufError>(
                    e,
                ) && final(self)@.pos == old(self)@.data.len(),
            },
    {
        match self.read_u8() {
            Ok(v) => Ok(
                if v >= 128 {
                    (v as i16 - 256) as i8
                } else {
                    v as i8
                },
            ),
            Err(e) => Err(e),
        }
    }

    pub fn read_bool(&mut self) -> (r: Result<bool, BufError>)
        requires
            old(self).wf(),
        ensures
            final(self).wf(),
            final(self)@.data == old(self)@.data,
            match r {
                Ok(v) => spec_read_bool(old(self)@.data, old(self)@.pos) == Ok::<(bool, int), BufError>(
                    (v, final(self)@.pos),
                ),
                Err(e) => spec_read_bool(old(self)@.data, old(self)@.pos) == Err::<(bool, int), BufError>(
                    e,
                ) && final(self)@.pos == old(self)@.data.len(),
            },
    {
        match self.read_u8() {
            Ok(v) => Ok(v != 0),
            Err(e) => Err(e),
        }
    }

    pub fn read_u16(&mut self) -> (r: Result<u16, BufError>)
        requires
            old(self).wf(),
        ensures
            final(self).wf(),
            final(self)@.data == old(self)@.data,
            match r {
                Ok(v) => spec_read_u16(old(self)@.data, old(self)@.pos) == Ok::<(u16, int), BufError>(
                    (v, final(self)@.pos),
                ),
                Err(e) => spec_read_u16(old(self)@.data, old(self)@.pos) == Err::<(u16, int), BufError>(
                    e,
                ) && final(self)@.pos == old(self)@.data.len(),
            },
    {
        match self.take(2) {
            Some(bytes) => {
                proof {
                    assert(bytes@.subrange(0, 2) =~= bytes@);
                    lemma_be_value_bound(bytes@);
                    vstd::arithmetic::power2::lemma2_to64();
                }
                Ok(be_u16(bytes))
            },
            None => Err(BufError::UnexpectedEof),
        }
    }

    pub fn read_i16(&mut self) -> (r: Result<i16, BufError>)
        requires
            old(self).wf(),
        ensures
            final(self).wf(),
            final(self)@.data == old(self)@.data,
            match r {
                Ok(v) => spec_read_i16(old(self)@.data, old(self)@.pos) == Ok::<(i16, int), BufError>(
                    (v, final(self)@.pos),
                ),
                Err(e) => spec_read_i16(old(self)@.data, old(self)@.pos) == Err::<(i16, int), BufError>(
                    e,
                ) && final(self)@.pos == old(self)@.data.len(),
            },
    {
        match self.take(2) {
            Some(bytes) => {
                proof {
                    assert(bytes@.subrange(0, 2) =~= bytes@);
                    lemma_be_value_bound(bytes@);
                    vstd::arithmetic::power2::lemma2_to64();
                }
                Ok(be_i16(bytes))
            },
            None => Err(BufError::UnexpectedEof),
        }
    }

    pub fn read_u32(&mut self) -> (r: Result<u32, BufError>)
        requires
            old(self).wf(),
        ensures
            final(self).wf(),
            final(self)@.data == old(self)@.data,
            match r {
                Ok(v) => spec_read_u32(old(self)@.data, old(self)@.pos) == Ok::<(u32, int), BufError>(
                    (v, final(self)@.pos),
                ),
                Err(e) => spec_read_u32(old(self)@.data, old(self)@.pos) == Err::<(u32, int), BufError>(
                    e,
                ) && final(self)@.pos == old(self)@.data.len(),
            },
    {
        match self.take(4) {
            Some(bytes) => {
                proof {
                    assert(bytes@.subrange(0, 4) =~= bytes@);
                    lemma_be_value_bound(bytes@);
                    vstd::arithmetic::power2::lemma2_to64();
                }
                Ok(be_u32(bytes))
            },
            None => Err(BufError::UnexpectedEof),
        }
    }

    pub fn read_i32(&mut self) -> (r: Result<i32, BufError>)
        requires
            old(self).wf(),
        ensures
            final(self).wf(),
            final(self)@.data == old(self)@.data,
            match r {
                Ok(v) => spec_read_i32(old(self)@.data, old(self)@.pos) == Ok::<(i32, int), BufError>(
                    (v, final(self)@.pos),
                ),
                Err(e) => spec_read_i32(old(self)@.data, old(self)@.pos) == Err::<(i32, int), BufError>(
                    e,
                ) && final(self)@.pos == old(self)@.data.len(),
            },
    {
        match self.take(4) {
            Some(bytes) => {
                proof {
                    assert(bytes@.subrange(0, 4) =~= bytes@);
                    lemma_be_value_bound(bytes@);
                    vstd::arithmetic::power2::lemma2_to64();
                }
                Ok(be_i32(bytes))
            },
            None => Err(BufError::UnexpectedEof),
        }
    }

    /// Reads the eight bytes of a 64-bit float and gives them as the
    /// number they write: the float has these bits.
    pub fn read_f64_bits(&mut self) -> (r: Result<u64, BufError>)
        requires
            old(self).wf(),
        ensures
            final(self).wf(),
            final(self)@.data == old(self)@.data,
            match r {
                Ok(v) => spec_read_u64(old(self)@.data, old(self)@.pos) == Ok::<(u64, int), BufError>(
                    (v, final(self)@.pos),
                ),
                Err(e) => spec_read_u64(old(self)@.data, old(self)@.pos) == Err::<(u64, int), BufError>(
                    e,
                ) && final(self)@.pos == old(self)@.data.len(),
            },
    {
        match self.take(8) {
            Some(bytes) => {
                proof {
                    assert(bytes@.subrange(0, 8) =~= bytes@);
                    lemma_be_value_bound(bytes@);
                    vstd::arithmetic::power2::lemma2_to64();
                }
                Ok(be_u64(bytes))
            },
            None => Err(BufError::UnexpectedEof),
        }
    }

    pub fn read_uuid(&mut self) -> (r: Result<UUID, BufError>)
        requires
            old(self).wf(),
        ensures
            final(self).wf(),
            final(self)@.data == old(self)@.data,
            match r {
                Ok(v) => spec_read_uuid(old(self)@.data, old(self)@.pos) == Ok::<(UUID, int), BufError>(
                    (v, final(self)@.pos),
                ),
                Err(e) => spec_read_uuid(old(self)@.data, old(self)@.pos) == Err::<(UUID, int), BufError>(
                    e,
                ) && final(self)@.pos == old(self)@.data.len(),
            },
    {
        let high: u64 = match self.read_f64_bits() {
            Ok(v) => v,
            Err(e) => {
                return Err(e);
            },
        };
        match self.read_f64_bits() {
            Ok(low) => Ok(UUID(high, low)),
            Err(e) => Err(e),
        }
    }

    pub fn read_varint(&mut self) -> (r: Result<i32, BufError>)
        requires
            old(self).wf(),
        ensures
            final(self).wf(),
            final(self)@.data == old(self)@.data,
            match r {
                Ok(v) => spec_read_varint(old(self)@.data, old(self)@.pos) == Ok::<
                    (i32, int),
                    BufError,
                >((v, final(self)@.pos)),
                Err(e) => spec_read_varint(old(self)@.data, old(self)@.pos) == Err::<
                    (i32, int),
                    BufError,
                >(e) && final(self)@.pos == old(self)@.data.len(),
            },
    {
        let ghost data = self@.data;
        let ghost start = self@.pos;
        let mut size: u32 = 0;
        let mut val: u32 = 0;
        loop
            invariant
                self.wf(),
                self@.data == data,
                data == old(self)@.data,
                start == old(self)@.pos,
                size <= 5,
                spec_read_varint(data, start) == spec_read_varint_from(
                    data,
                    self@.pos,
                    size as int,
                    val,
                ),
            decreases 6 - size,
        {
            if self.pos >= self.data.len() {
                return Err(BufError::UnexpectedEof);
            }
            if size >= 5 {
                self.pos = self.data.len();
                return Err(BufError::VarIntTooBig);
            }
            let b: u32 = self.data[self.pos] as u32;
            self.pos = self.pos + 1;
            val = val | ((b & 0x7f) << (size * 7));
            size = size + 1;
            if (b & 0x80) == 0 {
                return Ok(val as i32);
            }
        }
    }
}

} // verus!
