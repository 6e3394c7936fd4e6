//! The text of a key entry: one line `<id> <name>` for each block name,
//! the id in decimal, the lines ended by CR LF.

use crate::decimal::{
    lemma_decimal_digits, lemma_parse_decimal_u16, parse_u16, push_decimal, spec_decimal,
    spec_parse_u16, IntParseError,
};
use crate::keys::{has_name, keys_valid, plain_name, spec_upsert, KeySeq, KeyTable};
use crate::text::{
    find_byte, first_index_of, lacks_byte, lemma_first_index_of, lemma_first_index_of_is,
    push_str_bytes, string_from_utf8,
};
use vstd::prelude::*;
use vstd::slice::slice_subrange;
use vstd::utf8::*;

verus! {

/// Why a text is not a key entry.
#[derive(Clone, Copy, Debug, PartialEq, Eq, Structural)]
pub enum KeyTextError {
    /// A line does not start with a decimal id.
    BadId(IntParseError),
    /// A line has an id and nothing after it.
    MissingName,
    /// A name is not UTF-8.
    NameNotUtf8,
    /// A line gives a name the id 0, which stands for "no block".
    ZeroId,
}

/// `line` without the CR that it may end in.
pub open spec fn strip_cr(line: Seq<u8>) -> Seq<u8> {
    if line.len() > 0 && line.last() == 0x0d {
        line.drop_last()
    } else {
        line
    }
}

/// What one line says: nothing if it is empty, else an id, a space and a
/// name. The name ends at the next space or at the end of the line.
pub open spec fn spec_parse_key_line(line: Seq<u8>) -> Result<
    Option<(Seq<char>, u16)>,
    KeyTextError,
> {
    let line = strip_cr(line);
    if line.len() == 0 {
        Ok(None)
    } else {
        let space = first_index_of(line, 0x20);
        match spec_parse_u16(line.subrange(0, space)) {
            Err(e) => Err(KeyTextError::BadId(e)),
            Ok(id) => if space >= line.len() {
                Err(KeyTextError::MissingName)
            } else {
                let rest = line.subrange(space + 1, line.len() as int);
                let name = rest.subrange(0, first_index_of(rest, 0x20));
                if !valid_utf8(name) {
                    Err(KeyTextError::NameNotUtf8)
                } else if id == 0 {
                    Err(KeyTextError::ZeroId)
                } else {
                    Ok(Some((decode_utf8(name), id)))
                }
            },
        }
    }
}

/// The table that the lines of `text` make of the table `acc`, read from
/// the top. The lines are parted by LF. A name that comes again gets the
/// id of its last line. The first line that is no key line fails the text.
pub open spec fn spec_parse_key_lines(text: Seq<u8>, acc: KeySeq) -> Result<KeySeq, KeyTextError>
    decreases text.len(),
{
    if text.len() == 0 {
        Ok(acc)
    } else {
        let end = first_index_of(text, 0x0a);
        let rest = if 0 <= end < text.len() {
            text.subrange(end + 1, text.len() as int)
        } else {
            Seq::empty()
        };
        match spec_parse_key_line(text.subrange(0, end)) {
            Err(e) => Err(e),
            Ok(None) => spec_parse_key_lines(rest, acc),
            Ok(Some((name, id))) => spec_parse_key_lines(rest, spec_upsert(acc, name, id)),
        }
    }
}

/// The key table that `text` writes.
pub open spec fn spec_parse_key_text(text: Seq<u8>) -> Result<KeySeq, KeyTextError> {
    spec_parse_key_lines(text, Seq::empty())
}

/// The line of one entry, without its LF.
pub open spec fn spec_key_line(entry: (Seq<char>, u16)) -> Seq<u8> {
    spec_decimal(entry.1 as nat) + seq![0x20u8] + encode_utf8(entry.0) + seq![0x0du8]
}

/// The text of a key table: the lines of its entries in order.
pub open spec fn spec_key_text(t: KeySeq) -> Seq<u8>
    decreases t.len(),
{
    if t.len() == 0 {
        Seq::empty()
    } else {
        spec_key_line(t[0]) + seq![0x0au8] + spec_key_text(t.drop_first())
    }
}

/// The line of a valid entry is read as that entry, and holds no LF.
pub proof fn lemma_parse_key_line_of_entry(name: Seq<char>, id: u16)
    requires
        id != 0,
        plain_name(name),
    ensures
        spec_parse_key_line(spec_key_line((name, id))) == Ok::<
            Option<(Seq<char>, u16)>,
            KeyTextError,
        >(Some((name, id))),
        lacks_byte(spec_key_line((name, id)), 0x0a),
{
    let digits = spec_decimal(id as nat);
    let bytes = encode_utf8(name);
    let full = spec_key_line((name, id));
    let line = digits + seq![0x20u8] + bytes;
    lemma_decimal_digits(id as nat);
    lemma_parse_decimal_u16(id);
    assert(full.drop_last() =~= line);
    assert(strip_cr(full) == line);
    assert(lacks_byte(full, 0x0a)) by {
        assert forall|i: int| 0 <= i < full.len() implies #[trigger] full[i] != 0x0a by {
            if i < digits.len() {
                assert(full[i] == digits[i]);
            } else if i == digits.len() {
            } else if i < digits.len() + 1 + bytes.len() {
                assert(full[i] == bytes[i - digits.len() - 1]);
            }
        }
    }
    assert(first_index_of(line, 0x20) == digits.len()) by {
        assert forall|j: int| 0 <= j < digits.len() implies line[j] != 0x20 by {
            assert(line[j] == digits[j]);
        }
        lemma_first_index_of_is(line, 0x20, digits.len() as int);
    }
    assert(line.subrange(0, digits.len() as int) =~= digits);
    let rest = line.subrange(digits.len() as int + 1, line.len() as int);
    assert(rest =~= bytes);
    assert(first_index_of(rest, 0x20) == rest.len()) by {
        lemma_first_index_of_is(rest, 0x20, rest.len() as int);
    }
    assert(rest.subrange(0, rest.len() as int) =~= bytes);
    encode_utf8_valid_utf8(name);
    encode_utf8_decode_utf8(name);
}

/// Reading the text of `s` into `acc` appends `s` to `acc`, where the two
/// together are a valid table.
pub proof fn lemma_parse_key_lines_of_text(s: KeySeq, acc: KeySeq)
    requires
        keys_valid(acc + s),
    ensures
        spec_parse_key_lines(spec_key_text(s), acc) == Ok::<KeySeq, KeyTextError>(acc + s),
    decreases s.len(),
{
    if s.len() == 0 {
        assert(acc + s =~= acc);
    } else {
        let whole = acc + s;
        let (name, id) = s[0];
        assert(whole[acc.len() as int] == s[0]);
        lemma_parse_key_line_of_entry(name, id);
        let line = spec_key_line(s[0]);
        let tail = spec_key_text(s.drop_first());
        let text = spec_key_text(s);
        assert(text == line + seq![0x0au8] + tail);
        assert(first_index_of(text, 0x0a) == line.len()) by {
            assert forall|j: int| 0 <= j < line.len() implies text[j] != 0x0a by {
                assert(text[j] == line[j]);
            }
            lemma_first_index_of_is(text, 0x0a, line.len() as int);
        }
        assert(text.subrange(0, line.len() as int) =~= line);
        assert(text.subrange(line.len() as int + 1, text.len() as int) =~= tail);
        assert(!has_name(acc, name)) by {
            if has_name(acc, name) {
                let k = choose|k: int| 0 <= k < acc.len() && (#[trigger] acc[k]).0 == name;
                assert(whole[k] == acc[k]);
            }
        }
        assert(spec_upsert(acc, name, id) == acc.push(s[0]));
        assert(acc.push(s[0]) + s.drop_first() =~= whole);
        lemma_parse_key_lines_of_text(s.drop_first(), acc.push(s[0]));
    }
}

/// A valid key table is read back from its own text.
pub proof fn lemma_key_text_round_trip(t: KeySeq)
    requires
        keys_valid(t),
    ensures
        spec_parse_key_text(spec_key_text(t)) == Ok::<KeySeq, KeyTextError>(t),
{
    assert(Seq::<(Seq<char>, u16)>::empty() + t =~= t);
    lemma_parse_key_lines_of_text(t, Seq::empty());
}

/// Reads one line of a key entry.
fn parse_key_line(full: &[u8]) -> (r: Result<Option<(String, u16)>, KeyTextError>)
    requires
        lacks_byte(full@, 0x0a),
    ensures
        match r {
            Ok(Some((name, id))) => spec_parse_key_line(full@) == Ok::<
                Option<(Seq<char>, u16)>,
                KeyTextError,
            >(Some((name@, id))) && id != 0 && plain_name(name@),
            Ok(None) => spec_parse_key_line(full@) == Ok::<Option<(Seq<char>, u16)>, KeyTextError>(
                None,
            ),
            Err(e) => spec_parse_key_line(full@) == Err::<Option<(Seq<char>, u16)>, KeyTextError>(
                e,
            ),
        },
{
    let n: usize = full.len();
    let line: &[u8] = if n > 0 && full[n - 1] == 0x0d {
        slice_subrange(full, 0, n - 1)
    } else {
        full
    };
    assert(line@ == strip_cr(full@)) by {
        assert(full@.drop_last() =~= full@.subrange(0, n - 1));
    }
    assert(lacks_byte(line@, 0x0a));
    if line.len() == 0 {
        return Ok(None);
    }
    let space: usize = find_byte(line, 0, 0x20);
    assert(line@.subrange(0, line@.len() as int) =~= line@);
    let id: u16 = match parse_u16(slice_subrange(line, 0, space)) {
        Ok(id) => id,
        Err(e) => {
            return Err(KeyTextError::BadId(e));
        },
    };
    if space >= line.len() {
        return Err(KeyTextError::MissingName);
    }
    let rest: &[u8] = slice_subrange(line, space + 1, line.len());
    assert(rest@.subrange(0, rest@.len() as int) =~= rest@);
    let end: usize = find_byte(rest, 0, 0x20);
    let name_bytes: &[u8] = slice_subrange(rest, 0, end);
    match string_from_utf8(name_bytes) {
        None => Err(KeyTextError::NameNotUtf8),
        Some(name) => {
            if id == 0 {
                Err(KeyTextError::ZeroId)
            } else {
                proof {
                    decode_utf8_encode_utf8(name_bytes@);
                    lemma_first_index_of(rest@, 0x20);
                    assert forall|i: int| 0 <= i < name_bytes@.len() implies #[trigger] name_bytes@[i]
                        != 0x0a by {
                        assert(name_bytes@[i] == line@[space + 1 + i]);
                    }
                }
                Ok(Some((name, id)))
            }
        },
    }
}

/// Reads the text of a key entry.
pub fn parse_key_text(text: &[u8]) -> (r: Result<KeyTable, KeyTextError>)
    ensures
        match r {
            Ok(table) => table.wf() && spec_parse_key_text(text@) == Ok::<KeySeq, KeyTextError>(
                table@,
            ),
            Err(e) => spec_parse_key_text(text@) == Err::<KeySeq, KeyTextError>(e),
        },
{
    let mut table = KeyTable::new();
    let mut pos: usize = 0;
    assert(text@.subrange(0, text@.len() as int) =~= text@);
    while pos < text.len()
        invariant
            pos <= text.len(),
            table.wf(),
            spec_parse_key_text(text@) == spec_parse_key_lines(
                text@.subrange(pos as int, text@.len() as int),
                table@,
            ),
        decreases text.len() - pos,
    {
        let ghost here = text@.subrange(pos as int, text@.len() as int);
        let end: usize = find_byte(text, pos, 0x0a);
        let line: &[u8] = slice_subrange(text, pos, end);
        let next: usize = if end < text.len() {
            end + 1
        } else {
            end
        };
        proof {
            lemma_first_index_of(here, 0x0a);
            assert(line@ =~= here.subrange(0, end - pos));
            assert forall|i: int| 0 <= i < line@.len() implies #[trigger] line@[i] != 0x0a by {
                assert(line@[i] == here[i]);
            }
            if end < text.len() {
                assert(text@.subrange(next as int, text@.len() as int) =~= here.subrange(
                    end - pos + 1,
                    here.len() as int,
                ));
            } else {
                assert(text@.subrange(next as int, text@.len() as int) =~= Seq::<u8>::empty());
            }
        }
        match parse_key_line(line) {
            Err(e) => {
                return Err(e);
            },
            Ok(None) => {},
            Ok(Some((name, id))) => {
                let inserted = table.insert(name.as_str(), id);
                assert(inserted is Ok);
            },
        }
        pos = next;
    }
    Ok(table)
}

/// Writes the text of a key table.
pub fn key_text(table: &KeyTable) -> (text: Vec<u8>)
    ensures
        text@ == spec_key_text(table@),
{
    let mut text: Vec<u8> = Vec::new();
    let mut i: usize = 0;
    assert(table@.skip(0) =~= table@);
    while i < table.len()
        invariant
            i <= table@.len(),
            text@ + spec_key_text(table@.skip(i as int)) == spec_key_text(table@),
        decreases table@.len() - i,
    {
        let ghost before = text@;
        let ghost entry = table@[i as int];
        push_decimal(&mut text, table.entry_id(i) as u64);
        text.push(0x20);
        push_str_bytes(&mut text, table.entry_name(i).as_str());
        text.push(0x0d);
        text.push(0x0a);
        proof {
            let s = table@.skip(i as int);
            assert(s[0] == entry);
            assert(s.drop_first() =~= table@.skip(i + 1));
            assert(text@ =~= before + (spec_key_line(entry) + seq![0x0au8]));
            assert(before + (spec_key_line(entry) + seq![0x0au8]) + spec_key_text(
                table@.skip(i + 1),
            ) =~= before + (spec_key_line(entry) + seq![0x0au8] + spec_key_text(
                table@.skip(i + 1),
            )));
        }
        i += 1;
    }
    proof {
        assert(table@.skip(i as int).len() == 0);
        assert(text@ + Seq::<u8>::empty() =~= text@);
    }
    text
}

} // verus!
