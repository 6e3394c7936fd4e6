//! The key table of a tile: block names and the ids that the tile's columns
//! use for them.

use crate::text::{lacks_byte, str_eq};
use vstd::prelude::*;
use vstd::utf8::*;

verus! {

/// A key table as a sequence of `(name, id)` pairs, in the order of entry.
pub type KeySeq = Seq<(Seq<char>, u16)>;

/// A name that can stand in a line of a key entry: its UTF-8 bytes hold no
/// space and no line feed.
pub open spec fn plain_name(name: Seq<char>) -> bool {
    lacks_byte(encode_utf8(name), 0x20) && lacks_byte(encode_utf8(name), 0x0a)
}

pub open spec fn names_distinct(t: KeySeq) -> bool {
    forall|i: int, j: int| 0 <= i < j < t.len() ==> (#[trigger] t[i]).0 != (#[trigger] t[j]).0
}

/// What holds of every key table: no name occurs twice, no name has the id
/// 0 (which stands for "no block"), and every name is plain.
pub open spec fn keys_valid(t: KeySeq) -> bool {
    &&& names_distinct(t)
    &&& forall|i: int| 0 <= i < t.len() ==> (#[trigger] t[i]).1 != 0
    &&& forall|i: int| 0 <= i < t.len() ==> plain_name((#[trigger] t[i]).0)
}

/// A table whose ids count up from 1 in the order of entry, as the table
/// of a merged tile does.
pub open spec fn keys_dense(t: KeySeq) -> bool {
    forall|i: int| 0 <= i < t.len() ==> (#[trigger] t[i]).1 == i + 1
}

pub open spec fn has_name(t: KeySeq, name: Seq<char>) -> bool {
    exists|i: int| 0 <= i < t.len() && (#[trigger] t[i]).0 == name
}

/// The place of `name` in `t`, where it has one.
pub open spec fn name_index(t: KeySeq, name: Seq<char>) -> int {
    choose|i: int| 0 <= i < t.len() && (#[trigger] t[i]).0 == name
}

/// The id of `name` in `t`.
pub open spec fn spec_get(t: KeySeq, name: Seq<char>) -> Option<u16> {
    if has_name(t, name) {
        Some(t[name_index(t, name)].1)
    } else {
        None
    }
}

/// `t` after `name` was given the id `id`: a known name keeps its place, a
/// new one goes to the end.
pub open spec fn spec_upsert(t: KeySeq, name: Seq<char>, id: u16) -> KeySeq {
    if has_name(t, name) {
        t.update(name_index(t, name), (name, id))
    } else {
        t.push((name, id))
    }
}

/// The largest id in `t`, 0 for the empty table.
pub open spec fn spec_max_id(t: KeySeq) -> int
    decreases t.len(),
{
    if t.len() == 0 {
        0
    } else if t.last().1 > spec_max_id(t.drop_last()) {
        t.last().1 as int
    } else {
        spec_max_id(t.drop_last())
    }
}

/// The name that `id` stands for in `t`: that of the last entry with this
/// id.
pub open spec fn spec_name_of(t: KeySeq, id: int) -> Option<Seq<char>>
    decreases t.len(),
{
    if t.len() == 0 {
        None
    } else if t.last().1 == id {
        Some(t.last().0)
    } else {
        spec_name_of(t.drop_last(), id)
    }
}

/// The name shown for an id that no entry has.
pub open spec fn unknown_name() -> Seq<char> {
    "?UNKNOWN_BLOCK?"@
}

/// The names of `t` by id: one slot for each id up to the largest, the
/// slot of an id without a name holding `unknown_name()`.
pub open spec fn spec_names_vec(t: KeySeq) -> Seq<Seq<char>> {
    Seq::new(
        (1 + spec_max_id(t)) as nat,
        |id: int|
            match spec_name_of(t, id) {
                Some(name) => name,
                None => unknown_name(),
            },
    )
}

pub proof fn lemma_max_id_bounds(t: KeySeq)
    ensures
        0 <= spec_max_id(t) <= u16::MAX,
        forall|i: int| 0 <= i < t.len() ==> (#[trigger] t[i]).1 <= spec_max_id(t),
    decreases t.len(),
{
    if t.len() > 0 {
        lemma_max_id_bounds(t.drop_last());
        assert forall|i: int| 0 <= i < t.len() implies (#[trigger] t[i]).1 <= spec_max_id(t) by {
            if i < t.len() - 1 {
                assert(t.drop_last()[i] == t[i]);
            }
        }
    }
}

/// In a table without a repeated name, a name found at a place has the id
/// that stands there.
pub proof fn lemma_get_at(t: KeySeq, i: int)
    requires
        names_distinct(t),
        0 <= i < t.len(),
    ensures
        has_name(t, t[i].0),
        name_index(t, t[i].0) == i,
        spec_get(t, t[i].0) == Some(t[i].1),
{
    let k = name_index(t, t[i].0);
    assert(t[k].0 == t[i].0);
}

/// Giving a name an id keeps a valid table valid, where the id is not 0 and
/// the name is plain.
pub proof fn lemma_upsert_valid(t: KeySeq, name: Seq<char>, id: u16)
    requires
        keys_valid(t),
        id != 0,
        plain_name(name),
    ensures
        keys_valid(spec_upsert(t, name, id)),
        spec_get(spec_upsert(t, name, id), name) == Some(id),
{
    let u = spec_upsert(t, name, id);
    if has_name(t, name) {
        let k = name_index(t, name);
        assert(u[k].0 == name);
        assert forall|i: int, j: int| 0 <= i < j < u.len() implies (#[trigger] u[i]).0 != (
        #[trigger] u[j]).0 by {
            assert(u[i].0 == t[i].0);
            assert(u[j].0 == t[j].0);
        }
        lemma_get_at(u, k);
    } else {
        assert forall|i: int, j: int| 0 <= i < j < u.len() implies (#[trigger] u[i]).0 != (
        #[trigger] u[j]).0 by {
            if j == t.len() {
                assert(t[i].0 != name);
            }
        }
        assert(u[t.len() as int].0 == name);
        lemma_get_at(u, t.len() as int);
    }
}

/// Why a name cannot be given an id.
#[derive(Clone, Copy, Debug, PartialEq, Eq, Structural)]
pub enum KeyError {
    /// The id 0 stands for "no block" and names nothing.
    ZeroId,
    /// The name holds a space or a line feed.
    BadName,
}

/// One line of a key table.
pub struct KeyEntry {
    pub name: String,
    pub id: u16,
}

/// The names of a tile's blocks with their ids.
pub struct KeyTable {
    entries: Vec<KeyEntry>,
}

impl View for KeyTable {
    type V = KeySeq;

    closed spec fn view(&self) -> KeySeq {
        Seq::new(self.entries.len() as nat, |i: int| (self.entries[i].name@, self.entries[i].id))
    }
}

/// Whether `name` holds neither a space nor a line feed.
pub fn is_plain_name(name: &str) -> (r: bool)
    ensures
        r == plain_name(name@),
{
    let bytes = name.as_bytes();
    let mut i: usize = 0;
    while i < bytes.len()
        invariant
            i <= bytes.len(),
            bytes@ == encode_utf8(name@),
            forall|j: int| 0 <= j < i ==> bytes[j] != 0x20 && bytes[j] != 0x0a,
        decreases bytes.len() - i,
    {
        if bytes[i] == 0x20 || bytes[i] == 0x0a {
            assert(encode_utf8(name@)[i as int] == bytes[i as int]);
            return false;
        }
        i += 1;
    }
    true
}

impl KeyTable {
    /// Validity of the table.
    pub open spec fn wf(&self) -> bool {
        keys_valid(self@)
    }

    pub fn new() -> (t: KeyTable)
        ensures
            t@ == Seq::<(Seq<char>, u16)>::empty(),
            t.wf(),
    {
        let t = KeyTable { entries: Vec::new() };
        assert(t@ =~= Seq::<(Seq<char>, u16)>::empty());
        t
    }

    pub fn len(&self) -> (n: usize)
        ensures
            n == self@.len(),
    {
        self.entries.len()
    }

    /// The name of the entry at place `i`.
    pub fn entry_name(&self, i: usize) -> (name: &String)
        requires
            i < self@.len(),
        ensures
            name@ == self@[i as int].0,
    {
        &self.entries[i].name
    }

    /// The id of the entry at place `i`.
    pub fn entry_id(&self, i: usize) -> (id: u16)
        requires
            i < self@.len(),
        ensures
            id == self@[i as int].1,
    {
        self.entries[i].id
    }

    /// The place of `name`, or the length of the table if it has none.
    fn position(&self, name: &str) -> (k: usize)
        ensures
            k <= self@.len(),
            k < self@.len() ==> self@[k as int].0 == name@,
            k == self@.len() ==> !has_name(self@, name@),
            forall|j: int| 0 <= j < k ==> self@[j].0 != name@,
    {
        let mut i: usize = 0;
        while i < self.entries.len()
            invariant
                i <= self.entries.len(),
                forall|j: int| 0 <= j < i ==> (#[trigger] self@[j]).0 != name@,
            decreases self.entries.len() - i,
        {
            if str_eq(self.entries[i].name.as_str(), name) {
                assert(self@[i as int].0 == name@);
                return i;
            }
            assert(self@[i as int].0 != name@);
            i += 1;
        }
        i
    }

    /// The id of `name`.
    pub fn get(&self, name: &str) -> (r: Option<u16>)
        requires
            self.wf(),
        ensures
            r == spec_get(self@, name@),
    {
        let k: usize = self.position(name);
        if k < self.entries.len() {
            proof {
                lemma_get_at(self@, k as int);
            }
            Some(self.entries[k].id)
        } else {
            None
        }
    }

    /// Gives `name` the id `id`, as a new entry at the end or in place of
    /// the id that the name had.
    pub fn insert(&mut self, name: &str, id: u16) -> (r: Result<(), KeyError>)
        requires
            old(self).wf(),
        ensures
            final(self).wf(),
            r is Ok <==> id != 0 && plain_name(name@),
            r is Ok ==> final(self)@ == spec_upsert(old(self)@, name@, id),
            r is Err ==> final(self)@ == old(self)@,
            r == Err::<(), KeyError>(KeyError::ZeroId) <==> id == 0,
    {
        if id == 0 {
            return Err(KeyError::ZeroId);
        }
        if !is_plain_name(name) {
            return Err(KeyError::BadName);
        }
        let k: usize = self.position(name);
        proof {
            lemma_upsert_valid(self@, name@, id);
            if k < self@.len() {
                lemma_get_at(self@, k as int);
            }
        }
        if k < self.entries.len() {
            self.entries.set(k, KeyEntry { name: name.to_owned(), id });
            assert(self@ =~= spec_upsert(old(self)@, name@, id));
        } else {
            self.entries.push(KeyEntry { name: name.to_owned(), id });
            assert(self@ =~= spec_upsert(old(self)@, name@, id));
        }
        Ok(())
    }

    /// Adds an entry for a name that the table lacks.
    pub(crate) fn push_new(&mut self, name: String, id: u16)
        requires
            old(self).wf(),
            !has_name(old(self)@, name@),
            id != 0,
            plain_name(name@),
        ensures
            final(self).wf(),
            final(self)@ == old(self)@.push((name@, id)),
    {
        proof {
            lemma_upsert_valid(self@, name@, id);
        }
        self.entries.push(KeyEntry { name, id });
        assert(self@ =~= old(self)@.push((name@, id)));
    }

    /// Drops the entries from place `len` on.
    pub(crate) fn truncate(&mut self, len: usize)
        requires
            old(self).wf(),
            len <= old(self)@.len(),
        ensures
            final(self).wf(),
            final(self)@ == old(self)@.take(len as int),
    {
        self.entries.truncate(len);
        assert(self@ =~= old(self)@.take(len as int));
        assert forall|i: int, j: int| 0 <= i < j < self@.len() implies (#[trigger] self@[i]).0 != (
        #[trigger] self@[j]).0 by {
            assert(self@[i] == old(self)@[i]);
            assert(self@[j] == old(self)@[j]);
        }
    }

    /// The largest id of the table, 0 if it is empty.
    pub fn max_id(&self) -> (m: u16)
        ensures
            m == spec_max_id(self@),
    {
        let mut m: u16 = 0;
        let mut i: usize = 0;
        while i < self.entries.len()
            invariant
                i <= self.entries.len(),
                m == spec_max_id(self@.take(i as int)),
            decreases self.entries.len() - i,
        {
            proof {
                assert(self@.take(i + 1).drop_last() =~= self@.take(i as int));
                assert(self@.take(i + 1).last() == self@[i as int]);
            }
            if self.entries[i].id > m {
                m = self.entries[i].id;
            }
            i += 1;
        }
        proof {
            assert(self@.take(i as int) =~= self@);
        }
        m
    }

    /// The names by id, for display.
    pub fn names_vec(&self) -> (names: Vec<String>)
        ensures
            names@.len() == spec_names_vec(self@).len(),
            forall|id: int|
                0 <= id < names@.len() ==> (#[trigger] names@[id])@ == spec_names_vec(self@)[id],
    {
        let slots: usize = 1 + self.max_id() as usize;
        let mut names: Vec<String> = Vec::new();
        let mut k: usize = 0;
        proof {
            reveal_strlit("?UNKNOWN_BLOCK?");
        }
        while k < slots
            invariant
                k <= slots,
                names@.len() == k,
                forall|id: int| 0 <= id < k ==> (#[trigger] names@[id])@ == unknown_name(),
            decreases slots - k,
        {
            names.push("?UNKNOWN_BLOCK?".to_owned());
            k += 1;
        }
        let mut i: usize = 0;
        proof {
            lemma_max_id_bounds(self@);
        }
        while i < self.entries.len()
            invariant
                i <= self.entries.len(),
                names@.len() == slots,
                slots == 1 + spec_max_id(self@),
                forall|j: int| 0 <= j < self@.len() ==> (#[trigger] self@[j]).1 <= spec_max_id(self@),
                forall|id: int|
                    0 <= id < slots ==> (#[trigger] names@[id])@ == match spec_name_of(
                        self@.take(i as int),
                        id,
                    ) {
                        Some(name) => name,
                        None => unknown_name(),
                    },
            decreases self.entries.len() - i,
        {
            proof {
                assert(self@.take(i + 1).drop_last() =~= self@.take(i as int));
                assert(self@.take(i + 1).last() == self@[i as int]);
            }
            let id: usize = self.entries[i].id as usize;
            assert(self@[i as int].1 <= spec_max_id(self@));
            names.set(id, self.entries[i].name.clone());
            i += 1;
        }
        proof {
            assert(self@.take(i as int) =~= self@);
        }
        names
    }

    /// Whether the ids count up from 1 in the order of entry.
    pub fn is_dense(&self) -> (r: bool)
        ensures
            r == keys_dense(self@),
    {
        let mut i: usize = 0;
        while i < self.entries.len()
            invariant
                i <= self.entries.len(),
                forall|j: int| 0 <= j < i ==> (#[trigger] self@[j]).1 == j + 1,
            decreases self.entries.len() - i,
        {
            if self.entries[i].id as usize != i + 1 {
                assert(self@[i as int].1 != i + 1);
                return false;
            }
            i += 1;
        }
        true
    }
}

} // verus!
