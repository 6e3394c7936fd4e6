//! Recorded sessions: the information about a recording and the packets
//! recorded, each with its time.

use crate::archive::{archive_entry, read_archive_entry};
use crate::buf_rw::{spec_read_bytes, spec_read_u32, BufError, BufReader, BufReaderView};
use crate::mc::packet::{spec_decode, McPacket, McPacketView};
use vstd::prelude::*;

verus! {

/// What a document is at its top.
#[derive(Clone, Copy, Debug, PartialEq, Eq, Structural)]
pub enum JsonRoot {
    /// No JSON.
    Malformed,
    /// JSON, but no object.
    NotObject,
    /// An object.
    Object,
}

/// What the JSON document `doc` is at its top, as `serde_json` reads it.
pub uninterp spec fn json_root(doc: Seq<u8>) -> JsonRoot;

/// The whole number under `key` at the top of the JSON document `doc`:
/// `None` where there is nothing under the key, `Some(None)` where what is
/// there is no whole number that fits 64 bits with a sign.
pub uninterp spec fn json_number(doc: Seq<u8>, key: Seq<char>) -> Option<Option<i64>>;

/// The string under `key` at the top of the JSON document `doc`: `None`
/// where there is nothing under the key, `Some(None)` where what is there
/// is no string.
pub uninterp spec fn json_text(doc: Seq<u8>, key: Seq<char>) -> Option<Option<Seq<char>>>;

/// The length of the list under `key` at the top of the JSON document
/// `doc`: `None` where there is nothing under the key, `Some(None)` where
/// what is there is no list.
pub uninterp spec fn json_list_len(doc: Seq<u8>, key: Seq<char>) -> Option<Option<nat>>;

/// The string at place `i` of the list under `key` at the top of the JSON
/// document `doc`: `None` where there is no such place or no string at
/// it.
pub uninterp spec fn json_list_text(doc: Seq<u8>, key: Seq<char>, i: nat) -> Option<Seq<char>>;

/// Reads `doc` with `serde_json::from_slice` and says whether it is JSON
/// and an object: `json_root` names the answer.
#[verifier::external_body]
fn json_root_of(doc: &[u8]) -> (root: JsonRoot)
    ensures
        root == json_root(doc@),
{
    match serde_json::from_slice::<serde_json::Value>(doc) {
        Ok(serde_json::Value::Object(_)) => JsonRoot::Object,
        Ok(_) => JsonRoot::NotObject,
        Err(_) => JsonRoot::Malformed,
    }
}

/// Reads `doc` with `serde_json::from_slice` and gives what `get` and
/// `as_i64` find under `key`: `json_number` names it. A document that is
/// no JSON has nothing under any key.
#[verifier::external_body]
fn json_number_of(doc: &[u8], key: &str) -> (r: Option<Option<i64>>)
    ensures
        r == json_number(doc@, key@),
{
    match serde_json::from_slice::<serde_json::Value>(doc) {
        Ok(value) => match value.get(key) {
            Some(field) => Some(field.as_i64()),
            None => None,
        },
        Err(_) => None,
    }
}

/// Reads `doc` with `serde_json::from_slice` and gives what `get` and
/// `as_str` find under `key`: `json_text` names it.
#[verifier::external_body]
fn json_text_of(doc: &[u8], key: &str) -> (r: Option<Option<String>>)
    ensures
        match r {
            None => json_text(doc@, key@) is None,
            Some(None) => json_text(doc@, key@) == Some(None::<Seq<char>>),
            Some(Some(text)) => json_text(doc@, key@) == Some(Some(text@)),
        },
{
    match serde_json::from_slice::<serde_json::Value>(doc) {
        Ok(value) => match value.get(key) {
            Some(field) => match field.as_str() {
                Some(text) => Some(Some(text.to_owned())),
                None => Some(None),
            },
            None => None,
        },
        Err(_) => None,
    }
}

/// Reads `doc` with `serde_json::from_slice` and gives the length of what
/// `get` and `as_array` find under `key`: `json_list_len` names it.
#[verifier::external_body]
fn json_list_len_of(doc: &[u8], key: &str) -> (r: Option<Option<usize>>)
    ensures
        match r {
            None => json_list_len(doc@, key@) is None,
            Some(None) => json_list_len(doc@, key@) == Some(None::<nat>),
            Some(Some(n)) => json_list_len(doc@, key@) == Some(Some(n as nat)),
        },
{
    match serde_json::from_slice::<serde_json::Value>(doc) {
        Ok(value) => match value.get(key) {
            Some(field) => match field.as_array() {
                Some(list) => Some(Some(list.len())),
                None => Some(None),
            },
            None => None,
        },
        Err(_) => None,
    }
}

/// Reads `doc` with `serde_json::from_slice` and gives what `get`, `get`
/// and `as_str` find at place `i` under `key`: `json_list_text` names it.
#[verifier::external_body]
fn json_list_text_of(doc: &[u8], key: &str, i: usize) -> (r: Option<String>)
    ensures
        match r {
            None => json_list_text(doc@, key@, i as nat) is None,
            Some(text) => json_list_text(doc@, key@, i as nat) == Some(text@),
        },
{
    match serde_json::from_slice::<serde_json::Value>(doc) {
        Ok(value) => match value.get(key) {
            Some(field) => match field.get(i) {
                Some(item) => match item.as_str() {
                    Some(text) => Some(text.to_owned()),
                    None => None,
                },
                None => None,
            },
            None => None,
        },
        Err(_) => None,
    }
}

/// A part of the information about a recording.
#[derive(Clone, Copy, Debug, PartialEq, Eq, Structural)]
pub enum InfoField {
    Date,
    Duration,
    McVersion,
    ServerName,
    Players,
}

/// Why a recording cannot be read.
#[derive(Clone, Copy, Debug, PartialEq, Eq, Structural)]
pub enum ReplayError {
    /// The file is no archive that can be read.
    Archive,
    /// The archive has no entry `metaData.json`.
    NoMetadata,
    /// The information is no JSON.
    MalformedJson,
    /// The information is JSON, but no object.
    NoObject,
    /// The information lacks a part.
    Missing(InfoField),
    /// A part of the information is of the wrong kind: a time that is no
    /// whole number or below 0, a name that is no string, players that are
    /// no list of strings.
    Malformed(InfoField),
    /// The archive has no entry `recording.tmcpr`.
    NoRecording,
    /// The recording ends within a packet, or holds a packet without a
    /// byte, or a time beyond what a number can hold.
    MalformedRecording,
}

/// The information about a recording.
#[derive(Debug)]
pub struct ReplayInfo {
    /// Start of the recording, in milliseconds since the Unix epoch.
    pub date: usize,
    /// Length of the recording in milliseconds.
    pub duration: usize,
    /// Version of the game, such as "1.12.2".
    pub mc_version: String,
    /// The UUIDs of all the players seen.
    pub players: Vec<String>,
    pub server_name: String,
}

pub struct ReplayInfoView {
    pub date: usize,
    pub duration: usize,
    pub mc_version: Seq<char>,
    pub players: Seq<Seq<char>>,
    pub server_name: Seq<char>,
}

impl View for ReplayInfo {
    type V = ReplayInfoView;

    open spec fn view(&self) -> ReplayInfoView {
        ReplayInfoView {
            date: self.date,
            duration: self.duration,
            mc_version: self.mc_version@,
            players: Seq::new(self.players@.len(), |i: int| self.players@[i]@),
            server_name: self.server_name@,
        }
    }
}

/// The time that a part of the information gives.
pub open spec fn spec_info_time(field: InfoField, found: Option<Option<i64>>) -> Result<
    usize,
    ReplayError,
> {
    match found {
        None => Err(ReplayError::Missing(field)),
        Some(None) => Err(ReplayError::Malformed(field)),
        Some(Some(v)) => if 0 <= v <= usize::MAX {
            Ok(v as usize)
        } else {
            Err(ReplayError::Malformed(field))
        },
    }
}

/// The name that a part of the information gives.
pub open spec fn spec_info_text(field: InfoField, found: Option<Option<Seq<char>>>) -> Result<
    Seq<char>,
    ReplayError,
> {
    match found {
        None => Err(ReplayError::Missing(field)),
        Some(None) => Err(ReplayError::Malformed(field)),
        Some(Some(text)) => Ok(text),
    }
}

/// The players that the information gives: the strings of the list
/// under `players`.
pub open spec fn spec_info_players(doc: Seq<u8>) -> Result<Seq<Seq<char>>, ReplayError> {
    match json_list_len(doc, "players"@) {
        None => Err(ReplayError::Missing(InfoField::Players)),
        Some(None) => Err(ReplayError::Malformed(InfoField::Players)),
        Some(Some(n)) => if forall|i: nat|
            i < n ==> (#[trigger] json_list_text(doc, "players"@, i)) is Some {
            Ok(Seq::new(n, |i: int| json_list_text(doc, "players"@, i as nat)->0))
        } else {
            Err(ReplayError::Malformed(InfoField::Players))
        },
    }
}

/// The information that a JSON document gives. Its parts are judged in
/// the order date, duration, version, server, players, and the first that
/// is missing or malformed is the error.
pub open spec fn spec_replay_info(doc: Seq<u8>) -> Result<ReplayInfoView, ReplayError> {
    match json_root(doc) {
        JsonRoot::Malformed => Err(ReplayError::MalformedJson),
        JsonRoot::NotObject => Err(ReplayError::NoObject),
        JsonRoot::Object => match spec_info_time(InfoField::Date, json_number(doc, "date"@)) {
            Err(e) => Err(e),
            Ok(date) => match spec_info_time(
                InfoField::Duration,
                json_number(doc, "duration"@),
            ) {
                Err(e) => Err(e),
                Ok(duration) => match spec_info_text(
                    InfoField::McVersion,
                    json_text(doc, "mcversion"@),
                ) {
                    Err(e) => Err(e),
                    Ok(mc_version) => match spec_info_text(
                        InfoField::ServerName,
                        json_text(doc, "serverName"@),
                    ) {
                        Err(e) => Err(e),
                        Ok(server_name) => match spec_info_players(doc) {
                            Err(e) => Err(e),
                            Ok(players) => Ok(
                                ReplayInfoView { date, duration, mc_version, players, server_name },
                            ),
                        },
                    },
                },
            },
        },
    }
}

/// The time that a part of the information gives.
pub fn info_time(field: InfoField, found: Option<Option<i64>>) -> (r: Result<usize, ReplayError>)
    ensures
        r == spec_info_time(field, found),
{
    match found {
        None => Err(ReplayError::Missing(field)),
        Some(None) => Err(ReplayError::Malformed(field)),
        Some(Some(v)) => if v < 0 || v as u64 > usize::MAX as u64 {
            Err(ReplayError::Malformed(field))
        } else {
            Ok(v as usize)
        },
    }
}

/// The name that a part of the information gives.
pub fn info_text(field: InfoField, found: Option<Option<String>>) -> (r: Result<String, ReplayError>)
    ensures
        match r {
            Ok(text) => found matches Some(Some(t)) && t@ == text@,
            Err(e) => e == (if found is None {
                ReplayError::Missing(field)
            } else {
                ReplayError::Malformed(field)
            }) && !(found matches Some(Some(_))),
        },
{
    match found {
        None => Err(ReplayError::Missing(field)),
        Some(None) => Err(ReplayError::Malformed(field)),
        Some(Some(text)) => Ok(text),
    }
}

/// Reads the information about a recording out of its JSON document.
pub fn replay_info_from_json(doc: &[u8]) -> (r: Result<ReplayInfo, ReplayError>)
    ensures
        match r {
            Ok(info) => spec_replay_info(doc@) == Ok::<ReplayInfoView, ReplayError>(info@),
            Err(e) => spec_replay_info(doc@) == Err::<ReplayInfoView, ReplayError>(e),
        },
{
    match json_root_of(doc) {
        JsonRoot::Malformed => {
            return Err(ReplayError::MalformedJson);
        },
        JsonRoot::NotObject => {
            return Err(ReplayError::NoObject);
        },
        JsonRoot::Object => {},
    }
    let date: usize = match info_time(InfoField::Date, json_number_of(doc, "date")) {
        Ok(v) => v,
        Err(e) => {
            return Err(e);
        },
    };
    let duration: usize = match info_time(InfoField::Duration, json_number_of(doc, "duration")) {
        Ok(v) => v,
        Err(e) => {
            return Err(e);
        },
    };
    let mc_version: String = match info_text(InfoField::McVersion, json_text_of(doc, "mcversion")) {
        Ok(v) => v,
        Err(e) => {
            return Err(e);
        },
    };
    let server_name: String = match info_text(
        InfoField::ServerName,
        json_text_of(doc, "serverName"),
    ) {
        Ok(v) => v,
        Err(e) => {
            return Err(e);
        },
    };
    let players: Vec<String> = match info_players(doc) {
        Ok(v) => v,
        Err(e) => {
            return Err(e);
        },
    };
    Ok(ReplayInfo { date, duration, mc_version, players, server_name })
}

/// The players that the information gives.
pub fn info_players(doc: &[u8]) -> (r: Result<Vec<String>, ReplayError>)
    ensures
        match r {
            Ok(players) => spec_info_players(doc@) == Ok::<Seq<Seq<char>>, ReplayError>(
                Seq::new(players@.len(), |i: int| players@[i]@),
            ),
            Err(e) => spec_info_players(doc@) == Err::<Seq<Seq<char>>, ReplayError>(e),
        },
{
    let len: usize = match json_list_len_of(doc, "players") {
        None => {
            return Err(ReplayError::Missing(InfoField::Players));
        },
        Some(None) => {
            return Err(ReplayError::Malformed(InfoField::Players));
        },
        Some(Some(len)) => len,
    };
    let mut players: Vec<String> = Vec::new();
    let mut i: usize = 0;
    while i < len
        invariant
            i <= len,
            players@.len() == i,
            json_list_len(doc@, "players"@) == Some(Some(len as nat)),
            forall|j: nat|
                j < i ==> (#[trigger] json_list_text(doc@, "players"@, j)) == Some(
                    players@[j as int]@,
                ),
        decreases len - i,
    {
        match json_list_text_of(doc, "players", i) {
            None => {
                assert(json_list_text(doc@, "players"@, i as nat) is None);
                return Err(ReplayError::Malformed(InfoField::Players));
            },
            Some(text) => {
                players.push(text);
            },
        }
        i += 1;
    }
    proof {
        assert forall|k: nat| k < len implies (#[trigger] json_list_text(
            doc@,
            "players"@,
            k,
        )) is Some by {
            assert(json_list_text(doc@, "players"@, k) == Some(players@[k as int]@));
        }
        assert(Seq::new(players@.len(), |i: int| players@[i]@) =~= Seq::new(
            len as nat,
            |i: int| json_list_text(doc@, "players"@, i as nat)->0,
        ));
    }
    Ok(players)
}

/// One recorded packet.
#[derive(Debug)]
pub struct ReplayPacket {
    /// The time of the packet, in milliseconds since the Unix epoch.
    pub date: usize,
    pub size: usize,
    /// The kind of the packet: its first byte.
    pub id: u8,
    pub data: Vec<u8>,
    decoded: Option<McPacket>,
}

pub struct ReplayPacketView {
    pub date: usize,
    pub size: usize,
    pub id: u8,
    pub data: Seq<u8>,
    pub decoded: Option<McPacketView>,
}

impl View for ReplayPacket {
    type V = ReplayPacketView;

    closed spec fn view(&self) -> ReplayPacketView {
        ReplayPacketView {
            date: self.date,
            size: self.size,
            id: self.id,
            data: self.data@,
            decoded: match self.decoded {
                Some(packet) => Some(packet@),
                None => None,
            },
        }
    }
}

impl ReplayPacket {
    /// A packet that is not decoded yet.
    pub fn new(date: usize, size: usize, id: u8, data: Vec<u8>) -> (packet: ReplayPacket)
        ensures
            packet@ == (ReplayPacketView { date, size, id, data: data@, decoded: None }),
    {
        ReplayPacket { date, size, id, data, decoded: None }
    }

    /// The decoded packet, where it was decoded.
    pub fn get_packet(&self) -> (packet: &Option<McPacket>)
        ensures
            self@.decoded == match *packet {
                Some(p) => Some(p@),
                None => None,
            },
    {
        &self.decoded
    }

    /// Decodes the packet, unless it is decoded already.
    pub fn parse_packet(&mut self) -> (r: Result<(), BufError>)
        ensures
            final(self)@.date == old(self)@.date,
            final(self)@.size == old(self)@.size,
            final(self)@.id == old(self)@.id,
            final(self)@.data == old(self)@.data,
            old(self)@.decoded is Some ==> r is Ok && final(self)@ == old(self)@,
            old(self)@.decoded is None ==> match r {
                Ok(()) => spec_decode(old(self)@.data) == Ok::<McPacketView, BufError>(
                    final(self)@.decoded->0,
                ) && final(self)@.decoded is Some,
                Err(e) => spec_decode(old(self)@.data) == Err::<McPacketView, BufError>(e)
                    && final(self)@.decoded is None,
            },
    {
        if self.decoded.is_none() {
            match McPacket::decode(&self.data) {
                Ok(packet) => {
                    self.decoded = Some(packet);
                },
                Err(e) => {
                    return Err(e);
                },
            }
        }
        Ok(())
    }
}

/// A recording: the information about it and its packets.
pub struct Replay {
    pub info: ReplayInfo,
    data: BufReader,
}

/// The next packet of a recording that started at `start`: nothing where
/// fewer than nine bytes are left; else the time since the start and the
/// size, four bytes each, and the bytes of the packet.
pub open spec fn spec_next_packet(data: Seq<u8>, pos: int, start: usize) -> Result<
    Option<(ReplayPacketView, int)>,
    ReplayError,
> {
    if pos + 9 > data.len() {
        Ok(None)
    } else {
        match spec_read_u32(data, pos) {
            Err(_) => Err(ReplayError::MalformedRecording),
            Ok((offset, at1)) => match spec_read_u32(data, at1) {
                Err(_) => Err(ReplayError::MalformedRecording),
                Ok((size, at2)) => match spec_read_bytes(data, at2, size as int) {
                    Err(_) => Err(ReplayError::MalformedRecording),
                    Ok((bytes, at3)) => if size == 0 || start + offset > usize::MAX {
                        Err(ReplayError::MalformedRecording)
                    } else {
                        Ok(
                            Some(
                                (
                                    ReplayPacketView {
                                        date: (start + offset) as usize,
                                        size: size as usize,
                                        id: bytes[0],
                                        data: bytes,
                                        decoded: None,
                                    },
                                    at3,
                                ),
                            ),
                        )
                    },
                },
            },
        }
    }
}

impl Replay {
    /// Validity of a recording.
    pub closed spec fn wf(&self) -> bool {
        self.data.wf()
    }

    /// What is left to read of the recording.
    pub closed spec fn reader(&self) -> BufReaderView {
        self.data@
    }

    /// The information about the recording.
    pub closed spec fn spec_info(&self) -> ReplayInfo {
        self.info
    }

    pub fn new(info: ReplayInfo, data: Vec<u8>) -> (replay: Replay)
        ensures
            replay.wf(),
            replay.spec_info() == info,
            replay.reader().data == data@,
            replay.reader().pos == 0,
    {
        Replay { info, data: BufReader::new(data) }
    }

    /// The next packet of the recording, or nothing at its end.
    pub fn next_packet(&mut self) -> (r: Result<Option<ReplayPacket>, ReplayError>)
        requires
            old(self).wf(),
        ensures
            final(self).wf(),
            final(self).spec_info() == old(self).spec_info(),
            final(self).reader().data == old(self).reader().data,
            match r {
                Ok(None) => spec_next_packet(
                    old(self).reader().data,
                    old(self).reader().pos,
                    old(self).spec_info().date,
                ) == Ok::<Option<(ReplayPacketView, int)>, ReplayError>(None)
                    && final(self).reader() == old(self).reader(),
                Ok(Some(packet)) => spec_next_packet(
                    old(self).reader().data,
                    old(self).reader().pos,
                    old(self).spec_info().date,
                ) == Ok::<Option<(ReplayPacketView, int)>, ReplayError>(
                    Some((packet@, final(self).reader().pos)),
                ),
                Err(e) => spec_next_packet(
                    old(self).reader().data,
                    old(self).reader().pos,
                    old(self).spec_info().date,
                ) == Err::<Option<(ReplayPacketView, int)>, ReplayError>(e),
            },
    {
        if self.data.len() < 9 || self.data.position() as usize > self.data.len() - 9 {
            return Ok(None);
        }
        let offset: u32 = match self.data.read_u32() {
            Ok(v) => v,
            Err(_) => {
                return Err(ReplayError::MalformedRecording);
            },
        };
        let size: u32 = match self.data.read_u32() {
            Ok(v) => v,
            Err(_) => {
                return Err(ReplayError::MalformedRecording);
            },
        };
        let bytes: Vec<u8> = match self.data.read_bytes(size as usize) {
            Ok(v) => v,
            Err(_) => {
                return Err(ReplayError::MalformedRecording);
            },
        };
        if size == 0 || offset as usize > usize::MAX - self.info.date {
            return Err(ReplayError::MalformedRecording);
        }
        let id: u8 = bytes[0];
        Ok(Some(ReplayPacket::new(self.info.date + offset as usize, size as usize, id, bytes)))
    }
}

/// What reading the information gives, from what the archive holds under
/// `metaData.json`.
pub open spec fn spec_read_info(entry: Option<Option<Seq<u8>>>) -> Result<
    ReplayInfoView,
    ReplayError,
> {
    match entry {
        None => Err(ReplayError::Archive),
        Some(None) => Err(ReplayError::NoMetadata),
        Some(Some(doc)) => spec_replay_info(doc),
    }
}

/// Reads the information about the recording held in `archive`.
pub fn read_info(archive: &[u8]) -> (r: Result<ReplayInfo, ReplayError>)
    ensures
        match r {
            Ok(info) => spec_read_info(archive_entry(archive@, "metaData.json"@)) == Ok::<
                ReplayInfoView,
                ReplayError,
            >(info@),
            Err(e) => spec_read_info(archive_entry(archive@, "metaData.json"@)) == Err::<
                ReplayInfoView,
                ReplayError,
            >(e),
        },
{
    match read_archive_entry(archive, "metaData.json") {
        Err(_) => Err(ReplayError::Archive),
        Ok(None) => Err(ReplayError::NoMetadata),
        Ok(Some(doc)) => replay_info_from_json(doc.as_slice()),
    }
}

/// Reads the recording held in `archive`: its information and, ready to
/// be read, its packets.
pub fn read_replay(archive: &[u8]) -> (r: Result<Replay, ReplayError>)
    ensures
        match r {
            Ok(replay) => {
                &&& replay.wf()
                &&& spec_read_info(archive_entry(archive@, "metaData.json"@)) == Ok::<
                    ReplayInfoView,
                    ReplayError,
                >(replay.spec_info()@)
                &&& archive_entry(archive@, "recording.tmcpr"@) == Some(
                    Some(replay.reader().data),
                )
                &&& replay.reader().pos == 0
            },
            Err(e) => match spec_read_info(archive_entry(archive@, "metaData.json"@)) {
                Err(info_error) => e == info_error,
                Ok(_) => match archive_entry(archive@, "recording.tmcpr"@) {
                    None => e == ReplayError::Archive,
                    Some(None) => e == ReplayError::NoRecording,
                    Some(Some(_)) => false,
                },
            },
        },
{
    let info: ReplayInfo = match read_info(archive) {
        Ok(info) => info,
        Err(e) => {
            return Err(e);
        },
    };
    match read_archive_entry(archive, "recording.tmcpr") {
        Err(_) => Err(ReplayError::Archive),
        Ok(None) => Err(ReplayError::NoRecording),
        Ok(Some(data)) => Ok(Replay::new(info, data)),
    }
}

} // verus!
