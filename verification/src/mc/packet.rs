//! Decoding of the packets that tell where players are, what was said and
//! which chunks were sent.

use crate::buf_rw::{
    spec_read_bool, spec_read_i16, spec_read_i32, spec_read_i8, spec_read_remainder, spec_read_u16,
    spec_read_u64, spec_read_u8, spec_read_uuid, spec_read_varint, spec_read_varint_prefixed,
    BufError, BufReader, UUID,
};
use crate::text::string_from_utf8;
use vstd::prelude::*;
use vstd::utf8::*;

verus! {

/// The chunk that a chunk packet carries.
#[derive(Debug)]
pub struct ChunkData {
    pub x: i32,
    pub z: i32,
    pub is_new: bool,
    pub sections_mask: u16,
    pub chunk_data: Vec<u8>,
    pub tile_entities: Vec<u8>,
}

pub struct ChunkDataView {
    pub x: i32,
    pub z: i32,
    pub is_new: bool,
    pub sections_mask: u16,
    pub chunk_data: Seq<u8>,
    pub tile_entities: Seq<u8>,
}

impl View for ChunkData {
    type V = ChunkDataView;

    open spec fn view(&self) -> ChunkDataView {
        ChunkDataView {
            x: self.x,
            z: self.z,
            is_new: self.is_new,
            sections_mask: self.sections_mask,
            chunk_data: self.chunk_data@,
            tile_entities: self.tile_entities@,
        }
    }
}

/// A packet. A place is given by the bits of three 64-bit floats, a move
/// by three numbers of 1/4096 of a block each.
#[derive(Debug)]
pub enum McPacket {
    SpawnPlayer {
        eid: i32,
        uuid: UUID,
        x_bits: u64,
        y_bits: u64,
        z_bits: u64,
        yaw: u8,
        pitch: u8,
        metadata: Vec<u8>,
    },
    Chat { message: String, position: i8 },
    ChunkDataHack(ChunkData),
    EntityRelativeMove { eid: i32, dx: i16, dy: i16, dz: i16, on_ground: bool },
    EntityLookAndRelativeMove {
        eid: i32,
        dx: i16,
        dy: i16,
        dz: i16,
        yaw: u8,
        pitch: u8,
        on_ground: bool,
    },
    EntityTeleport {
        eid: i32,
        x_bits: u64,
        y_bits: u64,
        z_bits: u64,
        yaw: u8,
        pitch: u8,
        on_ground: bool,
    },
    /// Any other packet.
    Unimplemented,
}

pub enum McPacketView {
    SpawnPlayer {
        eid: i32,
        uuid: UUID,
        x_bits: u64,
        y_bits: u64,
        z_bits: u64,
        yaw: u8,
        pitch: u8,
        metadata: Seq<u8>,
    },
    Chat { message: Seq<char>, position: i8 },
    ChunkDataHack(ChunkDataView),
    EntityRelativeMove { eid: i32, dx: i16, dy: i16, dz: i16, on_ground: bool },
    EntityLookAndRelativeMove {
        eid: i32,
        dx: i16,
        dy: i16,
        dz: i16,
        yaw: u8,
        pitch: u8,
        on_ground: bool,
    },
    EntityTeleport {
        eid: i32,
        x_bits: u64,
        y_bits: u64,
        z_bits: u64,
        yaw: u8,
        pitch: u8,
        on_ground: bool,
    },
    Unimplemented,
}

impl View for McPacket {
    type V = McPacketView;

    open spec fn view(&self) -> McPacketView {
        match *self {
            McPacket::SpawnPlayer { eid, uuid, x_bits, y_bits, z_bits, yaw, pitch, metadata } => {
                McPacketView::SpawnPlayer {
                    eid,
                    uuid,
                    x_bits,
                    y_bits,
                    z_bits,
                    yaw,
                    pitch,
                    metadata: metadata@,
                }
            },
            McPacket::Chat { message, position } => McPacketView::Chat {
                message: message@,
                position,
            },
            McPacket::ChunkDataHack(chunk) => McPacketView::ChunkDataHack(chunk@),
            McPacket::EntityRelativeMove { eid, dx, dy, dz, on_ground } => {
                McPacketView::EntityRelativeMove { eid, dx, dy, dz, on_ground }
            },
            McPacket::EntityLookAndRelativeMove { eid, dx, dy, dz, yaw, pitch, on_ground } => {
                McPacketView::EntityLookAndRelativeMove { eid, dx, dy, dz, yaw, pitch, on_ground }
            },
            McPacket::EntityTeleport { eid, x_bits, y_bits, z_bits, yaw, pitch, on_ground } => {
                McPacketView::EntityTeleport { eid, x_bits, y_bits, z_bits, yaw, pitch, on_ground }
            },
            McPacket::Unimplemented => McPacketView::Unimplemented,
        }
    }
}

/// The bits of the three floats of a place.
pub open spec fn spec_read_place(data: Seq<u8>, at0: int) -> Result<((u64, u64, u64), int), BufError> {
    match spec_read_u64(data, at0) {
        Err(e) => Err(e),
        Ok((x, at1)) => match spec_read_u64(data, at1) {
            Err(e) => Err(e),
            Ok((y, at2)) => match spec_read_u64(data, at2) {
                Err(e) => Err(e),
                Ok((z, at3)) => Ok(((x, y, z), at3)),
            },
        },
    }
}

/// The three numbers of a move, 1/4096 of a block each.
pub open spec fn spec_read_step(data: Seq<u8>, at0: int) -> Result<((i16, i16, i16), int), BufError> {
    match spec_read_i16(data, at0) {
        Err(e) => Err(e),
        Ok((dx, at1)) => match spec_read_i16(data, at1) {
            Err(e) => Err(e),
            Ok((dy, at2)) => match spec_read_i16(data, at2) {
                Err(e) => Err(e),
                Ok((dz, at3)) => Ok(((dx, dy, dz), at3)),
            },
        },
    }
}

/// The two angles of a look.
pub open spec fn spec_read_look(data: Seq<u8>, at0: int) -> Result<((u8, u8), int), BufError> {
    match spec_read_u8(data, at0) {
        Err(e) => Err(e),
        Ok((yaw, at1)) => match spec_read_u8(data, at1) {
            Err(e) => Err(e),
            Ok((pitch, at2)) => Ok(((yaw, pitch), at2)),
        },
    }
}

/// The two numbers of the place of a chunk.
pub open spec fn spec_read_xz(data: Seq<u8>, at0: int) -> Result<((i32, i32), int), BufError> {
    match spec_read_i32(data, at0) {
        Err(e) => Err(e),
        Ok((x, at1)) => match spec_read_i32(data, at1) {
            Err(e) => Err(e),
            Ok((z, at2)) => Ok(((x, z), at2)),
        },
    }
}

/// The packet 0x05 whose fields start at the place `at0`, one after the other.
pub open spec fn spec_decode_spawn_player(data: Seq<u8>, at0: int) -> Result<McPacketView, BufError> {
    match spec_read_varint(data, at0) {
        Err(e) => Err(e),
        Ok((eid, at1)) => match spec_read_uuid(data, at1) {
            Err(e) => Err(e),
            Ok((uuid, at2)) => match spec_read_place(data, at2) {
                Err(e) => Err(e),
                Ok((place, at3)) => match spec_read_look(data, at3) {
                    Err(e) => Err(e),
                    Ok((look, at4)) => {
                        let metadata = spec_read_remainder(data, at4);
                        Ok(
                            McPacketView::SpawnPlayer {
                                eid,
                                uuid,
                                x_bits: place.0,
                                y_bits: place.1,
                                z_bits: place.2,
                                yaw: look.0,
                                pitch: look.1,
                                metadata,
                            },
                        )
                    },
                },
            },
        },
    }
}

/// The packet 0x0f whose fields start at the place `at0`, one after the other.
pub open spec fn spec_decode_chat(data: Seq<u8>, at0: int) -> Result<McPacketView, BufError> {
    match spec_read_varint_prefixed(data, at0) {
        Err(e) => Err(e),
        Ok((bytes, at1)) => if !valid_utf8(bytes) {
            Err(BufError::Utf8)
        } else {
            let message = decode_utf8(bytes);
            match spec_read_i8(data, at1) {
                Err(e) => Err(e),
                Ok((position, at2)) => Ok(
                    McPacketView::Chat {
                        message,
                        position,
                    },
                ),
            }
        },
    }
}

/// The packet 0x20 whose fields start at the place `at0`, one after the other.
pub open spec fn spec_decode_chunk_data(data: Seq<u8>, at0: int) -> Result<McPacketView, BufError> {
    match spec_read_xz(data, at0) {
        Err(e) => Err(e),
        Ok((xz, at1)) => match spec_read_bool(data, at1) {
            Err(e) => Err(e),
            Ok((is_new, at2)) => match spec_read_u16(data, at2) {
                Err(e) => Err(e),
                Ok((sections_mask, at3)) => match spec_read_varint_prefixed(data, at3) {
                    Err(e) => Err(e),
                    Ok((chunk_data, at4)) => {
                        let tile_entities = spec_read_remainder(data, at4);
                        Ok(
                            McPacketView::ChunkDataHack(
                                ChunkDataView {
                                    x: xz.0,
                                    z: xz.1,
                                    is_new,
                                    sections_mask,
                                    chunk_data,
                                    tile_entities,
                                },
                            ),
                        )
                    },
                },
            },
        },
    }
}

/// The packet 0x26 whose fields start at the place `at0`, one after the other.
pub open spec fn spec_decode_relative_move(data: Seq<u8>, at0: int) -> Result<McPacketView, BufError> {
    match spec_read_varint(data, at0) {
        Err(e) => Err(e),
        Ok((eid, at1)) => match spec_read_step(data, at1) {
            Err(e) => Err(e),
            Ok((step, at2)) => match spec_read_bool(data, at2) {
                Err(e) => Err(e),
                Ok((on_ground, at3)) => Ok(
                    McPacketView::EntityRelativeMove {
                        eid,
                        dx: step.0,
                        dy: step.1,
                        dz: step.2,
                        on_ground,
                    },
                ),
            },
        },
    }
}

/// The packet 0x27 whose fields start at the place `at0`, one after the other.
pub open spec fn spec_decode_look_and_relative_move(data: Seq<u8>, at0: int) -> Result<McPacketView, BufError> {
    match spec_read_varint(data, at0) {
        Err(e) => Err(e),
        Ok((eid, at1)) => match spec_read_step(data, at1) {
            Err(e) => Err(e),
            Ok((step, at2)) => match spec_read_look(data, at2) {
                Err(e) => Err(e),
                Ok((look, at3)) => match spec_read_bool(data, at3) {
                    Err(e) => Err(e),
                    Ok((on_ground, at4)) => Ok(
                        McPacketView::EntityLookAndRelativeMove {
                            eid,
                            dx: step.0,
                            dy: step.1,
                            dz: step.2,
                            yaw: look.0,
                            pitch: look.1,
                            on_ground,
                        },
                    ),
                },
            },
        },
    }
}

/// The packet 0x4c whose fields start at the place `at0`, one after the other.
pub open spec fn spec_decode_teleport(data: Seq<u8>, at0: int) -> Result<McPacketView, BufError> {
    match spec_read_varint(data, at0) {
        Err(e) => Err(e),
        Ok((eid, at1)) => match spec_read_place(data, at1) {
            Err(e) => Err(e),
            Ok((place, at2)) => match spec_read_look(data, at2) {
                Err(e) => Err(e),
                Ok((look, at3)) => match spec_read_bool(data, at3) {
                    Err(e) => Err(e),
                    Ok((on_ground, at4)) => Ok(
                        McPacketView::EntityTeleport {
                            eid,
                            x_bits: place.0,
                            y_bits: place.1,
                            z_bits: place.2,
                            yaw: look.0,
                            pitch: look.1,
                            on_ground,
                        },
                    ),
                },
            },
        },
    }
}

/// The packet that `data` holds: its first byte says which it is, its
/// fields follow. A packet of a kind that is not decoded is
/// `Unimplemented`, whatever follows its first byte.
pub open spec fn spec_decode(data: Seq<u8>) -> Result<McPacketView, BufError> {
    if data.len() == 0 {
        Err(BufError::UnexpectedEof)
    } else if data[0] == 0x05 {
        spec_decode_spawn_player(data, 1)
    } else if data[0] == 0x0f {
        spec_decode_chat(data, 1)
    } else if data[0] == 0x20 {
        spec_decode_chunk_data(data, 1)
    } else if data[0] == 0x26 {
        spec_decode_relative_move(data, 1)
    } else if data[0] == 0x27 {
        spec_decode_look_and_relative_move(data, 1)
    } else if data[0] == 0x4c {
        spec_decode_teleport(data, 1)
    } else {
        Ok(McPacketView::Unimplemented)
    }
}

/// The bits of the three floats of a place.
fn read_place(reader: &mut BufReader) -> (r: Result<(u64, u64, u64), BufError>)
    requires
        old(reader).wf(),
    ensures
        final(reader).wf(),
        final(reader)@.data == old(reader)@.data,
        match r {
            Ok(v) => spec_read_place(old(reader)@.data, old(reader)@.pos) == Ok::<((u64, u64, u64), int), BufError>(
                (v, final(reader)@.pos),
            ),
            Err(e) => spec_read_place(old(reader)@.data, old(reader)@.pos) == Err::<
                ((u64, u64, u64), int),
                BufError,
            >(e),
        },
{
    let x: u64 = match reader.read_f64_bits() {
        Ok(v) => v,
        Err(e) => {
            return Err(e);
        },
    };
    let y: u64 = match reader.read_f64_bits() {
        Ok(v) => v,
        Err(e) => {
            return Err(e);
        },
    };
    let z: u64 = match reader.read_f64_bits() {
        Ok(v) => v,
        Err(e) => {
            return Err(e);
        },
    };
    Ok((x, y, z))
}

/// The three numbers of a move, 1/4096 of a block each.
fn read_step(reader: &mut BufReader) -> (r: Result<(i16, i16, i16), BufError>)
    requires
        old(reader).wf(),
    ensures
        final(reader).wf(),
        final(reader)@.data == old(reader)@.data,
        match r {
            Ok(v) => spec_read_step(old(reader)@.data, old(reader)@.pos) == Ok::<((i16, i16, i16), int), BufError>(
                (v, final(reader)@.pos),
            ),
            Err(e) => spec_read_step(old(reader)@.data, old(reader)@.pos) == Err::<
                ((i16, i16, i16), int),
                BufError,
            >(e),
        },
{
    let dx: i16 = match reader.read_i16() {
        Ok(v) => v,
        Err(e) => {
            return Err(e);
        },
    };
    let dy: i16 = match reader.read_i16() {
        Ok(v) => v,
        Err(e) => {
            return Err(e);
        },
    };
    let dz: i16 = match reader.read_i16() {
        Ok(v) => v,
        Err(e) => {
            return Err(e);
        },
    };
    Ok((dx, dy, dz))
}

/// The two angles of a look.
fn read_look(reader: &mut BufReader) -> (r: Result<(u8, u8), BufError>)
    requires
        old(reader).wf(),
    ensures
        final(reader).wf(),
        final(reader)@.data == old(reader)@.data,
        match r {
            Ok(v) => spec_read_look(old(reader)@.data, old(reader)@.pos) == Ok::<((u8, u8), int), BufError>(
                (v, final(reader)@.pos),
            ),
            Err(e) => spec_read_look(old(reader)@.data, old(reader)@.pos) == Err::<
                ((u8, u8), int),
                BufError,
            >(e),
        },
{
    let yaw: u8 = match reader.read_u8() {
        Ok(v) => v,
        Err(e) => {
            return Err(e);
        },
    };
    let pitch: u8 = match reader.read_u8() {
        Ok(v) => v,
        Err(e) => {
            return Err(e);
        },
    };
    Ok((yaw, pitch))
}

/// The two numbers of the place of a chunk.
fn read_xz(reader: &mut BufReader) -> (r: Result<(i32, i32), BufError>)
    requires
        old(reader).wf(),
    ensures
        final(reader).wf(),
        final(reader)@.data == old(reader)@.data,
        match r {
            Ok(v) => spec_read_xz(old(reader)@.data, old(reader)@.pos) == Ok::<((i32, i32), int), BufError>(
                (v, final(reader)@.pos),
            ),
            Err(e) => spec_read_xz(old(reader)@.data, old(reader)@.pos) == Err::<
                ((i32, i32), int),
                BufError,
            >(e),
        },
{
    let x: i32 = match reader.read_i32() {
        Ok(v) => v,
        Err(e) => {
            return Err(e);
        },
    };
    let z: i32 = match reader.read_i32() {
        Ok(v) => v,
        Err(e) => {
            return Err(e);
        },
    };
    Ok((x, z))
}

impl McPacket {
    fn decode_spawn_player(reader: &mut BufReader) -> (r: Result<McPacket, BufError>)
        requires
            old(reader).wf(),
        ensures
            match r {
                Ok(packet) => spec_decode_spawn_player(old(reader)@.data, old(reader)@.pos) == Ok::<
                    McPacketView,
                    BufError,
                >(packet@),
                Err(e) => spec_decode_spawn_player(old(reader)@.data, old(reader)@.pos) == Err::<
                    McPacketView,
                    BufError,
                >(e),
            },
    {
        let eid: i32 = match reader.read_varint() {
            Ok(v) => v,
            Err(e) => {
                return Err(e);
            },
        };
        let uuid: UUID = match reader.read_uuid() {
            Ok(v) => v,
            Err(e) => {
                return Err(e);
            },
        };
        let place: (u64, u64, u64) = match read_place(reader) {
            Ok(v) => v,
            Err(e) => {
                return Err(e);
            },
        };
        let look: (u8, u8) = match read_look(reader) {
            Ok(v) => v,
            Err(e) => {
                return Err(e);
            },
        };
        let metadata: Vec<u8> = reader.read_remainder();
        Ok(
            McPacket::SpawnPlayer {
                eid,
                uuid,
                x_bits: place.0,
                y_bits: place.1,
                z_bits: place.2,
                yaw: look.0,
                pitch: look.1,
                metadata,
            },
        )
    }

    fn decode_chat(reader: &mut BufReader) -> (r: Result<McPacket, BufError>)
        requires
            old(reader).wf(),
        ensures
            match r {
                Ok(packet) => spec_decode_chat(old(reader)@.data, old(reader)@.pos) == Ok::<
                    McPacketView,
                    BufError,
                >(packet@),
                Err(e) => spec_decode_chat(old(reader)@.data, old(reader)@.pos) == Err::<
                    McPacketView,
                    BufError,
                >(e),
            },
    {
        let bytes: Vec<u8> = match reader.read_varint_prefixed_bytes() {
            Ok(v) => v,
            Err(e) => {
                return Err(e);
            },
        };
        let message: String = match string_from_utf8(bytes.as_slice()) {
            Some(text) => text,
            None => {
                return Err(BufError::Utf8);
            },
        };
        let position: i8 = match reader.read_i8() {
            Ok(v) => v,
            Err(e) => {
                return Err(e);
            },
        };
        Ok(
            McPacket::Chat {
                message,
                position,
            },
        )
    }

    fn decode_chunk_data(reader: &mut BufReader) -> (r: Result<McPacket, BufError>)
        requires
            old(reader).wf(),
        ensures
            match r {
                Ok(packet) => spec_decode_chunk_data(old(reader)@.data, old(reader)@.pos) == Ok::<
                    McPacketView,
                    BufError,
                >(packet@),
                Err(e) => spec_decode_chunk_data(old(reader)@.data, old(reader)@.pos) == Err::<
                    McPacketView,
                    BufError,
                >(e),
            },
    {
        let xz: (i32, i32) = match read_xz(reader) {
            Ok(v) => v,
            Err(e) => {
                return Err(e);
            },
        };
        let is_new: bool = match reader.read_bool() {
            Ok(v) => v,
            Err(e) => {
                return Err(e);
            },
        };
        let sections_mask: u16 = match reader.read_u16() {
            Ok(v) => v,
            Err(e) => {
                return Err(e);
            },
        };
        let chunk_data: Vec<u8> = match reader.read_varint_prefixed_bytes() {
            Ok(v) => v,
            Err(e) => {
                return Err(e);
            },
        };
        let tile_entities: Vec<u8> = reader.read_remainder();
        Ok(
            McPacket::ChunkDataHack(
                ChunkData {
                    x: xz.0,
                    z: xz.1,
                    is_new,
                    sections_mask,
                    chunk_data,
                    tile_entities,
                },
            ),
        )
    }

    fn decode_relative_move(reader: &mut BufReader) -> (r: Result<McPacket, BufError>)
        requires
            old(reader).wf(),
        ensures
            match r {
                Ok(packet) => spec_decode_relative_move(old(reader)@.data, old(reader)@.pos) == Ok::<
                    McPacketView,
                    BufError,
                >(packet@),
                Err(e) => spec_decode_relative_move(old(reader)@.data, old(reader)@.pos) == Err::<
                    McPacketView,
                    BufError,
                >(e),
            },
    {
        let eid: i32 = match reader.read_varint() {
            Ok(v) => v,
            Err(e) => {
                return Err(e);
            },
        };
        let step: (i16, i16, i16) = match read_step(reader) {
            Ok(v) => v,
            Err(e) => {
                return Err(e);
            },
        };
        let on_ground: bool = match reader.read_bool() {
            Ok(v) => v,
            Err(e) => {
                return Err(e);
            },
        };
        Ok(
            McPacket::EntityRelativeMove {
                eid,
                dx: step.0,
                dy: step.1,
                dz: step.2,
                on_ground,
            },
        )
    }

    fn decode_look_and_relative_move(reader: &mut BufReader) -> (r: Result<McPacket, BufError>)
        requires
            old(reader).wf(),
        ensures
            match r {
                Ok(packet) => spec_decode_look_and_relative_move(old(reader)@.data, old(reader)@.pos) == Ok::<
                    McPacketView,
                    BufError,
                >(packet@),
                Err(e) => spec_decode_look_and_relative_move(old(reader)@.data, old(reader)@.pos) == Err::<
                    McPacketView,
                    BufError,
                >(e),
            },
    {
        let eid: i32 = match reader.read_varint() {
            Ok(v) => v,
            Err(e) => {
                return Err(e);
            },
        };
        let step: (i16, i16, i16) = match read_step(reader) {
            Ok(v) => v,
            Err(e) => {
                return Err(e);
            },
        };
        let look: (u8, u8) = match read_look(reader) {
            Ok(v) => v,
            Err(e) => {
                return Err(e);
            },
        };
        let on_ground: bool = match reader.read_bool() {
            Ok(v) => v,
            Err(e) => {
                return Err(e);
            },
        };
        Ok(
            McPacket::EntityLookAndRelativeMove {
                eid,
                dx: step.0,
                dy: step.1,
                dz: step.2,
                yaw: look.0,
                pitch: look.1,
                on_ground,
            },
        )
    }

    fn decode_teleport(reader: &mut BufReader) -> (r: Result<McPacket, BufError>)
        requires
            old(reader).wf(),
        ensures
            match r {
                Ok(packet) => spec_decode_teleport(old(reader)@.data, old(reader)@.pos) == Ok::<
                    McPacketView,
                    BufError,
                >(packet@),
                Err(e) => spec_decode_teleport(old(reader)@.data, old(reader)@.pos) == Err::<
                    McPacketView,
                    BufError,
                >(e),
            },
    {
        let eid: i32 = match reader.read_varint() {
            Ok(v) => v,
            Err(e) => {
                return Err(e);
            },
        };
        let place: (u64, u64, u64) = match read_place(reader) {
            Ok(v) => v,
            Err(e) => {
                return Err(e);
            },
        };
        let look: (u8, u8) = match read_look(reader) {
            Ok(v) => v,
            Err(e) => {
                return Err(e);
            },
        };
        let on_ground: bool = match reader.read_bool() {
            Ok(v) => v,
            Err(e) => {
                return Err(e);
            },
        };
        Ok(
            McPacket::EntityTeleport {
                eid,
                x_bits: place.0,
                y_bits: place.1,
                z_bits: place.2,
                yaw: look.0,
                pitch: look.1,
                on_ground,
            },
        )
    }

    /// Decodes a packet.
    pub fn decode(data: &Vec<u8>) -> (r: Result<McPacket, BufError>)
        ensures
            match r {
                Ok(packet) => spec_decode(data@) == Ok::<McPacketView, BufError>(packet@),
                Err(e) => spec_decode(data@) == Err::<McPacketView, BufError>(e),
            },
    {
        let mut reader = BufReader::new(data.clone());
        let id: u8 = match reader.read_u8() {
            Ok(id) => id,
            Err(e) => {
                return Err(e);
            },
        };
        if id == 0x05 {
            McPacket::decode_spawn_player(&mut reader)
        } else if id == 0x0f {
            McPacket::decode_chat(&mut reader)
        } else if id == 0x20 {
            McPacket::decode_chunk_data(&mut reader)
        } else if id == 0x26 {
            McPacket::decode_relative_move(&mut reader)
        } else if id == 0x27 {
            McPacket::decode_look_and_relative_move(&mut reader)
        } else if id == 0x4c {
            McPacket::decode_teleport(&mut reader)
        } else {
            Ok(McPacket::Unimplemented)
        }
    }
}

} // verus!
