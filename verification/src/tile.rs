//! The tile: its geometry, its byte layout and its accessors.

use crate::keys::{keys_valid, spec_get, KeySeq, KeyTable};
use vstd::prelude::*;

pub use crate::codec::{read_tile, write_tile};
pub use crate::tile_path::{get_contrib_from_tile_path, get_xz_from_tile_path};

verus! {

pub const COLUMN_BYTES_OLD: usize = 17;

pub const COLUMN_BYTES_MODERN: usize = 18;

pub const TILE_WIDTH: usize = 256;

pub const TILE_HEIGHT: usize = 256;

pub const TILE_COLUMNS: usize = 65536;

pub const CHUNK_WIDTH: usize = 16;

pub const CHUNK_HEIGHT: usize = 16;

pub const CHUNK_COLUMNS: usize = 256;

pub const TILE_CHUNKS: usize = 256;

/// Number of bytes of a tile in the layer-major layout.
pub const TILE_BYTES: usize = 1179648;

// The layers of a column. A `u16` takes the layer named and the next one,
// its high byte first.
pub const HEIGHTPOS: usize = 0;

pub const BLOCKSTATEPOS: usize = 1;

pub const LIGHTPOS: usize = 3;

pub const OCEANFLOORHEIGHTPOS: usize = 4;

pub const OCEANFLOORBLOCKSTATEPOS: usize = 5;

pub const OCEANFLOORLIGHTPOS: usize = 7;

pub const TRANSPARENTHEIGHTPOS: usize = 8;

pub const TRANSPARENTBLOCKSTATEPOS: usize = 9;

pub const TRANSPARENTLIGHTPOS: usize = 11;

pub const FOLIAGEHEIGHTPOS: usize = 12;

pub const FOLIAGEBLOCKSTATEPOS: usize = 13;

pub const FOLIAGELIGHTPOS: usize = 15;

pub const BIOMEIDPOS: usize = 16;

pub type TilePos = (i32, i32);

/// The column at `(x, z)` of a tile, rows of `TILE_WIDTH` columns.
pub open spec fn spec_column_nr_of_pos(x: int, z: int) -> int {
    x + z * 256
}

/// The first (north-west) column of chunk `chunk_nr`, chunks counted row by
/// row, sixteen to a row.
pub open spec fn spec_first_column_nr_of_chunk_nr(chunk_nr: int) -> int {
    (chunk_nr % 16) * 16 + (chunk_nr / 16) * 4096
}

/// The chunk that column `column_nr` lies in.
pub open spec fn spec_chunk_of_column(column_nr: int) -> int {
    (column_nr / 4096) * 16 + (column_nr % 256) / 16
}

/// The byte of layer `layer` of column `column_nr`: the layers stand one
/// after the other, each with all the columns of the tile.
pub open spec fn spec_get_u8(data: Seq<u8>, column_nr: int, layer: int) -> u8 {
    data[column_nr + 65536 * layer]
}

/// The number whose high byte is in layer `layer` and whose low byte is in
/// the layer after it.
pub open spec fn spec_get_u16(data: Seq<u8>, column_nr: int, layer: int) -> u16 {
    (data[column_nr + 65536 * layer] * 256 + data[column_nr + 65536 * (layer + 1)]) as u16
}

pub open spec fn spec_set_u8(data: Seq<u8>, column_nr: int, layer: int, value: u8) -> Seq<u8> {
    data.update(column_nr + 65536 * layer, value)
}

pub open spec fn spec_set_u16(data: Seq<u8>, column_nr: int, layer: int, value: u16) -> Seq<u8> {
    data.update(column_nr + 65536 * layer, (value / 256) as u8).update(
        column_nr + 65536 * (layer + 1),
        (value % 256) as u8,
    )
}

/// A column that nothing was recorded for: no height, no biome, no block.
pub open spec fn spec_is_col_empty(data: Seq<u8>, column_nr: int) -> bool {
    &&& spec_get_u8(data, column_nr, HEIGHTPOS as int) == 0
    &&& spec_get_u16(data, column_nr, BIOMEIDPOS as int) == 0
    &&& spec_get_u16(data, column_nr, BLOCKSTATEPOS as int) == 0
}

/// The name of the air block.
pub open spec fn air_name() -> Seq<char> {
    "minecraft:air"@
}

/// A chunk counts as empty by its first column alone: that column has no
/// height, and its block is none or air. The other columns of the chunk are
/// not looked at, so a chunk recorded in part may count as empty.
pub open spec fn spec_is_chunk_empty(data: Seq<u8>, keys: KeySeq, chunk_nr: int) -> bool {
    let column_nr = spec_first_column_nr_of_chunk_nr(chunk_nr);
    let block = spec_get_u16(data, column_nr, BLOCKSTATEPOS as int);
    &&& spec_get_u8(data, column_nr, HEIGHTPOS as int) == 0
    &&& (block == 0 || spec_get(keys, air_name()) == Some(block))
}

/// The number of the column at `(x, z)` of a tile.
pub fn column_nr_of_pos(x: usize, z: usize) -> (column_nr: usize)
    requires
        x < TILE_WIDTH,
        z < TILE_HEIGHT,
    ensures
        column_nr == spec_column_nr_of_pos(x as int, z as int),
        column_nr < TILE_COLUMNS,
{
    x + z * TILE_WIDTH
}

/// The number of the first column of a chunk.
pub fn first_column_nr_of_chunk_nr(chunk_nr: usize) -> (column_nr: usize)
    requires
        chunk_nr < TILE_CHUNKS,
    ensures
        column_nr == spec_first_column_nr_of_chunk_nr(chunk_nr as int),
        column_nr + 15 * TILE_WIDTH + 15 < TILE_COLUMNS,
{
    let chunk_x: usize = chunk_nr % 16;
    let chunk_z: usize = chunk_nr / 16;
    chunk_x * CHUNK_WIDTH + chunk_z * (TILE_WIDTH * CHUNK_HEIGHT)
}

/// Whether the tile at `(tile_x, tile_z)` reaches into the box
/// `bounds = [w, n, e, s]` of world coordinates: the tile covers
/// `TILE_WIDTH` columns from `tile_x * TILE_WIDTH` eastwards and as many
/// rows from `tile_z * TILE_HEIGHT` southwards.
pub open spec fn spec_is_tile_pos_in_bounds(pos: TilePos, bounds: Seq<i32>) -> bool {
    let x = pos.0 * 256;
    let z = pos.1 * 256;
    x + 256 > bounds[0] && x < bounds[2] && z + 256 > bounds[1] && z < bounds[3]
}

/// Whether a tile reaches into the bounds `[w, n, e, s]`.
pub fn is_tile_pos_in_bounds(pos: TilePos, bounds: &Vec<i32>) -> (inside: bool)
    requires
        bounds@.len() >= 4,
    ensures
        inside == spec_is_tile_pos_in_bounds(pos, bounds@),
{
    let x: i64 = pos.0 as i64 * 256;
    let z: i64 = pos.1 as i64 * 256;
    let w: i64 = bounds[0] as i64;
    let n: i64 = bounds[1] as i64;
    let e: i64 = bounds[2] as i64;
    let s: i64 = bounds[3] as i64;
    x + 256 > w && x < e && z + 256 > n && z < s
}

/// What a tile holds.
pub struct TileView {
    /// The columns, layer by layer.
    pub data: Seq<u8>,
    /// The names of the blocks with their ids.
    pub keys: KeySeq,
    /// The names by id, where they were derived; empty otherwise.
    pub names: Seq<Seq<char>>,
    /// The place of the tile in the world, where it is known.
    pub pos: Option<TilePos>,
    /// The name of the file that the tile was read from.
    pub source: Option<Seq<char>>,
}

impl TileView {
    pub open spec fn with_data(self, data: Seq<u8>) -> TileView {
        TileView { data, ..self }
    }

    pub open spec fn with_keys(self, keys: KeySeq) -> TileView {
        TileView { keys, ..self }
    }
}

/// One tile of the map: 256 x 256 columns in the layer-major layout, with
/// the key table that its block ids refer to.
pub struct Tile {
    data: Vec<u8>,
    keys: KeyTable,
    names: Vec<String>,
    pos: Option<TilePos>,
    source: Option<String>,
}

impl View for Tile {
    type V = TileView;

    closed spec fn view(&self) -> TileView {
        TileView {
            data: self.data@,
            keys: self.keys@,
            names: Seq::new(self.names@.len(), |i: int| self.names@[i]@),
            pos: self.pos,
            source: match self.source {
                Some(s) => Some(s@),
                None => None,
            },
        }
    }
}

impl Tile {
    /// Validity of a tile: it has all its bytes, and its key table is valid.
    pub open spec fn wf(&self) -> bool {
        &&& self@.data.len() == TILE_BYTES
        &&& keys_valid(self@.keys)
    }

    /// A tile that nothing was recorded in: every byte 0, no block names.
    pub fn new() -> (tile: Tile)
        ensures
            tile.wf(),
            tile@.data == Seq::new(TILE_BYTES as nat, |i: int| 0u8),
            tile@.keys.len() == 0,
            tile@.names.len() == 0,
            tile@.pos is None,
            tile@.source is None,
    {
        let data: Vec<u8> = vec![0u8; TILE_BYTES];
        let tile = Tile { data, keys: KeyTable::new(), names: Vec::new(), pos: None, source: None };
        assert(tile@.data =~= Seq::new(TILE_BYTES as nat, |i: int| 0u8));
        tile
    }

    /// The tile made of the given parts, unless `data` has not the length of
    /// a tile.
    pub fn from_parts(
        data: Vec<u8>,
        keys: KeyTable,
        names: Vec<String>,
        pos: Option<TilePos>,
        source: Option<String>,
    ) -> (r: Option<Tile>)
        requires
            keys.wf(),
        ensures
            r is Some <==> data@.len() == TILE_BYTES,
            r matches Some(tile) ==> {
                &&& tile.wf()
                &&& tile@.data == data@
                &&& tile@.keys == keys@
                &&& tile@.names == Seq::new(names@.len(), |i: int| names@[i]@)
                &&& tile@.pos == pos
                &&& tile@.source == match source {
                    Some(s) => Some(s@),
                    None => None,
                }
            },
    {
        if data.len() != TILE_BYTES {
            None
        } else {
            Some(Tile { data, keys, names, pos, source })
        }
    }

    /// The parts of the tile: bytes, key table, names, place and source.
    pub fn into_parts(self) -> (r: (Vec<u8>, KeyTable, Vec<String>, Option<TilePos>, Option<String>))
        requires
            self.wf(),
        ensures
            r.0@ == self@.data,
            r.1@ == self@.keys,
            r.1.wf(),
            Seq::new(r.2@.len(), |i: int| r.2@[i]@) == self@.names,
            r.3 == self@.pos,
            self@.source == match r.4 {
                Some(s) => Some(s@),
                None => None,
            },
    {
        (self.data, self.keys, self.names, self.pos, self.source)
    }

    /// The bytes of the tile, layer by layer.
    pub fn data(&self) -> (data: &Vec<u8>)
        ensures
            data@ == self@.data,
    {
        &self.data
    }

    /// The key table of the tile.
    pub fn keys(&self) -> (keys: &KeyTable)
        ensures
            keys@ == self@.keys,
    {
        &self.keys
    }

    /// The names by id, where they were derived.
    pub fn names(&self) -> (names: &Vec<String>)
        ensures
            Seq::new(names@.len(), |i: int| names@[i]@) == self@.names,
    {
        &self.names
    }

    /// The place of the tile in the world, where it is known.
    pub fn pos(&self) -> (pos: Option<TilePos>)
        ensures
            pos == self@.pos,
    {
        self.pos
    }

    /// The name of the file that the tile was read from.
    pub fn source(&self) -> (source: &Option<String>)
        ensures
            self@.source == match *source {
                Some(s) => Some(s@),
                None => None,
            },
    {
        &self.source
    }

    /// Takes the key table out of the tile and leaves an empty one.
    pub(crate) fn take_keys(&mut self) -> (keys: KeyTable)
        requires
            old(self).wf(),
        ensures
            keys@ == old(self)@.keys,
            keys.wf(),
            final(self).wf(),
            final(self)@ == old(self)@.with_keys(Seq::empty()),
    {
        let mut keys = KeyTable::new();
        std::mem::swap(&mut self.keys, &mut keys);
        keys
    }

    /// Puts `keys` in place of the tile's key table.
    pub(crate) fn put_keys(&mut self, keys: KeyTable)
        requires
            old(self).wf(),
            keys.wf(),
        ensures
            final(self).wf(),
            final(self)@ == old(self)@.with_keys(keys@),
    {
        self.keys = keys;
    }

    /// Whether the record has nothing for a chunk, judged by the chunk's
    /// first column.
    pub fn is_chunk_empty(&self, chunk_nr: usize) -> (empty: bool)
        requires
            self.wf(),
            chunk_nr < TILE_CHUNKS,
        ensures
            empty == spec_is_chunk_empty(self@.data, self@.keys, chunk_nr as int),
    {
        let column_nr: usize = first_column_nr_of_chunk_nr(chunk_nr);
        if self.get_height(column_nr) != 0 {
            return false;
        }
        let block: u16 = self.get_blockstate(column_nr);
        if block == 0 {
            return true;
        }
        match self.keys.get("minecraft:air") {
            Some(air) => air == block,
            None => false,
        }
    }

    /// Whether nothing is recorded for a column.
    pub fn is_col_empty(&self, column_nr: usize) -> (empty: bool)
        requires
            self.wf(),
            column_nr < TILE_COLUMNS,
        ensures
            empty == spec_is_col_empty(self@.data, column_nr as int),
    {
        self.get_height(column_nr) == 0 && self.get_biome_id(column_nr) == 0
            && self.get_blockstate(column_nr) == 0
    }

    /// The surface height of column `column_nr`.
    pub fn get_height(&self, column_nr: usize) -> (value: u8)
        requires
            self.wf(),
            column_nr < TILE_COLUMNS,
        ensures
            value == spec_get_u8(self@.data, column_nr as int, HEIGHTPOS as int),
    {
        self.get_u8(column_nr, HEIGHTPOS)
    }

    /// The surface block id of column `column_nr`.
    pub fn get_blockstate(&self, column_nr: usize) -> (value: u16)
        requires
            self.wf(),
            column_nr < TILE_COLUMNS,
        ensures
            value == spec_get_u16(self@.data, column_nr as int, BLOCKSTATEPOS as int),
    {
        self.get_u16(column_nr, BLOCKSTATEPOS)
    }

    /// The surface light of column `column_nr`.
    pub fn get_light(&self, column_nr: usize) -> (value: u8)
        requires
            self.wf(),
            column_nr < TILE_COLUMNS,
        ensures
            value == spec_get_u8(self@.data, column_nr as int, LIGHTPOS as int),
    {
        self.get_u8(column_nr, LIGHTPOS)
    }

    /// The ocean floor height of column `column_nr`.
    pub fn get_ocean_floor_height(&self, column_nr: usize) -> (value: u8)
        requires
            self.wf(),
            column_nr < TILE_COLUMNS,
        ensures
            value == spec_get_u8(self@.data, column_nr as int, OCEANFLOORHEIGHTPOS as int),
    {
        self.get_u8(column_nr, OCEANFLOORHEIGHTPOS)
    }

    /// The ocean floor block id of column `column_nr`.
    pub fn get_ocean_floor_blockstate(&self, column_nr: usize) -> (value: u16)
        requires
            self.wf(),
            column_nr < TILE_COLUMNS,
        ensures
            value == spec_get_u16(self@.data, column_nr as int, OCEANFLOORBLOCKSTATEPOS as int),
    {
        self.get_u16(column_nr, OCEANFLOORBLOCKSTATEPOS)
    }

    /// The ocean floor light of column `column_nr`.
    pub fn get_ocean_floor_light(&self, column_nr: usize) -> (value: u8)
        requires
            self.wf(),
            column_nr < TILE_COLUMNS,
        ensures
            value == spec_get_u8(self@.data, column_nr as int, OCEANFLOORLIGHTPOS as int),
    {
        self.get_u8(column_nr, OCEANFLOORLIGHTPOS)
    }

    /// The height of the transparent layer of column `column_nr`.
    pub fn get_transparent_height(&self, column_nr: usize) -> (value: u8)
        requires
            self.wf(),
            column_nr < TILE_COLUMNS,
        ensures
            value == spec_get_u8(self@.data, column_nr as int, TRANSPARENTHEIGHTPOS as int),
    {
        self.get_u8(column_nr, TRANSPARENTHEIGHTPOS)
    }

    /// The block id of the transparent layer of column `column_nr`.
    pub fn get_transparent_blockstate(&self, column_nr: usize) -> (value: u16)
        requires
            self.wf(),
            column_nr < TILE_COLUMNS,
        ensures
            value == spec_get_u16(self@.data, column_nr as int, TRANSPARENTBLOCKSTATEPOS as int),
    {
        self.get_u16(column_nr, TRANSPARENTBLOCKSTATEPOS)
    }

    /// The light of the transparent layer of column `column_nr`.
    pub fn get_transparent_light(&self, column_nr: usize) -> (value: u8)
        requires
            self.wf(),
            column_nr < TILE_COLUMNS,
        ensures
            value == spec_get_u8(self@.data, column_nr as int, TRANSPARENTLIGHTPOS as int),
    {
        self.get_u8(column_nr, TRANSPARENTLIGHTPOS)
    }

    /// The foliage height of column `column_nr`.
    pub fn get_foliage_height(&self, column_nr: usize) -> (value: u8)
        requires
            self.wf(),
            column_nr < TILE_COLUMNS,
        ensures
            value == spec_get_u8(self@.data, column_nr as int, FOLIAGEHEIGHTPOS as int),
    {
        self.get_u8(column_nr, FOLIAGEHEIGHTPOS)
    }

    /// The foliage block id of column `column_nr`.
    pub fn get_foliage_blockstate(&self, column_nr: usize) -> (value: u16)
        requires
            self.wf(),
            column_nr < TILE_COLUMNS,
        ensures
            value == spec_get_u16(self@.data, column_nr as int, FOLIAGEBLOCKSTATEPOS as int),
    {
        self.get_u16(column_nr, FOLIAGEBLOCKSTATEPOS)
    }

    /// The foliage light of column `column_nr`.
    pub fn get_foliage_light(&self, column_nr: usize) -> (value: u8)
        requires
            self.wf(),
            column_nr < TILE_COLUMNS,
        ensures
            value == spec_get_u8(self@.data, column_nr as int, FOLIAGELIGHTPOS as int),
    {
        self.get_u8(column_nr, FOLIAGELIGHTPOS)
    }

    /// The biome id of column `column_nr`.
    pub fn get_biome_id(&self, column_nr: usize) -> (value: u16)
        requires
            self.wf(),
            column_nr < TILE_COLUMNS,
        ensures
            value == spec_get_u16(self@.data, column_nr as int, BIOMEIDPOS as int),
    {
        self.get_u16(column_nr, BIOMEIDPOS)
    }

    /// Sets the surface height of column `column_nr`.
    pub fn set_height(&mut self, column_nr: usize, value: u8)
        requires
            old(self).wf(),
            column_nr < TILE_COLUMNS,
        ensures
            final(self).wf(),
            final(self)@ == old(self)@.with_data(
                spec_set_u8(old(self)@.data, column_nr as int, HEIGHTPOS as int, value),
            ),
    {
        self.set_u8(column_nr, HEIGHTPOS, value);
    }

    /// Sets the surface block id of column `column_nr`.
    pub fn set_blockstate(&mut self, column_nr: usize, id: u16)
        requires
            old(self).wf(),
            column_nr < TILE_COLUMNS,
        ensures
            final(self).wf(),
            final(self)@ == old(self)@.with_data(
                spec_set_u16(old(self)@.data, column_nr as int, BLOCKSTATEPOS as int, id),
            ),
    {
        self.set_u16(column_nr, BLOCKSTATEPOS, id);
    }

    /// Sets the surface light of column `column_nr`.
    pub fn set_light(&mut self, column_nr: usize, value: u8)
        requires
            old(self).wf(),
            column_nr < TILE_COLUMNS,
        ensures
            final(self).wf(),
            final(self)@ == old(self)@.with_data(
                spec_set_u8(old(self)@.data, column_nr as int, LIGHTPOS as int, value),
            ),
    {
        self.set_u8(column_nr, LIGHTPOS, value);
    }

    /// Sets the ocean floor height of column `column_nr`.
    pub fn set_ocean_floor_height(&mut self, column_nr: usize, value: u8)
        requires
            old(self).wf(),
            column_nr < TILE_COLUMNS,
        ensures
            final(self).wf(),
            final(self)@ == old(self)@.with_data(
                spec_set_u8(old(self)@.data, column_nr as int, OCEANFLOORHEIGHTPOS as int, value),
            ),
    {
        self.set_u8(column_nr, OCEANFLOORHEIGHTPOS, value);
    }

    /// Sets the ocean floor block id of column `column_nr`.
    pub fn set_ocean_floor_blockstate(&mut self, column_nr: usize, id: u16)
        requires
            old(self).wf(),
            column_nr < TILE_COLUMNS,
        ensures
            final(self).wf(),
            final(self)@ == old(self)@.with_data(
                spec_set_u16(old(self)@.data, column_nr as int, OCEANFLOORBLOCKSTATEPOS as int, id),
            ),
    {
        self.set_u16(column_nr, OCEANFLOORBLOCKSTATEPOS, id);
    }

    /// Sets the ocean floor light of column `column_nr`.
    pub fn set_ocean_floor_light(&mut self, column_nr: usize, value: u8)
        requires
            old(self).wf(),
            column_nr < TILE_COLUMNS,
        ensures
            final(self).wf(),
            final(self)@ == old(self)@.with_data(
                spec_set_u8(old(self)@.data, column_nr as int, OCEANFLOORLIGHTPOS as int, value),
            ),
    {
        self.set_u8(column_nr, OCEANFLOORLIGHTPOS, value);
    }

    /// Sets the height of the transparent layer of column `column_nr`.
    pub fn set_transparent_height(&mut self, column_nr: usize, value: u8)
        requires
            old(self).wf(),
            column_nr < TILE_COLUMNS,
        ensures
            final(self).wf(),
            final(self)@ == old(self)@.with_data(
                spec_set_u8(old(self)@.data, column_nr as int, TRANSPARENTHEIGHTPOS as int, value),
            ),
    {
        self.set_u8(column_nr, TRANSPARENTHEIGHTPOS, value);
    }

    /// Sets the block id of the transparent layer of column `column_nr`.
    pub fn set_transparent_blockstate(&mut self, column_nr: usize, id: u16)
        requires
            old(self).wf(),
            column_nr < TILE_COLUMNS,
        ensures
            final(self).wf(),
            final(self)@ == old(self)@.with_data(
                spec_set_u16(old(self)@.data, column_nr as int, TRANSPARENTBLOCKSTATEPOS as int, id),
            ),
    {
        self.set_u16(column_nr, TRANSPARENTBLOCKSTATEPOS, id);
    }

    /// Sets the light of the transparent layer of column `column_nr`.
    pub fn set_transparent_light(&mut self, column_nr: usize, value: u8)
        requires
            old(self).wf(),
            column_nr < TILE_COLUMNS,
        ensures
            final(self).wf(),
            final(self)@ == old(self)@.with_data(
                spec_set_u8(old(self)@.data, column_nr as int, TRANSPARENTLIGHTPOS as int, value),
            ),
    {
        self.set_u8(column_nr, TRANSPARENTLIGHTPOS, value);
    }

    /// Sets the foliage height of column `column_nr`.
    pub fn set_foliage_height(&mut self, column_nr: usize, value: u8)
        requires
            old(self).wf(),
            column_nr < TILE_COLUMNS,
        ensures
            final(self).wf(),
            final(self)@ == old(self)@.with_data(
                spec_set_u8(old(self)@.data, column_nr as int, FOLIAGEHEIGHTPOS as int, value),
            ),
    {
        self.set_u8(column_nr, FOLIAGEHEIGHTPOS, value);
    }

    /// Sets the foliage block id of column `column_nr`.
    pub fn set_foliage_blockstate(&mut self, column_nr: usize, id: u16)
        requires
            old(self).wf(),
            column_nr < TILE_COLUMNS,
        ensures
            final(self).wf(),
            final(self)@ == old(self)@.with_data(
                spec_set_u16(old(self)@.data, column_nr as int, FOLIAGEBLOCKSTATEPOS as int, id),
            ),
    {
        self.set_u16(column_nr, FOLIAGEBLOCKSTATEPOS, id);
    }

    /// Sets the foliage light of column `column_nr`.
    pub fn set_foliage_light(&mut self, column_nr: usize, value: u8)
        requires
            old(self).wf(),
            column_nr < TILE_COLUMNS,
        ensures
            final(self).wf(),
            final(self)@ == old(self)@.with_data(
                spec_set_u8(old(self)@.data, column_nr as int, FOLIAGELIGHTPOS as int, value),
            ),
    {
        self.set_u8(column_nr, FOLIAGELIGHTPOS, value);
    }

    /// Sets the biome id of column `column_nr`.
    pub fn set_biome_id(&mut self, column_nr: usize, value: u16)
        requires
            old(self).wf(),
            column_nr < TILE_COLUMNS,
        ensures
            final(self).wf(),
            final(self)@ == old(self)@.with_data(
                spec_set_u16(old(self)@.data, column_nr as int, BIOMEIDPOS as int, value),
            ),
    {
        self.set_u16(column_nr, BIOMEIDPOS, value);
    }

    pub(crate) fn get_u8(&self, column_nr: usize, layer_nr: usize) -> (value: u8)
        requires
            self.wf(),
            column_nr < TILE_COLUMNS,
            layer_nr < COLUMN_BYTES_MODERN,
        ensures
            value == spec_get_u8(self@.data, column_nr as int, layer_nr as int),
    {
        let index: usize = column_nr + TILE_COLUMNS * layer_nr;
        self.data[index]
    }

    pub(crate) fn get_u16(&self, column_nr: usize, layer_nr: usize) -> (value: u16)
        requires
            self.wf(),
            column_nr < TILE_COLUMNS,
            layer_nr + 1 < COLUMN_BYTES_MODERN,
        ensures
            value == spec_get_u16(self@.data, column_nr as int, layer_nr as int),
    {
        let index: usize = column_nr + TILE_COLUMNS * layer_nr;
        let high: u8 = self.data[index];
        let low: u8 = self.data[index + TILE_COLUMNS];
        assert((high as u16) << 8 | (low as u16) == high * 256 + low) by (bit_vector);
        (high as u16) << 8 | (low as u16)
    }

    pub(crate) fn set_u8(&mut self, column_nr: usize, layer_offset: usize, value: u8)
        requires
            old(self).wf(),
            column_nr < TILE_COLUMNS,
            layer_offset < COLUMN_BYTES_MODERN,
        ensures
            final(self).wf(),
            final(self)@ == old(self)@.with_data(
                spec_set_u8(old(self)@.data, column_nr as int, layer_offset as int, value),
            ),
    {
        let index: usize = column_nr + TILE_COLUMNS * layer_offset;
        self.data.set(index, value);
    }

    pub(crate) fn set_u16(&mut self, column_nr: usize, layer_offset: usize, value: u16)
        requires
            old(self).wf(),
            column_nr < TILE_COLUMNS,
            layer_offset + 1 < COLUMN_BYTES_MODERN,
        ensures
            final(self).wf(),
            final(self)@ == old(self)@.with_data(
                spec_set_u16(old(self)@.data, column_nr as int, layer_offset as int, value),
            ),
    {
        let index: usize = column_nr + TILE_COLUMNS * layer_offset;
        assert(value >> 8 == value / 256 && value & 0xff == value % 256) by (bit_vector);
        self.data.set(index, (value >> 8) as u8);
        self.data.set(index + TILE_COLUMNS, (value & 0xff) as u8);
    }
}

} // verus!
