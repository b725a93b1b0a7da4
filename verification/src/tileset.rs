//! Types for tileset data.
use crate::ase::AseId;
use crate::image::Image;
use vstd::prelude::*;

verus! {

/// Identifier for a [Tileset] within a sprite file.
#[derive(Debug, Clone, Copy, PartialEq, Eq, Hash, Structural)]
pub struct TilesetId(pub u32);

impl TilesetId {
    /// Creates a new [TilesetId] from an inner u32 value.
    pub fn new(inner: u32) -> (id: Self)
        ensures
            id.0 == inner,
    {
        Self(inner)
    }

    /// Returns a reference to the id's inner u32 value.
    pub fn inner(&self) -> (inner: &u32)
        ensures
            *inner == self.0,
    {
        &self.0
    }
}

/// Unique identifier for a [Tileset] with an [AseId] and a [TilesetId].
#[derive(Debug, Clone, Copy, PartialEq, Eq, Hash, Structural)]
pub struct TilesetAseKey {
    pub ase_id: AseId,
    pub tileset_id: TilesetId,
}

impl TilesetAseKey {
    /// Creates a new [TilesetAseKey] from an [AseId] and a [TilesetId].
    pub fn new(ase_id: AseId, tileset_id: TilesetId) -> (key: Self)
        ensures
            key.ase_id == ase_id,
            key.tileset_id == tileset_id,
    {
        Self { ase_id, tileset_id }
    }

    /// Returns a reference to the key's [AseId].
    pub fn ase_id(&self) -> (id: &AseId)
        ensures
            *id == self.ase_id,
    {
        &self.ase_id
    }

    /// Returns a reference to the key's [TilesetId].
    pub fn tileset_id(&self) -> (id: &TilesetId)
        ensures
            *id == self.tileset_id,
    {
        &self.tileset_id
    }
}

/// Why a tileset of a sprite file could not be read.
#[derive(Debug, Clone, Copy, PartialEq, Eq, Structural)]
pub enum TilesetError {
    /// The tileset with this id has no pixel data of the size that its tile
    /// geometry asks for.
    NoPixels(TilesetId),
}

/// Width and height of a tile in pixels.
#[derive(Debug, Clone, Copy, PartialEq, Eq, Structural)]
pub struct TileSize {
    /// Width of a tile in pixels.
    pub width: u16,
    /// Height of a tile in pixels.
    pub height: u16,
}

/// Width and height, in pixels, of the texture that holds `tile_count` tiles
/// of size `tile_size` in one vertical strip.
pub open spec fn strip_size(tile_size: TileSize, tile_count: u32) -> (int, int) {
    (tile_size.width as int, tile_size.height * tile_count)
}

/// A tileset as it comes out of a sprite file, with its texture.
pub struct TilesetData {
    pub id: TilesetId,
    pub tile_count: u32,
    pub tile_size: TileSize,
    pub name: String,
    pub texture: Image,
}

impl TilesetData {
    /// The texture is the vertical strip of all tiles.
    pub open spec fn wf(&self) -> bool {
        &&& self.texture.wf()
        &&& self.texture.width == strip_size(self.tile_size, self.tile_count).0
        &&& self.texture.height == strip_size(self.tile_size, self.tile_count).1
    }
}

/// Data of a tileset. Its texture lives in the image store, under `texture`.
#[derive(Debug, Clone, PartialEq, Eq)]
pub struct Tileset {
    /// A unique identifier for this tileset.
    pub key: TilesetAseKey,
    /// Number of tiles in this tilset.
    pub tile_count: u32,
    /// Pixel size of this tileset's tiles.
    pub tile_size: TileSize,
    /// Name of this tileset.
    pub name: String,
    /// Identifier of the tileset's texture in the image store.
    pub texture: String,
}

/// A [Tileset] as a mathematical value.
pub struct TilesetView {
    pub key: TilesetAseKey,
    pub tile_count: u32,
    pub tile_size: TileSize,
    pub name: Seq<char>,
    pub texture: Seq<char>,
}

impl View for Tileset {
    type V = TilesetView;

    open spec fn view(&self) -> TilesetView {
        TilesetView {
            key: self.key,
            tile_count: self.tile_count,
            tile_size: self.tile_size,
            name: self.name@,
            texture: self.texture@,
        }
    }
}

impl Tileset {
    /// Returns the size of the [Tileset]'s texture.
    /// This has width = tile_size.width and height = tile_size.height * tile_count
    /// (e.g. all tiles are stored in a vertical strip).
    pub fn texture_size(&self) -> (size: (u32, u64))
        ensures
            size.0 == strip_size(self.tile_size, self.tile_count).0,
            size.1 == strip_size(self.tile_size, self.tile_count).1,
    {
        let height: u64 = self.tile_size.height as u64;
        let count: u64 = self.tile_count as u64;
        assert(0 <= height * count <= 0xffff * 0xffff_ffff) by (nonlinear_arith)
            requires
                0 <= height <= 0xffff,
                0 <= count <= 0xffff_ffff,
        ;
        (self.tile_size.width as u32, height * count)
    }
}

} // verus!
