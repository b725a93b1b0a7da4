//! Index of the resources created from sprite files.
//!
//! Animations and slices are keyed by their name. If a file has more than one
//! animation or slice with the same name, only the one declared last is kept
//! in the index. Tilesets are keyed by their id, frame images by the index of
//! their frame.
use crate::assets::viewed;
use crate::name_map::NameMap;
use std::collections::HashMap;
use vstd::prelude::*;

verus! {

broadcast use vstd::std_specs::hash::group_hash_axioms;

/// Provides a map to the handles of one sprite file's resources.
///
/// Instances of this type are owned by [AseFileMap], which indexes them by
/// the file's path.
pub struct AseAssetMap {
    pub animations: NameMap<String>,
    pub slices: NameMap<String>,
    pub tilesets: HashMap<u32, String>,
    pub textures: HashMap<u32, String>,
    pub atlas: Option<String>,
}

/// An [AseAssetMap] as a mathematical value: each handle by its characters.
pub struct AseAssetMapView {
    pub animations: Map<Seq<char>, Seq<char>>,
    pub slices: Map<Seq<char>, Seq<char>>,
    pub tilesets: Map<u32, Seq<char>>,
    pub textures: Map<u32, Seq<char>>,
    pub atlas: Option<Seq<char>>,
}

impl View for AseAssetMap {
    type V = AseAssetMapView;

    open spec fn view(&self) -> AseAssetMapView {
        AseAssetMapView {
            animations: viewed(self.animations@),
            slices: viewed(self.slices@),
            tilesets: viewed(self.tilesets@),
            textures: viewed(self.textures@),
            atlas: match self.atlas {
                Some(h) => Some(h@),
                None => None,
            },
        }
    }
}

/// The asset map of a file of which nothing is known.
pub open spec fn empty_asset_map() -> AseAssetMapView {
    AseAssetMapView {
        animations: Map::empty(),
        slices: Map::empty(),
        tilesets: Map::empty(),
        textures: Map::empty(),
        atlas: None,
    }
}

impl AseAssetMap {
    /// Creates the map of a file of which nothing is known yet.
    pub fn new() -> (m: Self)
        ensures
            m.animations@ == Map::<Seq<char>, String>::empty(),
            m.slices@ == Map::<Seq<char>, String>::empty(),
            m.tilesets@ == Map::<u32, String>::empty(),
            m.textures@ == Map::<u32, String>::empty(),
            m.atlas is None,
            m@ == empty_asset_map(),
    {
        let m = AseAssetMap {
            animations: NameMap::new(),
            slices: NameMap::new(),
            tilesets: HashMap::new(),
            textures: HashMap::new(),
            atlas: None,
        };
        assert(m@.animations =~= Map::empty());
        assert(m@.slices =~= Map::empty());
        assert(m@.tilesets =~= Map::empty());
        assert(m@.textures =~= Map::empty());
        m
    }

    /// Returns the animation with the given tag name.
    pub fn animation(&self, tag_name: &str) -> (r: Option<&String>)
        ensures
            match r {
                Some(h) => self.animations@.contains_key(tag_name@) && *h
                    == self.animations@[tag_name@],
                None => !self.animations@.contains_key(tag_name@),
            },
    {
        self.animations.get(tag_name)
    }

    /// Returns the slice with the given name.
    pub fn slice(&self, slice_name: &str) -> (r: Option<&String>)
        ensures
            match r {
                Some(h) => self.slices@.contains_key(slice_name@) && *h == self.slices@[slice_name@],
                None => !self.slices@.contains_key(slice_name@),
            },
    {
        self.slices.get(slice_name)
    }

    /// Returns the tileset with the given id.
    pub fn tileset(&self, tileset_id: u32) -> (r: Option<&String>)
        ensures
            match r {
                Some(h) => self.tilesets@.contains_key(tileset_id) && *h
                    == self.tilesets@[tileset_id],
                None => !self.tilesets@.contains_key(tileset_id),
            },
    {
        self.tilesets.get(&tileset_id)
    }

    /// Returns the texture for the given frame index.
    pub fn texture(&self, frame_index: u32) -> (r: Option<&String>)
        ensures
            match r {
                Some(h) => self.textures@.contains_key(frame_index) && *h
                    == self.textures@[frame_index],
                None => !self.textures@.contains_key(frame_index),
            },
    {
        self.textures.get(&frame_index)
    }

    /// Returns the texture atlas for the file, once it has one.
    pub fn atlas(&self) -> (r: Option<&String>)
        ensures
            match r {
                Some(h) => self.atlas == Some(*h),
                None => self.atlas is None,
            },
    {
        self.atlas.as_ref()
    }

    /// Registers the animation of a tag. An animation registered before under
    /// the same tag name is replaced.
    pub fn insert_animation(&mut self, tag_name: String, handle: String)
        ensures
            final(self).animations@ == old(self).animations@.insert(tag_name@, handle),
            final(self).slices == old(self).slices,
            final(self).tilesets == old(self).tilesets,
            final(self).textures == old(self).textures,
            final(self).atlas == old(self).atlas,
    {
        self.animations.insert(tag_name, handle);
    }

    /// Registers a tileset under its id.
    pub fn insert_tileset(&mut self, tileset_id: u32, handle: String)
        ensures
            final(self).tilesets@ == old(self).tilesets@.insert(tileset_id, handle),
            final(self).animations == old(self).animations,
            final(self).slices == old(self).slices,
            final(self).textures == old(self).textures,
            final(self).atlas == old(self).atlas,
    {
        self.tilesets.insert(tileset_id, handle);
    }

    /// Registers a slice. A slice registered before under the same name is
    /// replaced.
    pub fn insert_slice(&mut self, slice_name: String, handle: String)
        ensures
            final(self).slices@ == old(self).slices@.insert(slice_name@, handle),
            final(self).animations == old(self).animations,
            final(self).tilesets == old(self).tilesets,
            final(self).textures == old(self).textures,
            final(self).atlas == old(self).atlas,
    {
        self.slices.insert(slice_name, handle);
    }

    /// Registers the image of a frame under the frame's index.
    pub fn insert_texture(&mut self, frame_index: u32, handle: String)
        ensures
            final(self).textures@ == old(self).textures@.insert(frame_index, handle),
            final(self).animations == old(self).animations,
            final(self).slices == old(self).slices,
            final(self).tilesets == old(self).tilesets,
            final(self).atlas == old(self).atlas,
    {
        self.textures.insert(frame_index, handle);
    }

    /// Registers the file's texture atlas.
    pub fn insert_atlas(&mut self, handle: String)
        ensures
            final(self).atlas == Some(handle),
            final(self).animations == old(self).animations,
            final(self).slices == old(self).slices,
            final(self).tilesets == old(self).tilesets,
            final(self).textures == old(self).textures,
    {
        self.atlas = Some(handle);
    }
}

/// Provides map access to the handles of all sprite files' resources, keyed
/// by the file's path.
pub struct AseFileMap(pub NameMap<AseAssetMap>);

impl AseFileMap {
    /// Creates an index without files.
    pub fn new() -> (m: Self)
        ensures
            m.0@ == Map::<Seq<char>, AseAssetMap>::empty(),
    {
        AseFileMap(NameMap::new())
    }

    /// What the index knows of the file at `path`: its asset map, or the
    /// empty one for a file that the index does not have.
    pub open spec fn entry(&self, path: Seq<char>) -> AseAssetMapView {
        if self.0@.contains_key(path) {
            self.0@[path]@
        } else {
            empty_asset_map()
        }
    }

    /// Returns the asset map for the file with the given path.
    pub fn get(&self, path: &str) -> (r: Option<&AseAssetMap>)
        ensures
            match r {
                Some(m) => self.0@.contains_key(path@) && *m == self.0@[path@],
                None => !self.0@.contains_key(path@),
            },
    {
        self.0.get(path)
    }

    /// Takes the asset map of the file out of the index, leaving an empty
    /// one; a file that the index does not know yet has an empty one.
    pub fn take(&mut self, path: &str) -> (m: AseAssetMap)
        ensures
            final(self).0@.dom() == old(self).0@.dom().insert(path@),
            forall|p: Seq<char>|
                p != path@ && old(self).0@.contains_key(p) ==> final(self).0@[p] == old(self).0@[p],
            old(self).0@.contains_key(path@) ==> m == old(self).0@[path@],
            !old(self).0@.contains_key(path@) ==> m@ == empty_asset_map(),
            m@ == old(self).entry(path@),
            final(self).0@[path@]@ == empty_asset_map(),
    {
        let key = path.to_owned();
        match self.0.insert(key, AseAssetMap::new()) {
            Some(m) => m,
            None => AseAssetMap::new(),
        }
    }

    /// Puts the asset map of the file with the given path into the index.
    pub fn put(&mut self, path: &str, assets: AseAssetMap)
        ensures
            final(self).0@ == old(self).0@.insert(path@, assets),
    {
        let key = path.to_owned();
        self.0.insert(key, assets);
    }

    /// Returns the animation in a sprite file with the given tag name.
    pub fn animation(&self, path: &str, tag_name: &str) -> (r: Option<String>)
        ensures
            match r {
                Some(h) => {
                    &&& self.0@.contains_key(path@)
                    &&& self.0@[path@].animations@.contains_key(tag_name@)
                    &&& h@ == self.0@[path@].animations@[tag_name@]@
                },
                None => !self.0@.contains_key(path@) || !self.0@[path@].animations@.contains_key(
                    tag_name@,
                ),
            },
    {
        match self.get(path) {
            Some(m) => match m.animation(tag_name) {
                Some(h) => Some(h.clone()),
                None => None,
            },
            None => None,
        }
    }

    /// Returns the slice in a sprite file with the given name.
    pub fn slice(&self, path: &str, slice_name: &str) -> (r: Option<String>)
        ensures
            match r {
                Some(h) => {
                    &&& self.0@.contains_key(path@)
                    &&& self.0@[path@].slices@.contains_key(slice_name@)
                    &&& h@ == self.0@[path@].slices@[slice_name@]@
                },
                None => !self.0@.contains_key(path@) || !self.0@[path@].slices@.contains_key(
                    slice_name@,
                ),
            },
    {
        match self.get(path) {
            Some(m) => match m.slice(slice_name) {
                Some(h) => Some(h.clone()),
                None => None,
            },
            None => None,
        }
    }

    /// Returns the tileset in a sprite file with the given id.
    pub fn tileset(&self, path: &str, tileset_id: u32) -> (r: Option<String>)
        ensures
            match r {
                Some(h) => {
                    &&& self.0@.contains_key(path@)
                    &&& self.0@[path@].tilesets@.contains_key(tileset_id)
                    &&& h@ == self.0@[path@].tilesets@[tileset_id]@
                },
                None => !self.0@.contains_key(path@) || !self.0@[path@].tilesets@.contains_key(
                    tileset_id,
                ),
            },
    {
        match self.get(path) {
            Some(m) => match m.tileset(tileset_id) {
                Some(h) => Some(h.clone()),
                None => None,
            },
            None => None,
        }
    }

    /// Returns the image of the frame of a sprite file with the given index.
    pub fn texture(&self, path: &str, frame_index: u32) -> (r: Option<String>)
        ensures
            match r {
                Some(h) => {
                    &&& self.0@.contains_key(path@)
                    &&& self.0@[path@].textures@.contains_key(frame_index)
                    &&& h@ == self.0@[path@].textures@[frame_index]@
                },
                None => !self.0@.contains_key(path@) || !self.0@[path@].textures@.contains_key(
                    frame_index,
                ),
            },
    {
        match self.get(path) {
            Some(m) => match m.texture(frame_index) {
                Some(h) => Some(h.clone()),
                None => None,
            },
            None => None,
        }
    }
}

} // verus!
