//! Materialization: from the records of one sprite file to resources in the
//! stores, each registered in the index under the file's path.
use crate::animation::{Animation, AnimationData, AnimationView, Frame, Sprite, SpriteData};
use crate::ase::AseId;
use crate::asset_index::{AseAssetMap, AseAssetMapView, AseFileMap};
use crate::assets::{
    insert_all, lemma_insert_all_has_key, lemma_insert_all_keeps_keys, lemma_insert_all_push,
    lemma_insert_all_take, lemma_insert_all_value_origin, lemma_viewed_insert, viewed, Assets,
};
use crate::atlas::{TextureAtlas, TextureAtlasView};
use crate::handle_id;
use crate::handle_id::{decimal, id_of, lemma_id_of_injective};
use crate::image::Image;
use crate::packer::{AtlasLayout, PackingError};
use crate::document::DecodeError;
use crate::processing::{FileOutcome, ResourceData, ResourceDataByFile};
use crate::slice::{Slice, SliceAseKey, SliceData, SliceId};
use crate::tileset::{Tileset, TilesetAseKey, TilesetData, TilesetView};
use vstd::prelude::*;

verus! {

broadcast use vstd::std_specs::hash::group_hash_axioms;

/// The slice resource made of the slice at position `index` of file `id`.
pub open spec fn slice_of(d: SliceData, id: AseId, index: int) -> Slice {
    Slice {
        key: SliceAseKey { ase_id: id, slice_id: SliceId(index as u32) },
        name: d.name,
        keys: d.keys,
        user_data: d.user_data,
    }
}

/// What the slices of a file put into the slice store: for each slice, in
/// order, its identifier and its resource.
pub open spec fn slice_entries(path: Seq<char>, id: AseId, v: Seq<SliceData>) -> Seq<
    (Seq<char>, Slice),
> {
    Seq::new(v.len(), |i: int| (id_of(path, "Slice/"@, v[i].name@), slice_of(v[i], id, i)))
}

/// What the slices of a file put into the file's index: for each slice, in
/// order, its name and its handle.
pub open spec fn slice_index_entries(path: Seq<char>, v: Seq<SliceData>) -> Seq<
    (Seq<char>, Seq<char>),
> {
    Seq::new(v.len(), |i: int| (v[i].name@, id_of(path, "Slice/"@, v[i].name@)))
}

/// Puts the slices of a file into the slice store and registers each under
/// its name. Of slices that share a name, the last one stays.
pub fn move_slices(
    path: &str,
    id: AseId,
    slice_vec: Vec<SliceData>,
    slices: &mut Assets<Slice>,
    file_assets: &mut AseAssetMap,
)
    requires
        slice_vec@.len() <= u32::MAX,
    ensures
        final(slices)@ == insert_all(old(slices)@, slice_entries(path@, id, slice_vec@)),
        viewed(final(file_assets).slices@) == insert_all(
            viewed(old(file_assets).slices@),
            slice_index_entries(path@, slice_vec@),
        ),
        final(file_assets).animations == old(file_assets).animations,
        final(file_assets).tilesets == old(file_assets).tilesets,
        final(file_assets).textures == old(file_assets).textures,
        final(file_assets).atlas == old(file_assets).atlas,
{
    let ghost all = slice_vec@;
    let ghost store0 = slices@;
    let ghost index0 = viewed(file_assets.slices@);
    let ghost entries = slice_entries(path@, id, all);
    let ghost index_entries = slice_index_entries(path@, all);
    let ghost assets0 = *file_assets;
    let mut index: usize = 0;
    assert(entries.take(0) =~= Seq::empty());
    assert(index_entries.take(0) =~= Seq::empty());
    for s in it: slice_vec
        invariant
            it.seq() == all,
            all.len() <= u32::MAX,
            index == it.index(),
            entries == slice_entries(path@, id, all),
            index_entries == slice_index_entries(path@, all),
            slices@ == insert_all(store0, entries.take(index as int)),
            viewed(file_assets.slices@) == insert_all(index0, index_entries.take(index as int)),
            file_assets.animations == assets0.animations,
            file_assets.tilesets == assets0.tilesets,
            file_assets.textures == assets0.textures,
            file_assets.atlas == assets0.atlas,
    {
        let name = s.name.clone();
        let slice_id = handle_id::slice(path, name.as_str());
        let key = SliceAseKey::new(id, SliceId::new(index as u32));
        let slice = Slice::from_ase(s, key);
        proof {
            lemma_insert_all_take(store0, entries, index as int);
            lemma_insert_all_take(index0, index_entries, index as int);
            assert(slice == slice_of(all[index as int], id, index as int));
        }
        let ghost before = file_assets.slices@;
        let handle = slices.set(slice_id, slice);
        file_assets.insert_slice(name, handle);
        proof {
            lemma_viewed_insert(before, name@, handle);
        }
        index = index + 1;
    }
    proof {
        assert(entries.take(all.len() as int) =~= entries);
        assert(index_entries.take(all.len() as int) =~= index_entries);
    }
}

/// The view of the tileset resource made of a file's tileset.
pub open spec fn tileset_view_of(path: Seq<char>, id: AseId, t: TilesetData) -> TilesetView {
    TilesetView {
        key: TilesetAseKey { ase_id: id, tileset_id: t.id },
        tile_count: t.tile_count,
        tile_size: t.tile_size,
        name: t.name@,
        texture: id_of(path, "TilesetImage"@, decimal(t.id.0 as nat)),
    }
}

/// What the tilesets of a file put into the image store: for each tileset,
/// in order, the identifier of its image and the image.
pub open spec fn tileset_image_entries(path: Seq<char>, v: Seq<TilesetData>) -> Seq<
    (Seq<char>, Image),
> {
    Seq::new(
        v.len(),
        |i: int| (id_of(path, "TilesetImage"@, decimal(v[i].id.0 as nat)), v[i].texture),
    )
}

/// What the tilesets of a file put into the tileset store: for each tileset,
/// in order, its identifier and its resource.
pub open spec fn tileset_entries(path: Seq<char>, id: AseId, v: Seq<TilesetData>) -> Seq<
    (Seq<char>, TilesetView),
> {
    Seq::new(
        v.len(),
        |i: int|
            (id_of(path, "Tileset"@, decimal(v[i].id.0 as nat)), tileset_view_of(path, id, v[i])),
    )
}

/// What the tilesets of a file put into the file's index: for each tileset,
/// in order, its id and its handle.
pub open spec fn tileset_index_entries(path: Seq<char>, v: Seq<TilesetData>) -> Seq<
    (u32, Seq<char>),
> {
    Seq::new(v.len(), |i: int| (v[i].id.0, id_of(path, "Tileset"@, decimal(v[i].id.0 as nat))))
}

/// Puts the tilesets of a file and their images into the stores and
/// registers each tileset under its id.
pub fn move_tilesets(
    path: &str,
    id: AseId,
    tileset_data: Vec<TilesetData>,
    textures: &mut Assets<Image>,
    tilesets: &mut Assets<Tileset>,
    file_assets: &mut AseAssetMap,
)
    ensures
        final(textures)@ == insert_all(old(textures)@, tileset_image_entries(path@, tileset_data@)),
        viewed(final(tilesets)@) == insert_all(
            viewed(old(tilesets)@),
            tileset_entries(path@, id, tileset_data@),
        ),
        viewed(final(file_assets).tilesets@) == insert_all(
            viewed(old(file_assets).tilesets@),
            tileset_index_entries(path@, tileset_data@),
        ),
        final(file_assets).animations == old(file_assets).animations,
        final(file_assets).slices == old(file_assets).slices,
        final(file_assets).textures == old(file_assets).textures,
        final(file_assets).atlas == old(file_assets).atlas,
{
    let ghost all = tileset_data@;
    let ghost images0 = textures@;
    let ghost store0 = viewed(tilesets@);
    let ghost index0 = viewed(file_assets.tilesets@);
    let ghost image_entries = tileset_image_entries(path@, all);
    let ghost entries = tileset_entries(path@, id, all);
    let ghost index_entries = tileset_index_entries(path@, all);
    let ghost assets0 = *file_assets;
    let ghost mut done: int = 0;
    assert(image_entries.take(0) =~= Seq::empty());
    assert(entries.take(0) =~= Seq::empty());
    assert(index_entries.take(0) =~= Seq::empty());
    for ts in it: tileset_data
        invariant
            it.seq() == all,
            done == it.index(),
            image_entries == tileset_image_entries(path@, all),
            entries == tileset_entries(path@, id, all),
            index_entries == tileset_index_entries(path@, all),
            textures@ == insert_all(images0, image_entries.take(done)),
            viewed(tilesets@) == insert_all(store0, entries.take(done)),
            viewed(file_assets.tilesets@) == insert_all(index0, index_entries.take(done)),
            file_assets.animations == assets0.animations,
            file_assets.slices == assets0.slices,
            file_assets.textures == assets0.textures,
            file_assets.atlas == assets0.atlas,
    {
        let TilesetData { id: tileset_id, tile_count, tile_size, name, texture } = ts;
        let image_handle_id = handle_id::tileset_image(path, tileset_id.0);
        proof {
            lemma_insert_all_take(images0, image_entries, done);
            lemma_insert_all_take(store0, entries, done);
            lemma_insert_all_take(index0, index_entries, done);
        }
        let tex_handle = textures.set(image_handle_id, texture);
        let tileset = Tileset {
            key: TilesetAseKey::new(id, tileset_id),
            name,
            texture: tex_handle,
            tile_count,
            tile_size,
        };
        let tileset_handle_id = handle_id::tileset(path, tileset_id.0);
        let ghost store_before = tilesets@;
        let ghost index_before = file_assets.tilesets@;
        assert(tileset@ == tileset_view_of(path@, id, all[done]));
        let handle = tilesets.set(tileset_handle_id, tileset);
        file_assets.insert_tileset(tileset_id.0, handle);
        proof {
            lemma_viewed_insert(store_before, tileset_handle_id@, tileset);
            lemma_viewed_insert(index_before, tileset_id.0, handle);
            done = done + 1;
        }
    }
    proof {
        assert(image_entries.take(all.len() as int) =~= image_entries);
        assert(entries.take(all.len() as int) =~= entries);
        assert(index_entries.take(all.len() as int) =~= index_entries);
    }
}

/// The identifier of the image of the given frame of the file at `path`.
pub open spec fn frame_image_id(path: Seq<char>, frame: u32) -> Seq<char> {
    id_of(path, "FrameImage"@, decimal(frame as nat))
}

/// The identifier of the texture atlas of the file at `path`.
pub open spec fn atlas_id(path: Seq<char>) -> Seq<char> {
    id_of(path, "Atlas"@, Seq::<char>::empty())
}

/// The identifier of the image of the texture atlas of the file at `path`.
pub open spec fn atlas_image_id(path: Seq<char>) -> Seq<char> {
    id_of(path, "AtlasImage"@, Seq::<char>::empty())
}

/// The image store with the atlas image of the file at `path` put in, where
/// the frames were packed and there is an atlas image.
pub open spec fn with_atlas_image(
    m: Map<Seq<char>, Image>,
    path: Seq<char>,
    atlas: Result<AtlasLayout, PackingError>,
    image: Option<Image>,
) -> Map<Seq<char>, Image> {
    match image {
        Some(img) => if atlas is Ok {
            m.insert(atlas_image_id(path), img)
        } else {
            m
        },
        None => m,
    }
}

/// What the frames of a file put into the image store: for each frame, in
/// order, the identifier of its image and the image.
pub open spec fn frame_image_entries(path: Seq<char>, sprites: Seq<SpriteData>) -> Seq<
    (Seq<char>, Image),
> {
    Seq::new(
        sprites.len(),
        |i: int| (frame_image_id(path, sprites[i].frame), sprites[i].texture),
    )
}

/// What the frames of a file put into the file's index: for each frame, in
/// order, its index and the handle of its image.
pub open spec fn texture_index_entries(path: Seq<char>, sprites: Seq<SpriteData>) -> Seq<
    (u32, Seq<char>),
> {
    Seq::new(
        sprites.len(),
        |i: int| (sprites[i].frame, frame_image_id(path, sprites[i].frame)),
    )
}

/// The durations of the given frames, in order.
pub open spec fn durations_of(sprites: Seq<SpriteData>) -> Seq<u32> {
    Seq::new(sprites.len(), |i: int| sprites[i].duration)
}

/// The texture atlas of a file: the layout's dimensions and rectangles, and
/// for each slot the handle of the frame image that it holds.
pub open spec fn atlas_view_of(
    path: Seq<char>,
    sprites: Seq<SpriteData>,
    layout: AtlasLayout,
    image: Option<Image>,
) -> TextureAtlasView {
    TextureAtlasView {
        texture: if image is Some {
            Some(atlas_image_id(path))
        } else {
            None
        },
        width: layout.width,
        height: layout.height,
        textures: layout.rects@,
        texture_handles: Seq::new(sprites.len(), |i: int| frame_image_id(path, sprites[i].frame)),
    }
}

/// Puts the frame images of a file into the image store and registers each
/// under its frame index. Where the frames were packed, puts the file's
/// texture atlas into the atlas store, with its image in the image store if
/// there is one, and registers the atlas. Returns the durations of the
/// frames, in order.
pub fn move_sprites(
    path: &str,
    sprites: Vec<SpriteData>,
    atlas: Result<AtlasLayout, PackingError>,
    atlas_image: Option<Image>,
    images: &mut Assets<Image>,
    atlases: &mut Assets<TextureAtlas>,
    file_assets: &mut AseAssetMap,
) -> (durations: Vec<u32>)
    ensures
        durations@ == durations_of(sprites@),
        final(images)@ == with_atlas_image(
            insert_all(old(images)@, frame_image_entries(path@, sprites@)),
            path@,
            atlas,
            atlas_image,
        ),
        viewed(final(file_assets).textures@) == insert_all(
            viewed(old(file_assets).textures@),
            texture_index_entries(path@, sprites@),
        ),
        match atlas {
            Ok(layout) => {
                &&& viewed(final(atlases)@) == viewed(old(atlases)@).insert(
                    atlas_id(path@),
                    atlas_view_of(path@, sprites@, layout, atlas_image),
                )
                &&& final(file_assets).atlas matches Some(h) && h@ == atlas_id(path@)
            },
            Err(_) => final(atlases)@ == old(atlases)@ && final(file_assets).atlas == old(
                file_assets,
            ).atlas,
        },
        final(file_assets).animations == old(file_assets).animations,
        final(file_assets).slices == old(file_assets).slices,
        final(file_assets).tilesets == old(file_assets).tilesets,
{
    let ghost all = sprites@;
    let ghost images0 = images@;
    let ghost index0 = viewed(file_assets.textures@);
    let ghost entries = frame_image_entries(path@, all);
    let ghost index_entries = texture_index_entries(path@, all);
    let ghost assets0 = *file_assets;
    let ghost mut done: int = 0;
    let mut durations: Vec<u32> = Vec::new();
    let mut handles: Vec<String> = Vec::new();
    assert(entries.take(0) =~= Seq::empty());
    assert(index_entries.take(0) =~= Seq::empty());
    for sprite in it: sprites
        invariant
            it.seq() == all,
            done == it.index(),
            entries == frame_image_entries(path@, all),
            index_entries == texture_index_entries(path@, all),
            images@ == insert_all(images0, entries.take(done)),
            viewed(file_assets.textures@) == insert_all(index0, index_entries.take(done)),
            durations@.len() == done,
            handles@.len() == done,
            forall|i: int| 0 <= i < done ==> durations@[i] == all[i].duration,
            forall|i: int|
                0 <= i < done ==> (#[trigger] handles@[i])@ == frame_image_id(path@, all[i].frame),
            file_assets.animations == assets0.animations,
            file_assets.slices == assets0.slices,
            file_assets.tilesets == assets0.tilesets,
            file_assets.atlas == assets0.atlas,
    {
        let SpriteData { frame, texture: image, duration } = sprite;
        let image_handle_id = handle_id::frame_image(path, frame);
        proof {
            lemma_insert_all_take(images0, entries, done);
            lemma_insert_all_take(index0, index_entries, done);
        }
        let image_handle = images.set(image_handle_id, image);
        let ghost index_before = file_assets.textures@;
        let kept = image_handle.clone();
        file_assets.insert_texture(frame, image_handle);
        handles.push(kept);
        durations.push(duration);
        proof {
            lemma_viewed_insert(index_before, frame, image_handle);
            done = done + 1;
        }
    }
    proof {
        assert(entries.take(all.len() as int) =~= entries);
        assert(index_entries.take(all.len() as int) =~= index_entries);
        assert(durations@ =~= durations_of(all));
    }
    match atlas {
        Ok(layout) => {
            let texture = match atlas_image {
                Some(image) => {
                    let image_id = handle_id::atlas_image(path);
                    Some(images.set(image_id, image))
                },
                None => None,
            };
            let texture_atlas = TextureAtlas {
                texture,
                width: layout.width,
                height: layout.height,
                textures: layout.rects,
                texture_handles: handles,
            };
            proof {
                assert(texture_atlas@.texture_handles =~= atlas_view_of(
                    path@,
                    all,
                    layout,
                    atlas_image,
                ).texture_handles);
                lemma_viewed_insert(atlases@, atlas_id(path@), texture_atlas);
            }
            let atlas_handle_id = handle_id::atlas(path);
            let atlas_handle = atlases.set(atlas_handle_id, texture_atlas);
            file_assets.insert_atlas(atlas_handle);
        },
        Err(_) => {},
    }
    durations
}

/// The frames of an animation over the given frame indices: each shows the
/// atlas slot of its index for the duration of that frame.
pub open spec fn anim_frames(sprites: Seq<usize>, durations: Seq<u32>) -> Seq<Frame> {
    Seq::new(
        sprites.len(),
        |j: int|
            Frame {
                sprite: Sprite { atlas_index: sprites[j] as u32 },
                duration_ms: durations[sprites[j] as int],
            },
    )
}

/// What the animations of a file put into the animation store: for each
/// animation that has a tag, in order, its identifier and its resource. The
/// animation of the whole file has no tag and is left out.
pub open spec fn anim_entries(
    path: Seq<char>,
    anims: Seq<AnimationData>,
    durations: Seq<u32>,
) -> Seq<(Seq<char>, AnimationView)>
    decreases anims.len(),
{
    if anims.len() == 0 {
        Seq::empty()
    } else {
        let rest = anim_entries(path, anims.drop_last(), durations);
        match anims.last().tag {
            Some(t) => rest.push(
                (
                    id_of(path, "Animation/"@, t@),
                    AnimationView {
                        frames: anim_frames(anims.last().sprites@, durations),
                        atlas: atlas_id(path),
                    },
                ),
            ),
            None => rest,
        }
    }
}

/// What the animations of a file put into the file's index: for each
/// animation that has a tag, in order, the tag's name and the handle.
pub open spec fn anim_index_entries(path: Seq<char>, anims: Seq<AnimationData>) -> Seq<
    (Seq<char>, Seq<char>),
>
    decreases anims.len(),
{
    if anims.len() == 0 {
        Seq::empty()
    } else {
        let rest = anim_index_entries(path, anims.drop_last());
        match anims.last().tag {
            Some(t) => rest.push((t@, id_of(path, "Animation/"@, t@))),
            None => rest,
        }
    }
}

/// True if every frame index of every tagged animation has a placement: it
/// is below `slots`.
pub open spec fn placements_ok(anims: Seq<AnimationData>, slots: int) -> bool {
    forall|a: int, j: int|
        0 <= a < anims.len() && anims[a].tag is Some && 0 <= j < anims[a].sprites@.len()
            ==> #[trigger] anims[a].sprites@[j] < slots
}

/// Why the records of a file could not be turned into resources.
#[derive(Debug, Clone, Copy, PartialEq, Eq, Structural)]
pub enum MaterializationError {
    /// The animation at position `animation` refers, at position `frame` of
    /// its frame list, to a frame that has no placement in the atlas.
    MissingPlacement { animation: usize, frame: usize },
    /// The file has more frames than a 32-bit index can count.
    TooManyFrames,
    /// The file has more slices than a 32-bit id can count.
    TooManySlices,
}

/// The frames of an animation over the given frame indices.
fn build_frames(sprites: &Vec<usize>, durations: &Vec<u32>) -> (frames: Vec<Frame>)
    requires
        durations@.len() <= u32::MAX,
        forall|j: int| 0 <= j < sprites@.len() ==> #[trigger] sprites@[j] < durations@.len(),
    ensures
        frames@ == anim_frames(sprites@, durations@),
{
    let mut frames: Vec<Frame> = Vec::new();
    let mut j: usize = 0;
    while j < sprites.len()
        invariant
            0 <= j <= sprites@.len(),
            durations@.len() <= u32::MAX,
            forall|k: int| 0 <= k < sprites@.len() ==> #[trigger] sprites@[k] < durations@.len(),
            frames@.len() == j,
            forall|k: int| 0 <= k < j ==> frames@[k] == anim_frames(sprites@, durations@)[k],
        decreases sprites@.len() - j,
    {
        let sprite_id = sprites[j];
        frames.push(
            Frame {
                sprite: Sprite { atlas_index: sprite_id as u32 },
                duration_ms: durations[sprite_id],
            },
        );
        j = j + 1;
    }
    assert(frames@ =~= anim_frames(sprites@, durations@));
    frames
}

/// Puts the tagged animations of a file into the animation store and
/// registers each under its tag name. Of tags that share a name, the one
/// declared last stays.
///
/// Fails, and changes nothing, if a tagged animation refers to a frame that
/// has no duration among `durations`: the error names the first such place.
pub fn move_animations(
    path: &str,
    animation_data: Vec<AnimationData>,
    durations: &Vec<u32>,
    animations: &mut Assets<Animation>,
    file_assets: &mut AseAssetMap,
) -> (r: Result<(), MaterializationError>)
    requires
        durations@.len() <= u32::MAX,
    ensures
        match r {
            Ok(()) => {
                &&& placements_ok(animation_data@, durations@.len() as int)
                &&& viewed(final(animations)@) == insert_all(
                    viewed(old(animations)@),
                    anim_entries(path@, animation_data@, durations@),
                )
                &&& viewed(final(file_assets).animations@) == insert_all(
                    viewed(old(file_assets).animations@),
                    anim_index_entries(path@, animation_data@),
                )
                &&& final(file_assets).slices == old(file_assets).slices
                &&& final(file_assets).tilesets == old(file_assets).tilesets
                &&& final(file_assets).textures == old(file_assets).textures
                &&& final(file_assets).atlas == old(file_assets).atlas
            },
            Err(MaterializationError::MissingPlacement { animation, frame }) => {
                &&& first_missing(
                    animation_data@,
                    durations@.len() as int,
                    animation as int,
                    frame as int,
                )
                &&& *final(animations) == *old(animations)
                &&& *final(file_assets) == *old(file_assets)
            },
            Err(_) => false,
        },
{
    match check_placements(&animation_data, durations.len()) {
        Ok(()) => {
            put_animations(path, animation_data, durations, animations, file_assets);
            Ok(())
        },
        Err(e) => Err(e),
    }
}

/// Puts the tagged animations of a file, every frame of which has a
/// placement, into the animation store and registers them.
fn put_animations(
    path: &str,
    animation_data: Vec<AnimationData>,
    durations: &Vec<u32>,
    animations: &mut Assets<Animation>,
    file_assets: &mut AseAssetMap,
)
    requires
        durations@.len() <= u32::MAX,
        placements_ok(animation_data@, durations@.len() as int),
    ensures
        viewed(final(animations)@) == insert_all(
            viewed(old(animations)@),
            anim_entries(path@, animation_data@, durations@),
        ),
        viewed(final(file_assets).animations@) == insert_all(
            viewed(old(file_assets).animations@),
            anim_index_entries(path@, animation_data@),
        ),
        final(file_assets).slices == old(file_assets).slices,
        final(file_assets).tilesets == old(file_assets).tilesets,
        final(file_assets).textures == old(file_assets).textures,
        final(file_assets).atlas == old(file_assets).atlas,
{
    let ghost all = animation_data@;
    let ghost store0 = viewed(animations@);
    let ghost index0 = viewed(file_assets.animations@);
    let ghost assets0 = *file_assets;
    let ghost mut done: int = 0;
    assert(all.take(0) =~= Seq::empty());
    for anim_data in it: animation_data
        invariant
            it.seq() == all,
            done == it.index(),
            durations@.len() <= u32::MAX,
            placements_ok(all, durations@.len() as int),
            viewed(animations@) == insert_all(
                store0,
                anim_entries(path@, all.take(done), durations@),
            ),
            viewed(file_assets.animations@) == insert_all(
                index0,
                anim_index_entries(path@, all.take(done)),
            ),
            file_assets.slices == assets0.slices,
            file_assets.tilesets == assets0.tilesets,
            file_assets.textures == assets0.textures,
            file_assets.atlas == assets0.atlas,
    {
        proof {
            assert(all.take(done + 1).drop_last() =~= all.take(done));
            assert(all.take(done + 1).last() == all[done]);
        }
        let AnimationData { file: _, tag, sprites } = anim_data;
        match tag {
            Some(tag_name) => {
                proof {
                    assert forall|j: int| 0 <= j < sprites@.len() implies #[trigger] sprites@[j]
                        < durations@.len() by {
                        assert(all[done].sprites@[j] < durations@.len());
                    }
                }
                let frames = build_frames(&sprites, durations);
                let anim_id = handle_id::animation(path, tag_name.as_str());
                let atlas_handle = handle_id::atlas(path);
                let asset = Animation::new(frames, atlas_handle);
                let ghost store_before = animations@;
                let ghost index_before = file_assets.animations@;
                let handle = animations.set(anim_id, asset);
                file_assets.insert_animation(tag_name, handle);
                proof {
                    lemma_viewed_insert(store_before, anim_id@, asset);
                    lemma_viewed_insert(index_before, tag_name@, handle);
                    lemma_insert_all_push(
                        store0,
                        anim_entries(path@, all.take(done), durations@),
                        (anim_id@, asset@),
                    );
                    lemma_insert_all_push(
                        index0,
                        anim_index_entries(path@, all.take(done)),
                        (tag_name@, handle@),
                    );
                }
            },
            None => {},
        }
        proof {
            done = done + 1;
        }
    }
    proof {
        assert(all.take(all.len() as int) =~= all);
    }
}

/// The stores that resources are put into, and the index that they are
/// registered in. A store that is absent gets nothing.
pub struct AseAssetResources {
    pub textures: Assets<Image>,
    pub animations: Option<Assets<Animation>>,
    pub atlases: Option<Assets<TextureAtlas>>,
    pub tilesets: Option<Assets<Tileset>>,
    pub slices: Option<Assets<Slice>>,
    pub index: Option<AseFileMap>,
}

/// Number of frames of a file that have both an image and a placement.
pub open spec fn slot_count(sprites: Seq<SpriteData>, layout: AtlasLayout) -> int {
    if sprites.len() <= layout.rects@.len() {
        sprites.len() as int
    } else {
        layout.rects@.len() as int
    }
}

/// True if position `j` of the frame list of the tagged animation at position
/// `a` is the first, in reading order, that refers to a frame without a
/// placement.
pub open spec fn first_missing(anims: Seq<AnimationData>, slots: int, a: int, j: int) -> bool {
    &&& 0 <= a < anims.len()
    &&& anims[a].tag is Some
    &&& 0 <= j < anims[a].sprites@.len()
    &&& anims[a].sprites@[j] >= slots
    &&& placements_ok(anims.take(a), slots)
    &&& forall|k: int| 0 <= k < j ==> #[trigger] anims[a].sprites@[k] < slots
}

/// Looks for a frame index of a tagged animation that has no placement among
/// `slots` placements: finds the first, in reading order, or none.
pub fn check_placements(anims: &Vec<AnimationData>, slots: usize) -> (r: Result<
    (),
    MaterializationError,
>)
    ensures
        match r {
            Ok(()) => placements_ok(anims@, slots as int),
            Err(MaterializationError::MissingPlacement { animation, frame }) => first_missing(
                anims@,
                slots as int,
                animation as int,
                frame as int,
            ),
            Err(_) => false,
        },
{
    let mut a: usize = 0;
    assert(anims@.take(0) =~= Seq::empty());
    while a < anims.len()
        invariant
            0 <= a <= anims@.len(),
            placements_ok(anims@.take(a as int), slots as int),
        decreases anims@.len() - a,
    {
        let anim = &anims[a];
        if anim.tag.is_some() {
            let mut j: usize = 0;
            while j < anim.sprites.len()
                invariant
                    0 <= j <= anim.sprites@.len(),
                    0 <= a < anims@.len(),
                    *anim == anims@[a as int],
                    anim.tag is Some,
                    placements_ok(anims@.take(a as int), slots as int),
                    forall|k: int| 0 <= k < j ==> #[trigger] anim.sprites@[k] < slots,
                decreases anim.sprites@.len() - j,
            {
                if anim.sprites[j] >= slots {
                    return Err(MaterializationError::MissingPlacement { animation: a, frame: j });
                }
                j = j + 1;
            }
        }
        proof {
            let next = anims@.take(a + 1);
            assert forall|x: int, y: int|
                0 <= x < next.len() && next[x].tag is Some && 0 <= y < next[x].sprites@.len()
                    implies #[trigger] next[x].sprites@[y] < slots by {
                if x < a {
                    assert(anims@.take(a as int)[x] == next[x]);
                    assert(anims@.take(a as int)[x].sprites@[y] < slots);
                }
            }
        }
        a = a + 1;
    }
    assert(anims@.take(anims@.len() as int) =~= anims@);
    Ok(())
}

/// True if the records cannot be turned into resources, for the given reason.
pub open spec fn rejected(data: ResourceData, e: MaterializationError) -> bool {
    match e {
        MaterializationError::TooManyFrames => data.sprites@.len() > u32::MAX,
        MaterializationError::TooManySlices => data.sprites@.len() <= u32::MAX
            && data.slices@.len() > u32::MAX,
        MaterializationError::MissingPlacement { animation, frame } => {
            &&& data.sprites@.len() <= u32::MAX
            &&& data.slices@.len() <= u32::MAX
            &&& data.atlas matches Ok(layout) && first_missing(
                data.anims@,
                slot_count(data.sprites@, layout),
                animation as int,
                frame as int,
            )
        },
    }
}

/// True if the records can be turned into resources.
pub open spec fn accepted(data: ResourceData) -> bool {
    &&& data.sprites@.len() <= u32::MAX
    &&& data.slices@.len() <= u32::MAX
    &&& data.atlas matches Ok(layout) ==> placements_ok(
        data.anims@,
        slot_count(data.sprites@, layout),
    )
}

/// What the index knows of a file after its records were turned into
/// resources, given what it knew before and which stores are there.
pub open spec fn asset_map_after(
    before: AseAssetMapView,
    pre: AseAssetResources,
    path: Seq<char>,
    data: ResourceData,
) -> AseAssetMapView {
    AseAssetMapView {
        slices: if pre.slices is Some {
            insert_all(before.slices, slice_index_entries(path, data.slices@))
        } else {
            before.slices
        },
        tilesets: if pre.tilesets is Some {
            insert_all(before.tilesets, tileset_index_entries(path, data.tilesets@))
        } else {
            before.tilesets
        },
        textures: if pre.atlases is Some {
            insert_all(before.textures, texture_index_entries(path, data.sprites@))
        } else {
            before.textures
        },
        atlas: if pre.atlases is Some && data.atlas is Ok {
            Some(atlas_id(path))
        } else {
            before.atlas
        },
        animations: if pre.atlases is Some && pre.animations is Some && data.atlas is Ok {
            insert_all(before.animations, anim_index_entries(path, data.anims@))
        } else {
            before.animations
        },
    }
}

/// The image store after the records of a file were turned into resources:
/// the tileset images go in where there is a tileset store, then the frame
/// images and the atlas image where there is an atlas store.
pub open spec fn textures_after(
    before: Map<Seq<char>, Image>,
    pre: AseAssetResources,
    path: Seq<char>,
    data: ResourceData,
) -> Map<Seq<char>, Image> {
    let with_tiles = if pre.tilesets is Some {
        insert_all(before, tileset_image_entries(path, data.tilesets@))
    } else {
        before
    };
    if pre.atlases is Some {
        with_atlas_image(
            insert_all(with_tiles, frame_image_entries(path, data.sprites@)),
            path,
            data.atlas,
            data.atlas_image,
        )
    } else {
        with_tiles
    }
}

/// True if `post` is what the stores and the index `pre` become when the
/// records `data` of the file `id` at `path` are turned into resources.
pub open spec fn materialized(
    pre: AseAssetResources,
    post: AseAssetResources,
    path: Seq<char>,
    id: AseId,
    data: ResourceData,
) -> bool {
    &&& post.textures@ == textures_after(pre.textures@, pre, path, data)
    &&& match pre.slices {
        Some(s) => post.slices matches Some(s2) && s2@ == insert_all(
            s@,
            slice_entries(path, id, data.slices@),
        ),
        None => post.slices is None,
    }
    &&& match pre.tilesets {
        Some(t) => post.tilesets matches Some(t2) && viewed(t2@) == insert_all(
            viewed(t@),
            tileset_entries(path, id, data.tilesets@),
        ),
        None => post.tilesets is None,
    }
    &&& match pre.atlases {
        Some(a) => post.atlases matches Some(a2) && viewed(a2@) == match data.atlas {
            Ok(layout) => viewed(a@).insert(
                atlas_id(path),
                atlas_view_of(path, data.sprites@, layout, data.atlas_image),
            ),
            Err(_) => viewed(a@),
        },
        None => post.atlases is None,
    }
    &&& match pre.animations {
        Some(an) => post.animations matches Some(an2) && viewed(an2@) == if pre.atlases is Some
            && data.atlas is Ok {
            insert_all(
                viewed(an@),
                anim_entries(path, data.anims@, durations_of(data.sprites@)),
            )
        } else {
            viewed(an@)
        },
        None => post.animations is None,
    }
    &&& match pre.index {
        Some(ix) => {
            &&& post.index matches Some(ix2) && {
                &&& ix2.0@.dom() == ix.0@.dom().insert(path)
                &&& forall|p: Seq<char>|
                    p != path && ix.0@.contains_key(p) ==> #[trigger] ix2.0@[p] == ix.0@[p]
                &&& ix2.0@[path]@ == asset_map_after(ix.entry(path), pre, path, data)
            }
        },
        None => post.index is None,
    }
}

impl ResourceData {
    /// Turns the records of the file `id` at `path` into resources: puts them
    /// into the stores that are there and registers them in the index, under
    /// the file's path.
    ///
    /// Slices go in first, then tilesets with their images, then the frame
    /// images with the texture atlas, then the animations of the tags. Frame
    /// images and the atlas need an atlas store, animations also an animation
    /// store and a packed atlas. Of tags, or slices, that share a name, the
    /// one declared last is the one that the name then refers to.
    ///
    /// Fails, and changes nothing, if a tagged animation refers to a frame
    /// that has no placement in the atlas, or if the frames or slices are too
    /// many to be numbered in 32 bits.
    pub fn move_into_resources(
        self,
        path: &str,
        id: AseId,
        resources: &mut AseAssetResources,
    ) -> (r: Result<(), MaterializationError>)
        ensures
            match r {
                Ok(()) => accepted(self) && materialized(
                    *old(resources),
                    *final(resources),
                    path@,
                    id,
                    self,
                ),
                Err(e) => rejected(self, e) && *final(resources) == *old(resources),
            },
    {
        let ResourceData { sprites, anims, tilesets, slices, atlas, atlas_image } = self;
        if sprites.len() > u32::MAX as usize {
            return Err(MaterializationError::TooManyFrames);
        }
        if slices.len() > u32::MAX as usize {
            return Err(MaterializationError::TooManySlices);
        }
        match &atlas {
            Ok(layout) => {
                let slots = if sprites.len() <= layout.rects.len() {
                    sprites.len()
                } else {
                    layout.rects.len()
                };
                match check_placements(&anims, slots) {
                    Ok(()) => {},
                    Err(e) => {
                        return Err(e);
                    },
                }
            },
            Err(_) => {},
        }
        let ghost pre = *resources;
        let mut file_assets = match &mut resources.index {
            Some(ix) => ix.take(path),
            None => AseAssetMap::new(),
        };
        let ghost before = file_assets@;
        match &mut resources.slices {
            Some(store) => {
                move_slices(path, id, slices, store, &mut file_assets);
            },
            None => {},
        }
        match &mut resources.tilesets {
            Some(store) => {
                move_tilesets(path, id, tilesets, &mut resources.textures, store, &mut file_assets);
            },
            None => {},
        }
        match &mut resources.atlases {
            Some(atlases) => {
                let packed = atlas.is_ok();
                let durations = move_sprites(
                    path,
                    sprites,
                    atlas,
                    atlas_image,
                    &mut resources.textures,
                    atlases,
                    &mut file_assets,
                );
                if packed {
                    match &mut resources.animations {
                        Some(animations) => {
                            put_animations(path, anims, &durations, animations, &mut file_assets);
                        },
                        None => {},
                    }
                }
            },
            None => {},
        }
        proof {
            assert(file_assets@ == asset_map_after(before, pre, path@, self));
        }
        match &mut resources.index {
            Some(ix) => {
                let ghost taken = ix.0@.dom();
                ix.put(path, file_assets);
                assert(ix.0@.dom() =~= taken.insert(path@));
                assert(taken.insert(path@) =~= taken);
            },
            None => {},
        }
        Ok(())
    }
}

/// What became of one file of a batch when the batch was turned into
/// resources.
#[derive(Debug, Clone, PartialEq, Eq)]
pub enum FileStatus {
    /// The file's resources are in the stores.
    Done,
    /// The file's frames could not be packed. Its frame images, tilesets and
    /// slices are in the stores; it has no atlas and no animations.
    PackingFailed(PackingError),
    /// The file was rejected when it was processed. Nothing of it is in the
    /// stores.
    DecodeFailed(DecodeError),
    /// The file's records do not fit together. Nothing of it is in the stores.
    MaterializationFailed(MaterializationError),
}

/// True if the stores `post` and the status are what turning one file's
/// outcome into resources makes of the stores `mid`.
pub open spec fn file_materialized(
    mid: AseAssetResources,
    post: AseAssetResources,
    outcome: FileOutcome,
    status: FileStatus,
) -> bool {
    match outcome.result {
        Err(e) => post == mid && status == FileStatus::DecodeFailed(e),
        Ok(data) => match status {
            FileStatus::MaterializationFailed(e) => rejected(data, e) && post == mid,
            FileStatus::PackingFailed(e) => data.atlas == Err::<AtlasLayout, PackingError>(e)
                && accepted(data) && materialized(mid, post, outcome.path@, outcome.id, data),
            FileStatus::Done => data.atlas is Ok && accepted(data) && materialized(
                mid,
                post,
                outcome.path@,
                outcome.id,
                data,
            ),
            FileStatus::DecodeFailed(_) => false,
        },
    }
}

/// True if `states` are the stores before the first file, between the
/// files, and after the last, as the outcomes are turned into resources one
/// after the other with the given report.
pub open spec fn batch_trace(
    states: Seq<AseAssetResources>,
    outcomes: Seq<FileOutcome>,
    report: Seq<FileStatus>,
) -> bool {
    &&& states.len() == outcomes.len() + 1
    &&& report.len() == outcomes.len()
    &&& forall|i: int|
        0 <= i < outcomes.len() ==> file_materialized(
            states[i],
            states[i + 1],
            #[trigger] outcomes[i],
            report[i],
        )
}

/// True if the stores `post` and the report are what turning the outcomes
/// into resources, one file after the other, makes of the stores `pre`.
pub open spec fn batch_materialized(
    pre: AseAssetResources,
    post: AseAssetResources,
    outcomes: Seq<FileOutcome>,
    report: Seq<FileStatus>,
) -> bool {
    exists|states: Seq<AseAssetResources>|
        #![trigger batch_trace(states, outcomes, report)]
        batch_trace(states, outcomes, report) && states[0] == pre && states.last() == post
}

impl ResourceDataByFile {
    /// Turns a processed batch into resources, file by file in the order of
    /// submission, and reports what became of each file.
    ///
    /// A file that failed leaves the stores as they are and does not keep
    /// the files after it from being turned into resources.
    pub fn move_into_resources(self, resources: &mut AseAssetResources) -> (report: Vec<FileStatus>)
        ensures
            batch_materialized(*old(resources), *final(resources), self.0@, report@),
    {
        let ghost pre = *resources;
        let ghost all = self.0@;
        let ghost mut states: Seq<AseAssetResources> = seq![pre];
        let mut report: Vec<FileStatus> = Vec::new();
        for outcome in it: self.0
            invariant
                it.seq() == all,
                report@.len() == it.index(),
                states.len() == it.index() + 1,
                states[0] == pre,
                states.last() == *resources,
                forall|i: int|
                    0 <= i < it.index() ==> file_materialized(
                        states[i],
                        states[i + 1],
                        #[trigger] all[i],
                        report@[i],
                    ),
        {
            let ghost k = report@.len() as int;
            let ghost mid = *resources;
            let FileOutcome { path, id, result } = outcome;
            let status = match result {
                Err(e) => FileStatus::DecodeFailed(e),
                Ok(data) => {
                    let packing = match &data.atlas {
                        Ok(_) => None,
                        Err(e) => Some(*e),
                    };
                    match data.move_into_resources(path.as_str(), id, resources) {
                        Err(e) => FileStatus::MaterializationFailed(e),
                        Ok(()) => match packing {
                            Some(e) => FileStatus::PackingFailed(e),
                            None => FileStatus::Done,
                        },
                    }
                },
            };
            report.push(status);
            proof {
                assert(file_materialized(mid, *resources, all[k], status));
                states = states.push(*resources);
            }
        }
        proof {
            assert(batch_trace(states, all, report@));
        }
        report
    }
}

/// Of the tags of a file that share a name, the one declared last is kept:
/// after the animations were put into the store, the identifier of a tag
/// name refers to the animation of the last tag of that name.
pub proof fn lemma_last_tag_wins(
    store: Map<Seq<char>, AnimationView>,
    path: Seq<char>,
    anims: Seq<AnimationData>,
    durations: Seq<u32>,
    k: int,
)
    requires
        0 <= k < anims.len(),
        anims[k].tag is Some,
        forall|j: int|
            k < j < anims.len() && (#[trigger] anims[j]).tag is Some ==> anims[j].tag->0@
                != anims[k].tag->0@,
    ensures
        insert_all(store, anim_entries(path, anims, durations)).contains_key(
            id_of(path, "Animation/"@, anims[k].tag->0@),
        ),
        insert_all(store, anim_entries(path, anims, durations))[id_of(
            path,
            "Animation/"@,
            anims[k].tag->0@,
        )] == (AnimationView {
            frames: anim_frames(anims[k].sprites@, durations),
            atlas: atlas_id(path),
        }),
    decreases anims.len(),
{
    let front = anims.drop_last();
    let rest = anim_entries(path, front, durations);
    let name = anims[k].tag->0@;
    let key = id_of(path, "Animation/"@, name);
    assert(anims.last() == anims[anims.len() - 1]);
    if k < anims.len() - 1 {
        assert(front[k] == anims[k]);
        assert forall|j: int| k < j < front.len() && (#[trigger] front[j]).tag is Some implies front[j].tag->0@
            != name by {
            assert(front[j] == anims[j]);
        }
        lemma_last_tag_wins(store, path, front, durations, k);
    }
    match anims.last().tag {
        Some(t) => {
            let entry = (
                id_of(path, "Animation/"@, t@),
                AnimationView {
                    frames: anim_frames(anims.last().sprites@, durations),
                    atlas: atlas_id(path),
                },
            );
            assert(anim_entries(path, anims, durations) == rest.push(entry));
            lemma_insert_all_push(store, rest, entry);
            if k < anims.len() - 1 && entry.0 == key {
                lemma_id_of_injective(path, "Animation/"@, t@, name);
            }
        },
        None => {
            assert(anim_entries(path, anims, durations) == rest);
        },
    }
}

/// Of the tags of a file that share a name, the one declared last is kept:
/// after the animations were registered, the name of a tag refers to the
/// handle of its animation, whichever tag of that name came last.
pub proof fn lemma_tag_is_registered(
    index: Map<Seq<char>, Seq<char>>,
    path: Seq<char>,
    anims: Seq<AnimationData>,
    k: int,
)
    requires
        0 <= k < anims.len(),
        anims[k].tag is Some,
    ensures
        insert_all(index, anim_index_entries(path, anims)).contains_key(anims[k].tag->0@),
        insert_all(index, anim_index_entries(path, anims))[anims[k].tag->0@] == id_of(
            path,
            "Animation/"@,
            anims[k].tag->0@,
        ),
    decreases anims.len(),
{
    let front = anims.drop_last();
    let rest = anim_index_entries(path, front);
    assert(anims.last() == anims[anims.len() - 1]);
    if k < anims.len() - 1 {
        assert(front[k] == anims[k]);
        lemma_tag_is_registered(index, path, front, k);
    }
    match anims.last().tag {
        Some(t) => {
            let entry = (t@, id_of(path, "Animation/"@, t@));
            assert(anim_index_entries(path, anims) == rest.push(entry));
            lemma_insert_all_push(index, rest, entry);
        },
        None => {
            assert(anim_index_entries(path, anims) == rest);
        },
    }
}

/// A batch without files changes nothing: the stores and the index stay as
/// they are, and there is nothing to report.
pub proof fn lemma_empty_batch_changes_nothing(
    pre: AseAssetResources,
    post: AseAssetResources,
    report: Seq<FileStatus>,
)
    requires
        batch_materialized(pre, post, Seq::<FileOutcome>::empty(), report),
    ensures
        post == pre,
        report.len() == 0,
{
    let states = choose|states: Seq<AseAssetResources>|
        #![trigger batch_trace(states, Seq::<FileOutcome>::empty(), report)]
        batch_trace(states, Seq::<FileOutcome>::empty(), report) && states[0] == pre
            && states.last() == post;
    assert(states.len() == 1);
}

/// A file that failed changes nothing: whatever the stores and the index
/// held before the file's turn, they hold after it.
pub proof fn lemma_failed_file_changes_nothing(
    mid: AseAssetResources,
    post: AseAssetResources,
    outcome: FileOutcome,
    status: FileStatus,
)
    requires
        file_materialized(mid, post, outcome, status),
        status is DecodeFailed || status is MaterializationFailed,
    ensures
        post == mid,
{
}

/// The identifier of the animation of the given tag of the file at `path`.
pub open spec fn animation_id(path: Seq<char>, tag: Seq<char>) -> Seq<char> {
    id_of(path, "Animation/"@, tag)
}

/// Every entry that the animations of a file put into the store is the
/// animation of one of the file's tags, under the identifier of that tag.
pub proof fn lemma_anim_entries_come_from_tags(
    path: Seq<char>,
    anims: Seq<AnimationData>,
    durations: Seq<u32>,
    j: int,
)
    requires
        0 <= j < anim_entries(path, anims, durations).len(),
    ensures
        exists|k: int|
            0 <= k < anims.len() && (#[trigger] anims[k]).tag is Some && anim_entries(
                path,
                anims,
                durations,
            )[j] == (
                animation_id(path, anims[k].tag->0@),
                AnimationView {
                    frames: anim_frames(anims[k].sprites@, durations),
                    atlas: atlas_id(path),
                },
            ),
    decreases anims.len(),
{
    let front = anims.drop_last();
    let rest = anim_entries(path, front, durations);
    let last = anims.len() - 1;
    assert(anims.last() == anims[last]);
    if j < rest.len() {
        lemma_anim_entries_come_from_tags(path, front, durations, j);
        let k = choose|k: int|
            0 <= k < front.len() && (#[trigger] front[k]).tag is Some && rest[j] == (
                animation_id(path, front[k].tag->0@),
                AnimationView {
                    frames: anim_frames(front[k].sprites@, durations),
                    atlas: atlas_id(path),
                },
            );
        assert(anims[k] == front[k]);
    } else {
        assert(anims[last].tag is Some);
    }
}

/// Every entry that the animations of a file put into the file's index is
/// that of one of the file's tags: the tag's name and its identifier.
pub proof fn lemma_anim_index_entries_come_from_tags(
    path: Seq<char>,
    anims: Seq<AnimationData>,
    j: int,
)
    requires
        0 <= j < anim_index_entries(path, anims).len(),
    ensures
        exists|k: int|
            0 <= k < anims.len() && (#[trigger] anims[k]).tag is Some && anim_index_entries(
                path,
                anims,
            )[j] == (anims[k].tag->0@, animation_id(path, anims[k].tag->0@)),
    decreases anims.len(),
{
    let front = anims.drop_last();
    let rest = anim_index_entries(path, front);
    let last = anims.len() - 1;
    assert(anims.last() == anims[last]);
    if j < rest.len() {
        lemma_anim_index_entries_come_from_tags(path, front, j);
        let k = choose|k: int|
            0 <= k < front.len() && (#[trigger] front[k]).tag is Some && rest[j] == (
                front[k].tag->0@,
                animation_id(path, front[k].tag->0@),
            );
        assert(anims[k] == front[k]);
    } else {
        assert(anims[last].tag is Some);
    }
}

/// Every tag of a file has an entry among those that the animations of the
/// file put into the store.
pub proof fn lemma_tag_has_entry(
    path: Seq<char>,
    anims: Seq<AnimationData>,
    durations: Seq<u32>,
    k: int,
)
    requires
        0 <= k < anims.len(),
        anims[k].tag is Some,
    ensures
        exists|j: int|
            0 <= j < anim_entries(path, anims, durations).len() && (#[trigger] anim_entries(
                path,
                anims,
                durations,
            )[j]).0 == animation_id(path, anims[k].tag->0@),
    decreases anims.len(),
{
    let front = anims.drop_last();
    let rest = anim_entries(path, front, durations);
    let all = anim_entries(path, anims, durations);
    let last = anims.len() - 1;
    assert(anims.last() == anims[last]);
    if k == last {
        assert(all[all.len() - 1].0 == animation_id(path, anims[k].tag->0@));
    } else {
        assert(front[k] == anims[k]);
        lemma_tag_has_entry(path, front, durations, k);
        let j = choose|j: int|
            0 <= j < rest.len() && (#[trigger] rest[j]).0 == animation_id(
                path,
                front[k].tag->0@,
            );
        assert(all[j] == rest[j]);
    }
}

/// What the index knows of the file at `path`; nothing where there is no
/// index.
pub open spec fn known(res: AseAssetResources, path: Seq<char>) -> AseAssetMapView {
    match res.index {
        Some(ix) => ix.entry(path),
        None => crate::asset_index::empty_asset_map(),
    }
}

/// True if the index knows an animation of the file at `path` under the
/// given tag name, and the animation store has the animation that the index
/// refers to.
pub open spec fn resolves(res: AseAssetResources, path: Seq<char>, tag: Seq<char>) -> bool {
    &&& res.index is Some
    &&& known(res, path).animations.contains_key(tag)
    &&& res.animations matches Some(store) && viewed(store@).contains_key(
        known(res, path).animations[tag],
    )
}

/// After the records of a file were turned into resources, every tag of the
/// file resolves: the index gives the identifier of the tag's animation, and
/// the animation store has an animation under it. The animation has a frame
/// if every tagged animation of the file has one.
pub proof fn lemma_tag_resolves(
    pre: AseAssetResources,
    post: AseAssetResources,
    path: Seq<char>,
    id: AseId,
    data: ResourceData,
    k: int,
)
    requires
        materialized(pre, post, path, id, data),
        pre.index is Some,
        pre.animations is Some,
        pre.atlases is Some,
        data.atlas is Ok,
        0 <= k < data.anims@.len(),
        data.anims@[k].tag is Some,
    ensures
        resolves(post, path, data.anims@[k].tag->0@),
        known(post, path).animations[data.anims@[k].tag->0@] == animation_id(
            path,
            data.anims@[k].tag->0@,
        ),
        (forall|a: int|
            0 <= a < data.anims@.len() && (#[trigger] data.anims@[a]).tag is Some
                ==> data.anims@[a].sprites@.len() >= 1) ==> viewed(post.animations->0@)[animation_id(
            path,
            data.anims@[k].tag->0@,
        )].frames.len() >= 1,
{
    let anims = data.anims@;
    let durations = durations_of(data.sprites@);
    let tag = anims[k].tag->0@;
    let entries = anim_entries(path, anims, durations);
    let store = viewed(pre.animations->0@);
    let index = pre.index->0;
    lemma_tag_is_registered(index.entry(path).animations, path, anims, k);
    lemma_tag_has_entry(path, anims, durations, k);
    let j = choose|j: int| 0 <= j < entries.len() && (#[trigger] entries[j]).0 == animation_id(path, tag);
    lemma_insert_all_has_key(store, entries, j);
    let j2 = choose|j2: int|
        0 <= j2 < entries.len() && (#[trigger] entries[j2]).0 == entries[j].0 && insert_all(
            store,
            entries,
        )[entries[j].0] == entries[j2].1;
    lemma_anim_entries_come_from_tags(path, anims, durations, j2);
}

/// What resolves before a file's turn resolves after it: a file takes no
/// animation away.
pub proof fn lemma_lookup_stays(
    mid: AseAssetResources,
    post: AseAssetResources,
    outcome: FileOutcome,
    status: FileStatus,
    path: Seq<char>,
    tag: Seq<char>,
)
    requires
        file_materialized(mid, post, outcome, status),
        resolves(mid, path, tag),
    ensures
        resolves(post, path, tag),
{
    if outcome.result is Ok && (status is Done || status is PackingFailed) {
        let data = outcome.result->Ok_0;
        let own = outcome.path@;
        let anims = data.anims@;
        let durations = durations_of(data.sprites@);
        let store = viewed(mid.animations->0@);
        let ix = mid.index->0;
        let handle = known(mid, path).animations[tag];
        let entries = anim_entries(own, anims, durations);
        let registers = mid.atlases is Some && data.atlas is Ok;
        if registers {
            lemma_insert_all_keeps_keys(store, entries, handle);
        }
        if path == own {
            let before = ix.entry(own).animations;
            let index_entries = anim_index_entries(own, anims);
            if registers {
                lemma_insert_all_keeps_keys(before, index_entries, tag);
                lemma_insert_all_value_origin(before, index_entries, tag);
                if !(insert_all(before, index_entries)[tag] == before[tag]) {
                    let j = choose|j: int|
                        0 <= j < index_entries.len() && (#[trigger] index_entries[j]).0 == tag
                            && insert_all(before, index_entries)[tag] == index_entries[j].1;
                    lemma_anim_index_entries_come_from_tags(own, anims, j);
                    let k = choose|k: int|
                        0 <= k < anims.len() && (#[trigger] anims[k]).tag is Some
                            && index_entries[j] == (
                            anims[k].tag->0@,
                            animation_id(own, anims[k].tag->0@),
                        );
                    lemma_tag_has_entry(own, anims, durations, k);
                    let e = choose|e: int|
                        0 <= e < entries.len() && (#[trigger] entries[e]).0 == animation_id(
                            own,
                            anims[k].tag->0@,
                        );
                    lemma_insert_all_has_key(store, entries, e);
                }
            }
        }
    }
}

/// The stores that are there before a batch are there at every step of it.
pub proof fn lemma_stores_stay(
    states: Seq<AseAssetResources>,
    outcomes: Seq<FileOutcome>,
    report: Seq<FileStatus>,
    n: int,
)
    requires
        batch_trace(states, outcomes, report),
        0 <= n <= outcomes.len(),
    ensures
        states[n].index is Some == states[0].index is Some,
        states[n].animations is Some == states[0].animations is Some,
        states[n].atlases is Some == states[0].atlases is Some,
    decreases n,
{
    if n > 0 {
        lemma_stores_stay(states, outcomes, report, n - 1);
        assert(file_materialized(states[n - 1], states[n], outcomes[n - 1], report[n - 1]));
    }
}

/// What resolves at one step of a batch resolves at every later step.
pub proof fn lemma_lookup_stays_in_batch(
    states: Seq<AseAssetResources>,
    outcomes: Seq<FileOutcome>,
    report: Seq<FileStatus>,
    from: int,
    n: int,
    path: Seq<char>,
    tag: Seq<char>,
)
    requires
        batch_trace(states, outcomes, report),
        0 <= from <= n <= outcomes.len(),
        resolves(states[from], path, tag),
    ensures
        resolves(states[n], path, tag),
    decreases n,
{
    if n > from {
        lemma_lookup_stays_in_batch(states, outcomes, report, from, n - 1, path, tag);
        assert(file_materialized(states[n - 1], states[n], outcomes[n - 1], report[n - 1]));
        lemma_lookup_stays(states[n - 1], states[n], outcomes[n - 1], report[n - 1], path, tag);
    }
}

/// After a batch was turned into resources, every tag of every file of the
/// batch that is reported as done resolves, whatever became of the other
/// files: the index gives a handle for the file's path and the tag's name,
/// and the animation store has an animation under it.
pub proof fn lemma_done_files_resolve(
    pre: AseAssetResources,
    post: AseAssetResources,
    outcomes: Seq<FileOutcome>,
    report: Seq<FileStatus>,
    i: int,
    k: int,
)
    requires
        batch_materialized(pre, post, outcomes, report),
        pre.index is Some,
        pre.animations is Some,
        pre.atlases is Some,
        0 <= i < outcomes.len(),
        report[i] is Done,
        outcomes[i].result is Ok,
        0 <= k < outcomes[i].result->Ok_0.anims@.len(),
        outcomes[i].result->Ok_0.anims@[k].tag is Some,
    ensures
        resolves(post, outcomes[i].path@, outcomes[i].result->Ok_0.anims@[k].tag->0@),
{
    let states = choose|states: Seq<AseAssetResources>|
        #![trigger batch_trace(states, outcomes, report)]
        batch_trace(states, outcomes, report) && states[0] == pre && states.last() == post;
    let data = outcomes[i].result->Ok_0;
    lemma_stores_stay(states, outcomes, report, i);
    assert(file_materialized(states[i], states[i + 1], outcomes[i], report[i]));
    lemma_tag_resolves(states[i], states[i + 1], outcomes[i].path@, outcomes[i].id, data, k);
    lemma_lookup_stays_in_batch(
        states,
        outcomes,
        report,
        i + 1,
        outcomes.len() as int,
        outcomes[i].path@,
        data.anims@[k].tag->0@,
    );
}

/// The index learns of a file only when the file's records are turned into
/// resources: a path that the index does not have before a batch, and that
/// is the path of no file that the batch turned into resources, is not in
/// the index after it.
pub proof fn lemma_failed_files_are_missing(
    states: Seq<AseAssetResources>,
    outcomes: Seq<FileOutcome>,
    report: Seq<FileStatus>,
    n: int,
    path: Seq<char>,
)
    requires
        batch_trace(states, outcomes, report),
        0 <= n <= outcomes.len(),
        states[0].index matches Some(ix) && !ix.0@.contains_key(path),
        forall|j: int|
            0 <= j < outcomes.len() && ((#[trigger] report[j]) is Done || report[j] is PackingFailed)
                ==> outcomes[j].path@ != path,
    ensures
        states[n].index matches Some(ix) && !ix.0@.contains_key(path),
    decreases n,
{
    if n > 0 {
        lemma_failed_files_are_missing(states, outcomes, report, n - 1, path);
        assert(file_materialized(states[n - 1], states[n], outcomes[n - 1], report[n - 1]));
    }
}

} // verus!
