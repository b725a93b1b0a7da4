//! Extraction: from one source document to flat records, one per frame
//! image, animation, tileset and slice, with the layout of the file's atlas.
use crate::animation::{all_frames, frame_range, tag_valid, AnimationData, SpriteData};
use crate::ase::AseId;
use crate::compose::{compose, composable, composed};
use crate::document::{DecodeError, FrameData, SourceDocument, Tag};
use crate::image::Image;
use crate::packer::{pack, packed, AtlasLayout, FrameSize, PackingError};
use crate::slice::SliceData;
use crate::tileset::TilesetData;
use vstd::prelude::*;

verus! {

/// The widest that a texture atlas may be, in pixels.
pub const MAX_ATLAS_WIDTH: u32 = 2048;

/// The tallest that a texture atlas may be, in pixels.
pub const MAX_ATLAS_HEIGHT: u32 = 2048;

/// What is taken out of one sprite file.
pub struct ResourceData {
    /// One record per frame, in frame order.
    pub sprites: Vec<SpriteData>,
    /// The animation of the whole file, then one animation per tag in the
    /// order in which the file declares them.
    pub anims: Vec<AnimationData>,
    pub tilesets: Vec<TilesetData>,
    pub slices: Vec<SliceData>,
    /// Where each frame goes in the file's texture atlas: slot `i` holds
    /// frame `i`. An error if the frames cannot be packed.
    pub atlas: Result<AtlasLayout, PackingError>,
    /// The image of the atlas: the frames drawn at their slots. None if the
    /// frames were not packed, or if their images do not have the data that
    /// their sizes ask for.
    pub atlas_image: Option<Image>,
}

/// The image sizes of the given frames.
pub open spec fn sizes_of(sprites: Seq<SpriteData>) -> Seq<FrameSize> {
    Seq::new(
        sprites.len(),
        |i: int| FrameSize { width: sprites[i].texture.width, height: sprites[i].texture.height },
    )
}

/// True if `sprites` are the records of `frames`: one per frame, in order,
/// each with its index, image and duration.
pub open spec fn sprites_of(sprites: Seq<SpriteData>, frames: Seq<FrameData>) -> bool {
    &&& sprites.len() == frames.len()
    &&& forall|i: int|
        0 <= i < sprites.len() ==> {
            &&& (#[trigger] sprites[i]).frame == i
            &&& sprites[i].texture == frames[i].image
            &&& sprites[i].duration == frames[i].duration
        }
}

/// True if `anims` are the animations of a file at `path` with `num_frames`
/// frames and the given tags: first the animation of the whole file, then one
/// per tag in order, each over the frames from the tag's first to its last.
pub open spec fn anims_of(
    anims: Seq<AnimationData>,
    path: Seq<char>,
    num_frames: int,
    tags: Seq<Tag>,
) -> bool {
    &&& anims.len() == tags.len() + 1
    &&& anims[0].file@ == path
    &&& anims[0].tag is None
    &&& anims[0].sprites@ == all_frames(num_frames)
    &&& forall|k: int|
        0 <= k < tags.len() ==> {
            &&& (#[trigger] anims[k + 1]).file@ == path
            &&& anims[k + 1].tag matches Some(t) && t@ == tags[k].name@
            &&& anims[k + 1].sprites@ == frame_range(
                tags[k].from_frame as int,
                tags[k].to_frame as int,
            )
        }
}

/// True if `image` is the atlas image of the frames for the given outcome
/// of packing: the frames drawn at their slots where they were packed and
/// can be drawn, and none otherwise.
pub open spec fn atlas_image_of(
    sprites: Seq<SpriteData>,
    atlas: Result<AtlasLayout, PackingError>,
    image: Option<Image>,
) -> bool {
    match atlas {
        Ok(layout) => match image {
            Some(img) => composable(layout, sprites) && composed(img, layout, sprites),
            None => !composable(layout, sprites),
        },
        Err(_) => image is None,
    }
}

/// True if `r` is what extraction gives for the document of the file at
/// `path`: the records of its frames, animations, tilesets and slices with
/// the layout of its atlas; or `NoFrames` for a document without frames,
/// `TooManyFrames` for one with more than a 32-bit index can count, and
/// `InvalidTag` for the first tag that names no range of the file's frames.
pub open spec fn extracted(
    path: Seq<char>,
    doc: SourceDocument,
    r: Result<ResourceData, DecodeError>,
) -> bool {
    let n = doc.frames@.len() as int;
    match r {
        Ok(data) => {
            &&& 1 <= n <= u32::MAX
            &&& forall|k: int| 0 <= k < doc.tags@.len() ==> tag_valid(#[trigger] doc.tags@[k], n)
            &&& sprites_of(data.sprites@, doc.frames@)
            &&& anims_of(data.anims@, path, n, doc.tags@)
            &&& data.tilesets == doc.tilesets
            &&& data.slices == doc.slices
            &&& packed(
                sizes_of(data.sprites@),
                MAX_ATLAS_WIDTH as int,
                MAX_ATLAS_HEIGHT as int,
                data.atlas,
            )
            &&& atlas_image_of(data.sprites@, data.atlas, data.atlas_image)
        },
        Err(DecodeError::NoFrames) => n == 0,
        Err(DecodeError::TooManyFrames) => n > u32::MAX,
        Err(DecodeError::InvalidTag { tag }) => {
            &&& 1 <= n <= u32::MAX
            &&& tag < doc.tags@.len()
            &&& !tag_valid(doc.tags@[tag as int], n)
            &&& forall|k: int| 0 <= k < tag ==> tag_valid(#[trigger] doc.tags@[k], n)
        },
        Err(_) => false,
    }
}

/// The animations of a file: that of the whole file, then one per tag.
fn extract_animations(path: &str, num_frames: u32, tags: &Vec<Tag>) -> (r: Result<
    Vec<AnimationData>,
    DecodeError,
>)
    ensures
        match r {
            Ok(anims) => {
                &&& forall|k: int|
                    0 <= k < tags@.len() ==> tag_valid(#[trigger] tags@[k], num_frames as int)
                &&& anims_of(anims@, path@, num_frames as int, tags@)
            },
            Err(DecodeError::InvalidTag { tag }) => {
                &&& tag < tags@.len()
                &&& !tag_valid(tags@[tag as int], num_frames as int)
                &&& forall|k: int| 0 <= k < tag ==> tag_valid(#[trigger] tags@[k], num_frames as int)
            },
            Err(_) => false,
        },
{
    let mut anims: Vec<AnimationData> = Vec::new();
    anims.push(AnimationData::new(path, num_frames, 0));
    let mut k: usize = 0;
    while k < tags.len()
        invariant
            0 <= k <= tags@.len(),
            anims@.len() == k + 1,
            anims@[0].file@ == path@,
            anims@[0].tag is None,
            anims@[0].sprites@ == all_frames(num_frames as int),
            forall|j: int| 0 <= j < k ==> tag_valid(#[trigger] tags@[j], num_frames as int),
            forall|j: int|
                0 <= j < k ==> {
                    &&& (#[trigger] anims@[j + 1]).file@ == path@
                    &&& anims@[j + 1].tag matches Some(t) && t@ == tags@[j].name@
                    &&& anims@[j + 1].sprites@ == frame_range(
                        tags@[j].from_frame as int,
                        tags@[j].to_frame as int,
                    )
                },
        decreases tags@.len() - k,
    {
        let anim = match AnimationData::from_tag(path, 0, k, &tags[k], num_frames) {
            Ok(anim) => anim,
            Err(e) => {
                return Err(e);
            },
        };
        let ghost before = anims@;
        anims.push(anim);
        proof {
            assert forall|j: int| 0 <= j < k + 1 implies {
                &&& (#[trigger] anims@[j + 1]).file@ == path@
                &&& anims@[j + 1].tag matches Some(t) && t@ == tags@[j].name@
                &&& anims@[j + 1].sprites@ == frame_range(
                    tags@[j].from_frame as int,
                    tags@[j].to_frame as int,
                )
            } by {
                if j < k {
                    assert(anims@[j + 1] == before[j + 1]);
                }
            }
        }
        k = k + 1;
    }
    Ok(anims)
}

/// The records of the given frames, in order, each with its index.
fn extract_sprites(frames: Vec<FrameData>) -> (sprites: Vec<SpriteData>)
    requires
        frames@.len() <= u32::MAX,
    ensures
        sprites_of(sprites@, frames@),
{
    let mut sprites: Vec<SpriteData> = Vec::new();
    let ghost all = frames@;
    for f in it: frames
        invariant
            it.seq() == all,
            all.len() <= u32::MAX,
            sprites@.len() == it.index(),
            forall|i: int|
                0 <= i < sprites@.len() ==> {
                    &&& (#[trigger] sprites@[i]).frame == i
                    &&& sprites@[i].texture == all[i].image
                    &&& sprites@[i].duration == all[i].duration
                },
    {
        let index = sprites.len() as u32;
        sprites.push(SpriteData { frame: index, texture: f.image, duration: f.duration });
    }
    sprites
}

/// The image sizes of the given frames, in order.
fn frame_sizes(sprites: &Vec<SpriteData>) -> (sizes: Vec<FrameSize>)
    ensures
        sizes@ == sizes_of(sprites@),
{
    let mut sizes: Vec<FrameSize> = Vec::new();
    let mut i: usize = 0;
    while i < sprites.len()
        invariant
            0 <= i <= sprites@.len(),
            sizes@.len() == i,
            forall|j: int| 0 <= j < i ==> sizes@[j] == sizes_of(sprites@)[j],
        decreases sprites@.len() - i,
    {
        sizes.push(
            FrameSize { width: sprites[i].texture.width, height: sprites[i].texture.height },
        );
        i = i + 1;
    }
    assert(sizes@ =~= sizes_of(sprites@));
    sizes
}

impl ResourceData {
    /// Takes the records of one source document, the file at `path`.
    ///
    /// The document's frames become one record each, in order. Its
    /// animations are that of the whole file, over all frames in order, and
    /// then one per tag in declared order, over the frames from the tag's
    /// first to its last, both included. Tags that share a name are all kept.
    /// Tilesets and slices are handed on as they are. The frames are laid
    /// out in one atlas; a failure to do so is recorded, not returned.
    ///
    /// A document without frames, or with a tag that names no range of its
    /// frames, is rejected.
    pub fn new(path: &str, doc: SourceDocument) -> (r: Result<ResourceData, DecodeError>)
        ensures
            extracted(path@, doc, r),
    {
        let n = doc.frames.len();
        if n == 0 {
            return Err(DecodeError::NoFrames);
        }
        if n > u32::MAX as usize {
            return Err(DecodeError::TooManyFrames);
        }
        let anims = match extract_animations(path, n as u32, &doc.tags) {
            Ok(anims) => anims,
            Err(e) => {
                return Err(e);
            },
        };
        let sprites = extract_sprites(doc.frames);
        let sizes = frame_sizes(&sprites);
        let atlas = pack(&sizes, MAX_ATLAS_WIDTH, MAX_ATLAS_HEIGHT);
        let atlas_image = match &atlas {
            Ok(layout) => compose(layout, &sprites),
            Err(_) => None,
        };
        Ok(
            ResourceData {
                sprites,
                anims,
                tilesets: doc.tilesets,
                slices: doc.slices,
                atlas,
                atlas_image,
            },
        )
    }
}

/// What became of one file of a batch: its path, its id in the batch, and
/// its records or the reason why it has none.
pub struct FileOutcome {
    pub path: String,
    pub id: AseId,
    pub result: Result<ResourceData, DecodeError>,
}

/// A processed batch: the outcome of each file, in the order of submission.
pub struct ResourceDataByFile(pub Vec<FileOutcome>);

/// True if `outcome` is what processing gives for the file at position
/// `index` of a batch: the file's path, its position as id, and what
/// extraction makes of its document. A file whose position does not fit in
/// 32 bits is rejected as `BatchTooLarge`.
pub open spec fn outcome_of(
    outcome: FileOutcome,
    index: int,
    path: String,
    doc: SourceDocument,
) -> bool {
    &&& outcome.path == path
    &&& if index <= u32::MAX {
        outcome.id == AseId(index as u32) && extracted(path@, doc, outcome.result)
    } else {
        outcome.id == AseId(u32::MAX) && outcome.result == Err::<ResourceData, DecodeError>(
            DecodeError::BatchTooLarge,
        )
    }
}

impl ResourceDataByFile {
    /// Processes a batch of documents, each with the path of its file.
    ///
    /// Every file is processed by itself: a file that is rejected has its
    /// error as outcome and leaves the others as they are.
    pub fn new(ases: Vec<(String, SourceDocument)>) -> (batch: Self)
        ensures
            batch.0@.len() == ases@.len(),
            forall|i: int|
                0 <= i < ases@.len() ==> outcome_of(
                    #[trigger] batch.0@[i],
                    i,
                    ases@[i].0,
                    ases@[i].1,
                ),
    {
        let ghost all = ases@;
        let mut outcomes: Vec<FileOutcome> = Vec::new();
        for entry in it: ases
            invariant
                it.seq() == all,
                outcomes@.len() == it.index(),
                forall|i: int|
                    0 <= i < outcomes@.len() ==> outcome_of(
                        #[trigger] outcomes@[i],
                        i,
                        all[i].0,
                        all[i].1,
                    ),
        {
            let (path, doc) = entry;
            let index = outcomes.len();
            if index <= u32::MAX as usize {
                let id = AseId::new(index as u32);
                let result = ResourceData::new(path.as_str(), doc);
                outcomes.push(FileOutcome { path, id, result });
            } else {
                let id = AseId::new(u32::MAX);
                outcomes.push(FileOutcome { path, id, result: Err(DecodeError::BatchTooLarge) });
            }
        }
        ResourceDataByFile(outcomes)
    }
}

/// Every animation that extraction gives has a frame: the animation of the
/// whole file has all of them, and that of a tag those of its range.
pub proof fn lemma_extracted_animations_have_frames(
    path: Seq<char>,
    doc: SourceDocument,
    data: ResourceData,
    a: int,
)
    requires
        extracted(path, doc, Ok(data)),
        0 <= a < data.anims@.len(),
    ensures
        data.anims@[a].sprites@.len() >= 1,
        forall|j: int|
            0 <= j < data.anims@[a].sprites@.len() ==> #[trigger] data.anims@[a].sprites@[j]
                < data.sprites@.len(),
{
    if a > 0 {
        assert(tag_valid(doc.tags@[a - 1], doc.frames@.len() as int));
        assert(data.anims@[(a - 1) + 1] == data.anims@[a]);
    }
}

} // verus!
