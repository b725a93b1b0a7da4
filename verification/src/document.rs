//! Source documents: decoded sprite files as plain data.
//!
//! Decoding the binary file format is not the work of this library. Whoever
//! decodes a file hands over what the decoder found: the size of the canvas,
//! the frames with their pixels and durations, the tags, the tilesets with
//! their pixels, and the slices. [SourceDocument::new] checks that these fit
//! together and makes the document that the pipeline works on.
use crate::image::{byte_len, Image};
use crate::slice::SliceData;
use crate::tileset::{strip_size, TileSize, TilesetData, TilesetError, TilesetId};
use vstd::prelude::*;

verus! {

/// Why a sprite file could not be turned into a source document, or a
/// document into records.
#[derive(Debug, Clone, PartialEq, Eq)]
pub enum DecodeError {
    /// The file has no frame.
    NoFrames,
    /// The file has more frames than a 32-bit index can count.
    TooManyFrames,
    /// The frame at this position does not have the pixels that the canvas
    /// asks for: four bytes for each pixel.
    FrameSize { frame: usize },
    /// The tag at this position does not name a range of frames of the file:
    /// its first frame lies after its last, or its last is no frame of the file.
    InvalidTag { tag: usize },
    /// The file's position in its batch does not fit in a 32-bit id.
    BatchTooLarge,
    /// A tileset of the file could not be read.
    Tileset(TilesetError),
}

/// One frame as a decoder hands it over: the RGBA bytes of its image, drawn
/// on the canvas of the file, and its duration in milliseconds.
pub struct FrameSource {
    pub pixels: Vec<u8>,
    pub duration: u32,
}

/// One tileset as a decoder hands it over: its id, name and tile geometry,
/// and the RGBA bytes of all its tiles in one vertical strip.
pub struct TilesetSource {
    pub id: u32,
    pub name: String,
    pub tile_size: TileSize,
    pub tile_count: u32,
    pub pixels: Vec<u8>,
}

/// One frame of a sprite file: its image and how long it is shown.
pub struct FrameData {
    pub image: Image,
    /// Duration in milliseconds.
    pub duration: u32,
}

/// A named, inclusive range of frames.
pub struct Tag {
    pub name: String,
    pub from_frame: u32,
    pub to_frame: u32,
}

/// One decoded sprite file.
pub struct SourceDocument {
    /// Width of every frame in pixels.
    pub width: u32,
    /// Height of every frame in pixels.
    pub height: u32,
    pub frames: Vec<FrameData>,
    pub tags: Vec<Tag>,
    /// The file's tilesets, by ascending id.
    pub tilesets: Vec<TilesetData>,
    pub slices: Vec<SliceData>,
}

/// True if the frame has the pixels that a canvas of the given size asks for.
pub open spec fn frame_ok(width: u32, height: u32, frame: FrameSource) -> bool {
    frame.pixels@.len() == byte_len(width as int, height as int)
}

/// True if the height of the strip of all tiles fits in 32 bits.
pub open spec fn strip_fits(tile_size: TileSize, tile_count: u32) -> bool {
    tile_size.height * tile_count <= u32::MAX
}

/// True if the tileset can be turned into a texture: the strip of its tiles
/// has a size that fits, and the pixel data has that size.
pub open spec fn tileset_ok(source: TilesetSource) -> bool {
    &&& strip_fits(source.tile_size, source.tile_count)
    &&& source.pixels@.len() == byte_len(
        strip_size(source.tile_size, source.tile_count).0,
        strip_size(source.tile_size, source.tile_count).1,
    )
}

/// Position of the last of the tilesets that has the given id; negative if
/// none has it.
pub open spec fn last_index(sources: Seq<TilesetSource>, id: u32) -> int
    decreases sources.len(),
{
    if sources.len() == 0 {
        -1
    } else if sources.last().id == id {
        sources.len() - 1
    } else {
        last_index(sources.drop_last(), id)
    }
}

/// The tilesets by id. Of tilesets that share an id, the last one counts.
pub open spec fn tileset_map(sources: Seq<TilesetSource>) -> Map<u32, TilesetSource> {
    Map::new(
        |id: u32| last_index(sources, id) >= 0,
        |id: u32| sources[last_index(sources, id)],
    )
}

/// The last tileset of an id is one of the tilesets and has that id; and it
/// lies at or behind every tileset of that id.
pub proof fn lemma_last_index(sources: Seq<TilesetSource>, id: u32)
    ensures
        last_index(sources, id) < sources.len(),
        last_index(sources, id) >= 0 ==> sources[last_index(sources, id)].id == id,
        forall|j: int|
            0 <= j < sources.len() && (#[trigger] sources[j]).id == id ==> j <= last_index(
                sources,
                id,
            ),
        last_index(sources, id) >= -1,
    decreases sources.len(),
{
    if sources.len() > 0 {
        let front = sources.drop_last();
        lemma_last_index(front, id);
        assert forall|j: int| 0 <= j < sources.len() && (#[trigger] sources[j]).id == id implies j
            <= last_index(sources, id) by {
            if j < sources.len() - 1 {
                assert(front[j] == sources[j]);
            }
        }
    }
}

/// True if `t` holds what the tileset `source` holds.
pub open spec fn tileset_mirrors(t: TilesetData, source: TilesetSource) -> bool {
    &&& t.id == TilesetId(source.id)
    &&& t.name@ == source.name@
    &&& t.tile_size == source.tile_size
    &&& t.tile_count == source.tile_count
    &&& t.texture.data@ == source.pixels@
    &&& t.wf()
}

/// True if `ts` holds the tilesets of the map, each once, by ascending id.
pub open spec fn tilesets_mirror(ts: Seq<TilesetData>, m: Map<u32, TilesetSource>) -> bool {
    &&& forall|k: int|
        0 <= k < ts.len() ==> m.contains_key((#[trigger] ts[k]).id.0) && tileset_mirrors(
            ts[k],
            m[ts[k].id.0],
        )
    &&& forall|a: int, b: int|
        0 <= a < b < ts.len() ==> (#[trigger] ts[a]).id.0 < (#[trigger] ts[b]).id.0
    &&& forall|id: u32| #[trigger]
        m.contains_key(id) ==> exists|k: int| 0 <= k < ts.len() && (#[trigger] ts[k]).id.0 == id
}

/// True if `id` is the smallest id of the map whose tileset cannot be turned
/// into a texture.
pub open spec fn first_bad_tileset(m: Map<u32, TilesetSource>, id: u32) -> bool {
    &&& m.contains_key(id)
    &&& !tileset_ok(m[id])
    &&& forall|other: u32| #[trigger] m.contains_key(other) && other < id ==> tileset_ok(m[other])
}

/// True if `r` is what [SourceDocument::new] makes of what a decoder found:
/// the document that holds it, or the first of these that applies: `NoFrames`
/// for no frames, `TooManyFrames` for more than a 32-bit index can count,
/// `FrameSize` for the first frame without the pixels of the canvas, and
/// `Tileset(NoPixels(id))` for the smallest tileset id whose pixel data does
/// not have the size of the strip of its tiles.
pub open spec fn constructed(
    width: u32,
    height: u32,
    frames: Seq<FrameSource>,
    tags: Seq<Tag>,
    tilesets: Seq<TilesetSource>,
    slices: Seq<SliceData>,
    r: Result<SourceDocument, DecodeError>,
) -> bool {
    let framed = 1 <= frames.len() <= u32::MAX && forall|i: int|
        0 <= i < frames.len() ==> frame_ok(width, height, #[trigger] frames[i]);
    match r {
        Ok(doc) => {
            &&& framed
            &&& forall|id: u32| #[trigger]
                tileset_map(tilesets).contains_key(id) ==> tileset_ok(tileset_map(tilesets)[id])
            &&& doc.wf()
            &&& doc.width == width
            &&& doc.height == height
            &&& doc.frames@.len() == frames.len()
            &&& forall|i: int|
                0 <= i < frames.len() ==> (#[trigger] doc.frames@[i]).image.data
                    == frames[i].pixels && doc.frames@[i].duration == frames[i].duration
            &&& doc.tags@ == tags
            &&& tilesets_mirror(doc.tilesets@, tileset_map(tilesets))
            &&& doc.slices@ == slices
        },
        Err(DecodeError::NoFrames) => frames.len() == 0,
        Err(DecodeError::TooManyFrames) => frames.len() > u32::MAX,
        Err(DecodeError::FrameSize { frame }) => {
            &&& 1 <= frames.len() <= u32::MAX
            &&& frame < frames.len()
            &&& !frame_ok(width, height, frames[frame as int])
            &&& forall|i: int| 0 <= i < frame ==> frame_ok(width, height, #[trigger] frames[i])
        },
        Err(DecodeError::Tileset(TilesetError::NoPixels(id))) => framed && first_bad_tileset(
            tileset_map(tilesets),
            id.0,
        ),
        Err(_) => false,
    }
}

impl SourceDocument {
    /// A document has at least one frame and no more than a 32-bit index can
    /// count; every frame image has the size of the canvas; every tileset's
    /// texture is the strip of its tiles; tilesets come by ascending id.
    pub open spec fn wf(&self) -> bool {
        &&& 1 <= self.frames@.len() <= u32::MAX
        &&& forall|i: int|
            0 <= i < self.frames@.len() ==> {
                &&& (#[trigger] self.frames@[i]).image.wf()
                &&& self.frames@[i].image.width == self.width
                &&& self.frames@[i].image.height == self.height
            }
        &&& forall|k: int| 0 <= k < self.tilesets@.len() ==> (#[trigger] self.tilesets@[k]).wf()
        &&& forall|a: int, b: int|
            0 <= a < b < self.tilesets@.len() ==> (#[trigger] self.tilesets@[a]).id.0 < (
            #[trigger] self.tilesets@[b]).id.0
    }

    /// Number of frames.
    pub fn num_frames(&self) -> (n: usize)
        ensures
            n == self.frames@.len(),
    {
        self.frames.len()
    }

    /// Makes the document of a sprite file out of what a decoder found in it.
    ///
    /// Every frame must have the pixels of the canvas, four bytes each. The
    /// tilesets may come in any order: the document has them by ascending
    /// id, and of tilesets that share an id it has the last. Tags and slices
    /// are taken as they are; whether a tag names frames of the file is
    /// looked at when the records are taken out of the document.
    pub fn new(
        width: u32,
        height: u32,
        frames: Vec<FrameSource>,
        tags: Vec<Tag>,
        tilesets: Vec<TilesetSource>,
        slices: Vec<SliceData>,
    ) -> (r: Result<SourceDocument, DecodeError>)
        ensures
            constructed(width, height, frames@, tags@, tilesets@, slices@, r),
    {
        if frames.len() == 0 {
            return Err(DecodeError::NoFrames);
        }
        if frames.len() > u32::MAX as usize {
            return Err(DecodeError::TooManyFrames);
        }
        let frames = match read_frames(width, height, frames) {
            Ok(frames) => frames,
            Err(frame) => {
                return Err(DecodeError::FrameSize { frame });
            },
        };
        let tilesets = match read_tilesets(&tilesets) {
            Ok(tilesets) => tilesets,
            Err(e) => {
                return Err(DecodeError::Tileset(e));
            },
        };
        Ok(SourceDocument { width, height, frames, tags, tilesets, slices })
    }
}

/// Turns the frames into images of the canvas, in order; fails with the
/// position of the first frame that does not have the pixels of the canvas.
fn read_frames(width: u32, height: u32, sources: Vec<FrameSource>) -> (r: Result<
    Vec<FrameData>,
    usize,
>)
    ensures
        match r {
            Ok(frames) => {
                &&& frames@.len() == sources@.len()
                &&& forall|i: int|
                    0 <= i < sources@.len() ==> frame_ok(width, height, #[trigger] sources@[i])
                &&& forall|i: int|
                    0 <= i < sources@.len() ==> {
                        &&& (#[trigger] frames@[i]).image.wf()
                        &&& frames@[i].image.width == width
                        &&& frames@[i].image.height == height
                        &&& frames@[i].image.data == sources@[i].pixels
                        &&& frames@[i].duration == sources@[i].duration
                    }
            },
            Err(frame) => {
                &&& frame < sources@.len()
                &&& !frame_ok(width, height, sources@[frame as int])
                &&& forall|i: int|
                    0 <= i < frame ==> frame_ok(width, height, #[trigger] sources@[i])
            },
        },
{
    let ghost all = sources@;
    let mut frames: Vec<FrameData> = Vec::new();
    for source in it: sources
        invariant
            it.seq() == all,
            frames@.len() == it.index(),
            forall|i: int| 0 <= i < frames@.len() ==> frame_ok(width, height, #[trigger] all[i]),
            forall|i: int|
                0 <= i < frames@.len() ==> {
                    &&& (#[trigger] frames@[i]).image.wf()
                    &&& frames@[i].image.width == width
                    &&& frames@[i].image.height == height
                    &&& frames@[i].image.data == all[i].pixels
                    &&& frames@[i].duration == all[i].duration
                },
    {
        let FrameSource { pixels, duration } = source;
        match Image::new(width, height, pixels) {
            Some(image) => {
                frames.push(FrameData { image, duration });
            },
            None => {
                return Err(frames.len());
            },
        }
    }
    Ok(frames)
}

/// The ids of the tilesets, in order.
fn collect_ids(sources: &Vec<TilesetSource>) -> (ids: Vec<u32>)
    ensures
        ids@.len() == sources@.len(),
        forall|j: int| 0 <= j < ids@.len() ==> ids@[j] == sources@[j].id,
{
    let mut ids: Vec<u32> = Vec::new();
    let mut j: usize = 0;
    while j < sources.len()
        invariant
            0 <= j <= sources@.len(),
            ids@.len() == j,
            forall|k: int| 0 <= k < j ==> ids@[k] == sources@[k].id,
        decreases sources@.len() - j,
    {
        ids.push(sources[j].id);
        j = j + 1;
    }
    ids
}

/// The ids of the tilesets are the keys of their map.
proof fn lemma_ids_are_keys(sources: Seq<TilesetSource>, ids: Seq<u32>)
    requires
        ids.len() == sources.len(),
        forall|j: int| 0 <= j < ids.len() ==> ids[j] == sources[j].id,
    ensures
        ids.to_set() == tileset_map(sources).dom(),
{
    assert forall|id: u32| ids.to_set().contains(id) == tileset_map(sources).dom().contains(
        id,
    ) by {
        lemma_last_index(sources, id);
        if ids.contains(id) {
            let j = choose|j: int| 0 <= j < ids.len() && ids[j] == id;
            assert(sources[j].id == id);
        }
        if last_index(sources, id) >= 0 {
            assert(ids[last_index(sources, id)] == id);
        }
    }
    assert(ids.to_set() =~= tileset_map(sources).dom());
}

/// Position of the last tileset of the given id, if there is one.
fn find_last(sources: &Vec<TilesetSource>, id: u32) -> (r: Option<usize>)
    ensures
        match r {
            Some(j) => j == last_index(sources@, id),
            None => last_index(sources@, id) < 0,
        },
{
    let mut best: Option<usize> = None;
    let mut j: usize = 0;
    assert(sources@.take(0) =~= Seq::empty());
    while j < sources.len()
        invariant
            0 <= j <= sources@.len(),
            match best {
                Some(b) => b == last_index(sources@.take(j as int), id),
                None => last_index(sources@.take(j as int), id) < 0,
            },
        decreases sources@.len() - j,
    {
        proof {
            assert(sources@.take(j + 1).drop_last() =~= sources@.take(j as int));
            assert(sources@.take(j + 1).last() == sources@[j as int]);
        }
        if sources[j].id == id {
            best = Some(j);
        }
        j = j + 1;
    }
    assert(sources@.take(sources@.len() as int) =~= sources@);
    best
}

/// A copy of the bytes.
fn copy_bytes(bytes: &Vec<u8>) -> (copy: Vec<u8>)
    ensures
        copy@ == bytes@,
{
    let mut copy: Vec<u8> = Vec::new();
    let mut i: usize = 0;
    while i < bytes.len()
        invariant
            0 <= i <= bytes@.len(),
            copy@.len() == i,
            forall|k: int| 0 <= k < i ==> copy@[k] == bytes@[k],
        decreases bytes@.len() - i,
    {
        copy.push(bytes[i]);
        i = i + 1;
    }
    assert(copy@ =~= bytes@);
    copy
}

/// True if `x` lies above the bound; every number lies above no bound.
pub open spec fn above(x: u32, bound: Option<u32>) -> bool {
    match bound {
        Some(b) => x > b,
        None => true,
    }
}

/// The smallest of the ids that lie above the bound, if there is one.
fn next_id(ids: &Vec<u32>, bound: Option<u32>) -> (r: Option<u32>)
    ensures
        match r {
            Some(m) => {
                &&& ids@.contains(m)
                &&& above(m, bound)
                &&& forall|j: int| 0 <= j < ids@.len() && above(#[trigger] ids@[j], bound) ==> m <= ids@[j]
            },
            None => forall|j: int| 0 <= j < ids@.len() ==> !above(#[trigger] ids@[j], bound),
        },
{
    let mut best: Option<u32> = None;
    let mut i: usize = 0;
    while i < ids.len()
        invariant
            0 <= i <= ids@.len(),
            match best {
                Some(m) => {
                    &&& ids@.contains(m)
                    &&& above(m, bound)
                    &&& forall|j: int| 0 <= j < i && above(#[trigger] ids@[j], bound) ==> m <= ids@[j]
                },
                None => forall|j: int| 0 <= j < i ==> !above(#[trigger] ids@[j], bound),
            },
        decreases ids@.len() - i,
    {
        let x = ids[i];
        let is_above = match bound {
            Some(b) => x > b,
            None => true,
        };
        if is_above {
            let better = match best {
                Some(m) => x < m,
                None => true,
            };
            if better {
                best = Some(x);
            }
        }
        i = i + 1;
    }
    best
}

/// Reads the tileset of the given id, which is among the tilesets: the last
/// one of that id.
fn read_tileset(sources: &Vec<TilesetSource>, id: u32) -> (r: Result<TilesetData, TilesetError>)
    requires
        tileset_map(sources@).contains_key(id),
    ensures
        match r {
            Ok(t) => t.id == TilesetId(id) && tileset_ok(tileset_map(sources@)[id])
                && tileset_mirrors(t, tileset_map(sources@)[id]),
            Err(e) => e == TilesetError::NoPixels(TilesetId(id)) && !tileset_ok(
                tileset_map(sources@)[id],
            ),
        },
{
    proof {
        lemma_last_index(sources@, id);
    }
    let source = match find_last(sources, id) {
        Some(j) => &sources[j],
        None => {
            return Err(TilesetError::NoPixels(TilesetId(id)));
        },
    };
    let h: u64 = source.tile_size.height as u64;
    let n: u64 = source.tile_count as u64;
    assert(0 <= h * n <= 0xffff * 0xffff_ffff) by (nonlinear_arith)
        requires
            0 <= h <= 0xffff,
            0 <= n <= 0xffff_ffff,
    ;
    let strip_height: u64 = h * n;
    if strip_height > u32::MAX as u64 {
        return Err(TilesetError::NoPixels(TilesetId(id)));
    }
    let data = copy_bytes(&source.pixels);
    match Image::new(source.tile_size.width as u32, strip_height as u32, data) {
        Some(texture) => Ok(
            TilesetData {
                id: TilesetId(id),
                tile_count: source.tile_count,
                tile_size: source.tile_size,
                name: source.name.clone(),
                texture,
            },
        ),
        None => Err(TilesetError::NoPixels(TilesetId(id))),
    }
}

/// How far the walk over the ids still has to go: the number of 32-bit
/// numbers above the bound.
pub open spec fn room_above(bound: Option<u32>) -> int {
    match bound {
        Some(b) => u32::MAX - b,
        None => u32::MAX + 1,
    }
}

/// Reads the tilesets, by ascending id. They come in no fixed order, so the
/// smallest id not yet read is looked for again and again.
fn read_tilesets(sources: &Vec<TilesetSource>) -> (r: Result<Vec<TilesetData>, TilesetError>)
    ensures
        match r {
            Ok(ts) => {
                &&& tilesets_mirror(ts@, tileset_map(sources@))
                &&& forall|id: u32| #[trigger]
                    tileset_map(sources@).contains_key(id) ==> tileset_ok(
                        tileset_map(sources@)[id],
                    )
            },
            Err(TilesetError::NoPixels(id)) => first_bad_tileset(tileset_map(sources@), id.0),
        },
{
    let ids = collect_ids(sources);
    let ghost m = tileset_map(sources@);
    proof {
        lemma_ids_are_keys(sources@, ids@);
    }
    let mut out: Vec<TilesetData> = Vec::new();
    let mut last: Option<u32> = None;
    loop
        invariant
            m == tileset_map(sources@),
            ids@.to_set() == m.dom(),
            forall|k: int|
                0 <= k < out@.len() ==> {
                    &&& m.contains_key((#[trigger] out@[k]).id.0)
                    &&& tileset_mirrors(out@[k], m[out@[k].id.0])
                    &&& !above(out@[k].id.0, last)
                },
            forall|a: int, b: int|
                0 <= a < b < out@.len() ==> (#[trigger] out@[a]).id.0 < (#[trigger] out@[b]).id.0,
            forall|id: u32| #[trigger]
                m.contains_key(id) && !above(id, last) ==> tileset_ok(m[id]) && exists|k: int|
                    0 <= k < out@.len() && (#[trigger] out@[k]).id.0 == id,
            last.is_none() ==> out@.len() == 0,
        decreases room_above(last),
    {
        let next = next_id(&ids, last);
        match next {
            None => {
                proof {
                    assert forall|id: u32| #[trigger] m.contains_key(id) implies !above(
                        id,
                        last,
                    ) by {
                        assert(ids@.to_set().contains(id));
                        assert(ids@.contains(id));
                        let j = choose|j: int| 0 <= j < ids@.len() && ids@[j] == id;
                        assert(!above(ids@[j], last));
                    }
                }
                return Ok(out);
            },
            Some(id) => {
                proof {
                    assert(ids@.to_set().contains(id));
                    assert(m.dom().contains(id));
                    assert forall|other: u32| #[trigger]
                        m.contains_key(other) && other < id implies !above(other, last) by {
                        assert(ids@.to_set().contains(other));
                        assert(ids@.contains(other));
                        let j = choose|j: int| 0 <= j < ids@.len() && ids@[j] == other;
                        if above(ids@[j], last) {
                            assert(id <= ids@[j]);
                        }
                    }
                }
                match read_tileset(sources, id) {
                    Ok(t) => {
                        let ghost before = out@;
                        out.push(t);
                        proof {
                            assert forall|x: u32| #[trigger]
                                m.contains_key(x) && !above(x, Some(id)) implies tileset_ok(m[x])
                                && exists|k: int|
                                0 <= k < out@.len() && (#[trigger] out@[k]).id.0 == x by {
                                if x == id {
                                    assert(out@[out@.len() - 1].id.0 == x);
                                } else {
                                    assert(!above(x, last));
                                    let k = choose|k: int|
                                        0 <= k < before.len() && (#[trigger] before[k]).id.0 == x;
                                    assert(out@[k].id.0 == x);
                                }
                            }
                            assert forall|a: int, b: int| 0 <= a < b < out@.len() implies (
                            #[trigger] out@[a]).id.0 < (#[trigger] out@[b]).id.0 by {
                                if b == out@.len() - 1 {
                                    assert(out@[a] == before[a]);
                                    assert(!above(before[a].id.0, last));
                                } else {
                                    assert(out@[a] == before[a] && out@[b] == before[b]);
                                }
                            }
                        }
                        last = Some(id);
                    },
                    Err(e) => {
                        return Err(e);
                    },
                }
            },
        }
    }
}

} // verus!
