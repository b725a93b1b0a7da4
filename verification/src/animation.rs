//! Animations: frames of a texture atlas, each shown for some milliseconds.
use crate::document::{DecodeError, Tag};
use crate::image::Image;
use vstd::prelude::*;
use vstd::string::StringExecFns;

verus! {

/// The sprite of an animation frame. Refers to a slot of a texture atlas.
#[derive(Debug, Clone, Copy, PartialEq, Eq, Structural)]
pub struct Sprite {
    /// The index into the texture atlas for this sprite.
    pub atlas_index: u32,
}

/// A single frame in an [Animation].
#[derive(Debug, Clone, Copy, PartialEq, Eq, Structural)]
pub struct Frame {
    /// The [Sprite] shown during this frame.
    pub sprite: Sprite,
    /// The duration of this frame in milliseconds.
    pub duration_ms: u32,
}

/// A sprite-based animation.
#[derive(Debug, Clone, PartialEq, Eq)]
pub struct Animation {
    pub frames: Vec<Frame>,
    /// Identifier of the texture atlas that the frames index into.
    pub atlas: String,
}

/// An [Animation] as a mathematical value.
pub struct AnimationView {
    pub frames: Seq<Frame>,
    pub atlas: Seq<char>,
}

impl View for Animation {
    type V = AnimationView;

    open spec fn view(&self) -> AnimationView {
        AnimationView { frames: self.frames@, atlas: self.atlas@ }
    }
}

impl Animation {
    /// Creates a new Animation with a [Frame] vec and the identifier of a
    /// texture atlas.
    pub fn new(frames: Vec<Frame>, atlas: String) -> (a: Self)
        ensures
            a.frames == frames,
            a.atlas == atlas,
    {
        Animation { frames, atlas }
    }

    /// Number of frames.
    pub fn num_frames(&self) -> (n: u32)
        requires
            self.frames@.len() <= u32::MAX,
        ensures
            n == self.frames@.len(),
    {
        self.frames.len() as u32
    }

    /// The frame with the given number.
    pub fn frame(&self, frame: u32) -> (f: &Frame)
        requires
            frame < self.frames@.len(),
        ensures
            *f == self.frames@[frame as int],
    {
        &self.frames[frame as usize]
    }

    /// Returns a reference to the animation's [Frame]s.
    pub fn frames(&self) -> (frames: &[Frame])
        ensures
            frames@ == self.frames@,
    {
        self.frames.as_slice()
    }

    /// Returns the identifier of the animation's texture atlas.
    pub fn atlas(&self) -> (atlas: String)
        ensures
            atlas@ == self.atlas@,
    {
        self.atlas.clone()
    }

    /// Returns next frame number after the given frame. The second result is
    /// `true` if we wrapped around.
    pub fn frame_after(&self, frame: u32) -> (next: (u32, bool))
        requires
            1 <= self.frames@.len() <= u32::MAX,
        ensures
            next == if frame + 1 < self.frames@.len() {
                ((frame + 1) as u32, false)
            } else {
                (0u32, true)
            },
    {
        let num_frames = self.frames.len();
        if (frame as usize) < num_frames - 1 {
            (frame + 1, false)
        } else {
            (0, true)
        }
    }
}

/// One frame as it is taken out of a sprite file: its index in the file, its
/// image and its duration in milliseconds.
pub struct SpriteData {
    pub frame: u32,
    pub texture: Image,
    pub duration: u32,
}

/// One animation as it is taken out of a sprite file: the file, the tag that
/// names it (none for the animation of the whole file), and the indices of
/// its frames among the file's frames.
#[derive(Debug, Clone, PartialEq, Eq)]
pub struct AnimationData {
    pub file: String,
    pub tag: Option<String>,
    pub sprites: Vec<usize>,
}

/// True if the tag names a range of frames of a file of `num_frames` frames.
pub open spec fn tag_valid(tag: Tag, num_frames: int) -> bool {
    tag.from_frame <= tag.to_frame < num_frames
}

/// The indices `first, first + 1, ..` up to and including `last`.
pub open spec fn frame_range(first: int, last: int) -> Seq<usize> {
    Seq::new((last - first + 1) as nat, |i: int| (first + i) as usize)
}

/// The first `count` indices.
pub open spec fn all_frames(count: int) -> Seq<usize> {
    frame_range(0, count - 1)
}

/// The frame list of a tag counts from the tag's first frame to its last, one
/// by one, with both ends.
pub proof fn lemma_frame_range(first: int, last: int, j: int)
    requires
        0 <= first <= last <= usize::MAX,
        0 <= j <= last - first,
    ensures
        frame_range(first, last).len() == last - first + 1,
        frame_range(first, last)[j] == first + j,
        frame_range(first, last)[0] == first,
        frame_range(first, last).last() == last,
{
}

/// The indices from `offset + first` up to and including `offset + last`,
/// in order.
fn collect_range(offset: usize, first: u32, last: u32) -> (v: Vec<usize>)
    requires
        first <= last,
        offset + last <= usize::MAX,
    ensures
        v@ == frame_range(offset + first, offset + last),
{
    let mut v: Vec<usize> = Vec::new();
    let mut f: u32 = first;
    loop
        invariant_except_break
            first <= f <= last,
            offset + last <= usize::MAX,
            v@ == frame_range(offset + first, offset + f - 1),
        ensures
            v@ == frame_range(offset + first, offset + last),
        decreases last - f,
    {
        v.push(offset + f as usize);
        assert(v@ =~= frame_range(offset + first, offset + f));
        if f == last {
            break ;
        }
        f = f + 1;
    }
    v
}

impl AnimationData {
    /// The animation of a whole file of `num_frames` frames: all frames in
    /// order, under no tag. The frames are counted from `sprite_offset`, the
    /// place of the file's first frame in a list of frames.
    pub fn new(name: &str, num_frames: u32, sprite_offset: usize) -> (a: Self)
        requires
            sprite_offset + num_frames <= usize::MAX,
        ensures
            a.file@ == name@,
            a.tag is None,
            a.sprites@ == frame_range(sprite_offset as int, sprite_offset + num_frames - 1),
            a.sprites@.len() == num_frames,
            sprite_offset == 0 ==> a.sprites@ == all_frames(num_frames as int),
    {
        let sprites = if num_frames == 0 {
            let v: Vec<usize> = Vec::new();
            assert(v@ =~= frame_range(sprite_offset as int, sprite_offset - 1));
            v
        } else {
            collect_range(sprite_offset, 0, num_frames - 1)
        };
        Self { file: String::from_str(name), tag: None, sprites }
    }

    /// The animation of the tag at position `index` of a file of `num_frames`
    /// frames: the frames from the tag's first to its last, both included,
    /// under the tag's name. The frames are counted from `sprite_offset`.
    ///
    /// A tag names no animation if its first frame lies after its last, or if
    /// its last frame is no frame of the file: it is rejected as `InvalidTag`.
    pub fn from_tag(
        name: &str,
        sprite_offset: usize,
        index: usize,
        tag: &Tag,
        num_frames: u32,
    ) -> (r: Result<Self, DecodeError>)
        requires
            sprite_offset + num_frames <= usize::MAX,
        ensures
            match r {
                Ok(a) => {
                    &&& tag_valid(*tag, num_frames as int)
                    &&& a.file@ == name@
                    &&& a.tag matches Some(t) && t@ == tag.name@
                    &&& a.sprites@ == frame_range(
                        sprite_offset + tag.from_frame,
                        sprite_offset + tag.to_frame,
                    )
                    &&& a.sprites@.len() >= 1
                },
                Err(e) => !tag_valid(*tag, num_frames as int) && e == (DecodeError::InvalidTag {
                    tag: index,
                }),
            },
    {
        if tag.from_frame > tag.to_frame || tag.to_frame >= num_frames {
            return Err(DecodeError::InvalidTag { tag: index });
        }
        Ok(
            Self {
                file: String::from_str(name),
                tag: Some(tag.name.clone()),
                sprites: collect_range(sprite_offset, tag.from_frame, tag.to_frame),
            },
        )
    }
}

} // verus!
