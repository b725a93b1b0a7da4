//! Texture atlases: where each frame of a sprite file lies in one image.
use crate::packer::Rect;
use vstd::prelude::*;

verus! {

/// A texture atlas: its dimensions, the rectangle of each slot, and the
/// handle of the image that each slot holds.
#[derive(Debug, Clone, PartialEq, Eq)]
pub struct TextureAtlas {
    /// The handle of the atlas image, if there is one.
    pub texture: Option<String>,
    pub width: u32,
    pub height: u32,
    /// The rectangle of each slot.
    pub textures: Vec<Rect>,
    /// The handle of the frame image in each slot.
    pub texture_handles: Vec<String>,
}

/// A [TextureAtlas] as a mathematical value.
pub struct TextureAtlasView {
    pub texture: Option<Seq<char>>,
    pub width: u32,
    pub height: u32,
    pub textures: Seq<Rect>,
    pub texture_handles: Seq<Seq<char>>,
}

impl View for TextureAtlas {
    type V = TextureAtlasView;

    open spec fn view(&self) -> TextureAtlasView {
        TextureAtlasView {
            texture: match self.texture {
                Some(h) => Some(h@),
                None => None,
            },
            width: self.width,
            height: self.height,
            textures: self.textures@,
            texture_handles: Seq::new(
                self.texture_handles@.len(),
                |i: int| self.texture_handles@[i]@,
            ),
        }
    }
}

impl TextureAtlas {
    /// Number of slots.
    pub fn len(&self) -> (n: usize)
        ensures
            n == self.textures@.len(),
    {
        self.textures.len()
    }

    /// The slot that holds the image with the given handle: the first slot
    /// whose handle it is.
    pub fn get_texture_index(&self, handle: &str) -> (r: Option<usize>)
        ensures
            match r {
                Some(i) => {
                    &&& i < self@.texture_handles.len()
                    &&& self@.texture_handles[i as int] == handle@
                    &&& forall|j: int| 0 <= j < i ==> self@.texture_handles[j] != handle@
                },
                None => forall|j: int|
                    0 <= j < self@.texture_handles.len() ==> self@.texture_handles[j] != handle@,
            },
    {
        let mut i: usize = 0;
        while i < self.texture_handles.len()
            invariant
                0 <= i <= self.texture_handles@.len(),
                forall|j: int| 0 <= j < i ==> self@.texture_handles[j] != handle@,
            decreases self.texture_handles@.len() - i,
        {
            if crate::name_map::str_eq(self.texture_handles[i].as_str(), handle) {
                return Some(i);
            }
            i = i + 1;
        }
        None
    }
}

} // verus!
