//! Atlas packer: lays the frames of one sprite file out in a single atlas.
//!
//! The layout is a shelf packing. Frames are placed left to right in input
//! order; when a frame no longer fits in the current row, a new row (shelf)
//! starts below the tallest frame of the previous one. The placement is a
//! function of the input order alone, so packing is deterministic.
use vstd::prelude::*;

verus! {

/// Width and height of an image in pixels.
#[derive(Debug, Clone, Copy, PartialEq, Eq, Structural)]
pub struct FrameSize {
    pub width: u32,
    pub height: u32,
}

/// An axis-aligned rectangle inside an atlas, in pixels.
#[derive(Debug, Clone, Copy, PartialEq, Eq, Structural)]
pub struct Rect {
    pub x: u32,
    pub y: u32,
    pub width: u32,
    pub height: u32,
}

/// Why a list of frames could not be packed.
#[derive(Debug, Clone, Copy, PartialEq, Eq, Structural)]
pub enum PackingError {
    /// The frame at this index is wider or taller than the atlas may be.
    FrameTooLarge { frame: usize },
    /// The frame at this index found no room left in the atlas.
    AtlasFull { frame: usize },
}

/// The result of packing: the atlas dimensions and one rectangle per input
/// frame, where slot `i` holds frame `i`.
#[derive(Debug, Clone, PartialEq, Eq)]
pub struct AtlasLayout {
    pub width: u32,
    pub height: u32,
    pub rects: Vec<Rect>,
}

/// State of the shelf packer between two frames: the next free x position on
/// the current shelf, the y position of the shelf, the height of the tallest
/// frame on it, and the widest extent used by any shelf so far.
pub struct Cursor {
    pub x: int,
    pub y: int,
    pub h: int,
    pub used_w: int,
}

/// True if the two rectangles share no pixel.
pub open spec fn disjoint(a: Rect, b: Rect) -> bool {
    ||| a.x + a.width <= b.x
    ||| b.x + b.width <= a.x
    ||| a.y + a.height <= b.y
    ||| b.y + b.height <= a.y
}

/// True if the rectangle lies inside an atlas of the given dimensions.
pub open spec fn within(r: Rect, width: int, height: int) -> bool {
    r.x + r.width <= width && r.y + r.height <= height
}

/// True if no two rectangles at different positions of `rects` share a pixel.
pub open spec fn pairwise_disjoint(rects: Seq<Rect>) -> bool {
    forall|i: int, j: int|
        0 <= i < j < rects.len() ==> disjoint(#[trigger] rects[i], #[trigger] rects[j])
}

/// True if a frame of size `s` starts a new shelf when the cursor is at `c`.
pub open spec fn wraps(c: Cursor, s: FrameSize, max_width: int) -> bool {
    c.x + s.width > max_width
}

/// Where a frame of size `s` goes when the cursor is at `c`.
pub open spec fn slot_for(c: Cursor, s: FrameSize, max_width: int) -> Rect {
    if wraps(c, s, max_width) {
        Rect { x: 0, y: (c.y + c.h) as u32, width: s.width, height: s.height }
    } else {
        Rect { x: c.x as u32, y: c.y as u32, width: s.width, height: s.height }
    }
}

/// The cursor after a frame of size `s` was placed from cursor `c`.
pub open spec fn advance(c: Cursor, s: FrameSize, max_width: int) -> Cursor {
    if wraps(c, s, max_width) {
        Cursor {
            x: s.width as int,
            y: c.y + c.h,
            h: s.height as int,
            used_w: if c.used_w >= s.width { c.used_w } else { s.width as int },
        }
    } else {
        Cursor {
            x: c.x + s.width,
            y: c.y,
            h: if c.h >= s.height { c.h } else { s.height as int },
            used_w: if c.used_w >= c.x + s.width { c.used_w } else { c.x + s.width },
        }
    }
}

/// The cursor after the first `k` frames were placed.
pub open spec fn cursor_after(sizes: Seq<FrameSize>, max_width: int, k: int) -> Cursor
    decreases k,
{
    if k <= 0 {
        Cursor { x: 0, y: 0, h: 0, used_w: 0 }
    } else {
        advance(cursor_after(sizes, max_width, k - 1), sizes[k - 1], max_width)
    }
}

/// The rectangle that the shelf layout gives to frame `i`.
pub open spec fn slot_of(sizes: Seq<FrameSize>, max_width: int, i: int) -> Rect {
    slot_for(cursor_after(sizes, max_width, i), sizes[i], max_width)
}

/// True if frame `i` is no larger than the atlas may be.
pub open spec fn admissible(sizes: Seq<FrameSize>, max_width: int, max_height: int, i: int) -> bool {
    sizes[i].width <= max_width && sizes[i].height <= max_height
}

/// True if frame `i` finds room: its shelf does not end below the atlas.
pub open spec fn has_room(sizes: Seq<FrameSize>, max_width: int, max_height: int, i: int) -> bool {
    let c = cursor_after(sizes, max_width, i);
    let top = if wraps(c, sizes[i], max_width) { c.y + c.h } else { c.y };
    top + sizes[i].height <= max_height
}

/// True if frame `i` can be placed.
pub open spec fn fits(sizes: Seq<FrameSize>, max_width: int, max_height: int, i: int) -> bool {
    admissible(sizes, max_width, max_height, i) && has_room(sizes, max_width, max_height, i)
}

/// True if the first `k` frames can all be placed.
pub open spec fn all_fit(sizes: Seq<FrameSize>, max_width: int, max_height: int, k: int) -> bool {
    forall|i: int| 0 <= i < k ==> #[trigger] fits(sizes, max_width, max_height, i)
}

/// What the packer maintains about the first `k` frames: the cursor stays in
/// the atlas, every frame placed so far lies above the current shelf or on it
/// to the left of the cursor, and inside the extent used so far.
pub open spec fn shelf_invariant(
    sizes: Seq<FrameSize>,
    max_width: int,
    max_height: int,
    k: int,
) -> bool {
    let c = cursor_after(sizes, max_width, k);
    &&& 0 <= c.x <= c.used_w <= max_width
    &&& 0 <= c.y
    &&& 0 <= c.h
    &&& c.y + c.h <= max_height
    &&& forall|i: int|
        0 <= i < k ==> {
            let r = #[trigger] slot_of(sizes, max_width, i);
            &&& r.x + r.width <= c.used_w
            &&& r.y + r.height <= c.y + c.h
            &&& (r.y + r.height <= c.y || (r.y == c.y && r.x + r.width <= c.x))
        }
}

/// Placing one more frame that fits keeps the shelf invariant, and the new
/// frame shares no pixel with any earlier one.
pub proof fn lemma_shelf_step(sizes: Seq<FrameSize>, max_width: int, max_height: int, k: int)
    requires
        0 <= k < sizes.len(),
        0 <= max_width <= u32::MAX,
        0 <= max_height <= u32::MAX,
        shelf_invariant(sizes, max_width, max_height, k),
        fits(sizes, max_width, max_height, k),
    ensures
        shelf_invariant(sizes, max_width, max_height, k + 1),
        forall|i: int|
            0 <= i < k ==> disjoint(
                #[trigger] slot_of(sizes, max_width, i),
                slot_of(sizes, max_width, k),
            ),
        slot_of(sizes, max_width, k).width == sizes[k].width,
        slot_of(sizes, max_width, k).height == sizes[k].height,
{
    let c = cursor_after(sizes, max_width, k);
    let n = cursor_after(sizes, max_width, k + 1);
    let s = sizes[k];
    assert(n == advance(c, s, max_width));
    assert forall|i: int| 0 <= i < k + 1 implies {
        let q = #[trigger] slot_of(sizes, max_width, i);
        &&& q.x + q.width <= n.used_w
        &&& q.y + q.height <= n.y + n.h
        &&& (q.y + q.height <= n.y || (q.y == n.y && q.x + q.width <= n.x))
    } by {
        if i < k {
            let q = slot_of(sizes, max_width, i);
            assert(q.x + q.width <= c.used_w);
        }
    }
    assert forall|i: int| 0 <= i < k implies disjoint(
        #[trigger] slot_of(sizes, max_width, i),
        slot_of(sizes, max_width, k),
    ) by {
        let q = slot_of(sizes, max_width, i);
        assert(q.y + q.height <= c.y || (q.y == c.y && q.x + q.width <= c.x));
    }
}

/// Every frame of a layout that fits is inside the final extent, and no two
/// frames of it share a pixel.
pub proof fn lemma_shelf_layout_is_disjoint(
    sizes: Seq<FrameSize>,
    max_width: int,
    max_height: int,
    k: int,
)
    requires
        0 <= k <= sizes.len(),
        0 <= max_width <= u32::MAX,
        0 <= max_height <= u32::MAX,
        all_fit(sizes, max_width, max_height, k),
    ensures
        shelf_invariant(sizes, max_width, max_height, k),
        forall|i: int, j: int|
            0 <= i < j < k ==> disjoint(
                #[trigger] slot_of(sizes, max_width, i),
                #[trigger] slot_of(sizes, max_width, j),
            ),
    decreases k,
{
    if k > 0 {
        assert(all_fit(sizes, max_width, max_height, k - 1)) by {
            assert forall|i: int| 0 <= i < k - 1 implies #[trigger] fits(
                sizes,
                max_width,
                max_height,
                i,
            ) by {}
        }
        lemma_shelf_layout_is_disjoint(sizes, max_width, max_height, k - 1);
        assert(fits(sizes, max_width, max_height, k - 1));
        lemma_shelf_step(sizes, max_width, max_height, k - 1);
    }
}

impl AtlasLayout {
    /// The layout is well formed: every slot lies inside the atlas and no two
    /// slots share a pixel.
    pub open spec fn wf(&self) -> bool {
        &&& forall|i: int|
            0 <= i < self.rects@.len() ==> within(
                #[trigger] self.rects@[i],
                self.width as int,
                self.height as int,
            )
        &&& pairwise_disjoint(self.rects@)
    }

    /// True if this is the shelf layout of `sizes` in an atlas of at most
    /// `max_width` by `max_height` pixels.
    pub open spec fn is_layout_of(
        &self,
        sizes: Seq<FrameSize>,
        max_width: int,
        max_height: int,
    ) -> bool {
        let end = cursor_after(sizes, max_width, sizes.len() as int);
        &&& self.rects@.len() == sizes.len()
        &&& forall|i: int|
            0 <= i < sizes.len() ==> #[trigger] self.rects@[i] == slot_of(sizes, max_width, i)
        &&& self.width == end.used_w
        &&& self.height == end.y + end.h
    }

    /// Number of slots in the atlas.
    pub fn len(&self) -> (n: usize)
        ensures
            n == self.rects@.len(),
    {
        self.rects.len()
    }

    /// The rectangle of the given slot, if the atlas has that slot.
    pub fn rect(&self, slot: usize) -> (r: Option<Rect>)
        ensures
            r == if slot < self.rects@.len() {
                Some(self.rects@[slot as int])
            } else {
                None
            },
    {
        if slot < self.rects.len() {
            Some(self.rects[slot])
        } else {
            None
        }
    }
}

/// True if `r` is what packing `sizes` gives: the shelf layout if every
/// frame fits, else the error for the first frame that does not.
pub open spec fn packed(
    sizes: Seq<FrameSize>,
    max_width: int,
    max_height: int,
    r: Result<AtlasLayout, PackingError>,
) -> bool {
    match r {
        Ok(layout) => {
            &&& all_fit(sizes, max_width, max_height, sizes.len() as int)
            &&& layout.is_layout_of(sizes, max_width, max_height)
            &&& layout.wf()
            &&& layout.width <= max_width
            &&& layout.height <= max_height
            &&& forall|i: int|
                0 <= i < sizes.len() ==> (#[trigger] layout.rects@[i]).width == sizes[i].width
                    && layout.rects@[i].height == sizes[i].height
        },
        Err(PackingError::FrameTooLarge { frame }) => {
            &&& frame < sizes.len()
            &&& all_fit(sizes, max_width, max_height, frame as int)
            &&& !admissible(sizes, max_width, max_height, frame as int)
        },
        Err(PackingError::AtlasFull { frame }) => {
            &&& frame < sizes.len()
            &&& all_fit(sizes, max_width, max_height, frame as int)
            &&& admissible(sizes, max_width, max_height, frame as int)
            &&& !has_room(sizes, max_width, max_height, frame as int)
        },
    }
}

/// Packs frames of the given sizes, in order, into one atlas of at most
/// `max_width` by `max_height` pixels.
///
/// On success slot `i` of the layout holds frame `i`, with the frame's own
/// size, inside the atlas, and no two slots overlap. Packing fails at the
/// first frame that cannot be placed: `FrameTooLarge` if the frame alone
/// exceeds the atlas limits, `AtlasFull` if the shelves above it leave no room.
pub fn pack(sizes: &Vec<FrameSize>, max_width: u32, max_height: u32) -> (r: Result<
    AtlasLayout,
    PackingError,
>)
    ensures
        packed(sizes@, max_width as int, max_height as int, r),
{
    let n: usize = sizes.len();
    let mut rects: Vec<Rect> = Vec::new();
    let mut x: u32 = 0;
    let mut y: u32 = 0;
    let mut h: u32 = 0;
    let mut used_w: u32 = 0;
    let mut k: usize = 0;
    let ghost mw = max_width as int;
    let ghost mh = max_height as int;
    while k < n
        invariant
            n == sizes@.len(),
            mw == max_width as int,
            mh == max_height as int,
            0 <= k <= n,
            rects@.len() == k,
            all_fit(sizes@, mw, mh, k as int),
            shelf_invariant(sizes@, mw, mh, k as int),
            cursor_after(sizes@, mw, k as int) == (Cursor {
                x: x as int,
                y: y as int,
                h: h as int,
                used_w: used_w as int,
            }),
            forall|i: int| 0 <= i < k ==> #[trigger] rects@[i] == slot_of(sizes@, mw, i),
            pairwise_disjoint(rects@),
        decreases n - k,
    {
        let s = sizes[k];
        if s.width > max_width || s.height > max_height {
            return Err(PackingError::FrameTooLarge { frame: k });
        }
        let wrap = s.width > max_width - x;
        let top: u32 = if wrap {
            y + h
        } else {
            y
        };
        if s.height > max_height - top {
            return Err(PackingError::AtlasFull { frame: k });
        }
        let left: u32 = if wrap {
            0
        } else {
            x
        };
        let r = Rect { x: left, y: top, width: s.width, height: s.height };
        proof {
            assert(fits(sizes@, mw, mh, k as int));
            assert(r == slot_of(sizes@, mw, k as int));
            lemma_shelf_step(sizes@, mw, mh, k as int);
            assert(cursor_after(sizes@, mw, k + 1) == advance(
                cursor_after(sizes@, mw, k as int),
                sizes@[k as int],
                mw,
            ));
        }
        let ghost before = rects@;
        rects.push(r);
        proof {
            assert forall|i: int, j: int| 0 <= i < j < rects@.len() implies disjoint(
                #[trigger] rects@[i],
                #[trigger] rects@[j],
            ) by {
                if j < k {
                    assert(rects@[i] == before[i] && rects@[j] == before[j]);
                } else {
                    assert(rects@[i] == slot_of(sizes@, mw, i));
                }
            }
        }
        if wrap {
            y = top;
            h = s.height;
            x = s.width;
        } else {
            x = x + s.width;
            if s.height > h {
                h = s.height;
            }
        }
        if x > used_w {
            used_w = x;
        }
        k = k + 1;
    }
    let layout = AtlasLayout { width: used_w, height: y + h, rects };
    proof {
        assert forall|i: int| 0 <= i < layout.rects@.len() implies within(
            #[trigger] layout.rects@[i],
            layout.width as int,
            layout.height as int,
        ) by {
            let q = slot_of(sizes@, mw, i);
            assert(q.x + q.width <= used_w);
        }
    }
    Ok(layout)
}

} // verus!
