//! Atlas images: the frames of a sprite file drawn into one image, each at
//! its slot of the atlas layout.
use crate::animation::SpriteData;
use crate::image::{byte_len, Image};
use crate::packer::{AtlasLayout, Rect};
use vstd::prelude::*;

verus! {

/// Position, in the data of an image `width` pixels wide, of channel `c` of
/// the pixel in column `x` of row `y`.
pub open spec fn byte_index(width: int, x: int, y: int, c: int) -> int {
    4 * (y * width + x) + c
}

/// True if the rectangle covers the pixel in column `x` of row `y`.
pub open spec fn covers(r: Rect, x: int, y: int) -> bool {
    r.x <= x < r.x + r.width && r.y <= y < r.y + r.height
}

/// The last of the first `k` slots that covers the pixel, if any does.
pub open spec fn top_slot(rects: Seq<Rect>, x: int, y: int, k: int) -> Option<int>
    decreases k,
{
    if k <= 0 {
        None
    } else if covers(rects[k - 1], x, y) {
        Some(k - 1)
    } else {
        top_slot(rects, x, y, k - 1)
    }
}

/// Channel `c` of the atlas pixel in column `x` of row `y` after the first
/// `k` frames were drawn: that of the last frame whose slot covers the pixel,
/// and zero where no slot does.
pub open spec fn atlas_byte(
    rects: Seq<Rect>,
    sprites: Seq<SpriteData>,
    k: int,
    x: int,
    y: int,
    c: int,
) -> u8 {
    match top_slot(rects, x, y, k) {
        Some(i) => sprites[i].texture.data@[byte_index(
            rects[i].width as int,
            x - rects[i].x,
            y - rects[i].y,
            c,
        )],
        None => 0,
    }
}

/// True if the frames can be drawn into an atlas of the given layout: there
/// is one slot per frame, every slot lies inside the atlas and has the size
/// of its frame, every frame image has the data that its size asks for, and
/// the atlas image is not too large to be held in memory.
pub open spec fn composable(layout: AtlasLayout, sprites: Seq<SpriteData>) -> bool {
    &&& byte_len(layout.width as int, layout.height as int) <= usize::MAX
    &&& layout.rects@.len() == sprites.len()
    &&& forall|i: int| 0 <= i < sprites.len() ==> slot_holds(#[trigger] layout.rects@[i], layout, sprites[i])
}

/// True if the slot lies inside the atlas and the frame has the slot's size
/// and the data that the size asks for.
pub open spec fn slot_holds(r: Rect, layout: AtlasLayout, sprite: SpriteData) -> bool {
    &&& r.x + r.width <= layout.width
    &&& r.y + r.height <= layout.height
    &&& sprite.texture.width == r.width
    &&& sprite.texture.height == r.height
    &&& sprite.texture.wf()
}

/// True if `atlas` is the image of the layout with the frames drawn into it.
pub open spec fn composed(atlas: Image, layout: AtlasLayout, sprites: Seq<SpriteData>) -> bool {
    &&& atlas.wf()
    &&& atlas.width == layout.width
    &&& atlas.height == layout.height
    &&& forall|x: int, y: int, c: int|
        0 <= x < layout.width && 0 <= y < layout.height && 0 <= c < 4 ==> atlas.data@[#[trigger] byte_index(
            layout.width as int,
            x,
            y,
            c,
        )] == atlas_byte(layout.rects@, sprites, sprites.len() as int, x, y, c)
}

/// A byte of a pixel inside an image lies inside the image's data.
pub proof fn lemma_byte_index_bound(width: int, height: int, x: int, y: int, c: int)
    requires
        0 <= x < width,
        0 <= y < height,
        0 <= c < 4,
    ensures
        0 <= byte_index(width, x, y, c) < byte_len(width, height),
        0 <= y * width + x < width * height,
{
    assert(0 <= y * width + x < width * height) by (nonlinear_arith)
        requires
            0 <= x < width,
            0 <= y < height,
    ;
    assert(4 * width * height == 4 * (width * height)) by (nonlinear_arith);
}

/// Different bytes of different pixels lie at different positions.
pub proof fn lemma_byte_index_injective(
    width: int,
    x1: int,
    y1: int,
    c1: int,
    x2: int,
    y2: int,
    c2: int,
)
    requires
        0 <= x1 < width,
        0 <= x2 < width,
        0 <= y1,
        0 <= y2,
        0 <= c1 < 4,
        0 <= c2 < 4,
        byte_index(width, x1, y1, c1) == byte_index(width, x2, y2, c2),
    ensures
        x1 == x2,
        y1 == y2,
        c1 == c2,
{
    assert(y1 * width + x1 == y2 * width + x2 && c1 == c2);
    assert(y1 == y2) by (nonlinear_arith)
        requires
            y1 * width + x1 == y2 * width + x2,
            0 <= x1 < width,
            0 <= x2 < width,
            0 <= y1,
            0 <= y2,
    ;
    assert(y1 * width == y2 * width);
}

/// Checks that the frames can be drawn into an atlas of the given layout.
fn check_composable(layout: &AtlasLayout, sprites: &Vec<SpriteData>) -> (ok: bool)
    ensures
        ok == composable(*layout, sprites@),
{
    assert(0 <= layout.width * layout.height <= 0xffff_ffff * 0xffff_ffff) by (nonlinear_arith)
        requires
            0 <= layout.width <= 0xffff_ffff,
            0 <= layout.height <= 0xffff_ffff,
    ;
    let area: u64 = (layout.width as u64) * (layout.height as u64);
    assert(byte_len(layout.width as int, layout.height as int) == 4 * area) by (nonlinear_arith)
        requires
            area == layout.width * layout.height,
    ;
    if area > (usize::MAX / 4) as u64 {
        return false;
    }
    if layout.rects.len() != sprites.len() {
        return false;
    }
    let mut i: usize = 0;
    while i < sprites.len()
        invariant
            0 <= i <= sprites@.len(),
            layout.rects@.len() == sprites@.len(),
            forall|j: int|
                0 <= j < i ==> slot_holds(#[trigger] layout.rects@[j], *layout, sprites@[j]),
        decreases sprites@.len() - i,
    {
        let r = layout.rects[i];
        let t = &sprites[i].texture;
        if r.width > layout.width || r.x > layout.width - r.width {
            return false;
        }
        if r.height > layout.height || r.y > layout.height - r.height {
            return false;
        }
        if t.width != r.width || t.height != r.height || !t.is_wf() {
            return false;
        }
        i = i + 1;
    }
    true
}

/// Copies the four bytes of a pixel.
fn copy_pixel(data: &mut Vec<u8>, to: usize, source: &Vec<u8>, from: usize)
    requires
        to + 4 <= old(data)@.len(),
        from + 4 <= source@.len(),
    ensures
        final(data)@.len() == old(data)@.len(),
        forall|p: int|
            0 <= p < old(data)@.len() ==> #[trigger] final(data)@[p] == if to <= p < to + 4 {
                source@[from + (p - to)]
            } else {
                old(data)@[p]
            },
{
    // Reading the lengths tells that the positions below fit in a `usize`.
    let _ = data.len();
    let _ = source.len();
    data.set(to, source[from]);
    data.set(to + 1, source[from + 1]);
    data.set(to + 2, source[from + 2]);
    data.set(to + 3, source[from + 3]);
}

/// Channel `c` of the pixel at `x`, `y` while frame `k` is being drawn and
/// its first `rows` rows and the first `cols` pixels of the next are done.
pub open spec fn partial_byte(
    rects: Seq<Rect>,
    sprites: Seq<SpriteData>,
    k: int,
    rows: int,
    cols: int,
    x: int,
    y: int,
    c: int,
) -> u8 {
    let r = rects[k];
    if covers(r, x, y) && (y - r.y < rows || (y - r.y == rows && x - r.x < cols)) {
        sprites[k].texture.data@[byte_index(r.width as int, x - r.x, y - r.y, c)]
    } else {
        atlas_byte(rects, sprites, k, x, y, c)
    }
}

/// Draws one row of frame `k` into the atlas data.
fn draw_row(data: &mut Vec<u8>, layout: &AtlasLayout, sprites: &Vec<SpriteData>, k: usize, row: u32)
    requires
        composable(*layout, sprites@),
        k < sprites@.len(),
        row < layout.rects@[k as int].height,
        old(data)@.len() == byte_len(layout.width as int, layout.height as int),
        forall|x: int, y: int, c: int|
            0 <= x < layout.width && 0 <= y < layout.height && 0 <= c < 4 ==> old(data)@[#[trigger] byte_index(
                layout.width as int,
                x,
                y,
                c,
            )] == partial_byte(layout.rects@, sprites@, k as int, row as int, 0, x, y, c),
    ensures
        final(data)@.len() == old(data)@.len(),
        forall|x: int, y: int, c: int|
            0 <= x < layout.width && 0 <= y < layout.height && 0 <= c < 4 ==> final(data)@[#[trigger] byte_index(
                layout.width as int,
                x,
                y,
                c,
            )] == partial_byte(layout.rects@, sprites@, k as int, row + 1, 0, x, y, c),
{
    let r = layout.rects[k];
    let source = &sprites[k].texture.data;
    let ghost w = layout.width as int;
    let ghost h = layout.height as int;
    let ghost rects = layout.rects@;
    assert(slot_holds(layout.rects@[k as int], *layout, sprites@[k as int]));
    let mut col: u32 = 0;
    while col < r.width
        invariant
            0 <= col <= r.width,
            composable(*layout, sprites@),
            k < sprites@.len(),
            r == layout.rects@[k as int],
            rects == layout.rects@,
            slot_holds(r, *layout, sprites@[k as int]),
            source == &sprites@[k as int].texture.data,
            row < r.height,
            w == layout.width,
            h == layout.height,
            data@.len() == byte_len(w, h),
            forall|x: int, y: int, c: int|
                0 <= x < w && 0 <= y < h && 0 <= c < 4 ==> data@[#[trigger] byte_index(w, x, y, c)]
                    == partial_byte(rects, sprites@, k as int, row as int, col as int, x, y, c),
        decreases r.width - col,
    {
        let ghost x0 = r.x + col;
        let ghost y0 = r.y + row;
        proof {
            lemma_byte_index_bound(w, h, x0, y0, 0);
            lemma_byte_index_bound(w, h, x0, y0, 3);
            lemma_byte_index_bound(r.width as int, r.height as int, col as int, row as int, 0);
            lemma_byte_index_bound(r.width as int, r.height as int, col as int, row as int, 3);
        }
        proof {
            let sw = r.width as int;
            let sh = r.height as int;
            assert(source@.len() == byte_len(sw, sh));
            assert(byte_len(sw, sh) == 4 * (sw * sh) && byte_len(w, h) == 4 * (w * h))
                by (nonlinear_arith);
            assert(0 <= row * sw <= row * sw + col) by (nonlinear_arith)
                requires
                    0 <= row,
                    0 <= sw,
                    0 <= col,
            ;
            assert(0 <= y0 * w <= y0 * w + x0) by (nonlinear_arith)
                requires
                    0 <= y0,
                    0 <= w,
                    0 <= x0,
            ;
        }
        // Reading the lengths tells that the positions below fit in a `usize`.
        let _ = source.len();
        let _ = data.len();
        let to_pixel: usize = (r.y + row) as usize * layout.width as usize + (r.x + col) as usize;
        let from_pixel: usize = row as usize * r.width as usize + col as usize;
        let to: usize = 4 * to_pixel;
        let from: usize = 4 * from_pixel;
        let ghost before = data@;
        copy_pixel(data, to, source, from);
        proof {
            assert forall|x: int, y: int, c: int|
                0 <= x < w && 0 <= y < h && 0 <= c < 4 implies data@[#[trigger] byte_index(
                w,
                x,
                y,
                c,
            )] == partial_byte(rects, sprites@, k as int, row as int, col + 1, x, y, c) by {
                lemma_byte_index_bound(w, h, x, y, c);
                let p = byte_index(w, x, y, c);
                if to <= p < to + 4 {
                    let c0 = p - to;
                    assert(p == byte_index(w, x0, y0, c0));
                    lemma_byte_index_injective(w, x, y, c, x0, y0, c0);
                    assert(from + c0 == byte_index(r.width as int, col as int, row as int, c0));
                } else {
                    if x == x0 && y == y0 {
                        assert(p == to + c);
                    }
                    assert(data@[p] == before[p]);
                }
            }
        }
        col = col + 1;
    }
}

/// Draws frame `k` into the atlas data.
fn draw_frame(data: &mut Vec<u8>, layout: &AtlasLayout, sprites: &Vec<SpriteData>, k: usize)
    requires
        composable(*layout, sprites@),
        k < sprites@.len(),
        old(data)@.len() == byte_len(layout.width as int, layout.height as int),
        forall|x: int, y: int, c: int|
            0 <= x < layout.width && 0 <= y < layout.height && 0 <= c < 4 ==> old(data)@[#[trigger] byte_index(
                layout.width as int,
                x,
                y,
                c,
            )] == atlas_byte(layout.rects@, sprites@, k as int, x, y, c),
    ensures
        final(data)@.len() == old(data)@.len(),
        forall|x: int, y: int, c: int|
            0 <= x < layout.width && 0 <= y < layout.height && 0 <= c < 4 ==> final(data)@[#[trigger] byte_index(
                layout.width as int,
                x,
                y,
                c,
            )] == atlas_byte(layout.rects@, sprites@, k + 1, x, y, c),
{
    let height = layout.rects[k].height;
    let ghost w = layout.width as int;
    let ghost h = layout.height as int;
    let mut row: u32 = 0;
    while row < height
        invariant
            0 <= row <= height,
            height == layout.rects@[k as int].height,
            composable(*layout, sprites@),
            k < sprites@.len(),
            w == layout.width,
            h == layout.height,
            data@.len() == byte_len(w, h),
            forall|x: int, y: int, c: int|
                0 <= x < w && 0 <= y < h && 0 <= c < 4 ==> data@[#[trigger] byte_index(w, x, y, c)]
                    == partial_byte(layout.rects@, sprites@, k as int, row as int, 0, x, y, c),
        decreases height - row,
    {
        draw_row(data, layout, sprites, k, row);
        row = row + 1;
    }
}

/// Draws the frames into one image, each at its slot of the layout.
///
/// Every pixel of the image is that of the frame whose slot covers it, and
/// transparent black where no slot does. Returns `None` if the frames do not
/// fit the layout, or if the image would be too large to be held in memory.
pub fn compose(layout: &AtlasLayout, sprites: &Vec<SpriteData>) -> (r: Option<Image>)
    ensures
        match r {
            Some(atlas) => composable(*layout, sprites@) && composed(atlas, *layout, sprites@),
            None => !composable(*layout, sprites@),
        },
{
    if !check_composable(layout, sprites) {
        return None;
    }
    let ghost w = layout.width as int;
    let ghost h = layout.height as int;
    assert(0 <= w * h && byte_len(w, h) == 4 * (w * h)) by (nonlinear_arith)
        requires
            0 <= w,
            0 <= h,
    ;
    let pixels: usize = layout.width as usize * layout.height as usize;
    let mut data: Vec<u8> = vec![0u8; 4 * pixels];
    assert forall|x: int, y: int, c: int|
        0 <= x < w && 0 <= y < h && 0 <= c < 4 implies data@[#[trigger] byte_index(w, x, y, c)]
        == atlas_byte(layout.rects@, sprites@, 0, x, y, c) by {
        lemma_byte_index_bound(w, h, x, y, c);
    }
    let mut k: usize = 0;
    while k < sprites.len()
        invariant
            0 <= k <= sprites@.len(),
            composable(*layout, sprites@),
            w == layout.width,
            h == layout.height,
            data@.len() == byte_len(w, h),
            forall|x: int, y: int, c: int|
                0 <= x < w && 0 <= y < h && 0 <= c < 4 ==> data@[#[trigger] byte_index(w, x, y, c)]
                    == atlas_byte(layout.rects@, sprites@, k as int, x, y, c),
        decreases sprites@.len() - k,
    {
        draw_frame(&mut data, layout, sprites, k);
        k = k + 1;
    }
    Some(Image { width: layout.width, height: layout.height, data })
}

/// Two slots that cover one pixel are not disjoint.
pub proof fn lemma_covered_twice(a: Rect, b: Rect, x: int, y: int)
    requires
        covers(a, x, y),
        covers(b, x, y),
    ensures
        !crate::packer::disjoint(a, b),
{
}

/// Where no two slots overlap, the slot that covers a pixel is the only one,
/// so it is the one on top.
pub proof fn lemma_top_slot_of_disjoint(rects: Seq<Rect>, i: int, x: int, y: int, k: int)
    requires
        crate::packer::pairwise_disjoint(rects),
        0 <= i < k <= rects.len(),
        covers(rects[i], x, y),
    ensures
        top_slot(rects, x, y, k) == Some(i),
    decreases k,
{
    if k - 1 > i {
        if covers(rects[k - 1], x, y) {
            lemma_covered_twice(rects[i], rects[k - 1], x, y);
            assert(crate::packer::disjoint(rects[i], rects[k - 1]));
        }
        lemma_top_slot_of_disjoint(rects, i, x, y, k - 1);
    }
}

/// In the image of a layout whose slots do not overlap, every frame stands
/// unchanged at its slot: the pixel in column `x` of row `y` of frame `i` is
/// the pixel of the atlas at that place of slot `i`.
pub proof fn lemma_frames_stand_in_their_slots(
    atlas: Image,
    layout: AtlasLayout,
    sprites: Seq<SpriteData>,
    i: int,
    x: int,
    y: int,
    c: int,
)
    requires
        composable(layout, sprites),
        composed(atlas, layout, sprites),
        crate::packer::pairwise_disjoint(layout.rects@),
        0 <= i < sprites.len(),
        0 <= x < layout.rects@[i].width,
        0 <= y < layout.rects@[i].height,
        0 <= c < 4,
    ensures
        atlas.data@[byte_index(
            layout.width as int,
            layout.rects@[i].x + x,
            layout.rects@[i].y + y,
            c,
        )] == sprites[i].texture.data@[byte_index(layout.rects@[i].width as int, x, y, c)],
{
    let r = layout.rects@[i];
    assert(slot_holds(r, layout, sprites[i]));
    lemma_top_slot_of_disjoint(layout.rects@, i, r.x + x, r.y + y, sprites.len() as int);
}

} // verus!
