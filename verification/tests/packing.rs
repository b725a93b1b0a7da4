//! The atlas packer on concrete frames.
use bevy_ase::packer::{pack, AtlasLayout, FrameSize, PackingError, Rect};

fn size(width: u32, height: u32) -> FrameSize {
    FrameSize { width, height }
}

fn rect(x: u32, y: u32, width: u32, height: u32) -> Rect {
    Rect { x, y, width, height }
}

fn overlap(a: &Rect, b: &Rect) -> bool {
    a.x < b.x + b.width && b.x < a.x + a.width && a.y < b.y + b.height && b.y < a.y + a.height
}

#[test]
fn pack_of_nothing_is_an_empty_atlas() {
    let layout = pack(&vec![], 16, 16).unwrap();
    assert_eq!(layout, AtlasLayout { width: 0, height: 0, rects: vec![] });
    assert_eq!(layout.len(), 0);
    assert_eq!(layout.rect(0), None);
}

#[test]
fn pack_places_frames_left_to_right_then_on_a_new_shelf() {
    let sizes = vec![size(4, 3), size(4, 5), size(4, 2), size(2, 2)];
    let layout = pack(&sizes, 10, 100).unwrap();
    assert_eq!(
        layout.rects,
        vec![rect(0, 0, 4, 3), rect(4, 0, 4, 5), rect(0, 5, 4, 2), rect(4, 5, 2, 2)]
    );
    assert_eq!((layout.width, layout.height), (8, 7));
    assert_eq!(layout.len(), 4);
    assert_eq!(layout.rect(2), Some(rect(0, 5, 4, 2)));
    assert_eq!(layout.rect(4), None);
}

#[test]
fn pack_gives_every_frame_one_slot_and_no_two_overlap() {
    let mut sizes = Vec::new();
    for i in 0..40u32 {
        sizes.push(size(1 + (i * 7) % 13, 1 + (i * 5) % 11));
    }
    let layout = pack(&sizes, 32, 2048).unwrap();
    assert_eq!(layout.rects.len(), sizes.len());
    for (i, r) in layout.rects.iter().enumerate() {
        assert_eq!((r.width, r.height), (sizes[i].width, sizes[i].height));
        assert!(r.x + r.width <= layout.width);
        assert!(r.y + r.height <= layout.height);
        for q in &layout.rects[..i] {
            assert!(!overlap(r, q));
        }
    }
    assert!(layout.width <= 32);
}

#[test]
fn pack_is_deterministic_for_a_fixed_input_order() {
    let sizes = vec![size(3, 3), size(5, 1), size(2, 7), size(3, 3)];
    assert_eq!(pack(&sizes, 8, 64), pack(&sizes, 8, 64));
}

#[test]
fn pack_fills_a_shelf_to_the_last_pixel() {
    let sizes = vec![size(5, 1), size(5, 1), size(1, 1)];
    let layout = pack(&sizes, 10, 2).unwrap();
    assert_eq!(layout.rects, vec![rect(0, 0, 5, 1), rect(5, 0, 5, 1), rect(0, 1, 1, 1)]);
    assert_eq!((layout.width, layout.height), (10, 2));
}

#[test]
fn pack_rejects_a_frame_larger_than_the_atlas() {
    let sizes = vec![size(4, 4), size(17, 1), size(1, 1)];
    assert_eq!(pack(&sizes, 16, 16), Err(PackingError::FrameTooLarge { frame: 1 }));
    let tall = vec![size(1, 17)];
    assert_eq!(pack(&tall, 16, 16), Err(PackingError::FrameTooLarge { frame: 0 }));
}

#[test]
fn pack_rejects_the_first_frame_that_finds_no_room() {
    let sizes = vec![size(8, 8), size(8, 8), size(8, 8), size(8, 8), size(1, 1)];
    assert_eq!(pack(&sizes, 16, 16), Err(PackingError::AtlasFull { frame: 4 }));
    let on_shelf = vec![size(4, 2), size(4, 9)];
    assert_eq!(pack(&on_shelf, 16, 8), Err(PackingError::FrameTooLarge { frame: 1 }));
    let below = vec![size(16, 6), size(16, 3)];
    assert_eq!(pack(&below, 16, 8), Err(PackingError::AtlasFull { frame: 1 }));
}

#[test]
fn pack_accepts_empty_frames() {
    let sizes = vec![size(0, 0), size(3, 3), size(0, 5)];
    let layout = pack(&sizes, 4, 8).unwrap();
    assert_eq!(layout.rects, vec![rect(0, 0, 0, 0), rect(0, 0, 3, 3), rect(3, 0, 0, 5)]);
    assert_eq!((layout.width, layout.height), (3, 5));
}
