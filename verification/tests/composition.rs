//! Atlas images.
use bevy_ase::animation::SpriteData;
use bevy_ase::compose::compose;
use bevy_ase::handle_id;
use bevy_ase::image::Image;
use bevy_ase::packer::{pack, AtlasLayout, FrameSize, Rect};

fn sprite(frame: u32, width: u32, height: u32, first: u8) -> SpriteData {
    let mut data = Vec::new();
    for i in 0..(4 * width * height) {
        data.push(first.wrapping_add(i as u8));
    }
    SpriteData { frame, texture: Image { width, height, data }, duration: 100 }
}

fn sizes(sprites: &[SpriteData]) -> Vec<FrameSize> {
    sprites
        .iter()
        .map(|s| FrameSize { width: s.texture.width, height: s.texture.height })
        .collect()
}

#[test]
fn compose_draws_each_frame_at_its_slot() {
    let sprites = vec![sprite(0, 2, 1, 10), sprite(1, 1, 2, 100)];
    let layout = pack(&sizes(&sprites), 3, 8).unwrap();
    assert_eq!((layout.width, layout.height), (3, 2));
    let atlas = compose(&layout, &sprites).unwrap();
    assert_eq!((atlas.width, atlas.height), (3, 2));
    assert_eq!(
        atlas.data,
        vec![
            10, 11, 12, 13, 14, 15, 16, 17, 100, 101, 102, 103, //
            0, 0, 0, 0, 0, 0, 0, 0, 104, 105, 106, 107
        ]
    );
}

#[test]
fn compose_keeps_every_pixel_of_every_frame() {
    let mut sprites = Vec::new();
    for i in 0..9u32 {
        sprites.push(sprite(i, 1 + i % 4, 1 + (i * 3) % 5, (i * 29) as u8));
    }
    let layout = pack(&sizes(&sprites), 7, 64).unwrap();
    let atlas = compose(&layout, &sprites).unwrap();
    assert_eq!(atlas.data.len() as u32, 4 * layout.width * layout.height);
    for (i, s) in sprites.iter().enumerate() {
        let r = layout.rects[i];
        for y in 0..r.height {
            for x in 0..r.width {
                for c in 0..4 {
                    let at = (4 * ((r.y + y) * layout.width + r.x + x) + c) as usize;
                    let from = (4 * (y * r.width + x) + c) as usize;
                    assert_eq!(atlas.data[at], s.texture.data[from]);
                }
            }
        }
    }
}

#[test]
fn compose_of_no_frames_is_an_empty_image() {
    let layout = pack(&vec![], 8, 8).unwrap();
    let atlas = compose(&layout, &vec![]).unwrap();
    assert_eq!((atlas.width, atlas.height, atlas.data.len()), (0, 0, 0));
}

#[test]
fn compose_draws_later_frames_over_earlier_ones() {
    let sprites = vec![sprite(0, 2, 1, 1), sprite(1, 1, 1, 200)];
    let layout = AtlasLayout {
        width: 2,
        height: 1,
        rects: vec![
            Rect { x: 0, y: 0, width: 2, height: 1 },
            Rect { x: 1, y: 0, width: 1, height: 1 },
        ],
    };
    let atlas = compose(&layout, &sprites).unwrap();
    assert_eq!(atlas.data, vec![1, 2, 3, 4, 200, 201, 202, 203]);
}

#[test]
fn compose_rejects_frames_that_do_not_fit_the_layout() {
    let layout = AtlasLayout {
        width: 2,
        height: 2,
        rects: vec![Rect { x: 0, y: 0, width: 2, height: 2 }],
    };
    assert!(compose(&layout, &vec![]).is_none());
    assert!(compose(&layout, &vec![sprite(0, 2, 1, 0)]).is_none());
    let mut short = sprite(0, 2, 2, 0);
    short.texture.data.pop();
    assert!(compose(&layout, &vec![short]).is_none());
    let outside = AtlasLayout {
        width: 2,
        height: 2,
        rects: vec![Rect { x: 1, y: 0, width: 2, height: 2 }],
    };
    assert!(compose(&outside, &vec![sprite(0, 2, 2, 0)]).is_none());
    assert!(compose(&layout, &vec![sprite(0, 2, 2, 0)]).is_some());
}

#[test]
fn atlas_image_id_is_path_and_label() {
    assert_eq!(handle_id::atlas_image("a/b.ase"), "a/b.ase#AtlasImage");
}

#[test]
fn image_new_checks_the_data_length() {
    assert!(Image::new(2, 3, vec![0; 24]).is_some());
    assert!(Image::new(2, 3, vec![0; 23]).is_none());
    assert!(Image::new(2, 3, vec![0; 25]).is_none());
    assert!(Image::new(0, 3, vec![]).is_some());
    let img = Image::new(1, 1, vec![1, 2, 3, 4]).unwrap();
    assert_eq!((img.width, img.height), (1, 1));
    assert_eq!(img.data, vec![1, 2, 3, 4]);
    assert!(img.is_wf());
    assert!(!Image { width: 1, height: 1, data: vec![0; 3] }.is_wf());
}
