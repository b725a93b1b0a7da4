//! Materialization: from records to resources in the stores and the index.
use bevy_ase::animation::{Animation, AnimationData, Frame, Sprite, SpriteData};
use bevy_ase::ase::AseId;
use bevy_ase::asset_index::{AseAssetMap, AseFileMap};
use bevy_ase::assets::Assets;
use bevy_ase::document::{DecodeError, FrameData, SourceDocument, Tag};
use bevy_ase::image::Image;
use bevy_ase::materialize::{AseAssetResources, FileStatus, MaterializationError};
use bevy_ase::packer::{AtlasLayout, PackingError, Rect};
use bevy_ase::processing::{FileOutcome, ResourceData, ResourceDataByFile};
use bevy_ase::slice::{SliceAseKey, SliceData, SliceId};
use bevy_ase::tileset::{TileSize, TilesetAseKey, TilesetData, TilesetId};

fn image(width: u32, height: u32, fill: u8) -> Image {
    Image { width, height, data: vec![fill; (4 * width * height) as usize] }
}

fn tag(name: &str, from_frame: u32, to_frame: u32) -> Tag {
    Tag { name: name.to_string(), from_frame, to_frame }
}

fn document(durations: &[u32], tags: Vec<Tag>) -> SourceDocument {
    let mut frames = Vec::new();
    for (i, d) in durations.iter().enumerate() {
        frames.push(FrameData { image: image(2, 2, i as u8), duration: *d });
    }
    SourceDocument { width: 2, height: 2, frames, tags, tilesets: vec![], slices: vec![] }
}

fn extract(path: &str, doc: SourceDocument) -> ResourceData {
    match ResourceData::new(path, doc) {
        Ok(data) => data,
        Err(e) => panic!("extraction failed: {:?}", e),
    }
}

fn all_stores() -> AseAssetResources {
    AseAssetResources {
        textures: Assets::new(),
        animations: Some(Assets::new()),
        atlases: Some(Assets::new()),
        tilesets: Some(Assets::new()),
        slices: Some(Assets::new()),
        index: Some(AseFileMap::new()),
    }
}

fn frame(atlas_index: u32, duration_ms: u32) -> Frame {
    Frame { sprite: Sprite { atlas_index }, duration_ms }
}

#[test]
fn animations_refer_to_atlas_slots_with_durations() {
    let doc = document(&[10, 20, 30, 40], vec![tag("walk", 1, 3)]);
    let mut res = all_stores();
    extract("p.ase", doc).move_into_resources("p.ase", AseId(0), &mut res).unwrap();
    let index = res.index.as_ref().unwrap();
    let handle = index.animation("p.ase", "walk").unwrap();
    assert_eq!(handle, "p.ase#Animation/walk");
    let anim = res.animations.as_ref().unwrap().get(&handle).unwrap();
    assert_eq!(
        *anim,
        Animation::new(
            vec![frame(1, 20), frame(2, 30), frame(3, 40)],
            "p.ase#Atlas".to_string()
        )
    );
    assert_eq!(res.animations.as_ref().unwrap().len(), 1);
}

#[test]
fn frame_images_and_atlas_are_registered() {
    let doc = document(&[10, 20], vec![]);
    let mut res = all_stores();
    extract("p.ase", doc).move_into_resources("p.ase", AseId(0), &mut res).unwrap();
    let index = res.index.as_ref().unwrap();
    assert_eq!(index.texture("p.ase", 0), Some("p.ase#FrameImage0".to_string()));
    assert_eq!(index.texture("p.ase", 1), Some("p.ase#FrameImage1".to_string()));
    assert_eq!(index.texture("p.ase", 2), None);
    assert_eq!(res.textures.get("p.ase#FrameImage1").unwrap().data, vec![1; 16]);
    let assets = index.get("p.ase").unwrap();
    assert_eq!(assets.atlas(), Some(&"p.ase#Atlas".to_string()));
    let atlas = res.atlases.as_ref().unwrap().get("p.ase#Atlas").unwrap();
    assert_eq!((atlas.width, atlas.height), (4, 2));
    assert_eq!(
        atlas.textures,
        vec![Rect { x: 0, y: 0, width: 2, height: 2 }, Rect { x: 2, y: 0, width: 2, height: 2 }]
    );
    assert_eq!(atlas.texture_handles, vec!["p.ase#FrameImage0", "p.ase#FrameImage1"]);
    assert_eq!(atlas.get_texture_index("p.ase#FrameImage1"), Some(1));
    assert_eq!(atlas.get_texture_index("p.ase#FrameImage2"), None);
    assert_eq!(atlas.len(), 2);
    assert_eq!(atlas.texture, Some("p.ase#AtlasImage".to_string()));
    let atlas_image = res.textures.get("p.ase#AtlasImage").unwrap();
    assert_eq!((atlas_image.width, atlas_image.height), (4, 2));
    assert_eq!(
        atlas_image.data,
        vec![
            0, 0, 0, 0, 0, 0, 0, 0, 1, 1, 1, 1, 1, 1, 1, 1, //
            0, 0, 0, 0, 0, 0, 0, 0, 1, 1, 1, 1, 1, 1, 1, 1
        ]
    );
    assert_eq!(res.textures.len(), 3);
}

#[test]
fn tilesets_and_slices_are_registered() {
    let mut doc = document(&[10], vec![]);
    doc.tilesets.push(TilesetData {
        id: TilesetId(5),
        tile_count: 3,
        tile_size: TileSize { width: 2, height: 1 },
        name: "tiles".to_string(),
        texture: image(2, 3, 9),
    });
    doc.slices.push(SliceData { name: "head".to_string(), keys: vec![], user_data: None });
    doc.slices.push(SliceData { name: "foot".to_string(), keys: vec![], user_data: None });
    let mut res = all_stores();
    extract("q.ase", doc).move_into_resources("q.ase", AseId(3), &mut res).unwrap();
    let index = res.index.as_ref().unwrap();
    let handle = index.tileset("q.ase", 5).unwrap();
    assert_eq!(handle, "q.ase#Tileset5");
    assert_eq!(index.tileset("q.ase", 4), None);
    let tileset = res.tilesets.as_ref().unwrap().get(&handle).unwrap();
    assert_eq!(tileset.key, TilesetAseKey::new(AseId(3), TilesetId(5)));
    assert_eq!(tileset.name, "tiles");
    assert_eq!(tileset.tile_count, 3);
    assert_eq!(tileset.texture, "q.ase#TilesetImage5");
    assert_eq!(tileset.texture_size(), (2, 3));
    assert_eq!(res.textures.get("q.ase#TilesetImage5").unwrap().data, vec![9; 24]);
    let foot = index.slice("q.ase", "foot").unwrap();
    assert_eq!(foot, "q.ase#Slice/foot");
    let slice = res.slices.as_ref().unwrap().get(&foot).unwrap();
    assert_eq!(slice.key, SliceAseKey::new(AseId(3), SliceId(1)));
    assert_eq!(slice.name, "foot");
    assert_eq!(index.slice("q.ase", "hand"), None);
}

#[test]
fn of_two_tags_named_idle_the_last_one_is_kept() {
    let doc = document(&[10, 20, 30], vec![tag("Idle", 0, 0), tag("Idle", 1, 2)]);
    let data = extract("dup.ase", doc);
    assert_eq!(data.anims.len(), 3);
    let mut res = all_stores();
    data.move_into_resources("dup.ase", AseId(0), &mut res).unwrap();
    let handle = res.index.as_ref().unwrap().animation("dup.ase", "Idle").unwrap();
    let store = res.animations.as_ref().unwrap();
    assert_eq!(store.len(), 1);
    let anim = store.get(&handle).unwrap();
    assert_eq!(anim.frames, vec![frame(1, 20), frame(2, 30)]);
}

#[test]
fn of_two_slices_of_one_name_the_last_one_is_kept() {
    let mut doc = document(&[10], vec![]);
    doc.slices.push(SliceData { name: "s".to_string(), keys: vec![], user_data: None });
    doc.slices.push(SliceData { name: "s".to_string(), keys: vec![], user_data: None });
    let mut res = all_stores();
    extract("dup.ase", doc).move_into_resources("dup.ase", AseId(0), &mut res).unwrap();
    let handle = res.index.as_ref().unwrap().slice("dup.ase", "s").unwrap();
    let store = res.slices.as_ref().unwrap();
    assert_eq!(store.len(), 1);
    assert_eq!(store.get(&handle).unwrap().key.slice_id, SliceId(1));
}

#[test]
fn a_file_processed_twice_has_one_atlas_and_one_handle_per_name() {
    let mut res = all_stores();
    for _ in 0..2 {
        let doc = document(&[10, 20], vec![tag("t", 0, 1)]);
        extract("twice.ase", doc).move_into_resources("twice.ase", AseId(0), &mut res).unwrap();
    }
    assert_eq!(res.atlases.as_ref().unwrap().len(), 1);
    assert_eq!(res.animations.as_ref().unwrap().len(), 1);
    assert_eq!(res.textures.len(), 3);
    assert_eq!(
        res.index.as_ref().unwrap().animation("twice.ase", "t"),
        Some("twice.ase#Animation/t".to_string())
    );
}

#[test]
fn absent_stores_get_nothing() {
    let mut doc = document(&[10], vec![tag("t", 0, 0)]);
    doc.slices.push(SliceData { name: "s".to_string(), keys: vec![], user_data: None });
    let mut res = AseAssetResources {
        textures: Assets::new(),
        animations: Some(Assets::new()),
        atlases: None,
        tilesets: None,
        slices: None,
        index: Some(AseFileMap::new()),
    };
    extract("n.ase", doc).move_into_resources("n.ase", AseId(0), &mut res).unwrap();
    assert_eq!(res.textures.len(), 0);
    assert_eq!(res.animations.as_ref().unwrap().len(), 0);
    let index = res.index.as_ref().unwrap();
    assert!(index.get("n.ase").is_some());
    assert_eq!(index.animation("n.ase", "t"), None);
    assert_eq!(index.slice("n.ase", "s"), None);
    assert_eq!(index.get("n.ase").unwrap().atlas(), None);
}

#[test]
fn a_missing_placement_is_reported_and_changes_nothing() {
    let data = ResourceData {
        sprites: vec![SpriteData { frame: 0, texture: image(1, 1, 0), duration: 5 }],
        anims: vec![
            AnimationData { file: "m.ase".to_string(), tag: None, sprites: vec![7] },
            AnimationData { file: "m.ase".to_string(), tag: Some("ok".to_string()), sprites: vec![0] },
            AnimationData {
                file: "m.ase".to_string(),
                tag: Some("bad".to_string()),
                sprites: vec![0, 0, 1],
            },
        ],
        tilesets: vec![],
        slices: vec![SliceData { name: "s".to_string(), keys: vec![], user_data: None }],
        atlas: Ok(AtlasLayout {
            width: 1,
            height: 1,
            rects: vec![Rect { x: 0, y: 0, width: 1, height: 1 }],
        }),
        atlas_image: None,
    };
    let mut res = all_stores();
    assert_eq!(
        data.move_into_resources("m.ase", AseId(0), &mut res),
        Err(MaterializationError::MissingPlacement { animation: 2, frame: 2 })
    );
    assert_eq!(res.textures.len(), 0);
    assert_eq!(res.slices.as_ref().unwrap().len(), 0);
    assert!(res.index.as_ref().unwrap().get("m.ase").is_none());
}

#[test]
fn a_file_that_could_not_be_packed_keeps_images_tilesets_and_slices() {
    let mut doc = document(&[10], vec![tag("t", 0, 0)]);
    doc.frames[0].image = Image { width: 3000, height: 1, data: vec![0; 12000] };
    doc.slices.push(SliceData { name: "s".to_string(), keys: vec![], user_data: None });
    let batch = ResourceDataByFile::new(vec![("big.ase".to_string(), doc)]);
    let mut res = all_stores();
    let report = batch.move_into_resources(&mut res);
    assert_eq!(
        report,
        vec![FileStatus::PackingFailed(PackingError::FrameTooLarge { frame: 0 })]
    );
    let index = res.index.as_ref().unwrap();
    assert_eq!(index.texture("big.ase", 0), Some("big.ase#FrameImage0".to_string()));
    assert_eq!(index.slice("big.ase", "s"), Some("big.ase#Slice/s".to_string()));
    assert_eq!(index.animation("big.ase", "t"), None);
    assert_eq!(index.get("big.ase").unwrap().atlas(), None);
    assert_eq!(res.atlases.as_ref().unwrap().len(), 0);
}

#[test]
fn a_batch_reports_each_file_and_materializes_the_good_ones() {
    let inputs = vec![
        ("a.ase".to_string(), document(&[1, 2], vec![tag("run", 0, 1)])),
        ("b.ase".to_string(), document(&[1], vec![tag("broken", 1, 0)])),
        ("c.ase".to_string(), document(&[1, 2, 3], vec![tag("jump", 2, 2)])),
    ];
    let mut res = all_stores();
    let report = ResourceDataByFile::new(inputs).move_into_resources(&mut res);
    assert_eq!(
        report,
        vec![
            FileStatus::Done,
            FileStatus::DecodeFailed(DecodeError::InvalidTag { tag: 0 }),
            FileStatus::Done
        ]
    );
    let index = res.index.as_ref().unwrap();
    assert!(index.animation("a.ase", "run").is_some());
    assert!(index.animation("c.ase", "jump").is_some());
    assert_eq!(index.animation("b.ase", "broken"), None);
    assert!(index.get("b.ase").is_none());
}

#[test]
fn asset_map_lookups_miss_on_an_empty_map() {
    let m = AseAssetMap::new();
    assert_eq!(m.animation("x"), None);
    assert_eq!(m.slice("x"), None);
    assert_eq!(m.tileset(0), None);
    assert_eq!(m.texture(0), None);
    assert_eq!(m.atlas(), None);
}

#[test]
fn a_batch_reports_records_that_do_not_fit_together() {
    let broken = ResourceData {
        sprites: vec![SpriteData { frame: 0, texture: image(1, 1, 0), duration: 5 }],
        anims: vec![AnimationData {
            file: "x.ase".to_string(),
            tag: Some("t".to_string()),
            sprites: vec![3],
        }],
        tilesets: vec![],
        slices: vec![],
        atlas: Ok(AtlasLayout {
            width: 1,
            height: 1,
            rects: vec![Rect { x: 0, y: 0, width: 1, height: 1 }],
        }),
        atlas_image: None,
    };
    let batch = ResourceDataByFile(vec![
        FileOutcome { path: "x.ase".to_string(), id: AseId(0), result: Ok(broken) },
        FileOutcome {
            path: "y.ase".to_string(),
            id: AseId(1),
            result: ResourceData::new("y.ase", document(&[1], vec![tag("t", 0, 0)])),
        },
    ]);
    let mut res = all_stores();
    let report = batch.move_into_resources(&mut res);
    assert_eq!(
        report,
        vec![
            FileStatus::MaterializationFailed(MaterializationError::MissingPlacement {
                animation: 0,
                frame: 0
            }),
            FileStatus::Done
        ]
    );
    let index = res.index.as_ref().unwrap();
    assert!(index.get("x.ase").is_none());
    assert!(index.animation("y.ase", "t").is_some());
}

#[test]
fn move_animations_reports_a_missing_placement_itself() {
    let anims = vec![
        AnimationData { file: "m.ase".to_string(), tag: Some("ok".to_string()), sprites: vec![1, 0] },
        AnimationData { file: "m.ase".to_string(), tag: None, sprites: vec![9] },
        AnimationData { file: "m.ase".to_string(), tag: Some("bad".to_string()), sprites: vec![0, 2] },
    ];
    let durations = vec![10, 20];
    assert_eq!(
        bevy_ase::materialize::check_placements(&anims, 2),
        Err(MaterializationError::MissingPlacement { animation: 2, frame: 1 })
    );
    assert_eq!(bevy_ase::materialize::check_placements(&anims, 3), Ok(()));
    let mut store: Assets<Animation> = Assets::new();
    let mut assets = AseAssetMap::new();
    assert_eq!(
        bevy_ase::materialize::move_animations("m.ase", anims, &durations, &mut store, &mut assets),
        Err(MaterializationError::MissingPlacement { animation: 2, frame: 1 })
    );
    assert_eq!(store.len(), 0);
    assert_eq!(assets.animation("ok"), None);
    let good = vec![AnimationData {
        file: "m.ase".to_string(),
        tag: Some("ok".to_string()),
        sprites: vec![1, 0],
    }];
    assert_eq!(
        bevy_ase::materialize::move_animations("m.ase", good, &durations, &mut store, &mut assets),
        Ok(())
    );
    assert_eq!(store.get("m.ase#Animation/ok").unwrap().frames, vec![frame(1, 20), frame(0, 10)]);
    assert_eq!(assets.animation("ok"), Some(&"m.ase#Animation/ok".to_string()));
}
