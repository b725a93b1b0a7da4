//! The batch coordinator.
use bevy_ase::assets::Assets;
use bevy_ase::asset_index::AseFileMap;
use bevy_ase::document::{DecodeError, FrameData, SourceDocument, Tag};
use bevy_ase::image::Image;
use bevy_ase::loader::{ase_importer, AseAsset, AseData, LoadState, Loader, LoaderState};
use bevy_ase::materialize::{AseAssetResources, FileStatus};
use bevy_ase::processing::ResourceDataByFile;
use bevy_ase::tileset::{TileSize, TilesetData, TilesetId};

fn document(frames: usize, tags: &[(&str, u32, u32)]) -> SourceDocument {
    let mut list = Vec::new();
    for i in 0..frames {
        list.push(FrameData {
            image: Image { width: 1, height: 1, data: vec![i as u8; 4] },
            duration: 100,
        });
    }
    let tags = tags
        .iter()
        .map(|(n, a, b)| Tag { name: n.to_string(), from_frame: *a, to_frame: *b })
        .collect();
    SourceDocument { width: 1, height: 1, frames: list, tags, tilesets: vec![], slices: vec![] }
}

fn loaded(name: &str, doc: SourceDocument) -> AseAsset {
    AseAsset { data: AseData::Loaded(doc), name: name.to_string() }
}

fn all_stores() -> AseAssetResources {
    AseAssetResources {
        textures: Assets::new(),
        animations: Some(Assets::new()),
        atlases: Some(Assets::new()),
        tilesets: Some(Assets::new()),
        slices: Some(Assets::new()),
        index: Some(AseFileMap::new()),
    }
}

#[test]
fn a_new_loader_is_idle() {
    let loader = Loader::new();
    assert!(loader.is_loaded());
    assert_eq!(loader.pending_count(), 0);
    assert_eq!(loader.state(), LoaderState::Idle);
}

#[test]
fn a_loader_goes_from_waiting_to_dispatched_to_idle() {
    let mut loader = Loader::new();
    let mut files = vec![loaded("a.ase", document(1, &[]))];
    let mut res = all_stores();
    loader.add(0);
    assert_eq!(loader.state(), LoaderState::AwaitingBytes);
    let batch = loader.spawn_tasks(&mut files).unwrap();
    assert_eq!(loader.state(), LoaderState::Dispatched);
    loader.add(0);
    assert_eq!(loader.state(), LoaderState::AwaitingBytes);
    let second = loader.spawn_tasks(&mut files).unwrap();
    let outbox = Some(vec![ResourceDataByFile::new(batch)]);
    loader.move_finished_into_resources(outbox, &mut res);
    assert_eq!(loader.state(), LoaderState::Dispatched);
    let outbox = Some(vec![ResourceDataByFile::new(second)]);
    loader.move_finished_into_resources(outbox, &mut res);
    assert_eq!(loader.state(), LoaderState::Idle);
}

#[test]
fn a_loader_is_not_idle_right_after_add() {
    let mut loader = Loader::new();
    loader.add(0);
    assert!(!loader.is_loaded());
    assert_eq!(loader.pending_count(), 0);
}

#[test]
fn files_wait_until_all_bytes_are_there() {
    let mut loader = Loader::new();
    loader.add(0);
    loader.add(1);
    assert!(!loader.all_todo_handles_ready(&vec![LoadState::Loaded, LoadState::Loading]));
    assert!(!loader.all_todo_handles_ready(&vec![LoadState::NotLoaded, LoadState::Loaded]));
    assert!(!loader.all_todo_handles_ready(&vec![LoadState::Loaded]));
    assert!(loader.all_todo_handles_ready(&vec![LoadState::Loaded, LoadState::Loaded]));
    assert!(loader.all_todo_handles_ready(&vec![LoadState::Loaded, LoadState::Failed]));
    assert!(Loader::new().all_todo_handles_ready(&vec![]));
}

#[test]
fn a_poll_before_the_bytes_are_there_changes_nothing() {
    let mut loader = Loader::new();
    let mut files = vec![loaded("a.ase", document(1, &[]))];
    let mut res = all_stores();
    loader.add(0);
    let (batch, reports) =
        ase_importer(&mut loader, &vec![LoadState::Loading], &mut files, Some(vec![]), &mut res);
    assert!(batch.is_none());
    assert!(reports.is_empty());
    assert!(!loader.is_loaded());
    assert_eq!(loader.pending_count(), 0);
    assert!(files[0].file().is_some());
}

#[test]
fn all_waiting_files_are_dispatched_as_one_batch() {
    let mut loader = Loader::new();
    let mut files = vec![
        loaded("a.ase", document(1, &[])),
        loaded("b.ase", document(2, &[])),
        loaded("c.ase", document(3, &[])),
    ];
    loader.add(2);
    loader.add(0);
    let batch = loader.spawn_tasks(&mut files).unwrap();
    let names: Vec<&str> = batch.iter().map(|(n, _)| n.as_str()).collect();
    assert_eq!(names, vec!["c.ase", "a.ase"]);
    assert_eq!(batch[0].1.frames.len(), 3);
    assert_eq!(batch[1].1.frames.len(), 1);
    assert_eq!(loader.pending_count(), 1);
    assert!(!loader.is_loaded());
    assert!(files[0].file().is_none());
    assert!(files[1].file().is_some());
    assert!(files[2].file().is_none());
    assert_eq!(files[2].name, "c.ase");
    assert!(loader.spawn_tasks(&mut files).is_none());
    assert_eq!(loader.pending_count(), 1);
}

#[test]
fn the_loader_is_idle_only_after_the_batch_was_drained() {
    let mut loader = Loader::new();
    let mut files = vec![loaded("a.ase", document(2, &[("t", 0, 1)]))];
    let mut res = all_stores();
    loader.add(0);
    let states = vec![LoadState::Loaded];
    let (batch, _) = ase_importer(&mut loader, &states, &mut files, Some(vec![]), &mut res);
    let processed = ResourceDataByFile::new(batch.unwrap());
    assert!(!loader.is_loaded());
    let (_, reports) = ase_importer(&mut loader, &vec![], &mut files, None, &mut res);
    assert!(reports.is_empty());
    assert!(!loader.is_loaded());
    let (_, reports) = ase_importer(&mut loader, &vec![], &mut files, Some(vec![]), &mut res);
    assert!(reports.is_empty());
    assert!(!loader.is_loaded());
    let (batch, reports) =
        ase_importer(&mut loader, &vec![], &mut files, Some(vec![processed]), &mut res);
    assert!(batch.is_none());
    assert_eq!(reports, vec![vec![FileStatus::Done]]);
    assert!(loader.is_loaded());
    assert_eq!(loader.pending_count(), 0);
    assert!(res.index.as_ref().unwrap().animation("a.ase", "t").is_some());
}

#[test]
fn three_files_of_which_the_second_fails_to_decode() {
    let mut loader = Loader::new();
    let mut tiles = document(1, &[("walk", 0, 0)]);
    tiles.tilesets.push(TilesetData {
        id: TilesetId(1),
        tile_count: 1,
        tile_size: TileSize { width: 1, height: 1 },
        name: "ground".to_string(),
        texture: Image { width: 1, height: 1, data: vec![0; 4] },
    });
    let a = loaded("a.ase", tiles);
    // The second file has no frame: no document is made of it, and its
    // loading is reported as failed.
    let b = match SourceDocument::new(1, 1, vec![], vec![], vec![], vec![]) {
        Err(e) => {
            assert_eq!(e, DecodeError::NoFrames);
            AseAsset { data: AseData::Processed, name: "b.ase".to_string() }
        },
        Ok(doc) => loaded("b.ase", doc),
    };
    let c = loaded("c.ase", document(2, &[("jump", 1, 1)]));
    let mut files = vec![a, b, c];
    let mut res = all_stores();
    loader.add(0);
    loader.add(1);
    loader.add(2);
    let states = vec![LoadState::Loaded, LoadState::Failed, LoadState::Loaded];
    let (batch, _) = ase_importer(&mut loader, &states, &mut files, Some(vec![]), &mut res);
    let batch = batch.unwrap();
    assert_eq!(batch.len(), 2);
    let processed = ResourceDataByFile::new(batch);
    let mut polls = 0;
    let mut outbox = Some(vec![processed]);
    while !loader.is_loaded() {
        ase_importer(&mut loader, &vec![], &mut files, outbox.take(), &mut res);
        polls += 1;
        assert!(polls < 10);
    }
    let index = res.index.as_ref().unwrap();
    assert!(index.animation("a.ase", "walk").is_some());
    assert!(index.tileset("a.ase", 1).is_some());
    assert!(index.animation("c.ase", "jump").is_some());
    assert_eq!(index.animation("b.ase", "walk"), None);
    assert!(index.get("b.ase").is_none());
    assert!(loader.is_loaded());
}

#[test]
fn a_handle_submitted_twice_is_processed_once() {
    let mut loader = Loader::new();
    let mut files = vec![loaded("a.ase", document(2, &[("t", 0, 1)]))];
    let mut res = all_stores();
    loader.add(0);
    loader.add(0);
    let first = loader.spawn_tasks(&mut files).unwrap();
    assert_eq!(first.len(), 1);
    loader.add(0);
    let second = loader.spawn_tasks(&mut files).unwrap();
    assert!(second.is_empty());
    assert_eq!(loader.pending_count(), 2);
    let outbox = Some(vec![ResourceDataByFile::new(first), ResourceDataByFile::new(second)]);
    let reports = loader.move_finished_into_resources(outbox, &mut res);
    assert_eq!(reports, vec![vec![FileStatus::Done], vec![]]);
    assert!(loader.is_loaded());
    assert_eq!(res.atlases.as_ref().unwrap().len(), 1);
    assert_eq!(res.animations.as_ref().unwrap().len(), 1);
    assert_eq!(
        res.index.as_ref().unwrap().animation("a.ase", "t"),
        Some("a.ase#Animation/t".to_string())
    );
}

#[test]
fn handles_of_unknown_files_are_dropped_from_the_batch() {
    let mut loader = Loader::new();
    let mut files = vec![loaded("a.ase", document(1, &[]))];
    loader.add(5);
    loader.add(0);
    let batch = loader.spawn_tasks(&mut files).unwrap();
    assert_eq!(batch.len(), 1);
    assert_eq!(batch[0].0, "a.ase");
}

#[test]
fn a_failed_batch_still_counts_as_done() {
    let mut loader = Loader::new();
    let mut files = vec![loaded("bad.ase", document(1, &[("broken", 3, 4)]))];
    let mut res = all_stores();
    loader.add(0);
    let batch = loader.spawn_tasks(&mut files).unwrap();
    let outbox = Some(vec![ResourceDataByFile::new(batch)]);
    let reports = loader.move_finished_into_resources(outbox, &mut res);
    assert_eq!(reports, vec![vec![FileStatus::DecodeFailed(DecodeError::InvalidTag { tag: 0 })]]);
    assert!(loader.is_loaded());
    assert!(res.index.as_ref().unwrap().get("bad.ase").is_none());
}

#[test]
fn take_finished_skips_an_outbox_that_is_empty_or_in_use() {
    assert!(Loader::take_finished(None).is_none());
    assert!(Loader::take_finished(Some(vec![])).is_none());
    let one = Loader::take_finished(Some(vec![ResourceDataByFile::new(vec![])]));
    assert_eq!(one.map(|v| v.len()), Some(1));
}

#[test]
fn draining_more_batches_than_are_in_flight_stops_at_zero() {
    let mut loader = Loader::new();
    let mut res = all_stores();
    let outbox = Some(vec![ResourceDataByFile::new(vec![]), ResourceDataByFile::new(vec![])]);
    loader.move_finished_into_resources(outbox, &mut res);
    assert_eq!(loader.pending_count(), 0);
    assert!(loader.is_loaded());
}
