//! Documents of sprite files that the real decoder has read.
use asefile::AsepriteFile;
use bevy_ase::document::{DecodeError, FrameSource, SourceDocument, Tag, TilesetSource};
use bevy_ase::processing::ResourceData;
use bevy_ase::slice::SliceData;
use bevy_ase::tileset::{TileSize, TilesetId};

/// Decodes the bytes and makes the document of what the decoder found.
fn decode(bytes: &[u8]) -> Result<SourceDocument, DecodeError> {
    let file = AsepriteFile::read(bytes).unwrap();
    let (width, height) = file.size();
    let mut frames = Vec::new();
    for index in 0..file.num_frames() {
        let frame = file.frame(index);
        frames.push(FrameSource { pixels: frame.image().into_raw(), duration: frame.duration() });
    }
    let mut tags = Vec::new();
    for index in 0..file.num_tags() {
        let tag = file.tag(index);
        tags.push(Tag {
            name: tag.name().to_owned(),
            from_frame: tag.from_frame(),
            to_frame: tag.to_frame(),
        });
    }
    let mut tilesets = Vec::new();
    for tileset in file.tilesets().iter() {
        tilesets.push(TilesetSource {
            id: tileset.id(),
            name: tileset.name().to_owned(),
            tile_size: TileSize {
                width: tileset.tile_size().width(),
                height: tileset.tile_size().height(),
            },
            tile_count: tileset.tile_count(),
            pixels: tileset.image().into_raw(),
        });
    }
    let mut slices = Vec::new();
    for slice in file.slices() {
        slices.push(SliceData {
            name: slice.name.clone(),
            keys: slice.keys.clone(),
            user_data: slice.user_data.clone(),
        });
    }
    SourceDocument::new(width as u32, height as u32, frames, tags, tilesets, slices)
}

fn word(out: &mut Vec<u8>, v: u16) {
    out.extend_from_slice(&v.to_le_bytes());
}

fn dword(out: &mut Vec<u8>, v: u32) {
    out.extend_from_slice(&v.to_le_bytes());
}

fn string(out: &mut Vec<u8>, s: &str) {
    word(out, s.len() as u16);
    out.extend_from_slice(s.as_bytes());
}

fn zeros(out: &mut Vec<u8>, n: usize) {
    for _ in 0..n {
        out.push(0);
    }
}

fn chunk(kind: u16, data: &[u8]) -> Vec<u8> {
    let mut out = Vec::new();
    dword(&mut out, data.len() as u32 + 6);
    word(&mut out, kind);
    out.extend_from_slice(data);
    out
}

fn layer_chunk(name: &str) -> Vec<u8> {
    let mut d = Vec::new();
    word(&mut d, 1); // visible
    word(&mut d, 0); // image layer
    word(&mut d, 0); // child level
    word(&mut d, 0);
    word(&mut d, 0);
    word(&mut d, 0); // normal blend mode
    d.push(255); // opacity
    zeros(&mut d, 3);
    string(&mut d, name);
    chunk(0x2004, &d)
}

fn raw_cel_chunk(width: u16, height: u16, pixels: &[u8]) -> Vec<u8> {
    let mut d = Vec::new();
    word(&mut d, 0); // layer index
    word(&mut d, 0); // x
    word(&mut d, 0); // y
    d.push(255); // opacity
    word(&mut d, 0); // raw cel
    zeros(&mut d, 7);
    word(&mut d, width);
    word(&mut d, height);
    d.extend_from_slice(pixels);
    chunk(0x2005, &d)
}

fn tags_chunk(tags: &[(&str, u16, u16)]) -> Vec<u8> {
    let mut d = Vec::new();
    word(&mut d, tags.len() as u16);
    zeros(&mut d, 8);
    for (name, from, to) in tags {
        word(&mut d, *from);
        word(&mut d, *to);
        d.push(0); // forward
        word(&mut d, 0); // repeat
        zeros(&mut d, 6);
        dword(&mut d, 0); // color
        string(&mut d, name);
    }
    chunk(0x2018, &d)
}

fn slice_chunk(name: &str, x: i32, y: i32, w: u32, h: u32) -> Vec<u8> {
    let mut d = Vec::new();
    dword(&mut d, 1); // one key
    dword(&mut d, 0); // flags
    dword(&mut d, 0);
    string(&mut d, name);
    dword(&mut d, 0); // from frame
    d.extend_from_slice(&x.to_le_bytes());
    d.extend_from_slice(&y.to_le_bytes());
    dword(&mut d, w);
    dword(&mut d, h);
    chunk(0x2022, &d)
}

fn adler32(data: &[u8]) -> u32 {
    let mut a: u32 = 1;
    let mut b: u32 = 0;
    for byte in data {
        a = (a + *byte as u32) % 65521;
        b = (b + a) % 65521;
    }
    (b << 16) | a
}

/// The bytes wrapped as a zlib stream of one stored block.
fn zlib_stored(data: &[u8]) -> Vec<u8> {
    assert!(data.len() < 65536);
    let mut out = vec![0x78, 0x01, 0x01];
    let len = data.len() as u16;
    out.extend_from_slice(&len.to_le_bytes());
    out.extend_from_slice(&(!len).to_le_bytes());
    out.extend_from_slice(data);
    out.extend_from_slice(&adler32(data).to_be_bytes());
    out
}

fn tileset_chunk(id: u32, name: &str, tile_w: u16, tile_h: u16, count: u32, pixels: &[u8]) -> Vec<u8> {
    let mut d = Vec::new();
    dword(&mut d, id);
    dword(&mut d, 2 | 4); // tiles are in the file, tile 0 is the empty tile
    dword(&mut d, count);
    word(&mut d, tile_w);
    word(&mut d, tile_h);
    word(&mut d, 1); // base index
    zeros(&mut d, 14);
    string(&mut d, name);
    let packed = zlib_stored(pixels);
    dword(&mut d, packed.len() as u32);
    d.extend_from_slice(&packed);
    chunk(0x2023, &d)
}

fn frame(duration: u16, chunks: &[Vec<u8>]) -> Vec<u8> {
    let mut body = Vec::new();
    for c in chunks {
        body.extend_from_slice(c);
    }
    let mut out = Vec::new();
    dword(&mut out, body.len() as u32 + 16);
    word(&mut out, 0xF1FA);
    word(&mut out, chunks.len() as u16);
    word(&mut out, duration);
    word(&mut out, 0);
    dword(&mut out, chunks.len() as u32);
    out.extend_from_slice(&body);
    out
}

fn file(width: u16, height: u16, frames: &[Vec<u8>]) -> Vec<u8> {
    let mut body = Vec::new();
    for f in frames {
        body.extend_from_slice(f);
    }
    let mut out = Vec::new();
    dword(&mut out, body.len() as u32 + 128);
    word(&mut out, 0xA5E0);
    word(&mut out, frames.len() as u16);
    word(&mut out, width);
    word(&mut out, height);
    word(&mut out, 32); // RGBA
    dword(&mut out, 1);
    word(&mut out, 100); // default frame time
    dword(&mut out, 0);
    dword(&mut out, 0);
    out.push(0); // transparent index
    zeros(&mut out, 3);
    word(&mut out, 0); // number of colors
    out.push(1); // pixel ratio 1:1
    out.push(1);
    zeros(&mut out, 8); // grid
    zeros(&mut out, 84);
    assert_eq!(out.len(), 128);
    out.extend_from_slice(&body);
    out
}

fn solid(width: u16, height: u16, rgba: [u8; 4]) -> Vec<u8> {
    let mut out = Vec::new();
    for _ in 0..(width as usize * height as usize) {
        out.extend_from_slice(&rgba);
    }
    out
}

/// A two by two sprite of two frames with one tileset of three 2x1 tiles.
fn tileset_sprite() -> Vec<u8> {
    let tiles: Vec<u8> = (0u8..24).collect();
    let first = frame(
        120,
        &[
            layer_chunk("Layer 1"),
            tileset_chunk(0, "test_tileset", 2, 1, 3, &tiles),
            raw_cel_chunk(2, 2, &solid(2, 2, [10, 20, 30, 255])),
        ],
    );
    let second = frame(80, &[raw_cel_chunk(2, 2, &solid(2, 2, [1, 2, 3, 255]))]);
    file(2, 2, &[first, second])
}

fn load_test_file(name: &str) -> SourceDocument {
    assert_eq!(name, "tileset");
    decode(&tileset_sprite()).unwrap()
}

fn load_test_file_as_assets(name: &str) -> ResourceData {
    let doc = load_test_file(name);
    match ResourceData::new("tests/data/tileset.aseprite", doc) {
        Ok(data) => data,
        Err(e) => panic!("extraction failed: {:?}", e),
    }
}

#[test]
fn tileset_file() {
    let assets = load_test_file_as_assets("tileset");
    let tilesets = assets.tilesets;
    assert_eq!(tilesets.len(), 1);
}

#[test]
fn decode_reads_frames_with_pixels_and_durations() {
    let doc = decode(&tileset_sprite()).unwrap();
    assert_eq!((doc.width, doc.height), (2, 2));
    assert_eq!(doc.num_frames(), 2);
    assert_eq!(doc.frames[0].duration, 120);
    assert_eq!(doc.frames[1].duration, 80);
    assert_eq!(doc.frames[0].image.data, solid(2, 2, [10, 20, 30, 255]));
    assert_eq!(doc.frames[1].image.data, solid(2, 2, [1, 2, 3, 255]));
    assert_eq!(doc.frames[0].image.width, 2);
    assert_eq!(doc.frames[0].image.height, 2);
}

#[test]
fn decode_reads_the_tileset_strip() {
    let doc = decode(&tileset_sprite()).unwrap();
    let t = &doc.tilesets[0];
    assert_eq!(t.id, TilesetId(0));
    assert_eq!(t.name, "test_tileset");
    assert_eq!(t.tile_size, TileSize { width: 2, height: 1 });
    assert_eq!(t.tile_count, 3);
    assert_eq!((t.texture.width, t.texture.height), (2, 3));
    assert_eq!(t.texture.data, (0u8..24).collect::<Vec<u8>>());
}

#[test]
fn decode_orders_tilesets_by_id() {
    let px = solid(1, 1, [9, 9, 9, 255]);
    let first = frame(
        100,
        &[
            tileset_chunk(7, "seven", 1, 1, 1, &px),
            tileset_chunk(2, "two", 1, 1, 1, &px),
            tileset_chunk(5, "five", 1, 1, 1, &px),
        ],
    );
    let doc = decode(&file(1, 1, &[first])).unwrap();
    let ids: Vec<u32> = doc.tilesets.iter().map(|t| t.id.0).collect();
    assert_eq!(ids, vec![2, 5, 7]);
    let names: Vec<&str> = doc.tilesets.iter().map(|t| t.name.as_str()).collect();
    assert_eq!(names, vec!["two", "five", "seven"]);
}

#[test]
fn decode_reads_tags_and_slices() {
    let first = frame(
        100,
        &[
            layer_chunk("Layer 1"),
            tags_chunk(&[("walk", 0, 1), ("idle", 2, 2)]),
            slice_chunk("hitbox", 1, -2, 3, 4),
        ],
    );
    let doc = decode(&file(1, 1, &[first, frame(100, &[]), frame(100, &[])])).unwrap();
    assert_eq!(doc.tags.len(), 2);
    assert_eq!(doc.tags[0].name, "walk");
    assert_eq!((doc.tags[0].from_frame, doc.tags[0].to_frame), (0, 1));
    assert_eq!(doc.tags[1].name, "idle");
    assert_eq!((doc.tags[1].from_frame, doc.tags[1].to_frame), (2, 2));
    assert_eq!(doc.slices.len(), 1);
    assert_eq!(doc.slices[0].name, "hitbox");
    assert_eq!(doc.slices[0].keys.len(), 1);
    assert_eq!(doc.slices[0].keys[0].origin, (1, -2));
    assert_eq!(doc.slices[0].keys[0].size, (3, 4));
    assert!(doc.slices[0].user_data.is_none());
}

#[test]
fn decode_rejects_a_file_without_frames() {
    let bytes = file(4, 4, &[]);
    assert!(matches!(decode(&bytes), Err(DecodeError::NoFrames)));
}

