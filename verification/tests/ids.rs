//! Identifier types.
use bevy_ase::ase::AseId;
use bevy_ase::name_map::NameMap;
use bevy_ase::slice::{SliceAseKey, SliceId};
use bevy_ase::tileset::{TileSize, Tileset, TilesetAseKey, TilesetId};

#[test]
fn ids_hand_out_their_inner_value() {
    assert_eq!(*AseId::new(3).inner(), 3);
    assert_eq!(*SliceId::new(4).inner(), 4);
    assert_eq!(*TilesetId::new(5).inner(), 5);
    assert_eq!(AseId::new(3), AseId(3));
}

#[test]
fn keys_hand_out_their_parts() {
    let key = SliceAseKey::new(AseId::new(1), SliceId::new(2));
    assert_eq!(*key.ase_id(), AseId(1));
    assert_eq!(*key.slice_id(), SliceId(2));
    let key = TilesetAseKey::new(AseId::new(6), TilesetId::new(7));
    assert_eq!(*key.ase_id(), AseId(6));
    assert_eq!(*key.tileset_id(), TilesetId(7));
}

#[test]
fn tileset_texture_is_a_vertical_strip() {
    let tileset = Tileset {
        key: TilesetAseKey::new(AseId(0), TilesetId(0)),
        tile_count: 100_000,
        tile_size: TileSize { width: 16, height: 65_535 },
        name: "t".to_string(),
        texture: "h".to_string(),
    };
    assert_eq!(tileset.texture_size(), (16, 6_553_500_000));
}

#[test]
fn name_map_keeps_the_last_value_of_a_name() {
    let mut m: NameMap<u32> = NameMap::new();
    assert_eq!(m.len(), 0);
    assert_eq!(m.insert("a".to_string(), 1), None);
    assert_eq!(m.insert("b".to_string(), 2), None);
    assert_eq!(m.insert("a".to_string(), 3), Some(1));
    assert_eq!(m.len(), 2);
    assert_eq!(m.get("a"), Some(&3));
    assert_eq!(m.get("b"), Some(&2));
    assert_eq!(m.get("c"), None);
    assert!(m.contains("b"));
    assert!(!m.contains(""));
    assert_eq!(m.position("b"), Some(1));
    assert_eq!(m.position("a"), Some(0));
    assert_eq!(m.name_at(1), "b");
    assert_eq!(*m.value_at(0), 3);
}
