//! Resource identifiers.
use bevy_ase::handle_id;

#[test]
fn animation_id_is_path_and_tag_name() {
    assert_eq!(
        handle_id::animation("assets/my_ase_file.aseprite", "my_tag"),
        "assets/my_ase_file.aseprite#Animation/my_tag"
    );
}

#[test]
fn frame_image_id_is_path_and_frame_index() {
    assert_eq!(
        handle_id::frame_image("assets/my_ase_file.aseprite", 2),
        "assets/my_ase_file.aseprite#FrameImage2"
    );
    assert_eq!(
        handle_id::frame_image("assets/my_file.aseprite", 0),
        "assets/my_file.aseprite#FrameImage0"
    );
}

#[test]
fn atlas_id_is_path_and_label() {
    assert_eq!(
        handle_id::atlas("assets/my_ase_file.aseprite"),
        "assets/my_ase_file.aseprite#Atlas"
    );
}

#[test]
fn tileset_id_is_path_and_tileset_id() {
    assert_eq!(
        handle_id::tileset("assets/my_ase_file.aseprite", 5),
        "assets/my_ase_file.aseprite#Tileset5"
    );
}

#[test]
fn tileset_image_id_is_path_and_tileset_id() {
    assert_eq!(
        handle_id::tileset_image("assets/my_ase_file.aseprite", 1),
        "assets/my_ase_file.aseprite#TilesetImage1"
    );
}

#[test]
fn slice_id_is_path_and_slice_name() {
    assert_eq!(
        handle_id::slice("assets/my_ase_file.aseprite", "my_slice"),
        "assets/my_ase_file.aseprite#Slice/my_slice"
    );
}

#[test]
fn decimal_string_writes_numbers_as_std_does() {
    for n in [0u32, 1, 9, 10, 11, 99, 100, 101, 12345, 1000000, 4294967295] {
        assert_eq!(handle_id::decimal_string(n), n.to_string());
    }
}

#[test]
fn ids_of_empty_names_keep_the_label() {
    assert_eq!(handle_id::animation("", ""), "#Animation/");
    assert_eq!(handle_id::slice("a", ""), "a#Slice/");
}
