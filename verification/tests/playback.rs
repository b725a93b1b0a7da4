//! Game time and the playing of animations.
use bevy_ase::animate::{sprite_animator, AnimInfo, AnimationInfo, PlayAnimation};
use bevy_ase::assets::Assets;
use bevy_ase::animation::{Animation, Frame, Sprite};
use bevy_ase::timer::{GameTime, GameTimer};

fn frame(atlas_index: u32, duration_ms: u32) -> Frame {
    Frame { sprite: Sprite { atlas_index }, duration_ms }
}

fn three_frames() -> Animation {
    Animation::new(vec![frame(7, 100), frame(8, 50), frame(9, 25)], "a#Atlas".to_string())
}

#[test]
fn game_time_counts_milliseconds() {
    let mut t = GameTime::from_millis(40);
    t.add_millis(2);
    assert_eq!(t, GameTime(42));
    assert_eq!(GameTime::zero(), GameTime(0));
    let mut end = GameTime::from_millis(u64::MAX - 1);
    end.add_millis(5);
    assert_eq!(end, GameTime(u64::MAX));
}

#[test]
fn a_new_timer_starts_at_one_millisecond() {
    assert_eq!(GameTimer::new().time(), GameTime(1));
}

#[test]
fn a_timer_keeps_what_is_left_of_a_millisecond() {
    let mut timer = GameTimer::new();
    timer.add_dt(0, 1_500_000);
    assert_eq!(timer.time(), GameTime(2));
    timer.add_dt(0, 500_000);
    assert_eq!(timer.time(), GameTime(3));
    timer.add_dt(2, 999_999_999);
    assert_eq!(timer.time(), GameTime(3002));
    assert_eq!(timer.nanos, 999_999);
    timer.add_dt(0, 1);
    assert_eq!(timer.time(), GameTime(3003));
    timer.add_dt(u64::MAX, 0);
    assert_eq!(timer.time(), GameTime(u64::MAX));
}

#[test]
fn animation_hands_out_its_frames() {
    let anim = three_frames();
    assert_eq!(anim.num_frames(), 3);
    assert_eq!(*anim.frame(1), frame(8, 50));
    assert_eq!(anim.frames(), &[frame(7, 100), frame(8, 50), frame(9, 25)]);
    assert_eq!(anim.atlas(), "a#Atlas");
}

#[test]
fn frame_after_wraps_around_at_the_last_frame() {
    let anim = three_frames();
    assert_eq!(anim.frame_after(0), (1, false));
    assert_eq!(anim.frame_after(1), (2, false));
    assert_eq!(anim.frame_after(2), (0, true));
    assert_eq!(anim.frame_after(17), (0, true));
}

#[test]
fn animation_info_finds_animations_by_path_and_tag() {
    let mut info = AnimationInfo::new();
    assert_eq!(info.lookup("a.ase"), None);
    info.add_anim("a.ase".to_string(), Some("walk".to_string()), "h1".to_string());
    assert_eq!(info.lookup("a.ase"), None);
    assert_eq!(info.lookup_with_tag("a.ase", "walk"), Some("h1".to_string()));
    info.add_anim("a.ase".to_string(), None, "h0".to_string());
    info.add_anim("b.ase".to_string(), Some("walk".to_string()), "h2".to_string());
    info.add_anim("a.ase".to_string(), Some("walk".to_string()), "h3".to_string());
    assert_eq!(info.lookup("a.ase"), Some("h0".to_string()));
    assert_eq!(info.lookup_with_tag("a.ase", "walk"), Some("h3".to_string()));
    assert_eq!(info.lookup_with_tag("b.ase", "walk"), Some("h2".to_string()));
    assert_eq!(info.lookup_with_tag("b.ase", "run"), None);
    assert_eq!(info.lookup_with_tag("c.ase", "walk"), None);
    assert_eq!(info.lookup("b.ase"), None);
}

#[test]
fn a_new_animation_shows_its_first_frame() {
    let anim = three_frames();
    let mut play = PlayAnimation::new("h".to_string());
    assert_eq!(sprite_animator(GameTime(10), &anim, &mut play), Some(7));
    assert_eq!(play.current_frame, 0);
    assert_eq!(play.frame_end, GameTime(110));
    assert_eq!(sprite_animator(GameTime(110), &anim, &mut play), None);
    assert_eq!(play.frame_end, GameTime(110));
}

#[test]
fn an_animation_moves_on_frame_by_frame() {
    let anim = three_frames();
    let mut play = PlayAnimation::new("h".to_string());
    sprite_animator(GameTime(10), &anim, &mut play);
    assert_eq!(sprite_animator(GameTime(111), &anim, &mut play), Some(8));
    assert_eq!((play.current_frame, play.frame_end), (1, GameTime(160)));
    assert_eq!(sprite_animator(GameTime(186), &anim, &mut play), Some(7));
    assert_eq!((play.current_frame, play.frame_end), (0, GameTime(285)));
    assert!(play.playing);
}

#[test]
fn an_animation_that_skips_a_whole_round_shows_no_new_frame() {
    let anim = three_frames();
    let mut play = PlayAnimation::new("h".to_string());
    sprite_animator(GameTime(10), &anim, &mut play);
    assert_eq!(sprite_animator(GameTime(200), &anim, &mut play), None);
    assert_eq!((play.current_frame, play.frame_end), (0, GameTime(285)));
}

#[test]
fn an_animation_that_does_not_loop_stops_at_its_last_frame() {
    let anim = three_frames();
    let mut play = PlayAnimation::new("h".to_string());
    play.looping = false;
    sprite_animator(GameTime(10), &anim, &mut play);
    assert_eq!(sprite_animator(GameTime(1000), &anim, &mut play), Some(9));
    assert_eq!((play.current_frame, play.frame_end), (2, GameTime(185)));
    assert!(!play.playing);
    assert_eq!(sprite_animator(GameTime(2000), &anim, &mut play), None);
    assert_eq!(play.current_frame, 2);
}

#[test]
fn an_animation_that_cannot_be_played_is_left_alone() {
    let mut play = PlayAnimation::new("h".to_string());
    let empty = Animation::new(vec![], "a".to_string());
    assert_eq!(sprite_animator(GameTime(10), &empty, &mut play), None);
    let untimed = Animation::new(vec![frame(1, 10), frame(2, 0)], "a".to_string());
    assert_eq!(sprite_animator(GameTime(10), &untimed, &mut play), None);
    play.current_frame = 5;
    assert_eq!(sprite_animator(GameTime(10), &three_frames(), &mut play), None);
    assert_eq!(play, PlayAnimation { current_frame: 5, ..PlayAnimation::new("h".to_string()) });
    let mut paused = PlayAnimation::new("h".to_string());
    paused.playing = false;
    assert_eq!(sprite_animator(GameTime(10), &three_frames(), &mut paused), None);
    assert_eq!(paused.frame_end, GameTime(0));
}

#[test]
fn anim_info_keeps_the_atlas_slots_of_the_frames() {
    let info = AnimInfo::new("h".to_string(), &three_frames()).unwrap();
    assert_eq!(
        info,
        AnimInfo {
            anim_handle: "h".to_string(),
            atlas_sprites: vec![7, 8, 9],
            atlas_handle: "a#Atlas".to_string()
        }
    );
    assert_eq!(AnimInfo::new("h".to_string(), &Animation::new(vec![], "a".to_string())), None);
}

#[test]
fn anim_info_is_found_by_path_and_tag() {
    let mut index = AnimationInfo::new();
    index.add_anim("a.ase".to_string(), Some("walk".to_string()), "a.ase#Animation/walk".to_string());
    index.add_anim("a.ase".to_string(), None, "a.ase#whole".to_string());
    index.add_anim("a.ase".to_string(), Some("gone".to_string()), "a.ase#Animation/gone".to_string());
    let mut store: Assets<Animation> = Assets::new();
    store.set("a.ase#Animation/walk".to_string(), three_frames());
    store.set("a.ase#whole".to_string(), Animation::new(vec![], "a#Atlas".to_string()));
    let found = AnimInfo::find("a.ase", Some("walk"), &index, &store).unwrap();
    assert_eq!(found.anim_handle, "a.ase#Animation/walk");
    assert_eq!(found.atlas_sprites, vec![7, 8, 9]);
    assert_eq!(found.atlas_handle, "a#Atlas");
    assert_eq!(AnimInfo::find("a.ase", None, &index, &store), None);
    assert_eq!(AnimInfo::find("a.ase", Some("gone"), &index, &store), None);
    assert_eq!(AnimInfo::find("a.ase", Some("run"), &index, &store), None);
    assert_eq!(AnimInfo::find("b.ase", Some("walk"), &index, &store), None);
}
