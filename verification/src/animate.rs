//! Playing animations: which frame of an animation is shown at a given time.
use crate::animation::{Animation, Frame};
use crate::assets::Assets;
use crate::name_map::NameMap;
use crate::timer::GameTime;
use vstd::prelude::*;

verus! {

/// The animations of one sprite file: that of the whole file, if there is
/// one, and those of its tags by name.
pub struct FileAnimations {
    pub whole: Option<String>,
    pub tags: NameMap<String>,
}

/// Index for looking up animation handles by the path of their file and the
/// name of their tag.
pub struct AnimationInfo {
    pub names: NameMap<FileAnimations>,
}

impl AnimationInfo {
    /// Creates an index without animations.
    pub fn new() -> (info: Self)
        ensures
            info.names@ == Map::<Seq<char>, FileAnimations>::empty(),
    {
        AnimationInfo { names: NameMap::new() }
    }

    /// Lookup of the animation of a whole file, by the file's path.
    pub fn lookup(&self, path: &str) -> (r: Option<String>)
        ensures
            match r {
                Some(h) => self.names@.contains_key(path@) && self.names@[path@].whole == Some(h),
                None => !self.names@.contains_key(path@) || self.names@[path@].whole is None,
            },
    {
        match self.names.get(path) {
            Some(file) => match &file.whole {
                Some(h) => Some(h.clone()),
                None => None,
            },
            None => None,
        }
    }

    /// Lookup by path and tag within that animation file.
    pub fn lookup_with_tag(&self, path: &str, tag: &str) -> (r: Option<String>)
        ensures
            match r {
                Some(h) => {
                    &&& self.names@.contains_key(path@)
                    &&& self.names@[path@].tags@.contains_key(tag@)
                    &&& self.names@[path@].tags@[tag@] == h
                },
                None => !self.names@.contains_key(path@) || !self.names@[path@].tags@.contains_key(
                    tag@,
                ),
            },
    {
        match self.names.get(path) {
            Some(file) => match file.tags.get(tag) {
                Some(h) => Some(h.clone()),
                None => None,
            },
            None => None,
        }
    }

    /// Registers an animation of the file at `path`: under its tag, or as the
    /// animation of the whole file where it has no tag. An animation that was
    /// registered before in the same place is replaced.
    pub fn add_anim(&mut self, path: String, tag: Option<String>, hdl: String)
        ensures
            final(self).names@.dom() == old(self).names@.dom().insert(path@),
            forall|p: Seq<char>|
                p != path@ && old(self).names@.contains_key(p) ==> final(self).names@[p] == old(
                    self,
                ).names@[p],
            match tag {
                Some(t) => {
                    &&& final(self).names@[path@].tags@ == (if old(self).names@.contains_key(
                        path@,
                    ) {
                        old(self).names@[path@].tags@
                    } else {
                        Map::empty()
                    }).insert(t@, hdl)
                    &&& final(self).names@[path@].whole == if old(self).names@.contains_key(
                        path@,
                    ) {
                        old(self).names@[path@].whole
                    } else {
                        None
                    }
                },
                None => {
                    &&& final(self).names@[path@].whole == Some(hdl)
                    &&& final(self).names@[path@].tags@ == if old(self).names@.contains_key(
                        path@,
                    ) {
                        old(self).names@[path@].tags@
                    } else {
                        Map::empty()
                    }
                },
            },
    {
        let ghost before = self.names@;
        let key = path.clone();
        let fresh = FileAnimations { whole: None, tags: NameMap::new() };
        let mut entry = match self.names.insert(key, fresh) {
            Some(entry) => entry,
            None => FileAnimations { whole: None, tags: NameMap::new() },
        };
        match tag {
            Some(t) => {
                entry.tags.insert(t, hdl);
            },
            None => {
                entry.whole = Some(hdl);
            },
        }
        self.names.insert(path, entry);
        assert(self.names@.dom() =~= before.dom().insert(path@));
    }
}

/// What is kept of an animation to show it without looking it up by name:
/// its handle, the atlas slot of each of its frames, and the handle of its
/// texture atlas. There is at least one frame.
#[derive(Debug, Clone, PartialEq, Eq)]
pub struct AnimInfo {
    pub anim_handle: String,
    pub atlas_sprites: Vec<u32>,
    pub atlas_handle: String,
}

/// The atlas slots of the given frames, in order.
pub open spec fn atlas_slots(frames: Seq<Frame>) -> Seq<u32> {
    Seq::new(frames.len(), |i: int| frames[i].sprite.atlas_index)
}

/// The handle that the index has for the animation of the file at `path`:
/// that of the tag, or that of the whole file where no tag is given.
pub open spec fn registered(info: AnimationInfo, path: Seq<char>, tag: Option<Seq<char>>) -> Option<
    String,
> {
    if !info.names@.contains_key(path) {
        None
    } else {
        match tag {
            Some(t) => if info.names@[path].tags@.contains_key(t) {
                Some(info.names@[path].tags@[t])
            } else {
                None
            },
            None => info.names@[path].whole,
        }
    }
}

impl AnimInfo {
    /// What is kept of the animation with the given handle: `None` for an
    /// animation without frames.
    pub fn new(anim_handle: String, anim: &Animation) -> (r: Option<AnimInfo>)
        ensures
            match r {
                Some(found) => {
                    &&& anim.frames@.len() > 0
                    &&& found.anim_handle == anim_handle
                    &&& found.atlas_sprites@ == atlas_slots(anim.frames@)
                    &&& found.atlas_handle@ == anim.atlas@
                },
                None => anim.frames@.len() == 0,
            },
    {
        if anim.frames.len() == 0 {
            return None;
        }
        let mut atlas_sprites: Vec<u32> = Vec::new();
        let mut i: usize = 0;
        while i < anim.frames.len()
            invariant
                0 <= i <= anim.frames@.len(),
                atlas_sprites@.len() == i,
                forall|j: int| 0 <= j < i ==> atlas_sprites@[j] == atlas_slots(anim.frames@)[j],
            decreases anim.frames@.len() - i,
        {
            atlas_sprites.push(anim.frames[i].sprite.atlas_index);
            i = i + 1;
        }
        assert(atlas_sprites@ =~= atlas_slots(anim.frames@));
        let atlas_handle = anim.atlas();
        Some(AnimInfo { anim_handle, atlas_sprites, atlas_handle })
    }

    /// Looks an animation up by the path of its file and the name of its
    /// tag, or as the animation of the whole file where no tag is given.
    ///
    /// Returns `None` if no such animation is registered, if the store does
    /// not have it, or if it has no frames.
    pub fn find(
        path: &str,
        tag: Option<&str>,
        anim_info: &AnimationInfo,
        animations: &Assets<Animation>,
    ) -> (r: Option<AnimInfo>)
        ensures
            match r {
                Some(found) => {
                    &&& registered(
                        *anim_info,
                        path@,
                        match tag {
                            Some(t) => Some(t@),
                            None => None,
                        },
                    ) == Some(found.anim_handle)
                    &&& animations@.contains_key(found.anim_handle@)
                    &&& animations@[found.anim_handle@].frames@.len() > 0
                    &&& found.atlas_sprites@ == atlas_slots(
                        animations@[found.anim_handle@].frames@,
                    )
                    &&& found.atlas_handle@ == animations@[found.anim_handle@].atlas@
                },
                None => match registered(
                    *anim_info,
                    path@,
                    match tag {
                        Some(t) => Some(t@),
                        None => None,
                    },
                ) {
                    Some(h) => !animations@.contains_key(h@) || animations@[h@].frames@.len()
                        == 0,
                    None => true,
                },
            },
    {
        let handle = match tag {
            Some(t) => anim_info.lookup_with_tag(path, t),
            None => anim_info.lookup(path),
        };
        let anim_handle = match handle {
            Some(h) => h,
            None => {
                return None;
            },
        };
        match animations.get(anim_handle.as_str()) {
            Some(anim) => AnimInfo::new(anim_handle, anim),
            None => None,
        }
    }
}

/// The state of an animation that is being played.
#[derive(Debug, Clone, PartialEq, Eq)]
pub struct PlayAnimation {
    /// Number of the frame that is shown.
    pub current_frame: u32,
    /// When the frame that is shown ends. Zero for an animation that has not
    /// been shown yet.
    pub frame_end: GameTime,
    pub playing: bool,
    pub looping: bool,
    /// Handle of the animation.
    pub animation: String,
}

impl PlayAnimation {
    /// A looping animation that starts to play with its first frame.
    pub fn new(animation: String) -> (play: Self)
        ensures
            play.animation == animation,
            play.current_frame == 0,
            play.frame_end.0 == 0,
            play.playing,
            play.looping,
    {
        PlayAnimation {
            animation,
            current_frame: 0,
            frame_end: GameTime::zero(),
            playing: true,
            looping: true,
        }
    }
}

/// The largest time at which an animation can be played: far enough from the
/// end of time for one more frame.
pub const MAX_PLAY_TIME: u64 = 0xffff_ffff_0000_0000;

/// True if every frame is shown for some time.
pub open spec fn timed(frames: Seq<Frame>) -> bool {
    forall|i: int| 0 <= i < frames.len() ==> (#[trigger] frames[i]).duration_ms > 0
}

/// Where an animation stands: the frame shown, when it ends, and whether the
/// animation goes on.
pub struct Playhead {
    pub frame: int,
    pub frame_end: int,
    pub playing: bool,
}

/// The frame after the given one: the first frame after the last.
pub open spec fn next_frame(frames: Seq<Frame>, frame: int) -> int {
    if frame + 1 < frames.len() {
        frame + 1
    } else {
        0
    }
}

/// True if the given frame is the last one, after which the animation wraps
/// around.
pub open spec fn wraps_after(frames: Seq<Frame>, frame: int) -> bool {
    frame + 1 >= frames.len()
}

/// The time from the end of a frame to `t`; none once the frame ends at `t`
/// or later.
pub open spec fn time_left(frame_end: int, t: int) -> int {
    if frame_end < t {
        t - frame_end
    } else {
        0
    }
}

/// Where an animation stands at time `t`, going on frame by frame from the
/// given frame and its end: the first frame that does not end before `t`, or
/// the last frame for an animation that does not loop.
pub open spec fn settle(frames: Seq<Frame>, looping: bool, frame: int, frame_end: int, t: int) -> Playhead
    decreases time_left(frame_end, t),
    when timed(frames) && frames.len() > 0 && 0 <= frame
{
    if frame_end >= t {
        Playhead { frame, frame_end, playing: true }
    } else {
        if wraps_after(frames, frame) && !looping {
            Playhead { frame, frame_end, playing: false }
        } else {
            let next = next_frame(frames, frame);
            settle(frames, looping, next, frame_end + frames[next].duration_ms, t)
        }
    }
}

/// Where a playing animation stands at time `t`. An animation that has not
/// been shown yet starts with its current frame at `t`.
pub open spec fn advanced(frames: Seq<Frame>, play: PlayAnimation, t: int) -> Playhead {
    if play.frame_end.0 == 0 {
        Playhead {
            frame: play.current_frame as int,
            frame_end: t + frames[play.current_frame as int].duration_ms,
            playing: true,
        }
    } else {
        settle(frames, play.looping, play.current_frame as int, play.frame_end.0 as int, t)
    }
}

/// True if the animation can be played at time `t`: it has frames, each is
/// shown for some time, the frame shown is one of them, and `t` is not at
/// the end of time.
pub open spec fn playable(frames: Seq<Frame>, play: PlayAnimation, t: GameTime) -> bool {
    &&& 0 < frames.len() <= u32::MAX
    &&& timed(frames)
    &&& play.current_frame < frames.len()
    &&& t.0 <= MAX_PLAY_TIME
}

/// Checks that every frame is shown for some time.
fn check_timed(frames: &Vec<Frame>) -> (ok: bool)
    ensures
        ok == timed(frames@),
{
    let mut i: usize = 0;
    while i < frames.len()
        invariant
            0 <= i <= frames@.len(),
            forall|j: int| 0 <= j < i ==> (#[trigger] frames@[j]).duration_ms > 0,
        decreases frames@.len() - i,
    {
        if frames[i].duration_ms == 0 {
            return false;
        }
        i = i + 1;
    }
    true
}

/// Moves a playing animation on to time `t`.
///
/// Returns the atlas slot to show, if the frame shown has changed or the
/// animation is shown for the first time. An animation that does not play,
/// or whose frame has not ended at `t`, is left as it is. An animation that
/// does not loop stops at its last frame.
pub fn advance(t: GameTime, anim: &Animation, play: &mut PlayAnimation) -> (shown: Option<u32>)
    requires
        playable(anim.frames@, *old(play), t),
    ensures
        final(play).animation == old(play).animation,
        final(play).looping == old(play).looping,
        !old(play).playing || old(play).frame_end.0 >= t.0 ==> *final(play) == *old(play)
            && shown is None,
        old(play).playing && old(play).frame_end.0 < t.0 ==> {
            let head = advanced(anim.frames@, *old(play), t.0 as int);
            &&& final(play).current_frame == head.frame
            &&& final(play).frame_end.0 == head.frame_end
            &&& final(play).playing == head.playing
            &&& shown == if old(play).frame_end.0 == 0 || head.frame != old(play).current_frame {
                Some(anim.frames@[head.frame].sprite.atlas_index)
            } else {
                None
            }
        },
{
    if !play.playing {
        return None;
    }
    if play.frame_end.0 >= t.0 {
        return None;
    }
    let mut frame = play.current_frame;
    let mut init = false;
    if play.frame_end.0 == 0 {
        play.frame_end = t;
        play.frame_end.add_millis(anim.frame(frame).duration_ms);
        init = true;
    } else {
        let ghost start = *play;
        let ghost frames = anim.frames@;
        let ghost goal = settle(
            frames,
            play.looping,
            play.current_frame as int,
            play.frame_end.0 as int,
            t.0 as int,
        );
        while play.frame_end.0 < t.0
            invariant_except_break
                play.playing,
                settle(frames, play.looping, frame as int, play.frame_end.0 as int, t.0 as int)
                    == goal,
            invariant
                frames == anim.frames@,
                0 < frames.len() <= u32::MAX,
                timed(frames),
                frame < frames.len(),
                t.0 <= MAX_PLAY_TIME,
                play.looping == start.looping,
                play.animation == start.animation,
                play.current_frame == start.current_frame,
            ensures
                frame < frames.len(),
                play.looping == start.looping,
                play.animation == start.animation,
                play.current_frame == start.current_frame,
                frame == goal.frame,
                play.frame_end.0 == goal.frame_end,
                play.playing == goal.playing,
            decreases time_left(play.frame_end.0 as int, t.0 as int),
        {
            let (next_frame, wrapped) = anim.frame_after(frame);
            if wrapped && !play.looping {
                play.playing = false;
                break ;
            }
            frame = next_frame;
            assert(frames[frame as int].duration_ms > 0);
            let ghost ended = play.frame_end.0;
            let mut frame_end = play.frame_end;
            frame_end.add_millis(anim.frame(frame).duration_ms);
            play.frame_end = frame_end;
            assert(play.frame_end.0 == ended + frames[frame as int].duration_ms);
        }
    }
    if init || frame != play.current_frame {
        play.current_frame = frame;
        Some(anim.frame(frame).sprite.atlas_index)
    } else {
        None
    }
}

/// Moves an animation on to time `t`, if it can be played: see [advance].
///
/// An animation that cannot be played is left as it is. That is one without
/// frames, one whose current frame it does not have, and also one with a
/// frame that lasts no time at all: to play it, the frames would have to be
/// gone through without the time moving on, which need not come to an end.
/// Nor is an animation moved on to a time above [MAX_PLAY_TIME], within four
/// billion milliseconds of the end of time.
pub fn sprite_animator(t: GameTime, anim: &Animation, play: &mut PlayAnimation) -> (shown: Option<
    u32,
>)
    ensures
        !playable(anim.frames@, *old(play), t) ==> *final(play) == *old(play) && shown is None,
        playable(anim.frames@, *old(play), t) ==> {
            &&& final(play).animation == old(play).animation
            &&& final(play).looping == old(play).looping
            &&& !old(play).playing || old(play).frame_end.0 >= t.0 ==> *final(play) == *old(play)
                && shown is None
            &&& old(play).playing && old(play).frame_end.0 < t.0 ==> {
                let head = advanced(anim.frames@, *old(play), t.0 as int);
                &&& final(play).current_frame == head.frame
                &&& final(play).frame_end.0 == head.frame_end
                &&& final(play).playing == head.playing
                &&& shown == if old(play).frame_end.0 == 0 || head.frame != old(
                    play,
                ).current_frame {
                    Some(anim.frames@[head.frame].sprite.atlas_index)
                } else {
                    None
                }
            }
        },
{
    let n = anim.frames.len();
    if n == 0 || n > u32::MAX as usize || play.current_frame as usize >= n || t.0 > MAX_PLAY_TIME
        || !check_timed(&anim.frames) {
        return None;
    }
    advance(t, anim, play)
}

} // verus!
