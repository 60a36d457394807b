//! The boned form of an animation, the form in which animations are converted
//! between games: for each bone, its rotation and translation frames with their
//! times, the coordinates kept scaled as the files store them.
use crate::anim::frames::{BonedQFrame, BonedTFrame};
use vstd::prelude::*;

verus! {

pub struct AnimBoneV {
    pub q_frames: Seq<BonedQFrame>,
    pub t_frames: Seq<BonedTFrame>,
}

/// The frames of one bone.
#[derive(Debug, Clone)]
pub struct AnimBone {
    pub q_frames: Vec<BonedQFrame>,
    pub t_frames: Vec<BonedTFrame>,
}

impl View for AnimBone {
    type V = AnimBoneV;

    open spec fn view(&self) -> AnimBoneV {
        AnimBoneV { q_frames: self.q_frames@, t_frames: self.t_frames@ }
    }
}

pub struct AnimationV {
    pub duration: u32,
    pub bones: Seq<AnimBoneV>,
}

/// An animation in the boned form: its duration (the bits of a 32-bit float)
/// and the frames of each bone.
#[derive(Debug)]
pub struct Animation {
    pub duration: u32,
    pub bones: Vec<AnimBone>,
}

pub open spec fn bones_view(bones: Seq<AnimBone>) -> Seq<AnimBoneV> {
    Seq::new(bones.len(), |i: int| bones[i]@)
}

impl View for Animation {
    type V = AnimationV;

    open spec fn view(&self) -> AnimationV {
        AnimationV { duration: self.duration, bones: bones_view(self.bones@) }
    }
}

impl AnimBone {
    /// A bone without frames.
    pub fn empty() -> (r: AnimBone)
        ensures
            r@.q_frames.len() == 0,
            r@.t_frames.len() == 0,
    {
        AnimBone { q_frames: Vec::new(), t_frames: Vec::new() }
    }
}

} // verus!
