//! Reading, writing and checking the binary data formats of the Neversoft
//! engine games: QB scripts, skeletons, animations and the standard key tables.
pub mod bytes;
pub mod compare;
pub mod stdkey;
pub mod qb;
pub mod text;
pub mod vec4;
pub mod skel;
pub mod ske;
pub mod anim;
pub mod game;
