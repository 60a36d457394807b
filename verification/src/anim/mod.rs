//! Animations: reading and writing their files, decompressing their frames, and
//! converting them to and from the boned form in which they move between games.
pub mod boned;
pub mod frames;
pub mod laws;
pub mod thug2;

use crate::bytes::{avail, u32_le, ByteReader, ByteWriter, IoError, WriteState};
use crate::game::Game;
use crate::skel;
use crate::stdkey::StdKey;
use vstd::prelude::*;

verus! {

/// Why reading or converting an animation failed.
#[derive(Debug)]
pub enum Error {
    /// The bytes ran out.
    Io(IoError),
    /// The file is of a version whose layout is not known.
    UnknownVersion(u32),
    /// No mapping converts animations of the first game to the second.
    MappingNotImplemented(Game, Game),
    /// A converted file's name could not be made.
    FilenameError,
    /// A skeleton that a mapping needs could not be had.
    SkeletonError(skel::Error),
}

/// What writing an animation needs to know: the game it is written for.
#[derive(Debug, Clone, Copy)]
pub struct WriteContext {
    pub game: Game,
}

/// An animation of any known layout.
#[derive(Debug)]
pub enum Animation {
    Thug2(thug2::Animation),
}

pub enum AnimationV {
    Thug2(thug2::AnimationV),
}

impl View for Animation {
    type V = AnimationV;

    open spec fn view(&self) -> AnimationV {
        match self {
            Animation::Thug2(a) => AnimationV::Thug2(a@),
        }
    }
}

/// What reading an animation file gives: its first four bytes give the version,
/// and the whole file is then read in the layout that the version names.
pub open spec fn parse_animation(s: Seq<u8>, p: int) -> Result<(AnimationV, int), Error> {
    if !avail(s, p, 4) {
        Err(Error::Io(IoError::UnexpectedEof))
    } else if u32_le(s, p) == thug2::HEADER_VERSION {
        match thug2::parse_animation(s, 0) {
            Some((v, q)) => Ok((AnimationV::Thug2(v), q)),
            None => Err(Error::Io(IoError::UnexpectedEof)),
        }
    } else {
        Err(Error::UnknownVersion(u32_le(s, p)))
    }
}

/// A conversion between the animations of two games.
#[derive(Debug, Clone, Copy, PartialEq, Eq, Structural)]
pub enum Mapping {
    /// THUG animations onto the THPS4 skeleton.
    ThugToThps4,
}

/// The conversion from animations of `in_game` to animations of `out_game`:
/// only THUG to THPS4 is known.
pub fn convert(in_game: Game, out_game: Game) -> (r: Result<Mapping, Error>)
    ensures
        (in_game, out_game) == (Game::THUG, Game::THPS4) ==> r == Ok::<Mapping, Error>(
            Mapping::ThugToThps4,
        ),
        (in_game, out_game) != (Game::THUG, Game::THPS4) ==> r == Err::<Mapping, Error>(
            Error::MappingNotImplemented(in_game, out_game),
        ),
{
    match (in_game, out_game) {
        (Game::THUG, Game::THPS4) => Ok(Mapping::ThugToThps4),
        _ => Err(Error::MappingNotImplemented(in_game, out_game)),
    }
}

impl Animation {
    /// Reads the version at the reader's position, goes back to the start, and
    /// reads the animation in the layout of that version.
    pub fn read(reader: &mut ByteReader) -> (r: Result<Animation, Error>)
        ensures
            final(reader)@.bytes == old(reader)@.bytes,
            match parse_animation(old(reader)@.bytes, old(reader)@.pos) {
                Ok((v, q)) => r is Ok && r->Ok_0@ == v && final(reader)@.pos == q,
                Err(e) => r == Err::<Animation, Error>(e) && (e is UnknownVersion ==> final(reader)@.pos
                    == 0),
            },
    {
        let version = match reader.read_u32() {
            Ok(v) => v,
            Err(e) => return Err(Error::Io(e)),
        };
        reader.seek(0);
        if version == thug2::HEADER_VERSION {
            match thug2::Animation::read(reader) {
                Ok(a) => Ok(Animation::Thug2(a)),
                Err(e) => Err(Error::Io(e)),
            }
        } else {
            Err(Error::UnknownVersion(version))
        }
    }

    /// Writes the animation in its own layout for the game of `ctx`.
    pub fn write(&self, writer: &mut ByteWriter, ctx: &mut WriteContext)
        requires
            match self@ {
                AnimationV::Thug2(v) => old(writer)@.pos + thug2::header_bytes(v.header).len()
                    + thug2::qblocks_bytes(v.q_blocks).len() + thug2::tblocks_bytes(
                    v.t_blocks,
                ).len() + 3 <= usize::MAX,
            },
        ensures
            *final(ctx) == *old(ctx),
            match self@ {
                AnimationV::Thug2(v) => final(writer)@ == (WriteState {
                    bytes: old(writer)@.emit(
                        thug2::animation_bytes(v, old(ctx).game, old(writer)@.pos),
                    ).bytes,
                    pos: old(writer)@.pos + thug2::header_bytes(thug2::written_header(v)).len(),
                }),
            },
    {
        match self {
            Animation::Thug2(a) => a.write(writer, ctx),
        }
    }

    /// The animation with every frame decompressed.
    pub fn decompress(&self, qkeys: &StdKey, tkeys: &StdKey) -> (r: Animation)
        ensures
            match self@ {
                AnimationV::Thug2(v) => r@ == AnimationV::Thug2(
                    thug2::animation_decompressed(v, qkeys@, tkeys@),
                ),
            },
    {
        match self {
            Animation::Thug2(a) => Animation::Thug2(a.decompress(qkeys, tkeys)),
        }
    }

    /// The animation in the boned form.
    pub fn to_boned(&self, qkeys: &StdKey, tkeys: &StdKey) -> (r: boned::Animation)
        ensures
            match self@ {
                AnimationV::Thug2(v) => r@ == thug2::animation_boned(v, qkeys@, tkeys@),
            },
    {
        match self {
            Animation::Thug2(a) => a.to_boned(qkeys, tkeys),
        }
    }

    /// The animation made from one in the boned form, for any of the games: all
    /// of them use the THUG2 layout.
    pub fn from_boned(animation: &boned::Animation, game: Game) -> (r: Animation)
        ensures
            r@ == AnimationV::Thug2(thug2::animation_from_boned(animation@)),
    {
        match game {
            Game::THPS4 | Game::THUG | Game::THUG2 => Animation::Thug2(
                thug2::Animation::from_boned(animation),
            ),
        }
    }
}

} // verus!
