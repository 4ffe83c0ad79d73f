use vstd::prelude::*;

use crate::direction::{in_bounds, in_bounds_spec, Pos};
use crate::level::Level;
use crate::misc::contains_pos;

verus! {

/// The version of the save format written today.
pub const SAVE_VERSION: u32 = 5;

/// What a save file records of the campaign level it solves.
#[derive(Clone, Copy, Debug, PartialEq, Eq, Structural)]
pub struct LevelMeta {
    pub id: u128,
    pub solved: bool,
}

/// The header of a save file.
#[derive(Clone, Debug)]
pub struct BoardMeta {
    pub version: u32,
    pub name: String,
    pub level: Option<LevelMeta>,
    pub size: Option<(u32, u32)>,
    /// When the board was last played, in milliseconds since the Unix epoch.
    pub last_played: i64,
    /// Seconds spent on the board.
    pub playtime: u64,
}

impl BoardMeta {
    /// The header of a new sandbox board called `name`, created at `now`.
    pub fn new_sandbox(name: String, now: i64) -> (r: BoardMeta)
        ensures
            r.version == SAVE_VERSION,
            r.name == name,
            r.level is None,
            r.size is None,
            r.last_played == now,
            r.playtime == 0,
    {
        BoardMeta { version: SAVE_VERSION, name, level: None, size: None, last_played: now, playtime: 0 }
    }

    /// Whether the board is a solution that passed its level.
    pub fn is_solved(&self) -> (r: bool)
        ensures
            r == (self.level matches Some(l) && l.solved),
    {
        match self.level {
            Some(l) => l.solved,
            None => false,
        }
    }

    /// Brings the header up to date before the board is written: the time of
    /// the session is added to the playtime, and the board is marked as
    /// played at `now` in today's format.
    pub fn stamp_save(&mut self, session: u64, now: i64)
        requires
            old(self).playtime + session <= u64::MAX,
        ensures
            final(self).playtime == old(self).playtime + session,
            final(self).last_played == now,
            final(self).version == SAVE_VERSION,
            final(self).name == old(self).name,
            final(self).level == old(self).level,
            final(self).size == old(self).size,
    {
        self.playtime = self.playtime + session;
        self.last_played = now;
        self.version = SAVE_VERSION;
    }
}

/// The last cell of a board `size` wide or high.
pub open spec fn last_cell(size: u32) -> i32 {
    ((#[verifier::truncate] (size as i32)) - 1) as i32
}

/// Whether the player may place a tile at `pos`: the level does not fix it,
/// and it lies on the board where the board is bounded.
pub open spec fn valid_tile_spec(pos: Pos, level: Option<Level>, size: Option<(u32, u32)>) -> bool {
    let moveable = !(level matches Some(l) && l.permanent@.contains(pos));
    let inside = match size {
        Some(s) => in_bounds_spec(pos, Pos { x: 0, y: 0 }, Pos { x: last_cell(s.0), y: last_cell(s.1) }),
        None => true,
    };
    moveable && inside
}

pub fn valid_tile(pos: Pos, level: Option<&Level>, size: Option<(u32, u32)>) -> (r: bool)
    requires
        size matches Some(s) ==> s.0 != 0x8000_0000 && s.1 != 0x8000_0000,
    ensures
        r == valid_tile_spec(
            pos,
            match level {
                Some(l) => Some(*l),
                None => None,
            },
            size,
        ),
{
    let moveable = match level {
        Some(l) => !contains_pos(&l.permanent, pos),
        None => true,
    };
    let inside = match size {
        Some(s) => {
            let sw: u32 = s.0;
            let sh: u32 = s.1;
            let w: i32 = #[verifier::truncate] (sw as i32);
            let h: i32 = #[verifier::truncate] (sh as i32);
            assert(w != i32::MIN) by (bit_vector)
                requires
                    sw != 0x8000_0000u32,
                    w == sw as i32,
            ;
            assert(h != i32::MIN) by (bit_vector)
                requires
                    sh != 0x8000_0000u32,
                    h == sh as i32,
            ;
            in_bounds(pos, (Pos { x: 0, y: 0 }, Pos { x: w - 1, y: h - 1 }))
        },
        None => true,
    };
    moveable && inside
}

} // verus!
