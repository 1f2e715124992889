//! Game-state analyzer: a deterministic mapping from raw console memory
//! samples (game mode byte, level id byte, event-flag block) to a semantic
//! "is the player actively playing, and in which level" signal.

use vstd::prelude::*;

verus! {

/// Raw game-mode byte that the console holds while the player is inside a level.
pub const LEVEL_MODE: u8 = 0x14;

/// Raw game-mode byte that the console holds while the player is on the overworld.
pub const OVERWORLD_MODE: u8 = 0x0E;

/// The player counts as actively playing exactly in the level and overworld modes.
pub open spec fn spec_is_active(game_mode: u8) -> bool {
    game_mode == LEVEL_MODE || game_mode == OVERWORLD_MODE
}

/// Level ids that stand for non-gameplay submaps and transition screens;
/// they are never reported as the current level.
pub open spec fn spec_level_excluded(level_id: u8) -> bool {
    level_id == 0x00 || level_id == 0xC5 || level_id == 0xC7
}

/// The level reported for one sample: the raw level id while inside a level,
/// unless that id is one of the excluded non-gameplay ids.
pub open spec fn spec_reported_level(game_mode: u8, level_id: u8) -> Option<u8> {
    if game_mode == LEVEL_MODE && !spec_level_excluded(level_id) {
        Some(level_id)
    } else {
        None
    }
}

/// Semantic play signal derived from one memory sample.
#[derive(Debug, Clone)]
pub struct TrackingUpdate {
    pub is_active: bool,
    pub level_id: Option<u8>,
}

/// Stateful interpreter for raw memory samples. The classification itself is
/// stateless per call; the fields only retain the last result for status
/// reporting.
pub struct SmwAnalyzer {
    pub in_level: bool,
    pub last_game_mode: u8,
    pub current_level_id: Option<u8>,
}

impl SmwAnalyzer {
    /// Console address of the game-mode byte.
    pub const ADDR_GAME_MODE: u32 = 0xF50100;

    /// Console address of the level-id byte.
    pub const ADDR_LEVEL_ID: u32 = 0xF513BF;

    /// Console address of the event-flag block.
    pub const ADDR_EVENT_FLAGS: u32 = 0xF51EA2;

    /// Size in bytes of the event-flag block.
    pub const EVENT_FLAGS_SIZE: u32 = 15;

    pub fn new() -> (r: Self)
        ensures
            !r.in_level,
            r.last_game_mode == 0u8,
            r.current_level_id is None,
    {
        Self { in_level: false, last_game_mode: 0, current_level_id: None }
    }

    /// Classify one memory sample. The event-flag block is accepted and
    /// ignored; it is reserved for future extension and plays no part in the
    /// classification.
    pub fn interpret(&mut self, game_mode: u8, level_id: u8, _events: &[u8]) -> (r: TrackingUpdate)
        ensures
            r.is_active == spec_is_active(game_mode),
            r.level_id == spec_reported_level(game_mode, level_id),
            final(self).in_level == (game_mode == LEVEL_MODE),
            final(self).last_game_mode == game_mode,
            final(self).current_level_id == r.level_id,
    {
        let is_level = game_mode == LEVEL_MODE;
        let is_overworld = game_mode == OVERWORLD_MODE;
        let is_active = is_level || is_overworld;

        let excluded = level_id == 0x00 || level_id == 0xC5 || level_id == 0xC7;
        let current_level: Option<u8> = if is_level && !excluded {
            Some(level_id)
        } else {
            None
        };

        self.in_level = is_level;
        self.last_game_mode = game_mode;
        self.current_level_id = current_level;

        TrackingUpdate { is_active, level_id: current_level }
    }
}

/// Law: for both playing modes (level and overworld) the activity signal is
/// true, and for every other game-mode byte it is false.
pub proof fn lemma_activity_iff_playing_mode(game_mode: u8)
    ensures
        (game_mode == LEVEL_MODE || game_mode == OVERWORLD_MODE) ==> spec_is_active(game_mode),
        (game_mode != LEVEL_MODE && game_mode != OVERWORLD_MODE) ==> !spec_is_active(game_mode),
{
}

/// Law: while in level mode, an excluded level id is never reported as the
/// current level, whatever the raw byte value.
pub proof fn lemma_excluded_level_never_reported(level_id: u8)
    requires
        spec_level_excluded(level_id),
    ensures
        spec_reported_level(LEVEL_MODE, level_id) is None,
{
}

} // verus!
