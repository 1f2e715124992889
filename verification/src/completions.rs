//! Completion records: a user's finished routes through a hack, kept by the
//! store. The store calls themselves live outside the library; these are
//! the plain values they carry.

use vstd::prelude::*;

verus! {

/// One recorded completion of one route through a hack.
pub struct HackCompletion {
    pub id: u32,
    pub hack_id: u32,
    pub route: String,
    pub completed_at: Option<i64>,
    pub play_time_seconds: Option<i32>,
    pub created_at: i64,
    pub updated_at: i64,
}

/// The fields a new completion is created from.
pub struct CreateCompletion {
    pub hack_id: u32,
    pub route: String,
    pub completed_at: Option<i64>,
    pub play_time_seconds: Option<i32>,
}

/// The fields an existing completion is updated with.
pub struct UpdateCompletion {
    pub id: u32,
    pub completed_at: Option<i64>,
    pub play_time_seconds: Option<i32>,
}

/// The per-hack completion summary: how many completions and which routes.
pub struct CompletionSummary {
    pub total_completions: u32,
    pub routes: Vec<String>,
}

} // verus!
