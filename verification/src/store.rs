//! Model of the persisted tracking state: hack records with cumulative play
//! time, play-session rows, and per-(hack, level) timing rows. Writes are
//! best-effort, as the tracking loop requires: an impossible write (a full
//! id space) is swallowed, never an error.

use vstd::prelude::*;
use vstd::pervasive::VecAdditionalExecFns;
use crate::bytestr::{ascii_lower, contains_bytes, spec_ascii_lower, spec_contains};

verus! {

/// Find the index of the first element satisfying the predicate.
pub open spec fn spec_find_first<T>(s: Seq<T>, p: spec_fn(T) -> bool) -> Option<int>
    decreases s.len(),
{
    if s.len() == 0 {
        None
    } else if p(s[0]) {
        Some(0int)
    } else {
        match spec_find_first(s.drop_first(), p) {
            Some(i) => Some(i + 1),
            None => None,
        }
    }
}

pub proof fn lemma_find_first_char<T>(s: Seq<T>, p: spec_fn(T) -> bool)
    ensures
        match spec_find_first(s, p) {
            Some(ix) => 0 <= ix < s.len() && p(s[ix]) && forall|k: int| 0 <= k < ix ==> !p(s[k]),
            None => forall|k: int| 0 <= k < s.len() ==> !p(s[k]),
        },
    decreases s.len(),
{
    if s.len() > 0 && !p(s[0]) {
        lemma_find_first_char(s.drop_first(), p);
        match spec_find_first(s.drop_first(), p) {
            Some(ix) => {
                assert(s.drop_first()[ix] == s[ix + 1]);
                assert forall|k: int| 0 <= k < ix + 1 implies !p(s[k]) by {
                    if k > 0 {
                        assert(s.drop_first()[k - 1] == s[k]);
                    }
                }
            },
            None => {
                assert forall|k: int| 0 <= k < s.len() implies !p(s[k]) by {
                    if k > 0 {
                        assert(s.drop_first()[k - 1] == s[k]);
                    }
                }
            },
        }
    }
}

pub proof fn lemma_find_first_is<T>(s: Seq<T>, p: spec_fn(T) -> bool, i: int)
    requires
        0 <= i < s.len(),
        p(s[i]),
        forall|k: int| 0 <= k < i ==> !p(s[k]),
    ensures
        spec_find_first(s, p) == Some(i),
{
    lemma_find_first_char(s, p);
    match spec_find_first(s, p) {
        Some(ix) => {
            if ix < i {
                assert(false);
            }
            if ix > i {
                assert(!p(s[i]));
            }
        },
        None => {
            assert(!p(s[i]));
        },
    }
}

pub proof fn lemma_find_first_none<T>(s: Seq<T>, p: spec_fn(T) -> bool)
    requires
        forall|k: int| 0 <= k < s.len() ==> !p(s[k]),
    ensures
        spec_find_first(s, p) is None,
{
    lemma_find_first_char(s, p);
    match spec_find_first(s, p) {
        Some(ix) => {
            assert(!p(s[ix]));
        },
        None => (),
    }
}

/// Increment that sticks at the top of the range instead of overflowing;
/// counters only ever grow.
pub open spec fn spec_inc64(v: i64) -> i64 {
    if v < i64::MAX {
        (v + 1) as i64
    } else {
        v
    }
}

fn inc64(v: i64) -> (r: i64)
    ensures
        r == spec_inc64(v),
{
    if v < i64::MAX {
        v + 1
    } else {
        v
    }
}

/// One managed hack: identity, display name, optional patched-image path,
/// optional ROM checksum fingerprint, and cumulative play time in seconds.
pub struct HackRow {
    pub id: i64,
    pub name: Vec<u8>,
    pub file_path: Option<Vec<u8>>,
    pub rom_checksum: Option<Vec<u8>>,
    pub total_play_time: i64,
}

/// One contiguous tracked play interval.
#[derive(Clone, Copy)]
pub struct SessionRow {
    pub id: i64,
    pub hack_id: i64,
    pub start_time: u64,
    pub end_time: Option<u64>,
    pub duration_seconds: i64,
}

/// Cumulative time and visit count for one level of one hack.
#[derive(Clone, Copy)]
pub struct LevelRow {
    pub hack_id: i64,
    pub level_id: u8,
    pub duration_seconds: i64,
    pub visit_count: i64,
}

/// Cumulative time for one level, as the stats query reports it.
pub struct LevelTiming {
    pub level_id: i64,
    pub seconds: i64,
}

/// The per-hack statistics snapshot.
pub struct HackStats {
    pub total_play_time_seconds: i64,
    pub session_count: i64,
    pub level_timings: Vec<LevelTiming>,
}

/// Predicate constructors for the row searches, so that every use names the
/// same function value.
pub open spec fn hack_id_pred(id: i64) -> spec_fn(HackRow) -> bool {
    |r: HackRow| r.id == id
}

pub open spec fn session_id_pred(id: i64) -> spec_fn(SessionRow) -> bool {
    |r: SessionRow| r.id == id
}

pub open spec fn level_key_pred(hack_id: i64, level_id: u8) -> spec_fn(LevelRow) -> bool {
    |r: LevelRow| r.hack_id == hack_id && r.level_id == level_id
}

pub open spec fn checksum_pred(key: Seq<u8>) -> spec_fn(HackRow) -> bool {
    |r: HackRow| r.rom_checksum matches Some(f) && f@ == key
}

/// A name-fragment match ignores ASCII case, as the original store's
/// pattern match did: both the stored name or path and the fragment are
/// compared lowercased.
pub open spec fn name_fragment_pred(frag: Seq<u8>) -> spec_fn(HackRow) -> bool {
    |r: HackRow|
        spec_contains(spec_ascii_lower(r.name@), spec_ascii_lower(frag)) || (r.file_path matches
        Some(p) && spec_contains(spec_ascii_lower(p@), spec_ascii_lower(frag)))
}

/// The store. Session ids are handed out in order, as a relational store's
/// row ids would be.
pub struct TrackingStore {
    pub hacks: Vec<HackRow>,
    pub sessions: Vec<SessionRow>,
    pub level_timings: Vec<LevelRow>,
    pub next_session_id: i64,
}

impl TrackingStore {
    /// Well-formedness: counters non-negative, ids unique, level rows keyed
    /// by (hack, level), session ids below the allocator watermark.
    pub open spec fn wf(&self) -> bool {
        &&& 1 <= self.next_session_id
        &&& forall|i: int|
            #![trigger self.sessions@[i]]
            0 <= i < self.sessions@.len() ==> {
                &&& 0 < self.sessions@[i].id < self.next_session_id
                &&& self.sessions@[i].duration_seconds >= 0
            }
        &&& forall|i: int, j: int|
            #![trigger self.sessions@[i], self.sessions@[j]]
            0 <= i < j < self.sessions@.len() ==> self.sessions@[i].id != self.sessions@[j].id
        &&& forall|i: int|
            #![trigger self.hacks@[i]]
            0 <= i < self.hacks@.len() ==> self.hacks@[i].total_play_time >= 0
        &&& forall|i: int, j: int|
            #![trigger self.hacks@[i], self.hacks@[j]]
            0 <= i < j < self.hacks@.len() ==> self.hacks@[i].id != self.hacks@[j].id
        &&& forall|i: int|
            #![trigger self.level_timings@[i]]
            0 <= i < self.level_timings@.len() ==> {
                &&& self.level_timings@[i].duration_seconds >= 0
                &&& self.level_timings@[i].visit_count >= 0
            }
        &&& forall|i: int, j: int|
            #![trigger self.level_timings@[i], self.level_timings@[j]]
            0 <= i < j < self.level_timings@.len() ==> !(self.level_timings@[i].hack_id
                == self.level_timings@[j].hack_id && self.level_timings@[i].level_id
                == self.level_timings@[j].level_id)
    }

    /// An empty store.
    pub fn new() -> (r: Self)
        ensures
            r.wf(),
            r.hacks@.len() == 0,
            r.sessions@.len() == 0,
            r.level_timings@.len() == 0,
            r.next_session_id == 1,
    {
        TrackingStore {
            hacks: Vec::new(),
            sessions: Vec::new(),
            level_timings: Vec::new(),
            next_session_id: 1,
        }
    }

    /// Register a hack with zero play time. A duplicate id is rejected so
    /// that ids stay unique; the result says whether the row was added.
    pub fn add_hack(
        &mut self,
        id: i64,
        name: Vec<u8>,
        file_path: Option<Vec<u8>>,
        rom_checksum: Option<Vec<u8>>,
    ) -> (r: bool)
        requires
            old(self).wf(),
        ensures
            final(self).wf(),
            final(self).sessions == old(self).sessions,
            final(self).level_timings == old(self).level_timings,
            final(self).next_session_id == old(self).next_session_id,
            spec_find_first(old(self).hacks@, hack_id_pred(id)) is None <==> r,
            r ==> final(self).hacks@.len() == old(self).hacks@.len() + 1
                && final(self).hacks@.last().id == id && final(self).hacks@.last().name == name
                && final(self).hacks@.last().file_path == file_path
                && final(self).hacks@.last().rom_checksum == rom_checksum
                && final(self).hacks@.last().total_play_time == 0 && final(self).hacks@.drop_last()
                == old(self).hacks@,
            !r ==> final(self).hacks == old(self).hacks,
    {
        let mut i: usize = 0;
        while i < self.hacks.len()
            invariant
                self == old(self),
                old(self).wf(),
                i <= self.hacks@.len(),
                forall|k: int| 0 <= k < i ==> !#[trigger] hack_id_pred(id)(self.hacks@[k]),
            decreases self.hacks@.len() - i,
        {
            if self.hacks[i].id == id {
                proof {
                    assert(hack_id_pred(id)(self.hacks@[i as int]));
                    lemma_find_first_is(self.hacks@, hack_id_pred(id), i as int);
                }
                return false;
            }
            i += 1;
        }
        proof {
            lemma_find_first_none(self.hacks@, hack_id_pred(id));
        }
        let row = HackRow { id, name, file_path, rom_checksum, total_play_time: 0 };
        self.hacks.push(row);
        proof {
            assert(self.hacks@.drop_last() =~= old(self).hacks@);
            assert forall|k: int| 0 <= k < old(self).hacks@.len() implies old(
                self,
            ).hacks@[k].id != id by {
                assert(!hack_id_pred(id)(old(self).hacks@[k]));
            }
            assert forall|a: int, b: int|
                0 <= a < b < self.hacks@.len() implies self.hacks@[a].id != self.hacks@[b].id by {
                if b < self.hacks@.len() - 1 {
                    assert(self.hacks@[a] == old(self).hacks@[a]);
                    assert(self.hacks@[b] == old(self).hacks@[b]);
                } else {
                    assert(self.hacks@[a] == old(self).hacks@[a]);
                }
            }
        }
        true
    }

    /// Look a hack up by its checksum fingerprint; the first match wins.
    pub fn find_by_checksum(&self, key: &Vec<u8>) -> (r: Option<i64>)
        ensures
            match spec_find_first(self.hacks@, checksum_pred(key@)) {
                Some(ix) => r == Some(self.hacks@[ix].id),
                None => r is None,
            },
    {
        let mut i: usize = 0;
        while i < self.hacks.len()
            invariant
                i <= self.hacks@.len(),
                forall|k: int| 0 <= k < i ==> !#[trigger] checksum_pred(key@)(self.hacks@[k]),
            decreases self.hacks@.len() - i,
        {
            let hit = match &self.hacks[i].rom_checksum {
                Some(f) => f == key,
                None => false,
            };
            proof {
                if hit {
                    assert(self.hacks@[i as int].rom_checksum.unwrap()@ =~= key@);
                } else {
                    if checksum_pred(key@)(self.hacks@[i as int]) {
                        assert(self.hacks@[i as int].rom_checksum.unwrap()@ =~= key@);
                        assert(false);
                    }
                }
            }
            if hit {
                proof {
                    lemma_find_first_is(self.hacks@, checksum_pred(key@), i as int);
                }
                return Some(self.hacks[i].id);
            }
            i += 1;
        }
        proof {
            lemma_find_first_none(self.hacks@, checksum_pred(key@));
        }
        None
    }

    /// Look a hack up by a fragment of its name or file path, ignoring
    /// ASCII case; the first match wins.
    pub fn find_by_name_fragment(&self, frag: &Vec<u8>) -> (r: Option<i64>)
        ensures
            match spec_find_first(self.hacks@, name_fragment_pred(frag@)) {
                Some(ix) => r == Some(self.hacks@[ix].id),
                None => r is None,
            },
    {
        let lower_frag = ascii_lower(frag);
        let mut i: usize = 0;
        while i < self.hacks.len()
            invariant
                lower_frag@ == spec_ascii_lower(frag@),
                i <= self.hacks@.len(),
                forall|k: int| 0 <= k < i ==> !#[trigger] name_fragment_pred(frag@)(self.hacks@[k]),
            decreases self.hacks@.len() - i,
        {
            let row = &self.hacks[i];
            let mut hit = contains_bytes(&ascii_lower(&row.name), &lower_frag);
            if !hit {
                hit = match &row.file_path {
                    Some(p) => contains_bytes(&ascii_lower(p), &lower_frag),
                    None => false,
                };
            }
            if hit {
                proof {
                    assert(name_fragment_pred(frag@)(self.hacks@[i as int]));
                    lemma_find_first_is(self.hacks@, name_fragment_pred(frag@), i as int);
                }
                return Some(self.hacks[i].id);
            }
            proof {
                assert(!name_fragment_pred(frag@)(self.hacks@[i as int]));
            }
            i += 1;
        }
        proof {
            lemma_find_first_none(self.hacks@, name_fragment_pred(frag@));
        }
        None
    }

    /// Open a new session row for a hack: start now, one second already on
    /// the clock (the tick that opens the session counts it). Returns the
    /// new row's id, or nothing when the id space is exhausted (the write
    /// is then swallowed, as every store write is best-effort).
    pub fn insert_session(&mut self, hack_id: i64, now: u64) -> (r: Option<i64>)
        requires
            old(self).wf(),
        ensures
            final(self).wf(),
            final(self).hacks == old(self).hacks,
            final(self).level_timings == old(self).level_timings,
            if old(self).next_session_id < i64::MAX {
                &&& r == Some(old(self).next_session_id)
                &&& final(self).sessions@ == old(self).sessions@.push(
                    SessionRow {
                        id: old(self).next_session_id,
                        hack_id,
                        start_time: now,
                        end_time: None,
                        duration_seconds: 1,
                    },
                )
                &&& final(self).next_session_id == old(self).next_session_id + 1
            } else {
                &&& r is None
                &&& final(self).sessions == old(self).sessions
                &&& final(self).next_session_id == old(self).next_session_id
            },
    {
        if self.next_session_id < i64::MAX {
            let id = self.next_session_id;
            self.sessions.push(
                SessionRow { id, hack_id, start_time: now, end_time: None, duration_seconds: 1 },
            );
            self.next_session_id = id + 1;
            Some(id)
        } else {
            None
        }
    }

    /// One more tracked second on an open session: stamp the end time and
    /// bump the duration. A session id with no row is a swallowed write.
    pub fn tick_session(&mut self, session_id: i64, now: u64)
        requires
            old(self).wf(),
        ensures
            final(self).wf(),
            final(self).hacks == old(self).hacks,
            final(self).level_timings == old(self).level_timings,
            final(self).next_session_id == old(self).next_session_id,
            match spec_find_first(old(self).sessions@, session_id_pred(session_id)) {
                Some(ix) => final(self).sessions@ == old(self).sessions@.update(
                    ix,
                    SessionRow {
                        end_time: Some(now),
                        duration_seconds: spec_inc64(old(self).sessions@[ix].duration_seconds),
                        ..old(self).sessions@[ix]
                    },
                ),
                None => final(self).sessions == old(self).sessions,
            },
    {
        let mut i: usize = 0;
        while i < self.sessions.len()
            invariant
                self == old(self),
                old(self).wf(),
                i <= self.sessions@.len(),
                forall|k: int|
                    0 <= k < i ==> !#[trigger] session_id_pred(session_id)(self.sessions@[k]),
            decreases self.sessions@.len() - i,
        {
            if self.sessions[i].id == session_id {
                proof {
                    assert(session_id_pred(session_id)(self.sessions@[i as int]));
                    lemma_find_first_is(self.sessions@, session_id_pred(session_id), i as int);
                }
                let row = self.sessions[i];
                let updated = SessionRow {
                    end_time: Some(now),
                    duration_seconds: inc64(row.duration_seconds),
                    ..row
                };
                self.sessions.set(i, updated);
                return ;
            }
            i += 1;
        }
        proof {
            lemma_find_first_none(self.sessions@, session_id_pred(session_id));
        }
    }

    /// One more second of cumulative play time for a hack. An unknown hack
    /// id is a swallowed write.
    pub fn increment_total(&mut self, hack_id: i64)
        requires
            old(self).wf(),
        ensures
            final(self).wf(),
            final(self).sessions == old(self).sessions,
            final(self).level_timings == old(self).level_timings,
            final(self).next_session_id == old(self).next_session_id,
            match spec_find_first(old(self).hacks@, hack_id_pred(hack_id)) {
                Some(ix) => final(self).hacks@ == old(self).hacks@.update(
                    ix,
                    HackRow {
                        total_play_time: spec_inc64(old(self).hacks@[ix].total_play_time),
                        ..old(self).hacks@[ix]
                    },
                ),
                None => final(self).hacks == old(self).hacks,
            },
    {
        let mut i: usize = 0;
        while i < self.hacks.len()
            invariant
                self == old(self),
                old(self).wf(),
                i <= self.hacks@.len(),
                forall|k: int| 0 <= k < i ==> !#[trigger] hack_id_pred(hack_id)(self.hacks@[k]),
            decreases self.hacks@.len() - i,
        {
            if self.hacks[i].id == hack_id {
                proof {
                    assert(hack_id_pred(hack_id)(self.hacks@[i as int]));
                    lemma_find_first_is(self.hacks@, hack_id_pred(hack_id), i as int);
                }
                let mut row = HackRow {
                    id: 0,
                    name: Vec::new(),
                    file_path: None,
                    rom_checksum: None,
                    total_play_time: 0,
                };
                self.hacks.set_and_swap(i, &mut row);
                row.total_play_time = inc64(row.total_play_time);
                self.hacks.set_and_swap(i, &mut row);
                proof {
                    assert(final(self).hacks@ =~= old(self).hacks@.update(
                        i as int,
                        HackRow {
                            total_play_time: spec_inc64(old(self).hacks@[i as int].total_play_time),
                            ..old(self).hacks@[i as int]
                        },
                    ));
                }
                return ;
            }
            i += 1;
        }
        proof {
            lemma_find_first_none(self.hacks@, hack_id_pred(hack_id));
        }
    }

    /// One more tracked second in a level: bump the row's duration, or
    /// create it with one second and one visit.
    pub fn upsert_level_timing(&mut self, hack_id: i64, level_id: u8)
        requires
            old(self).wf(),
        ensures
            final(self).wf(),
            final(self).hacks == old(self).hacks,
            final(self).sessions == old(self).sessions,
            final(self).next_session_id == old(self).next_session_id,
            match spec_find_first(old(self).level_timings@, level_key_pred(hack_id, level_id)) {
                Some(ix) => final(self).level_timings@ == old(self).level_timings@.update(
                    ix,
                    LevelRow {
                        duration_seconds: spec_inc64(old(self).level_timings@[ix].duration_seconds),
                        ..old(self).level_timings@[ix]
                    },
                ),
                None => final(self).level_timings@ == old(self).level_timings@.push(
                    LevelRow { hack_id, level_id, duration_seconds: 1, visit_count: 1 },
                ),
            },
    {
        let mut i: usize = 0;
        while i < self.level_timings.len()
            invariant
                self == old(self),
                old(self).wf(),
                i <= self.level_timings@.len(),
                forall|k: int|
                    0 <= k < i ==> !#[trigger] level_key_pred(hack_id, level_id)(
                        self.level_timings@[k],
                    ),
            decreases self.level_timings@.len() - i,
        {
            let row = self.level_timings[i];
            if row.hack_id == hack_id && row.level_id == level_id {
                proof {
                    assert(level_key_pred(hack_id, level_id)(self.level_timings@[i as int]));
                    lemma_find_first_is(
                        self.level_timings@,
                        level_key_pred(hack_id, level_id),
                        i as int,
                    );
                }
                let updated = LevelRow {
                    duration_seconds: inc64(row.duration_seconds),
                    ..row
                };
                self.level_timings.set(i, updated);
                return ;
            }
            proof {
                assert(!level_key_pred(hack_id, level_id)(self.level_timings@[i as int]));
            }
            i += 1;
        }
        proof {
            lemma_find_first_none(self.level_timings@, level_key_pred(hack_id, level_id));
        }
        self.level_timings.push(
            LevelRow { hack_id, level_id, duration_seconds: 1, visit_count: 1 },
        );
        proof {
            assert forall|k: int| 0 <= k < old(self).level_timings@.len() implies !(old(
                self,
            ).level_timings@[k].hack_id == hack_id && old(self).level_timings@[k].level_id
                == level_id) by {
                assert(!level_key_pred(hack_id, level_id)(old(self).level_timings@[k]));
            }
            assert forall|a: int, b: int|
                0 <= a < b < self.level_timings@.len() implies !(self.level_timings@[a].hack_id
                    == self.level_timings@[b].hack_id && self.level_timings@[a].level_id
                    == self.level_timings@[b].level_id) by {
                if b < self.level_timings@.len() - 1 {
                    assert(self.level_timings@[a] == old(self).level_timings@[a]);
                    assert(self.level_timings@[b] == old(self).level_timings@[b]);
                } else {
                    assert(self.level_timings@[a] == old(self).level_timings@[a]);
                }
            }
        }
    }

    /// Put one previously persisted session row back into the model (the
    /// shell loads stored history this way at startup). A row is rejected,
    /// and nothing changes, when its id is out of range or already taken or
    /// its duration is negative; the id allocator is moved past every
    /// restored id.
    pub fn restore_session(
        &mut self,
        id: i64,
        hack_id: i64,
        start_time: u64,
        end_time: Option<u64>,
        duration_seconds: i64,
    ) -> (r: bool)
        requires
            old(self).wf(),
        ensures
            final(self).wf(),
            final(self).hacks == old(self).hacks,
            final(self).level_timings == old(self).level_timings,
            r <==> (0 < id < i64::MAX && duration_seconds >= 0 && spec_find_first(
                old(self).sessions@,
                session_id_pred(id),
            ) is None),
            r ==> final(self).sessions@ == old(self).sessions@.push(
                SessionRow { id, hack_id, start_time, end_time, duration_seconds },
            ) && final(self).next_session_id == (if id + 1 > old(self).next_session_id {
                (id + 1) as i64
            } else {
                old(self).next_session_id
            }),
            !r ==> final(self).sessions == old(self).sessions && final(self).next_session_id
                == old(self).next_session_id,
    {
        if !(0 < id && id < i64::MAX && duration_seconds >= 0) {
            return false;
        }
        let mut i: usize = 0;
        while i < self.sessions.len()
            invariant
                self == old(self),
                old(self).wf(),
                i <= self.sessions@.len(),
                forall|k: int|
                    0 <= k < i ==> !#[trigger] session_id_pred(id)(self.sessions@[k]),
            decreases self.sessions@.len() - i,
        {
            if self.sessions[i].id == id {
                proof {
                    assert(session_id_pred(id)(self.sessions@[i as int]));
                    lemma_find_first_is(self.sessions@, session_id_pred(id), i as int);
                }
                return false;
            }
            i += 1;
        }
        proof {
            lemma_find_first_none(self.sessions@, session_id_pred(id));
        }
        self.sessions.push(SessionRow { id, hack_id, start_time, end_time, duration_seconds });
        if id + 1 > self.next_session_id {
            self.next_session_id = id + 1;
        }
        proof {
            assert forall|k: int| 0 <= k < old(self).sessions@.len() implies old(
                self,
            ).sessions@[k].id != id by {
                assert(!session_id_pred(id)(old(self).sessions@[k]));
            }
            assert forall|a: int, b: int|
                0 <= a < b < self.sessions@.len() implies self.sessions@[a].id
                != self.sessions@[b].id by {
                if b < self.sessions@.len() - 1 {
                    assert(self.sessions@[a] == old(self).sessions@[a]);
                    assert(self.sessions@[b] == old(self).sessions@[b]);
                } else {
                    assert(self.sessions@[a] == old(self).sessions@[a]);
                }
            }
        }
        true
    }

    /// Set one hack's cumulative play time to a stored value (the shell
    /// loads stored history this way at startup). An unknown hack id
    /// changes nothing; the result says whether a row was written.
    pub fn set_total_play_time(&mut self, hack_id: i64, total: i64) -> (r: bool)
        requires
            old(self).wf(),
            total >= 0,
        ensures
            final(self).wf(),
            final(self).sessions == old(self).sessions,
            final(self).level_timings == old(self).level_timings,
            final(self).next_session_id == old(self).next_session_id,
            match spec_find_first(old(self).hacks@, hack_id_pred(hack_id)) {
                Some(ix) => r && final(self).hacks@ == old(self).hacks@.update(
                    ix,
                    HackRow { total_play_time: total, ..old(self).hacks@[ix] },
                ),
                None => !r && final(self).hacks == old(self).hacks,
            },
    {
        let mut i: usize = 0;
        while i < self.hacks.len()
            invariant
                self == old(self),
                old(self).wf(),
                total >= 0,
                i <= self.hacks@.len(),
                forall|k: int| 0 <= k < i ==> !#[trigger] hack_id_pred(hack_id)(self.hacks@[k]),
            decreases self.hacks@.len() - i,
        {
            if self.hacks[i].id == hack_id {
                proof {
                    assert(hack_id_pred(hack_id)(self.hacks@[i as int]));
                    lemma_find_first_is(self.hacks@, hack_id_pred(hack_id), i as int);
                }
                let mut row = HackRow {
                    id: 0,
                    name: Vec::new(),
                    file_path: None,
                    rom_checksum: None,
                    total_play_time: 0,
                };
                self.hacks.set_and_swap(i, &mut row);
                row.total_play_time = total;
                self.hacks.set_and_swap(i, &mut row);
                proof {
                    assert(final(self).hacks@ =~= old(self).hacks@.update(
                        i as int,
                        HackRow { total_play_time: total, ..old(self).hacks@[i as int] },
                    ));
                }
                return true;
            }
            i += 1;
        }
        proof {
            lemma_find_first_none(self.hacks@, hack_id_pred(hack_id));
        }
        false
    }

    /// The statistics snapshot for one hack: total seconds over its session
    /// rows, the number of those rows, and its level timings in store order.
    /// Totals and counts stick at the top of the range instead of
    /// overflowing.
    pub fn get_hack_stats(&self, hack_id: i64) -> (r: HackStats)
        requires
            self.wf(),
        ensures
            r.total_play_time_seconds == if spec_total_secs(self.sessions@, hack_id) <= i64::MAX {
                spec_total_secs(self.sessions@, hack_id) as i64
            } else {
                i64::MAX
            },
            r.session_count == if spec_session_count(self.sessions@, hack_id) <= i64::MAX {
                spec_session_count(self.sessions@, hack_id) as i64
            } else {
                i64::MAX
            },
            r.level_timings@.len() == spec_levels_of(self.level_timings@, hack_id).len(),
            forall|k: int|
                #![trigger r.level_timings@[k]]
                0 <= k < r.level_timings@.len() ==> {
                    &&& r.level_timings@[k].level_id == spec_levels_of(
                        self.level_timings@,
                        hack_id,
                    )[k].level_id as i64
                    &&& r.level_timings@[k].seconds == spec_levels_of(
                        self.level_timings@,
                        hack_id,
                    )[k].duration_seconds
                },
    {
        let mut total: i64 = 0;
        let mut count: i64 = 0;
        let mut i: usize = 0;
        while i < self.sessions.len()
            invariant
                self.wf(),
                i <= self.sessions@.len(),
                total == if spec_total_secs(self.sessions@.take(i as int), hack_id) <= i64::MAX {
                    spec_total_secs(self.sessions@.take(i as int), hack_id) as i64
                } else {
                    i64::MAX
                },
                count == if spec_session_count(self.sessions@.take(i as int), hack_id)
                    <= i64::MAX {
                    spec_session_count(self.sessions@.take(i as int), hack_id) as i64
                } else {
                    i64::MAX
                },
                spec_total_secs(self.sessions@.take(i as int), hack_id) >= 0,
                spec_session_count(self.sessions@.take(i as int), hack_id) >= 0,
            decreases self.sessions@.len() - i,
        {
            proof {
                assert(self.sessions@.take(i + 1).drop_last() =~= self.sessions@.take(i as int));
                assert(self.sessions@.take(i + 1).last() == self.sessions@[i as int]);
            }
            let row = self.sessions[i];
            if row.hack_id == hack_id {
                total = sat_add64(total, row.duration_seconds);
                count = inc64(count);
            }
            i += 1;
        }
        proof {
            assert(self.sessions@.take(self.sessions@.len() as int) =~= self.sessions@);
        }
        let mut level_timings: Vec<LevelTiming> = Vec::new();
        let mut j: usize = 0;
        while j < self.level_timings.len()
            invariant
                j <= self.level_timings@.len(),
                level_timings@.len() == spec_levels_of(
                    self.level_timings@.take(j as int),
                    hack_id,
                ).len(),
                forall|k: int|
                    #![trigger level_timings@[k]]
                    0 <= k < level_timings@.len() ==> {
                        &&& level_timings@[k].level_id == spec_levels_of(
                            self.level_timings@.take(j as int),
                            hack_id,
                        )[k].level_id as i64
                        &&& level_timings@[k].seconds == spec_levels_of(
                            self.level_timings@.take(j as int),
                            hack_id,
                        )[k].duration_seconds
                    },
            decreases self.level_timings@.len() - j,
        {
            proof {
                assert(self.level_timings@.take(j + 1).drop_last() =~= self.level_timings@.take(
                    j as int,
                ));
                assert(self.level_timings@.take(j + 1).last() == self.level_timings@[j as int]);
            }
            let row = self.level_timings[j];
            if row.hack_id == hack_id {
                level_timings.push(
                    LevelTiming { level_id: row.level_id as i64, seconds: row.duration_seconds },
                );
            }
            j += 1;
        }
        proof {
            assert(self.level_timings@.take(self.level_timings@.len() as int)
                =~= self.level_timings@);
        }
        HackStats { total_play_time_seconds: total, session_count: count, level_timings }
    }

    /// Remove one hack's sessions and level timings and reset its cumulative
    /// play time to zero; every other hack's data is untouched.
    pub fn clear_hack_stats(&mut self, hack_id: i64)
        requires
            old(self).wf(),
        ensures
            final(self).wf(),
            final(self).sessions@ == spec_keep_other_sessions(old(self).sessions@, hack_id),
            final(self).level_timings@ == spec_keep_other_levels(
                old(self).level_timings@,
                hack_id,
            ),
            final(self).hacks@ == spec_reset_total(old(self).hacks@, hack_id),
            final(self).next_session_id == old(self).next_session_id,
    {
        let mut sessions: Vec<SessionRow> = Vec::new();
        let mut i: usize = 0;
        while i < self.sessions.len()
            invariant
                self == old(self),
                i <= self.sessions@.len(),
                sessions@ == spec_keep_other_sessions(self.sessions@.take(i as int), hack_id),
            decreases self.sessions@.len() - i,
        {
            proof {
                assert(self.sessions@.take(i + 1).drop_last() =~= self.sessions@.take(i as int));
                assert(self.sessions@.take(i + 1).last() == self.sessions@[i as int]);
            }
            let row = self.sessions[i];
            if row.hack_id != hack_id {
                sessions.push(row);
            }
            i += 1;
        }
        proof {
            assert(self.sessions@.take(self.sessions@.len() as int) =~= self.sessions@);
        }
        self.sessions = sessions;

        let mut levels: Vec<LevelRow> = Vec::new();
        let mut j: usize = 0;
        while j < self.level_timings.len()
            invariant
                old(self).wf(),
                self.level_timings == old(self).level_timings,
                self.hacks == old(self).hacks,
                self.next_session_id == old(self).next_session_id,
                self.sessions@ == spec_keep_other_sessions(old(self).sessions@, hack_id),
                j <= self.level_timings@.len(),
                levels@ == spec_keep_other_levels(self.level_timings@.take(j as int), hack_id),
            decreases self.level_timings@.len() - j,
        {
            proof {
                assert(self.level_timings@.take(j + 1).drop_last() =~= self.level_timings@.take(
                    j as int,
                ));
                assert(self.level_timings@.take(j + 1).last() == self.level_timings@[j as int]);
            }
            let row = self.level_timings[j];
            if row.hack_id != hack_id {
                levels.push(row);
            }
            j += 1;
        }
        proof {
            assert(self.level_timings@.take(self.level_timings@.len() as int)
                =~= self.level_timings@);
        }
        self.level_timings = levels;

        let ghost hacks0 = self.hacks@;
        let mut k: usize = 0;
        while k < self.hacks.len()
            invariant
                old(self).wf(),
                hacks0 == old(self).hacks@,
                self.next_session_id == old(self).next_session_id,
                self.sessions@ == spec_keep_other_sessions(old(self).sessions@, hack_id),
                self.level_timings@ == spec_keep_other_levels(old(self).level_timings@, hack_id),
                self.hacks@.len() == hacks0.len(),
                k <= hacks0.len(),
                forall|a: int|
                    #![trigger self.hacks@[a]]
                    0 <= a < hacks0.len() ==> self.hacks@[a] == (if a < k && hacks0[a].id
                        == hack_id {
                        HackRow { total_play_time: 0, ..hacks0[a] }
                    } else {
                        hacks0[a]
                    }),
            decreases hacks0.len() - k,
        {
            if self.hacks[k].id == hack_id {
                let mut row = HackRow {
                    id: 0,
                    name: Vec::new(),
                    file_path: None,
                    rom_checksum: None,
                    total_play_time: 0,
                };
                self.hacks.set_and_swap(k, &mut row);
                row.total_play_time = 0;
                self.hacks.set_and_swap(k, &mut row);
            }
            k += 1;
        }
        proof {
            assert(self.hacks@ =~= spec_reset_total(hacks0, hack_id));
            lemma_keep_other_sessions_wf(old(self).sessions@, hack_id, self.next_session_id);
            lemma_keep_other_levels_wf(old(self).level_timings@, hack_id);
        }
    }

    /// Remove every session and level-timing row and zero every hack's
    /// cumulative play time.
    pub fn clear_all_tracking_data(&mut self)
        requires
            old(self).wf(),
        ensures
            final(self).wf(),
            final(self).sessions@.len() == 0,
            final(self).level_timings@.len() == 0,
            final(self).hacks@ == spec_zero_totals(old(self).hacks@),
            final(self).next_session_id == old(self).next_session_id,
    {
        self.sessions.clear();
        self.level_timings.clear();
        let ghost hacks0 = self.hacks@;
        let mut k: usize = 0;
        while k < self.hacks.len()
            invariant
                old(self).wf(),
                hacks0 == old(self).hacks@,
                self.next_session_id == old(self).next_session_id,
                self.sessions@.len() == 0,
                self.level_timings@.len() == 0,
                self.hacks@.len() == hacks0.len(),
                k <= hacks0.len(),
                forall|a: int|
                    #![trigger self.hacks@[a]]
                    0 <= a < hacks0.len() ==> self.hacks@[a] == (if a < k {
                        HackRow { total_play_time: 0, ..hacks0[a] }
                    } else {
                        hacks0[a]
                    }),
            decreases hacks0.len() - k,
        {
            let mut row = HackRow {
                id: 0,
                name: Vec::new(),
                file_path: None,
                rom_checksum: None,
                total_play_time: 0,
            };
            self.hacks.set_and_swap(k, &mut row);
            row.total_play_time = 0;
            self.hacks.set_and_swap(k, &mut row);
            k += 1;
        }
        proof {
            assert(self.hacks@ =~= spec_zero_totals(hacks0));
        }
    }
}

/// Total seconds over the session rows of one hack.
pub open spec fn spec_total_secs(ss: Seq<SessionRow>, hack_id: i64) -> int
    decreases ss.len(),
{
    if ss.len() == 0 {
        0
    } else {
        spec_total_secs(ss.drop_last(), hack_id) + if ss.last().hack_id == hack_id {
            ss.last().duration_seconds as int
        } else {
            0
        }
    }
}

/// How many session rows one hack has.
pub open spec fn spec_session_count(ss: Seq<SessionRow>, hack_id: i64) -> int
    decreases ss.len(),
{
    if ss.len() == 0 {
        0
    } else {
        spec_session_count(ss.drop_last(), hack_id) + if ss.last().hack_id == hack_id {
            1int
        } else {
            0int
        }
    }
}

/// The level-timing rows of one hack, in store order.
pub open spec fn spec_levels_of(ls: Seq<LevelRow>, hack_id: i64) -> Seq<LevelRow>
    decreases ls.len(),
{
    if ls.len() == 0 {
        Seq::empty()
    } else {
        spec_levels_of(ls.drop_last(), hack_id) + if ls.last().hack_id == hack_id {
            seq![ls.last()]
        } else {
            Seq::empty()
        }
    }
}

/// The session rows of every other hack, in store order.
pub open spec fn spec_keep_other_sessions(ss: Seq<SessionRow>, hack_id: i64) -> Seq<SessionRow>
    decreases ss.len(),
{
    if ss.len() == 0 {
        Seq::empty()
    } else {
        spec_keep_other_sessions(ss.drop_last(), hack_id) + if ss.last().hack_id != hack_id {
            seq![ss.last()]
        } else {
            Seq::empty()
        }
    }
}

/// The level-timing rows of every other hack, in store order.
pub open spec fn spec_keep_other_levels(ls: Seq<LevelRow>, hack_id: i64) -> Seq<LevelRow>
    decreases ls.len(),
{
    if ls.len() == 0 {
        Seq::empty()
    } else {
        spec_keep_other_levels(ls.drop_last(), hack_id) + if ls.last().hack_id != hack_id {
            seq![ls.last()]
        } else {
            Seq::empty()
        }
    }
}

/// Hack rows with one hack's cumulative play time reset to zero.
pub open spec fn spec_reset_total(hs: Seq<HackRow>, hack_id: i64) -> Seq<HackRow> {
    Seq::new(
        hs.len(),
        |i: int|
            if hs[i].id == hack_id {
                HackRow { total_play_time: 0, ..hs[i] }
            } else {
                hs[i]
            },
    )
}

/// Hack rows with every cumulative play time reset to zero.
pub open spec fn spec_zero_totals(hs: Seq<HackRow>) -> Seq<HackRow> {
    Seq::new(hs.len(), |i: int| HackRow { total_play_time: 0, ..hs[i] })
}

/// Addition that sticks at the top of the range instead of overflowing.
pub open spec fn spec_sat_add64(a: i64, b: i64) -> i64
    recommends
        a >= 0,
        b >= 0,
{
    if a + b <= i64::MAX {
        (a + b) as i64
    } else {
        i64::MAX
    }
}

fn sat_add64(a: i64, b: i64) -> (r: i64)
    requires
        a >= 0,
        b >= 0,
    ensures
        r == spec_sat_add64(a, b),
{
    if a <= i64::MAX - b {
        a + b
    } else {
        i64::MAX
    }
}

/// Filtering out one hack's sessions keeps every remaining row a row of
/// the unfiltered sequence, so the id bounds and uniqueness carry over.
proof fn lemma_keep_other_sessions_wf(ss: Seq<SessionRow>, hack_id: i64, next: i64)
    requires
        forall|i: int| #![trigger ss[i]] 0 <= i < ss.len() ==> 0 < ss[i].id < next,
        forall|i: int| #![trigger ss[i]] 0 <= i < ss.len() ==> ss[i].duration_seconds >= 0,
        forall|i: int, j: int|
            #![trigger ss[i], ss[j]]
            0 <= i < j < ss.len() ==> ss[i].id != ss[j].id,
    ensures
        forall|i: int|
            #![trigger spec_keep_other_sessions(ss, hack_id)[i]]
            0 <= i < spec_keep_other_sessions(ss, hack_id).len() ==> 0 < spec_keep_other_sessions(
                ss,
                hack_id,
            )[i].id < next && spec_keep_other_sessions(ss, hack_id)[i].duration_seconds >= 0,
        forall|i: int|
            #![trigger spec_keep_other_sessions(ss, hack_id)[i]]
            0 <= i < spec_keep_other_sessions(ss, hack_id).len() ==> exists|k: int|
                #![auto]
                0 <= k < ss.len() && spec_keep_other_sessions(ss, hack_id)[i] == ss[k],
        forall|i: int, j: int|
            #![trigger spec_keep_other_sessions(ss, hack_id)[i], spec_keep_other_sessions(ss, hack_id)[j]]
            0 <= i < j < spec_keep_other_sessions(ss, hack_id).len()
                ==> spec_keep_other_sessions(ss, hack_id)[i].id != spec_keep_other_sessions(
                ss,
                hack_id,
            )[j].id,
    decreases ss.len(),
{
    if ss.len() > 0 {
        let dl = ss.drop_last();
        assert forall|i: int| 0 <= i < dl.len() implies dl[i] == ss[i] by {}
        lemma_keep_other_sessions_wf(dl, hack_id, next);
        let kdl = spec_keep_other_sessions(dl, hack_id);
        let keep = spec_keep_other_sessions(ss, hack_id);
        if ss.last().hack_id != hack_id {
            assert(keep =~= kdl + seq![ss.last()]);
            assert forall|i: int| #![trigger keep[i]] 0 <= i < keep.len() implies exists|k: int|
                #![auto]
                0 <= k < ss.len() && keep[i] == ss[k] by {
                if i < kdl.len() {
                    let k = choose|k: int| 0 <= k < dl.len() && kdl[i] == dl[k];
                    assert(keep[i] == ss[k]);
                } else {
                    assert(keep[i] == ss[ss.len() - 1]);
                }
            }
            assert forall|i: int, j: int|
                0 <= i < j < keep.len() implies keep[i].id != keep[j].id by {
                if j < kdl.len() {
                } else {
                    let k = choose|k: int| 0 <= k < dl.len() && kdl[i] == dl[k];
                    assert(ss[k].id != ss.last().id);
                }
            }
        } else {
            assert(keep =~= kdl);
            assert forall|i: int| #![trigger keep[i]] 0 <= i < keep.len() implies exists|k: int|
                #![auto]
                0 <= k < ss.len() && keep[i] == ss[k] by {
                let k = choose|k: int| 0 <= k < dl.len() && kdl[i] == dl[k];
                assert(keep[i] == ss[k]);
            }
        }
    }
}

/// Filtering out one hack's level rows keeps the remaining rows' counters
/// non-negative and their (hack, level) keys unique.
proof fn lemma_keep_other_levels_wf(ls: Seq<LevelRow>, hack_id: i64)
    requires
        forall|i: int|
            #![trigger ls[i]]
            0 <= i < ls.len() ==> ls[i].duration_seconds >= 0 && ls[i].visit_count >= 0,
        forall|i: int, j: int|
            #![trigger ls[i], ls[j]]
            0 <= i < j < ls.len() ==> !(ls[i].hack_id == ls[j].hack_id && ls[i].level_id
                == ls[j].level_id),
    ensures
        forall|i: int|
            #![trigger spec_keep_other_levels(ls, hack_id)[i]]
            0 <= i < spec_keep_other_levels(ls, hack_id).len() ==> spec_keep_other_levels(
                ls,
                hack_id,
            )[i].duration_seconds >= 0 && spec_keep_other_levels(ls, hack_id)[i].visit_count >= 0,
        forall|i: int|
            #![trigger spec_keep_other_levels(ls, hack_id)[i]]
            0 <= i < spec_keep_other_levels(ls, hack_id).len() ==> exists|k: int|
                #![auto]
                0 <= k < ls.len() && spec_keep_other_levels(ls, hack_id)[i] == ls[k],
        forall|i: int, j: int|
            #![trigger spec_keep_other_levels(ls, hack_id)[i], spec_keep_other_levels(ls, hack_id)[j]]
            0 <= i < j < spec_keep_other_levels(ls, hack_id).len() ==> !(spec_keep_other_levels(
                ls,
                hack_id,
            )[i].hack_id == spec_keep_other_levels(ls, hack_id)[j].hack_id
                && spec_keep_other_levels(ls, hack_id)[i].level_id == spec_keep_other_levels(
                ls,
                hack_id,
            )[j].level_id),
    decreases ls.len(),
{
    if ls.len() > 0 {
        let dl = ls.drop_last();
        assert forall|i: int| 0 <= i < dl.len() implies dl[i] == ls[i] by {}
        lemma_keep_other_levels_wf(dl, hack_id);
        let kdl = spec_keep_other_levels(dl, hack_id);
        let keep = spec_keep_other_levels(ls, hack_id);
        if ls.last().hack_id != hack_id {
            assert(keep =~= kdl + seq![ls.last()]);
            assert forall|i: int| #![trigger keep[i]] 0 <= i < keep.len() implies exists|k: int|
                #![auto]
                0 <= k < ls.len() && keep[i] == ls[k] by {
                if i < kdl.len() {
                    let k = choose|k: int| 0 <= k < dl.len() && kdl[i] == dl[k];
                    assert(keep[i] == ls[k]);
                } else {
                    assert(keep[i] == ls[ls.len() - 1]);
                }
            }
            assert forall|i: int, j: int|
                0 <= i < j < keep.len() implies !(keep[i].hack_id == keep[j].hack_id
                    && keep[i].level_id == keep[j].level_id) by {
                if j < kdl.len() {
                } else {
                    let k = choose|k: int| 0 <= k < dl.len() && kdl[i] == dl[k];
                    assert(!(ls[k].hack_id == ls.last().hack_id && ls[k].level_id
                        == ls.last().level_id));
                }
            }
        } else {
            assert(keep =~= kdl);
            assert forall|i: int| #![trigger keep[i]] 0 <= i < keep.len() implies exists|k: int|
                #![auto]
                0 <= k < ls.len() && keep[i] == ls[k] by {
                let k = choose|k: int| 0 <= k < dl.len() && kdl[i] == dl[k];
                assert(keep[i] == ls[k]);
            }
        }
    }
}


/// Two sequences on which a predicate agrees pointwise have the same first
/// match.
pub proof fn lemma_find_first_equiv<T>(s1: Seq<T>, s2: Seq<T>, p: spec_fn(T) -> bool)
    requires
        s1.len() == s2.len(),
        forall|k: int| 0 <= k < s1.len() ==> p(s1[k]) == p(s2[k]),
    ensures
        spec_find_first(s1, p) == spec_find_first(s2, p),
    decreases s1.len(),
{
    if s1.len() > 0 {
        assert forall|k: int| 0 <= k < s1.drop_first().len() implies p(s1.drop_first()[k]) == p(
            s2.drop_first()[k],
        ) by {
            assert(s1.drop_first()[k] == s1[k + 1]);
            assert(s2.drop_first()[k] == s2[k + 1]);
        }
        lemma_find_first_equiv(s1.drop_first(), s2.drop_first(), p);
    }
}

/// Updating one session row whose hack is not `other`, with a row whose
/// hack is not `other` either, changes nothing about `other`'s session
/// seconds or session count.
pub proof fn lemma_total_secs_update_other(ss: Seq<SessionRow>, ix: int, row: SessionRow, other: i64)
    requires
        0 <= ix < ss.len(),
        ss[ix].hack_id != other,
        row.hack_id != other,
    ensures
        spec_total_secs(ss.update(ix, row), other) == spec_total_secs(ss, other),
        spec_session_count(ss.update(ix, row), other) == spec_session_count(ss, other),
    decreases ss.len(),
{
    let upd = ss.update(ix, row);
    if ix == ss.len() - 1 {
        assert(upd.drop_last() =~= ss.drop_last());
    } else {
        assert(upd.drop_last() =~= ss.drop_last().update(ix, row));
        assert(upd.last() == ss.last());
        lemma_total_secs_update_other(ss.drop_last(), ix, row, other);
    }
}

/// The same, for level rows and `other`'s level timings.
pub proof fn lemma_levels_of_update_other(ls: Seq<LevelRow>, ix: int, row: LevelRow, other: i64)
    requires
        0 <= ix < ls.len(),
        ls[ix].hack_id != other,
        row.hack_id != other,
    ensures
        spec_levels_of(ls.update(ix, row), other) == spec_levels_of(ls, other),
    decreases ls.len(),
{
    let upd = ls.update(ix, row);
    if ix == ls.len() - 1 {
        assert(upd.drop_last() =~= ls.drop_last());
        assert(spec_levels_of(upd, other) == spec_levels_of(ls, other));
    } else {
        assert(upd.drop_last() =~= ls.drop_last().update(ix, row));
        assert(upd.last() == ls.last());
        lemma_levels_of_update_other(ls.drop_last(), ix, row, other);
    }
}

/// Law: clearing one hack's statistics clears exactly that hack. Its
/// session seconds, session count and level rows are gone, while every
/// other hack keeps its session seconds, session count and level rows
/// unchanged; resetting totals touches only the cleared hack's row.
pub proof fn lemma_clear_stats_isolated(
    ss: Seq<SessionRow>,
    ls: Seq<LevelRow>,
    hs: Seq<HackRow>,
    hack_id: i64,
    other: i64,
)
    requires
        other != hack_id,
    ensures
        spec_total_secs(spec_keep_other_sessions(ss, hack_id), hack_id) == 0,
        spec_session_count(spec_keep_other_sessions(ss, hack_id), hack_id) == 0,
        spec_levels_of(spec_keep_other_levels(ls, hack_id), hack_id) == Seq::<LevelRow>::empty(),
        spec_total_secs(spec_keep_other_sessions(ss, hack_id), other) == spec_total_secs(ss, other),
        spec_session_count(spec_keep_other_sessions(ss, hack_id), other) == spec_session_count(
            ss,
            other,
        ),
        spec_levels_of(spec_keep_other_levels(ls, hack_id), other) == spec_levels_of(ls, other),
        forall|i: int|
            #![auto]
            0 <= i < hs.len() && hs[i].id != hack_id ==> spec_reset_total(hs, hack_id)[i] == hs[i],
        forall|i: int|
            #![auto]
            0 <= i < hs.len() && hs[i].id == hack_id ==> spec_reset_total(
                hs,
                hack_id,
            )[i].total_play_time == 0,
    decreases ss.len() + ls.len(),
{
    if ss.len() > 0 {
        lemma_clear_stats_isolated(ss.drop_last(), ls, hs, hack_id, other);
        let keep = spec_keep_other_sessions(ss, hack_id);
        let kdl = spec_keep_other_sessions(ss.drop_last(), hack_id);
        if ss.last().hack_id != hack_id {
            assert(keep == kdl + seq![ss.last()]);
            assert((kdl + seq![ss.last()]).drop_last() =~= kdl);
            assert((kdl + seq![ss.last()]).last() == ss.last());
        } else {
            assert(keep =~= kdl);
        }
    } else if ls.len() > 0 {
        lemma_clear_stats_isolated(ss, ls.drop_last(), hs, hack_id, other);
        let keep = spec_keep_other_levels(ls, hack_id);
        let kdl = spec_keep_other_levels(ls.drop_last(), hack_id);
        if ls.last().hack_id != hack_id {
            assert(keep == kdl + seq![ls.last()]);
            assert((kdl + seq![ls.last()]).drop_last() =~= kdl);
            assert((kdl + seq![ls.last()]).last() == ls.last());
        } else {
            assert(keep =~= kdl);
        }
        assert(spec_keep_other_sessions(ss, hack_id) =~= Seq::<SessionRow>::empty());
    } else {
        assert(spec_keep_other_sessions(ss, hack_id) =~= Seq::<SessionRow>::empty());
        assert(spec_keep_other_levels(ls, hack_id) =~= Seq::<LevelRow>::empty());
    }
}

} // verus!
