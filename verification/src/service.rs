//! The tracking service: the supervising once-per-second loop, modelled as
//! an explicit state machine. Each tick the service decides, from its own
//! state alone, which of the loop's logical states it is in (`TickPlan`);
//! the caller performs the single piece of outside work that the plan names
//! (connect, read memory, query info, or nothing) and hands the outcome
//! back to the matching `apply` method, which is verified to update the
//! state and the store exactly as the design prescribes. Time enters only
//! as a caller-supplied clock value, so every timing rule (the five-second
//! identification throttle, the sixty-second suppression window) is checked
//! against an explicit clock.

use vstd::prelude::*;
use crate::analyzer::{SmwAnalyzer, TrackingUpdate, spec_is_active, spec_reported_level};
use crate::bytestr::{
    ascii_bytes, file_name_part, contains_bytes, hex4, spec_hex4, spec_contains,
    spec_file_name_start, str_bytes,
};
use crate::protocol::Usb2SnesClient;
use crate::store::{
    HackRow, HackStats, SessionRow, TrackingStore, checksum_pred, hack_id_pred,
    level_key_pred, name_fragment_pred, session_id_pred, spec_find_first, spec_inc64,
};

verus! {

/// How many seconds of wall time must pass between two passive
/// identification attempts.
pub const FINGERPRINT_THROTTLE_SECS: u64 = 5;

/// How long a failed ROM read suppresses checksum-based identification.
pub const ROM_BLOCK_SECS: u64 = 60;

/// The status snapshot that the command surface reports.
pub struct TrackingStatus {
    pub connected: bool,
    pub attached: bool,
    pub in_level: bool,
    pub game_mode: u8,
    pub manual_hack_id: Option<i64>,
}

/// The logical state the loop is in for one tick, decided from the
/// service's own state alone.
#[derive(Clone, Copy, Debug, PartialEq, Eq, Structural)]
pub enum TickPlan {
    /// A manual override is set: skip all connection and detection logic and
    /// persist one active second for the chosen hack.
    ManualOverride { hack_id: i64 },
    /// Tracking is switched off: drop any held connection and sleep.
    Disabled,
    /// No connection is held: attempt the connect/attach sequence.
    Connect,
    /// Connected with no hack identified and the throttle window still open:
    /// do nothing this tick.
    IdentifyWait,
    /// Connected, no hack identified: read the ROM header checksum region.
    IdentifyChecksum,
    /// Connected, no hack identified, checksum reads suppressed or
    /// forbidden: query device info and match the reported ROM name.
    IdentifyName,
    /// Connected with an identified hack: poll the tracked memory regions.
    PollMemory { hack_id: i64 },
}

/// After polling memory: either a semantic update, or the reads failed and
/// a liveness probe is needed.
pub enum PollStep {
    Update(TrackingUpdate),
    Probe,
}

/// The tracking service's shared state: connection handle, analyzer,
/// store handle, the two hack-identity cells, the open-session pointer,
/// and the two timestamps that pace passive identification.
pub struct TrackingService {
    pub client: Option<Usb2SnesClient>,
    pub analyzer: SmwAnalyzer,
    pub store: TrackingStore,
    pub active_hack_id: Option<i64>,
    pub current_session_id: Option<i64>,
    pub last_fingerprint_time: Option<u64>,
    pub manual_hack_id: Option<i64>,
    pub rom_block_until: Option<u64>,
}

/// A passive identification attempt ran within the throttle window.
pub open spec fn spec_throttled(s: TrackingService, now: u64) -> bool {
    match s.last_fingerprint_time {
        Some(t) => now <= t + FINGERPRINT_THROTTLE_SECS,
        None => false,
    }
}

/// A failed ROM read has suppressed checksum identification until a later
/// clock value.
pub open spec fn spec_blocked(s: TrackingService, now: u64) -> bool {
    match s.rom_block_until {
        Some(u) => now < u,
        None => false,
    }
}

/// The held client's capability flags permit direct ROM reads.
pub open spec fn spec_client_can_read_rom(s: TrackingService) -> bool {
    match s.client {
        Some(c) => crate::protocol::spec_can_read_rom(c.flags@),
        None => false,
    }
}

/// The per-tick decision. A manual override pre-empts everything; then the
/// enable switch; then connection upkeep; then active polling; and last
/// passive identification, throttled, by checksum where permitted and not
/// suppressed, by name otherwise.
pub open spec fn spec_plan(s: TrackingService, enabled: bool, now: u64) -> TickPlan {
    match s.manual_hack_id {
        Some(m) => TickPlan::ManualOverride { hack_id: m },
        None => if !enabled {
            TickPlan::Disabled
        } else if s.client is None {
            TickPlan::Connect
        } else {
            match s.active_hack_id {
                Some(h) => TickPlan::PollMemory { hack_id: h },
                None => if spec_throttled(s, now) {
                    TickPlan::IdentifyWait
                } else if !spec_blocked(s, now) && spec_client_can_read_rom(s) {
                    TickPlan::IdentifyChecksum
                } else {
                    TickPlan::IdentifyName
                },
            }
        },
    }
}

/// The checksum fingerprint derived from the 32-byte header region: the
/// 16-bit checksum word (low byte at offset 30, high byte at offset 31)
/// rendered as four uppercase hex digits.
pub open spec fn spec_checksum_key(d: Seq<u8>) -> Seq<u8>
    recommends
        d.len() >= 32,
{
    spec_hex4(((d[31] as u16) * 256 + (d[30] as u16)) as u16)
}

/// A ROM name reported by device info is worth matching: not the bridge's
/// "No Info" placeholder, not its menu image, not empty.
pub open spec fn spec_usable_rom_name(n: Seq<u8>) -> bool {
    &&& n != str_bytes("No Info")
    &&& !spec_contains(n, str_bytes("menu.bin"))
    &&& n.len() > 0
}

/// The file-name portion of the ROM path that an info reply reports.
pub open spec fn spec_reported_rom_name(results: Seq<Seq<u8>>) -> Seq<u8>
    recommends
        results.len() > 2,
{
    results[2].subrange(spec_file_name_start(results[2]), results[2].len() as int)
}

/// What one active tick does to the session and total-play-time state, for
/// a given hack, clock value and reported level: the opening tick creates
/// the session row with one second on the clock and bumps the hack's
/// total; every later tick stamps the session's end time and bumps its
/// duration and the hack's total; a level id upserts that level's timing
/// row. Identification and connection state are untouched.
pub open spec fn spec_active_tick(
    pre: TrackingService,
    post: TrackingService,
    hack_id: i64,
    now: u64,
    level: Option<u8>,
) -> bool {
    &&& post.store.wf()
    &&& post.client == pre.client
    &&& post.analyzer == pre.analyzer
    &&& post.active_hack_id == pre.active_hack_id
    &&& post.manual_hack_id == pre.manual_hack_id
    &&& post.last_fingerprint_time == pre.last_fingerprint_time
    &&& post.rom_block_until == pre.rom_block_until
    &&& match pre.current_session_id {
        None => if pre.store.next_session_id < i64::MAX {
            &&& post.current_session_id == Some(pre.store.next_session_id)
            &&& post.store.sessions@ == pre.store.sessions@.push(
                SessionRow {
                    id: pre.store.next_session_id,
                    hack_id,
                    start_time: now,
                    end_time: None,
                    duration_seconds: 1,
                },
            )
            &&& post.store.next_session_id == pre.store.next_session_id + 1
            &&& post.store.hacks@ == spec_bump_total(pre.store.hacks@, hack_id)
        } else {
            &&& post.current_session_id is None
            &&& post.store.sessions == pre.store.sessions
            &&& post.store.next_session_id == pre.store.next_session_id
            &&& post.store.hacks == pre.store.hacks
        },
        Some(sid) => {
            &&& post.current_session_id == Some(sid)
            &&& post.store.next_session_id == pre.store.next_session_id
            &&& match spec_find_first(pre.store.sessions@, session_id_pred(sid)) {
                Some(ix) => post.store.sessions@ == pre.store.sessions@.update(
                    ix,
                    SessionRow {
                        end_time: Some(now),
                        duration_seconds: spec_inc64(pre.store.sessions@[ix].duration_seconds),
                        ..pre.store.sessions@[ix]
                    },
                ),
                None => post.store.sessions == pre.store.sessions,
            }
            &&& post.store.hacks@ == spec_bump_total(pre.store.hacks@, hack_id)
        },
    }
    &&& match level {
        None => post.store.level_timings == pre.store.level_timings,
        Some(lvl) => match spec_find_first(
            pre.store.level_timings@,
            level_key_pred(hack_id, lvl),
        ) {
            Some(ix) => post.store.level_timings@ == pre.store.level_timings@.update(
                ix,
                crate::store::LevelRow {
                    duration_seconds: spec_inc64(
                        pre.store.level_timings@[ix].duration_seconds,
                    ),
                    ..pre.store.level_timings@[ix]
                },
            ),
            None => post.store.level_timings@ == pre.store.level_timings@.push(
                crate::store::LevelRow {
                    hack_id,
                    level_id: lvl,
                    duration_seconds: 1,
                    visit_count: 1,
                },
            ),
        },
    }
}

/// Hack rows with one hack's cumulative play time bumped by a second; an
/// unknown hack leaves the rows as they are.
pub open spec fn spec_bump_total(hs: Seq<HackRow>, hack_id: i64) -> Seq<HackRow> {
    match spec_find_first(hs, hack_id_pred(hack_id)) {
        Some(ix) => hs.update(
            ix,
            HackRow { total_play_time: spec_inc64(hs[ix].total_play_time), ..hs[ix] },
        ),
        None => hs,
    }
}

/// The duration of the session row with the given id, if it exists.
pub open spec fn spec_session_duration(ss: Seq<SessionRow>, sid: i64) -> Option<i64> {
    match spec_find_first(ss, session_id_pred(sid)) {
        Some(ix) => Some(ss[ix].duration_seconds),
        None => None,
    }
}

/// The cumulative play time of the hack with the given id, if it exists.
pub open spec fn spec_hack_total(hs: Seq<HackRow>, hack_id: i64) -> Option<i64> {
    match spec_find_first(hs, hack_id_pred(hack_id)) {
        Some(ix) => Some(hs[ix].total_play_time),
        None => None,
    }
}

impl TrackingService {
    /// A fresh service over a store handle: disconnected, nothing
    /// identified, no override, no open session, no identification attempt
    /// on record.
    pub fn new(store: TrackingStore) -> (r: Self)
        requires
            store.wf(),
        ensures
            r.store == store,
            r.store.wf(),
            r.client is None,
            r.active_hack_id is None,
            r.current_session_id is None,
            r.last_fingerprint_time is None,
            r.manual_hack_id is None,
            r.rom_block_until is None,
            !r.analyzer.in_level,
            r.analyzer.last_game_mode == 0u8,
            r.analyzer.current_level_id is None,
    {
        TrackingService {
            client: None,
            analyzer: SmwAnalyzer::new(),
            store,
            active_hack_id: None,
            current_session_id: None,
            last_fingerprint_time: None,
            manual_hack_id: None,
            rom_block_until: None,
        }
    }

    /// Adopt a hack as the auto-detected one (the launcher does this when
    /// it starts a known image).
    pub fn set_active_hack(&mut self, hack_id: i64)
        ensures
            (*final(self) == TrackingService { active_hack_id: Some(hack_id), ..*old(self) }),
    {
        self.active_hack_id = Some(hack_id);
    }

    /// Forget the auto-detected hack.
    pub fn clear_active_hack(&mut self)
        ensures
            (*final(self) == TrackingService { active_hack_id: None, ..*old(self) }),
    {
        self.active_hack_id = None;
    }

    /// Set the manual override. The open-session pointer is cleared with
    /// it, so that from the next tick on every write is attributed to the
    /// chosen hack and none to a previously tracked one.
    pub fn start_manual_tracking(&mut self, hack_id: i64)
        ensures
            (*final(self) == TrackingService {
                manual_hack_id: Some(hack_id),
                current_session_id: None,
                ..*old(self)
            }),
    {
        self.manual_hack_id = Some(hack_id);
        self.current_session_id = None;
    }

    /// Clear the manual override and the open-session pointer together, as
    /// one state change.
    pub fn stop_manual_tracking(&mut self)
        ensures
            (*final(self) == TrackingService {
                manual_hack_id: None,
                current_session_id: None,
                ..*old(self)
            }),
    {
        self.manual_hack_id = None;
        self.current_session_id = None;
    }

    /// The status snapshot: a held connection counts as connected and
    /// attached (the connect sequence only keeps a client after attaching).
    pub fn get_status(&self) -> (r: TrackingStatus)
        ensures
            r.connected == (self.client is Some),
            r.attached == (self.client is Some),
            r.in_level == self.analyzer.in_level,
            r.game_mode == self.analyzer.last_game_mode,
            r.manual_hack_id == self.manual_hack_id,
    {
        let connected = self.client.is_some();
        TrackingStatus {
            connected,
            attached: connected,
            in_level: self.analyzer.in_level,
            game_mode: self.analyzer.last_game_mode,
            manual_hack_id: self.manual_hack_id,
        }
    }

    /// Decide which logical state this tick is in.
    pub fn plan_tick(&self, enabled: bool, now: u64) -> (p: TickPlan)
        ensures
            p == spec_plan(*self, enabled, now),
    {
        if let Some(m) = self.manual_hack_id {
            return TickPlan::ManualOverride { hack_id: m };
        }
        if !enabled {
            return TickPlan::Disabled;
        }
        let client = match &self.client {
            None => {
                return TickPlan::Connect;
            },
            Some(c) => c,
        };
        if let Some(h) = self.active_hack_id {
            return TickPlan::PollMemory { hack_id: h };
        }
        if let Some(t) = self.last_fingerprint_time {
            let throttled = if now > t {
                now - t <= FINGERPRINT_THROTTLE_SECS
            } else {
                true
            };
            if throttled {
                return TickPlan::IdentifyWait;
            }
        }
        let blocked = match self.rom_block_until {
            Some(u) => now < u,
            None => false,
        };
        if !blocked && client.can_read_rom() {
            TickPlan::IdentifyChecksum
        } else {
            TickPlan::IdentifyName
        }
    }

    /// Drop the held connection (tracking disabled, or the connection was
    /// found dead).
    pub fn drop_connection(&mut self)
        ensures
            (*final(self) == TrackingService { client: None, ..*old(self) }),
    {
        self.client = None;
    }

    /// Hold a connection whose connect/attach/info sequence succeeded.
    pub fn complete_connection(&mut self, client: Usb2SnesClient)
        ensures
            (*final(self) == TrackingService { client: Some(client), ..*old(self) }),
    {
        self.client = Some(client);
    }

    /// Outcome of a checksum identification attempt: the attempt is put on
    /// record whatever happened. A successful 32-byte header read is turned
    /// into a fingerprint and looked up, and a match is adopted as the
    /// active hack. A failed read (`None`) starts the suppression window
    /// and drops the connection, forcing a reconnect next tick.
    pub fn apply_checksum_read(&mut self, data: Option<Vec<u8>>, now: u64)
        requires
            old(self).store.wf(),
            now <= u64::MAX - ROM_BLOCK_SECS,
        ensures
            final(self).store == old(self).store,
            final(self).analyzer == old(self).analyzer,
            final(self).manual_hack_id == old(self).manual_hack_id,
            final(self).current_session_id == old(self).current_session_id,
            final(self).last_fingerprint_time == Some(now),
            match data {
                None => {
                    &&& final(self).rom_block_until == Some((now + ROM_BLOCK_SECS) as u64)
                    &&& final(self).client is None
                    &&& final(self).active_hack_id == old(self).active_hack_id
                },
                Some(d) => {
                    &&& final(self).rom_block_until == old(self).rom_block_until
                    &&& final(self).client == old(self).client
                    &&& if d@.len() >= 32 {
                        final(self).active_hack_id == (match spec_find_first(
                            old(self).store.hacks@,
                            checksum_pred(spec_checksum_key(d@)),
                        ) {
                            Some(ix) => Some(old(self).store.hacks@[ix].id),
                            None => old(self).active_hack_id,
                        })
                    } else {
                        final(self).active_hack_id == old(self).active_hack_id
                    }
                },
            },
    {
        self.last_fingerprint_time = Some(now);
        match data {
            None => {
                self.rom_block_until = Some(now + ROM_BLOCK_SECS);
                self.client = None;
            },
            Some(d) => {
                if d.len() >= 32 {
                    let word = (d[31] as u16) * 256 + (d[30] as u16);
                    let key = hex4(word);
                    match self.store.find_by_checksum(&key) {
                        Some(id) => {
                            self.active_hack_id = Some(id);
                        },
                        None => {},
                    }
                }
            },
        }
    }

    /// Outcome of a name identification attempt: the attempt is put on
    /// record whatever happened. When the info reply carries a usable ROM
    /// file name, a fuzzy match against stored names and file paths adopts
    /// the first matching hack.
    pub fn apply_name_info(&mut self, info: Option<Vec<Vec<u8>>>, now: u64)
        requires
            old(self).store.wf(),
        ensures
            final(self).store == old(self).store,
            final(self).analyzer == old(self).analyzer,
            final(self).manual_hack_id == old(self).manual_hack_id,
            final(self).current_session_id == old(self).current_session_id,
            final(self).client == old(self).client,
            final(self).rom_block_until == old(self).rom_block_until,
            final(self).last_fingerprint_time == Some(now),
            match info {
                Some(results) => if results.deep_view().len() > 2 && spec_usable_rom_name(
                    spec_reported_rom_name(results.deep_view()),
                ) {
                    final(self).active_hack_id == (match spec_find_first(
                        old(self).store.hacks@,
                        name_fragment_pred(spec_reported_rom_name(results.deep_view())),
                    ) {
                        Some(ix) => Some(old(self).store.hacks@[ix].id),
                        None => old(self).active_hack_id,
                    })
                } else {
                    final(self).active_hack_id == old(self).active_hack_id
                },
                None => final(self).active_hack_id == old(self).active_hack_id,
            },
    {
        self.last_fingerprint_time = Some(now);
        let results = match info {
            Some(r) => r,
            None => {
                return ;
            },
        };
        if results.len() <= 2 {
            return ;
        }
        let name = file_name_part(&results[2]);
        proof {
            assert(results.deep_view()[2] == results@[2]@);
            assert(name@ == spec_reported_rom_name(results.deep_view()));
            reveal_strlit("No Info");
            reveal_strlit("menu.bin");
        }
        let no_info = ascii_bytes("No Info");
        let menu = ascii_bytes("menu.bin");
        let name_is_placeholder = name == no_info;
        proof {
            if name_is_placeholder {
                assert(name@ =~= str_bytes("No Info"));
            }
            if name@ == str_bytes("No Info") {
                assert(name@ =~= no_info@);
                assert(name_is_placeholder);
            }
            assert(name_is_placeholder == (name@ == str_bytes("No Info")));
        }
        let usable = name.len() > 0 && !name_is_placeholder && !contains_bytes(&name, &menu);
        proof {
            assert(usable == spec_usable_rom_name(name@));
        }
        if usable {
            match self.store.find_by_name_fragment(&name) {
                Some(id) => {
                    self.active_hack_id = Some(id);
                },
                None => {},
            }
        }
    }

    /// Interpret the three polled memory regions. Only three successful,
    /// non-empty reads feed the analyzer; a failed read, like a successful
    /// but empty one, is inconclusive and calls for a liveness probe, whose
    /// outcome decides between a generic active tick and a dead connection.
    pub fn evaluate_poll(
        &mut self,
        game_mode: Option<Vec<u8>>,
        level: Option<Vec<u8>>,
        events: Option<Vec<u8>>,
    ) -> (r: PollStep)
        ensures
            final(self).store == old(self).store,
            final(self).client == old(self).client,
            final(self).active_hack_id == old(self).active_hack_id,
            final(self).manual_hack_id == old(self).manual_hack_id,
            final(self).current_session_id == old(self).current_session_id,
            final(self).last_fingerprint_time == old(self).last_fingerprint_time,
            final(self).rom_block_until == old(self).rom_block_until,
            match (game_mode, level, events) {
                (Some(gm), Some(lvl), Some(ev)) => if gm@.len() > 0 && lvl@.len() > 0
                    && ev@.len() > 0 {
                    &&& r matches PollStep::Update(u) && u.is_active == spec_is_active(gm@[0])
                        && u.level_id == spec_reported_level(gm@[0], lvl@[0])
                    &&& final(self).analyzer.in_level == (gm@[0] == crate::analyzer::LEVEL_MODE)
                    &&& final(self).analyzer.last_game_mode == gm@[0]
                    &&& final(self).analyzer.current_level_id == spec_reported_level(
                        gm@[0],
                        lvl@[0],
                    )
                } else {
                    &&& r is Probe
                    &&& final(self).analyzer == old(self).analyzer
                },
                _ => r is Probe && final(self).analyzer == old(self).analyzer,
            },
    {
        match (game_mode, level, events) {
            (Some(gm), Some(lvl), Some(ev)) => {
                if gm.len() > 0 && lvl.len() > 0 && ev.len() > 0 {
                    let update = self.analyzer.interpret(gm[0], lvl[0], ev.as_slice());
                    PollStep::Update(update)
                } else {
                    PollStep::Probe
                }
            },
            _ => PollStep::Probe,
        }
    }

    /// Outcome of the liveness probe after failed region reads: a live
    /// device means the tick counts as generically active (the identified
    /// hack is not of the interpretable game); a dead one drops the
    /// connection, forcing a reconnect next tick.
    pub fn apply_probe(&mut self, alive: bool) -> (r: Option<TrackingUpdate>)
        ensures
            alive ==> (r matches Some(u) && u.is_active && u.level_id is None && *final(self)
                == *old(self)),
            !alive ==> r is None && (*final(self) == TrackingService {
                client: None,
                ..*old(self)
            }),
    {
        if alive {
            Some(TrackingUpdate { is_active: true, level_id: None })
        } else {
            self.client = None;
            None
        }
    }

    /// The persistence step, run once per tick while a hack is tracked: an
    /// active update opens or advances the session row, bumps the hack's
    /// cumulative play time, and upserts the level timing when a level is
    /// reported; an inactive update writes nothing.
    pub fn process_update(&mut self, hack_id: i64, update: &TrackingUpdate, now: u64)
        requires
            old(self).store.wf(),
        ensures
            final(self).store.wf(),
            update.is_active ==> spec_active_tick(
                *old(self),
                *final(self),
                hack_id,
                now,
                update.level_id,
            ),
            !update.is_active ==> *final(self) == *old(self),
    {
        if !update.is_active {
            return ;
        }
        match self.current_session_id {
            None => {
                match self.store.insert_session(hack_id, now) {
                    Some(sid) => {
                        self.current_session_id = Some(sid);
                        self.store.increment_total(hack_id);
                    },
                    None => {},
                }
            },
            Some(sid) => {
                self.store.tick_session(sid, now);
                self.store.increment_total(hack_id);
            },
        }
        match update.level_id {
            Some(lvl) => {
                self.store.upsert_level_timing(hack_id, lvl);
            },
            None => {},
        }
    }

    /// One manual-override tick: unconditionally one active second for the
    /// overriding hack, with no level attribution.
    pub fn tick_manual(&mut self, now: u64)
        requires
            old(self).store.wf(),
            old(self).manual_hack_id is Some,
        ensures
            final(self).store.wf(),
            spec_active_tick(
                *old(self),
                *final(self),
                old(self).manual_hack_id.unwrap(),
                now,
                None,
            ),
    {
        let hack_id = match self.manual_hack_id {
            Some(m) => m,
            None => {
                return ;
            },
        };
        let update = TrackingUpdate { is_active: true, level_id: None };
        self.process_update(hack_id, &update, now);
    }

    /// The per-hack statistics snapshot, read through the store.
    pub fn get_hack_stats(&self, hack_id: i64) -> (r: HackStats)
        requires
            self.store.wf(),
        ensures
            r.total_play_time_seconds == if crate::store::spec_total_secs(
                self.store.sessions@,
                hack_id,
            ) <= i64::MAX {
                crate::store::spec_total_secs(self.store.sessions@, hack_id) as i64
            } else {
                i64::MAX
            },
            r.session_count == if crate::store::spec_session_count(self.store.sessions@, hack_id)
                <= i64::MAX {
                crate::store::spec_session_count(self.store.sessions@, hack_id) as i64
            } else {
                i64::MAX
            },
            r.level_timings@.len() == crate::store::spec_levels_of(
                self.store.level_timings@,
                hack_id,
            ).len(),
            forall|k: int|
                #![trigger r.level_timings@[k]]
                0 <= k < r.level_timings@.len() ==> {
                    &&& r.level_timings@[k].level_id == crate::store::spec_levels_of(
                        self.store.level_timings@,
                        hack_id,
                    )[k].level_id as i64
                    &&& r.level_timings@[k].seconds == crate::store::spec_levels_of(
                        self.store.level_timings@,
                        hack_id,
                    )[k].duration_seconds
                },
    {
        self.store.get_hack_stats(hack_id)
    }

    /// Remove one hack's sessions and level timings and reset its total,
    /// leaving every other hack's data untouched.
    pub fn clear_hack_stats(&mut self, hack_id: i64)
        requires
            old(self).store.wf(),
        ensures
            final(self).store.wf(),
            final(self).store.sessions@ == crate::store::spec_keep_other_sessions(
                old(self).store.sessions@,
                hack_id,
            ),
            final(self).store.level_timings@ == crate::store::spec_keep_other_levels(
                old(self).store.level_timings@,
                hack_id,
            ),
            final(self).store.hacks@ == crate::store::spec_reset_total(
                old(self).store.hacks@,
                hack_id,
            ),
            final(self).store.next_session_id == old(self).store.next_session_id,
            final(self).client == old(self).client,
            final(self).analyzer == old(self).analyzer,
            final(self).active_hack_id == old(self).active_hack_id,
            final(self).current_session_id == old(self).current_session_id,
            final(self).last_fingerprint_time == old(self).last_fingerprint_time,
            final(self).manual_hack_id == old(self).manual_hack_id,
            final(self).rom_block_until == old(self).rom_block_until,
    {
        self.store.clear_hack_stats(hack_id);
    }

    /// Remove every session and level-timing row and zero every hack's
    /// total play time.
    pub fn clear_all_tracking_data(&mut self)
        requires
            old(self).store.wf(),
        ensures
            final(self).store.wf(),
            final(self).store.sessions@.len() == 0,
            final(self).store.level_timings@.len() == 0,
            final(self).store.hacks@ == crate::store::spec_zero_totals(old(self).store.hacks@),
            final(self).store.next_session_id == old(self).store.next_session_id,
            final(self).client == old(self).client,
            final(self).analyzer == old(self).analyzer,
            final(self).active_hack_id == old(self).active_hack_id,
            final(self).current_session_id == old(self).current_session_id,
            final(self).last_fingerprint_time == old(self).last_fingerprint_time,
            final(self).manual_hack_id == old(self).manual_hack_id,
            final(self).rom_block_until == old(self).rom_block_until,
    {
        self.store.clear_all_tracking_data();
    }
}


// ---------------------------------------------------------------------------
// Laws
// ---------------------------------------------------------------------------

/// Law: after a passive identification attempt at time `t`, no further
/// attempt — by checksum or by name — is planned until more than the
/// throttle window has elapsed; within the window the plan is to wait.
/// Both `apply_checksum_read` and `apply_name_info` put the attempt on
/// record by setting the last-attempt time, so identification can adopt a
/// hack at most once per window however often the loop ticks.
pub proof fn lemma_identification_throttled(
    s: TrackingService,
    enabled: bool,
    t: u64,
    now: u64,
)
    requires
        s.last_fingerprint_time == Some(t),
        now <= t + FINGERPRINT_THROTTLE_SECS,
    ensures
        spec_plan(s, enabled, now) != TickPlan::IdentifyChecksum,
        spec_plan(s, enabled, now) != TickPlan::IdentifyName,
{
}

/// Law: once a hack has been adopted, passive identification no longer
/// runs at all: every tick polls memory instead.
pub proof fn lemma_adopted_hack_stops_identification(
    s: TrackingService,
    enabled: bool,
    now: u64,
    h: i64,
)
    requires
        s.manual_hack_id is None,
        s.active_hack_id == Some(h),
        enabled,
        s.client is Some,
    ensures
        spec_plan(s, enabled, now) == (TickPlan::PollMemory { hack_id: h }),
{
}

/// Law: while the manual override is set, every tick is planned as a
/// manual-override tick for exactly the overridden hack, whatever the
/// clock, the enable switch, the connection or the auto-detected hack say:
/// passive detection cannot run and cannot overwrite the override.
pub proof fn lemma_manual_override_pre_empts(
    s: TrackingService,
    enabled: bool,
    now: u64,
    b: i64,
)
    requires
        s.manual_hack_id == Some(b),
    ensures
        spec_plan(s, enabled, now) == (TickPlan::ManualOverride { hack_id: b }),
{
}

/// Law: within the suppression window that a failed ROM read starts,
/// passive identification falls back to the name-matching path: with a
/// connection held, no hack identified, no override, tracking enabled and
/// the throttle elapsed, the plan is to identify by name, never by
/// checksum.
pub proof fn lemma_suppression_falls_back_to_name(
    s: TrackingService,
    now: u64,
    until: u64,
)
    requires
        s.rom_block_until == Some(until),
        now < until,
        s.manual_hack_id is None,
        s.client is Some,
        s.active_hack_id is None,
        !spec_throttled(s, now),
    ensures
        spec_plan(s, true, now) == TickPlan::IdentifyName,
{
}

/// Bumping one hack's total play time raises exactly that hack's total by
/// one saturating second and leaves every other hack's total alone.
proof fn lemma_bump_total_effect(hs: Seq<HackRow>, hack_id: i64, other: i64)
    ensures
        spec_hack_total(spec_bump_total(hs, hack_id), hack_id) == (match spec_hack_total(
            hs,
            hack_id,
        ) {
            Some(t) => Some(spec_inc64(t)),
            None => None,
        }),
        other != hack_id ==> spec_hack_total(spec_bump_total(hs, hack_id), other)
            == spec_hack_total(hs, other),
{
    crate::store::lemma_find_first_char(hs, hack_id_pred(hack_id));
    match spec_find_first(hs, hack_id_pred(hack_id)) {
        Some(ix) => {
            let upd = spec_bump_total(hs, hack_id);
            assert forall|k: int| 0 <= k < hs.len() implies hack_id_pred(hack_id)(upd[k])
                == hack_id_pred(hack_id)(hs[k]) by {}
            crate::store::lemma_find_first_equiv(upd, hs, hack_id_pred(hack_id));
            if other != hack_id {
                assert forall|k: int| 0 <= k < hs.len() implies hack_id_pred(other)(upd[k])
                    == hack_id_pred(other)(hs[k]) by {}
                crate::store::lemma_find_first_equiv(upd, hs, hack_id_pred(other));
                crate::store::lemma_find_first_char(hs, hack_id_pred(other));
            }
        },
        None => {},
    }
}

/// A session row freshly pushed with the allocator's next id is found by
/// its id: no earlier row can carry it.
proof fn lemma_fresh_session_found(ss: Seq<SessionRow>, row: SessionRow, next: i64)
    requires
        forall|i: int| #![trigger ss[i]] 0 <= i < ss.len() ==> 0 < ss[i].id < next,
        row.id == next,
    ensures
        spec_find_first(ss.push(row), session_id_pred(next)) == Some(ss.len() as int),
{
    assert forall|k: int| 0 <= k < ss.len() implies !session_id_pred(next)(ss.push(row)[k]) by {
        assert(ss.push(row)[k] == ss[k]);
    }
    assert(session_id_pred(next)(ss.push(row)[ss.len() as int]));
    crate::store::lemma_find_first_is(ss.push(row), session_id_pred(next), ss.len() as int);
}

/// Updating the found session row with one that keeps its id leaves the
/// row found at the same place.
proof fn lemma_session_update_found(ss: Seq<SessionRow>, sid: i64, row: SessionRow)
    requires
        spec_find_first(ss, session_id_pred(sid)) is Some,
        row.id == sid,
    ensures
        spec_find_first(
            ss.update(spec_find_first(ss, session_id_pred(sid)).unwrap(), row),
            session_id_pred(sid),
        ) == spec_find_first(ss, session_id_pred(sid)),
{
    crate::store::lemma_find_first_char(ss, session_id_pred(sid));
    let ix = spec_find_first(ss, session_id_pred(sid)).unwrap();
    let upd = ss.update(ix, row);
    assert forall|k: int| 0 <= k < ix implies !session_id_pred(sid)(upd[k]) by {
        assert(upd[k] == ss[k]);
    }
    assert(session_id_pred(sid)(upd[ix]));
    crate::store::lemma_find_first_is(upd, session_id_pred(sid), ix);
}

/// Law: ticking "active" for one hack N consecutive times, starting with no
/// open session, produces one session row whose duration is exactly N
/// seconds and raises that hack's cumulative play time by exactly N
/// seconds — never more, never less, and never decreasing along the way.
/// The states are consecutive snapshots of the service, each pair related
/// by the persistence step's transition.
pub proof fn lemma_active_ticks_accumulate(
    states: Seq<TrackingService>,
    hack_id: i64,
    times: Seq<u64>,
    levels: Seq<Option<u8>>,
)
    requires
        states.len() >= 2,
        times.len() == states.len() - 1,
        levels.len() == states.len() - 1,
        states[0].store.wf(),
        states[0].current_session_id is None,
        forall|k: int|
            0 <= k < states.len() - 1 ==> #[trigger] spec_active_tick(
                states[k],
                states[k + 1],
                hack_id,
                times[k],
                levels[k],
            ),
        spec_hack_total(states[0].store.hacks@, hack_id) is Some,
        spec_hack_total(states[0].store.hacks@, hack_id).unwrap() + states.len() - 1 <= i64::MAX,
        states[0].store.next_session_id < i64::MAX,
        states.len() - 1 <= i64::MAX,
    ensures
        states.last().current_session_id == Some(states[0].store.next_session_id),
        spec_session_duration(states.last().store.sessions@, states[0].store.next_session_id)
            == Some((states.len() - 1) as i64),
        spec_hack_total(states.last().store.hacks@, hack_id) == Some(
            (spec_hack_total(states[0].store.hacks@, hack_id).unwrap() + states.len() - 1) as i64,
        ),
    decreases states.len(),
{
    let s0 = states[0];
    let sid = s0.store.next_session_id;
    if states.len() == 2 {
        let s1 = states[1];
        assert(spec_active_tick(states[0], states[0int + 1], hack_id, times[0], levels[0]));
        assert(spec_active_tick(s0, s1, hack_id, times[0], levels[0]));
        lemma_fresh_session_found(
            s0.store.sessions@,
            SessionRow {
                id: sid,
                hack_id,
                start_time: times[0],
                end_time: None,
                duration_seconds: 1,
            },
            sid,
        );
        lemma_bump_total_effect(s0.store.hacks@, hack_id, hack_id);
        assert(states.last() == s1);
    } else {
        let prefix = states.drop_last();
        assert forall|k: int| 0 <= k < prefix.len() - 1 implies #[trigger] spec_active_tick(
            prefix[k],
            prefix[k + 1],
            hack_id,
            times.drop_last()[k],
            levels.drop_last()[k],
        ) by {
            assert(prefix[k] == states[k]);
            assert(prefix[k + 1] == states[k + 1]);
            assert(times.drop_last()[k] == times[k]);
            assert(levels.drop_last()[k] == levels[k]);
        }
        lemma_active_ticks_accumulate(prefix, hack_id, times.drop_last(), levels.drop_last());
        let n = states.len() - 1;
        let pre = states[n - 1];
        let post = states[n as int];
        assert(pre == prefix.last());
        let ghost k_last: int = n - 1;
        assert(spec_active_tick(states[k_last], states[k_last + 1], hack_id, times[k_last], levels[k_last]));
        assert(spec_active_tick(pre, post, hack_id, times[n - 1], levels[n - 1]));
        let t0 = spec_hack_total(s0.store.hacks@, hack_id).unwrap();
        // the step from the second-to-last to the last state advances the
        // open session and the total by one each
        assert(pre.current_session_id == Some(sid));
        let find_pre = spec_find_first(pre.store.sessions@, session_id_pred(sid));
        assert(find_pre is Some);
        let ix = find_pre.unwrap();
        crate::store::lemma_find_first_char(pre.store.sessions@, session_id_pred(sid));
        assert(pre.store.sessions@[ix].duration_seconds == n - 1);
        lemma_session_update_found(
            pre.store.sessions@,
            sid,
            SessionRow {
                end_time: Some(times[n - 1]),
                duration_seconds: spec_inc64(pre.store.sessions@[ix].duration_seconds),
                ..pre.store.sessions@[ix]
            },
        );
        lemma_bump_total_effect(pre.store.hacks@, hack_id, hack_id);
        assert(states.last() == post);
    }
}

/// Law: an active tick for one hack writes only that hack's data: every
/// other hack's total play time, session seconds, session count and level
/// rows are exactly as they were. The open session, if any, must belong to
/// the ticked hack — which holds along any tick chain, since the session
/// pointer is cleared whenever the tracked hack changes and only the tick
/// itself sets it.
pub proof fn lemma_active_tick_touches_one_hack(
    pre: TrackingService,
    post: TrackingService,
    hack_id: i64,
    now: u64,
    level: Option<u8>,
    other: i64,
)
    requires
        spec_active_tick(pre, post, hack_id, now, level),
        other != hack_id,
        match pre.current_session_id {
            Some(sid) => match spec_find_first(pre.store.sessions@, session_id_pred(sid)) {
                Some(ix) => pre.store.sessions@[ix].hack_id == hack_id,
                None => true,
            },
            None => true,
        },
    ensures
        spec_hack_total(post.store.hacks@, other) == spec_hack_total(pre.store.hacks@, other),
        crate::store::spec_total_secs(post.store.sessions@, other)
            == crate::store::spec_total_secs(pre.store.sessions@, other),
        crate::store::spec_session_count(post.store.sessions@, other)
            == crate::store::spec_session_count(pre.store.sessions@, other),
        crate::store::spec_levels_of(post.store.level_timings@, other)
            == crate::store::spec_levels_of(pre.store.level_timings@, other),
{
    lemma_bump_total_effect(pre.store.hacks@, hack_id, other);
    match pre.current_session_id {
        None => {
            if pre.store.next_session_id < i64::MAX {
                let row = SessionRow {
                    id: pre.store.next_session_id,
                    hack_id,
                    start_time: now,
                    end_time: None,
                    duration_seconds: 1,
                };
                assert(post.store.sessions@.drop_last() =~= pre.store.sessions@);
                assert(post.store.sessions@.last() == row);
            }
        },
        Some(sid) => {
            match spec_find_first(pre.store.sessions@, session_id_pred(sid)) {
                Some(ix) => {
                    crate::store::lemma_find_first_char(pre.store.sessions@, session_id_pred(sid));
                    crate::store::lemma_total_secs_update_other(
                        pre.store.sessions@,
                        ix,
                        SessionRow {
                            end_time: Some(now),
                            duration_seconds: spec_inc64(
                                pre.store.sessions@[ix].duration_seconds,
                            ),
                            ..pre.store.sessions@[ix]
                        },
                        other,
                    );
                },
                None => {},
            }
        },
    }
    match level {
        None => {},
        Some(lvl) => {
            match spec_find_first(pre.store.level_timings@, level_key_pred(hack_id, lvl)) {
                Some(ix) => {
                    crate::store::lemma_find_first_char(
                        pre.store.level_timings@,
                        level_key_pred(hack_id, lvl),
                    );
                    crate::store::lemma_levels_of_update_other(
                        pre.store.level_timings@,
                        ix,
                        crate::store::LevelRow {
                            duration_seconds: spec_inc64(
                                pre.store.level_timings@[ix].duration_seconds,
                            ),
                            ..pre.store.level_timings@[ix]
                        },
                        other,
                    );
                },
                None => {
                    assert(post.store.level_timings@.drop_last() =~= pre.store.level_timings@);
                },
            }
        },
    }
}

} // verus!
