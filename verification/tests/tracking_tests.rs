use rh_mgr::protocol::Usb2SnesClient;
use rh_mgr::service::{TickPlan, TrackingService, PollStep};
use rh_mgr::store::TrackingStore;
use rh_mgr::analyzer::TrackingUpdate;

fn store_with_hacks() -> TrackingStore {
    let mut store = TrackingStore::new();
    assert!(store.add_hack(1, b"Kaizo Adventure".to_vec(), Some(b"C:\\roms\\Kaizo Adventure.smc".to_vec()), Some(b"1234".to_vec())));
    assert!(store.add_hack(2, b"Other Quest".to_vec(), None, Some(b"BEEF".to_vec())));
    store
}

fn connected_service() -> TrackingService {
    let mut s = TrackingService::new(store_with_hacks());
    s.complete_connection(Usb2SnesClient::new());
    s
}

fn header_with_checksum(lo: u8, hi: u8) -> Vec<u8> {
    let mut d = vec![0u8; 32];
    d[30] = lo;
    d[31] = hi;
    d
}

#[test]
fn duplicate_hack_id_rejected() {
    let mut store = store_with_hacks();
    assert!(!store.add_hack(1, b"Imposter".to_vec(), None, None));
}

#[test]
fn plan_disabled_without_switch() {
    let s = TrackingService::new(store_with_hacks());
    assert_eq!(s.plan_tick(false, 0), TickPlan::Disabled);
}

#[test]
fn plan_connect_when_disconnected() {
    let s = TrackingService::new(store_with_hacks());
    assert_eq!(s.plan_tick(true, 0), TickPlan::Connect);
}

#[test]
fn plan_checksum_identification_when_connected() {
    let s = connected_service();
    assert_eq!(s.plan_tick(true, 0), TickPlan::IdentifyChecksum);
}

#[test]
fn plan_name_identification_when_rom_reads_forbidden() {
    let mut s = TrackingService::new(store_with_hacks());
    let mut client = Usb2SnesClient::new();
    client
        .handle_info_reply(&br#"{"Results":["1.0","fxpak","rom.smc","NO_ROM_READ"]}"#.to_vec())
        .unwrap();
    s.complete_connection(client);
    assert_eq!(s.plan_tick(true, 0), TickPlan::IdentifyName);
}

#[test]
fn checksum_identification_adopts_matching_hack() {
    // the stored fingerprint "1234" matches a header whose checksum word is 0x1234
    let mut s = connected_service();
    s.apply_checksum_read(Some(header_with_checksum(0x34, 0x12)), 0);
    assert_eq!(s.active_hack_id, Some(1));
    assert_eq!(s.plan_tick(true, 1), TickPlan::PollMemory { hack_id: 1 });
}

#[test]
fn checksum_identification_without_match_leaves_nothing() {
    let mut s = connected_service();
    s.apply_checksum_read(Some(header_with_checksum(0xFF, 0xFF)), 0);
    assert_eq!(s.active_hack_id, None);
}

#[test]
fn short_checksum_read_is_inconclusive() {
    let mut s = connected_service();
    s.apply_checksum_read(Some(vec![0x34, 0x12]), 0);
    assert_eq!(s.active_hack_id, None);
}

#[test]
fn identification_runs_at_most_once_per_window() {
    // ticking every second: after the attempt at t=0, the plan stays
    // IdentifyWait until more than five seconds have passed
    let mut s = connected_service();
    assert_eq!(s.plan_tick(true, 0), TickPlan::IdentifyChecksum);
    s.apply_checksum_read(Some(header_with_checksum(0xFF, 0xFF)), 0);
    for now in 1u64..=5 {
        assert_eq!(s.plan_tick(true, now), TickPlan::IdentifyWait, "tick at {now}s");
    }
    assert_eq!(s.plan_tick(true, 6), TickPlan::IdentifyChecksum);
}

#[test]
fn adoption_happens_once_even_when_ticked_every_second() {
    let mut s = connected_service();
    let mut adoptions = 0;
    for now in 0u64..10 {
        match s.plan_tick(true, now) {
            TickPlan::IdentifyChecksum => {
                let before = s.active_hack_id;
                s.apply_checksum_read(Some(header_with_checksum(0x34, 0x12)), now);
                if before.is_none() && s.active_hack_id.is_some() {
                    adoptions += 1;
                }
            }
            TickPlan::PollMemory { hack_id } => assert_eq!(hack_id, 1),
            TickPlan::IdentifyWait => {}
            other => panic!("unexpected plan {other:?}"),
        }
    }
    assert_eq!(adoptions, 1);
}

#[test]
fn manual_override_pre_empts_passive_tracking() {
    let mut s = connected_service();
    s.set_active_hack(1);
    s.start_manual_tracking(2);
    // every tick now tracks hack 2, whatever else the state says
    assert_eq!(s.plan_tick(true, 0), TickPlan::ManualOverride { hack_id: 2 });
    assert_eq!(s.plan_tick(false, 99), TickPlan::ManualOverride { hack_id: 2 });
    for now in 0u64..3 {
        s.tick_manual(now);
    }
    let stats_b = s.get_hack_stats(2);
    assert_eq!(stats_b.total_play_time_seconds, 3);
    assert_eq!(stats_b.session_count, 1);
    // nothing was attributed to the previously adopted hack
    let stats_a = s.get_hack_stats(1);
    assert_eq!(stats_a.total_play_time_seconds, 0);
    assert_eq!(stats_a.session_count, 0);
    s.stop_manual_tracking();
    assert_eq!(s.manual_hack_id, None);
    assert_eq!(s.current_session_id, None);
    assert_eq!(s.plan_tick(true, 4), TickPlan::PollMemory { hack_id: 1 });
}

#[test]
fn n_active_ticks_accumulate_n_seconds() {
    let mut s = connected_service();
    s.set_active_hack(1);
    let update = TrackingUpdate { is_active: true, level_id: None };
    for now in 100u64..108 {
        s.process_update(1, &update, now);
    }
    let stats = s.get_hack_stats(1);
    assert_eq!(stats.total_play_time_seconds, 8);
    assert_eq!(stats.session_count, 1);
    // the hack's cumulative counter moved by exactly the same amount
    assert_eq!(s.store.hacks[0].total_play_time, 8);
    let row = s.store.sessions[0];
    assert_eq!(row.hack_id, 1);
    assert_eq!(row.start_time, 100);
    assert_eq!(row.end_time, Some(107));
    assert_eq!(row.duration_seconds, 8);
}

#[test]
fn inactive_ticks_write_nothing() {
    let mut s = connected_service();
    let update = TrackingUpdate { is_active: false, level_id: Some(5) };
    s.process_update(1, &update, 0);
    assert_eq!(s.get_hack_stats(1).total_play_time_seconds, 0);
    assert!(s.store.sessions.is_empty());
    assert!(s.store.level_timings.is_empty());
}

#[test]
fn level_timings_upserted_per_tick() {
    let mut s = connected_service();
    let in_level = TrackingUpdate { is_active: true, level_id: Some(0x42) };
    for now in 0u64..4 {
        s.process_update(1, &in_level, now);
    }
    let other_level = TrackingUpdate { is_active: true, level_id: Some(0x07) };
    s.process_update(1, &other_level, 4);
    let stats = s.get_hack_stats(1);
    assert_eq!(stats.level_timings.len(), 2);
    assert_eq!(stats.level_timings[0].level_id, 0x42);
    assert_eq!(stats.level_timings[0].seconds, 4);
    assert_eq!(stats.level_timings[1].level_id, 0x07);
    assert_eq!(stats.level_timings[1].seconds, 1);
    // the visit count is written once at creation
    assert_eq!(s.store.level_timings[0].visit_count, 1);
}

#[test]
fn clear_stats_touches_only_one_hack() {
    let mut s = connected_service();
    let update = TrackingUpdate { is_active: true, level_id: Some(1) };
    for now in 0u64..5 {
        s.process_update(1, &update, now);
    }
    s.stop_manual_tracking(); // also clears the session pointer
    for now in 5u64..8 {
        s.process_update(2, &update, now);
    }
    s.clear_hack_stats(1);
    let stats1 = s.get_hack_stats(1);
    assert_eq!(stats1.total_play_time_seconds, 0);
    assert_eq!(stats1.session_count, 0);
    assert!(stats1.level_timings.is_empty());
    assert_eq!(s.store.hacks[0].total_play_time, 0);
    let stats2 = s.get_hack_stats(2);
    assert_eq!(stats2.total_play_time_seconds, 3);
    assert_eq!(stats2.session_count, 1);
    assert_eq!(stats2.level_timings.len(), 1);
    assert_eq!(s.store.hacks[1].total_play_time, 3);
}

#[test]
fn clear_all_zeroes_everything() {
    let mut s = connected_service();
    let update = TrackingUpdate { is_active: true, level_id: Some(1) };
    s.process_update(1, &update, 0);
    s.stop_manual_tracking();
    s.process_update(2, &update, 1);
    s.clear_all_tracking_data();
    assert!(s.store.sessions.is_empty());
    assert!(s.store.level_timings.is_empty());
    for h in [1i64, 2] {
        let stats = s.get_hack_stats(h);
        assert_eq!(stats.total_play_time_seconds, 0);
        assert_eq!(stats.session_count, 0);
        assert!(stats.level_timings.is_empty());
    }
    assert_eq!(s.store.hacks[0].total_play_time, 0);
    assert_eq!(s.store.hacks[1].total_play_time, 0);
}

#[test]
fn read_failure_suppresses_checksum_for_sixty_seconds() {
    let mut s = connected_service();
    assert_eq!(s.plan_tick(true, 10), TickPlan::IdentifyChecksum);
    s.apply_checksum_read(None, 10);
    // the connection is dropped, forcing a reconnect next tick
    assert_eq!(s.rom_block_until, Some(70));
    assert_eq!(s.plan_tick(true, 11), TickPlan::Connect);
    s.complete_connection(Usb2SnesClient::new());
    // throttle still applies right after the failed attempt
    assert_eq!(s.plan_tick(true, 12), TickPlan::IdentifyWait);
    // once the throttle elapses, identification falls back to name matching
    assert_eq!(s.plan_tick(true, 16), TickPlan::IdentifyName);
    // ... until the sixty-second window has passed
    s.apply_name_info(None, 16);
    assert_eq!(s.plan_tick(true, 69), TickPlan::IdentifyName);
    assert_eq!(s.plan_tick(true, 70), TickPlan::IdentifyChecksum);
}

#[test]
fn name_identification_matches_reported_rom() {
    let mut s = connected_service();
    let results = vec![
        b"1.0".to_vec(),
        b"fxpak".to_vec(),
        b"C:\\roms\\Kaizo Adventure.smc".to_vec(),
    ];
    s.apply_name_info(Some(results), 0);
    assert_eq!(s.active_hack_id, Some(1));
}

#[test]
fn name_identification_ignores_placeholders() {
    for name in [&b"No Info"[..], b"menu.bin", b"snes_menu.bin", b""] {
        let mut s = connected_service();
        let results = vec![b"1.0".to_vec(), b"fxpak".to_vec(), name.to_vec()];
        s.apply_name_info(Some(results), 0);
        assert_eq!(s.active_hack_id, None, "{name:?} must not match");
    }
}

#[test]
fn name_identification_needs_three_entries() {
    let mut s = connected_service();
    s.apply_name_info(Some(vec![b"1.0".to_vec()]), 0);
    assert_eq!(s.active_hack_id, None);
    assert_eq!(s.last_fingerprint_time, Some(0));
}

#[test]
fn name_identification_ignores_ascii_case() {
    let mut s = connected_service();
    let results = vec![
        b"1.0".to_vec(),
        b"fxpak".to_vec(),
        b"D:\\SD\\KAIZO ADVENTURE.SMC".to_vec(),
    ];
    s.apply_name_info(Some(results), 0);
    assert_eq!(s.active_hack_id, Some(1));
}

#[test]
fn restored_history_counts_in_stats() {
    // the shell reloads persisted rows into the model at startup
    let mut store = store_with_hacks();
    assert!(store.restore_session(5, 1, 1000, Some(1009), 10));
    assert!(store.set_total_play_time(1, 10));
    // a colliding or malformed row is rejected
    assert!(!store.restore_session(5, 2, 0, None, 1));
    assert!(!store.restore_session(0, 2, 0, None, 1));
    assert!(!store.restore_session(6, 2, 0, None, -1));
    assert!(!store.set_total_play_time(99, 3));
    let stats = store.get_hack_stats(1);
    assert_eq!(stats.total_play_time_seconds, 10);
    assert_eq!(stats.session_count, 1);
    assert_eq!(store.hacks[0].total_play_time, 10);
    // the id allocator moved past the restored id
    assert_eq!(store.next_session_id, 6);
}

#[test]
fn first_checksum_match_wins() {
    let mut store = TrackingStore::new();
    assert!(store.add_hack(7, b"First".to_vec(), None, Some(b"1234".to_vec())));
    assert!(store.add_hack(8, b"Second".to_vec(), None, Some(b"1234".to_vec())));
    assert_eq!(store.find_by_checksum(&b"1234".to_vec()), Some(7));
}

#[test]
fn polling_feeds_the_analyzer() {
    let mut s = connected_service();
    s.set_active_hack(1);
    let step = s.evaluate_poll(Some(vec![0x14]), Some(vec![0x42]), Some(vec![0u8; 15]));
    match step {
        PollStep::Update(u) => {
            assert!(u.is_active);
            assert_eq!(u.level_id, Some(0x42));
        }
        PollStep::Probe => panic!("expected an update"),
    }
    let status = s.get_status();
    assert!(status.in_level);
    assert_eq!(status.game_mode, 0x14);
}

#[test]
fn empty_reads_call_for_a_probe() {
    // a successful but empty read is as inconclusive as a failed one: the
    // liveness probe decides whether the tick counts or the connection dies
    let mut s = connected_service();
    match s.evaluate_poll(Some(vec![]), Some(vec![0x42]), Some(vec![0u8; 15])) {
        PollStep::Probe => {}
        PollStep::Update(_) => panic!("expected a probe"),
    }
    let up = s.apply_probe(true);
    assert!(up.unwrap().is_active);
    assert!(s.client.is_some());
    match s.evaluate_poll(Some(vec![0x14]), Some(vec![]), Some(vec![])) {
        PollStep::Probe => {}
        PollStep::Update(_) => panic!("expected a probe"),
    }
    let up = s.apply_probe(false);
    assert!(up.is_none());
    assert!(s.client.is_none());
}

#[test]
fn failed_reads_call_for_a_probe() {
    let mut s = connected_service();
    match s.evaluate_poll(None, Some(vec![0x42]), Some(vec![0u8; 15])) {
        PollStep::Probe => {}
        PollStep::Update(_) => panic!("expected a probe"),
    }
    // a live device keeps the tick generically active
    let up = s.apply_probe(true);
    assert!(up.unwrap().is_active);
    assert!(s.client.is_some());
    // a dead one drops the connection
    let up = s.apply_probe(false);
    assert!(up.is_none());
    assert!(s.client.is_none());
    assert_eq!(s.plan_tick(true, 0), TickPlan::Connect);
}

#[test]
fn status_reports_a_consistent_snapshot() {
    let mut s = TrackingService::new(store_with_hacks());
    let status = s.get_status();
    assert!(!status.connected);
    assert!(!status.attached);
    assert!(!status.in_level);
    assert_eq!(status.game_mode, 0);
    assert_eq!(status.manual_hack_id, None);
    s.complete_connection(Usb2SnesClient::new());
    s.start_manual_tracking(2);
    let status = s.get_status();
    assert!(status.connected);
    assert!(status.attached);
    assert_eq!(status.manual_hack_id, Some(2));
}

#[test]
fn disabled_tracking_drops_the_connection() {
    let mut s = connected_service();
    assert_eq!(s.plan_tick(false, 0), TickPlan::Disabled);
    s.drop_connection();
    assert!(s.client.is_none());
}

#[test]
fn config_switches_default_to_off() {
    let mut c = rh_mgr::config::Config::empty();
    assert!(!c.tracking_enabled());
    assert!(!c.debug_enabled());
    c.enable_auto_tracking = Some(true);
    c.enable_debug_logging = Some(false);
    assert!(c.tracking_enabled());
    assert!(!c.debug_enabled());
}
