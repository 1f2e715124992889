use rh_mgr::analyzer::{SmwAnalyzer, LEVEL_MODE, OVERWORLD_MODE};

#[test]
fn activity_true_for_level_and_overworld_modes() {
    let mut a = SmwAnalyzer::new();
    let events = [0u8; 15];
    let up = a.interpret(LEVEL_MODE, 0x05, &events);
    assert!(up.is_active);
    let up = a.interpret(OVERWORLD_MODE, 0x05, &events);
    assert!(up.is_active);
}

#[test]
fn activity_false_for_every_other_mode() {
    let mut a = SmwAnalyzer::new();
    let events = [0u8; 15];
    for mode in 0u8..=255 {
        if mode != LEVEL_MODE && mode != OVERWORLD_MODE {
            let up = a.interpret(mode, 0x05, &events);
            assert!(!up.is_active, "mode {mode:#x} must not count as active");
        }
    }
}

#[test]
fn level_reported_while_in_level_mode() {
    let mut a = SmwAnalyzer::new();
    let up = a.interpret(LEVEL_MODE, 0x42, &[0u8; 15]);
    assert_eq!(up.level_id, Some(0x42));
    assert!(a.in_level);
    assert_eq!(a.last_game_mode, LEVEL_MODE);
    assert_eq!(a.current_level_id, Some(0x42));
}

#[test]
fn excluded_levels_never_reported() {
    let mut a = SmwAnalyzer::new();
    for lvl in [0x00u8, 0xC5, 0xC7] {
        let up = a.interpret(LEVEL_MODE, lvl, &[0u8; 15]);
        assert!(up.is_active);
        assert_eq!(up.level_id, None, "excluded level {lvl:#x} must not be reported");
    }
}

#[test]
fn no_level_reported_on_overworld() {
    let mut a = SmwAnalyzer::new();
    let up = a.interpret(OVERWORLD_MODE, 0x42, &[0u8; 15]);
    assert_eq!(up.level_id, None);
    assert!(!a.in_level);
}

#[test]
fn event_flags_are_ignored() {
    let mut a = SmwAnalyzer::new();
    let up1 = a.interpret(LEVEL_MODE, 0x10, &[0u8; 15]);
    let up2 = a.interpret(LEVEL_MODE, 0x10, &[0xFFu8; 15]);
    assert_eq!(up1.is_active, up2.is_active);
    assert_eq!(up1.level_id, up2.level_id);
}
