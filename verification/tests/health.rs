use whispera::health::{busy, restart_allowed, Health};

#[test]
fn never_reload_during_audio_work() {
    for phase in ["recording", "paused", "processing"] {
        assert!(busy(phase));
    }
    assert!(!busy("idle"));
}

#[test]
fn restart_waits_for_audio_work() {
    assert!(restart_allowed("idle", false).is_ok());
    assert_eq!(
        restart_allowed("recording", false).unwrap_err(),
        "Termina o guarda la grabacion antes de reiniciar"
    );
    assert!(restart_allowed("done", true).is_err());
}

#[test]
fn stale_window_is_reloaded_at_most_twice_in_ten_minutes() {
    let mut h = Health::new();
    // first sight of the window counts as a heartbeat
    assert!(!h.check("recorder", true, 0, false, true));
    assert!(!h.check("recorder", true, 30_000, false, true));
    assert!(h.check("recorder", true, 30_001, false, true));
    // the reload counts as a heartbeat
    assert!(!h.check("recorder", true, 60_001, false, true));
    assert!(h.check("recorder", true, 60_002, false, true));
    // a third reload within ten minutes is refused
    assert!(!h.check("recorder", true, 100_000, false, true));
    assert!(!h.check("recorder", true, 500_000, false, true));
    // once the first reload is ten minutes old, the budget is back
    assert!(h.check("recorder", true, 630_001, false, true));
}

#[test]
fn busy_or_disabled_watchdog_never_reloads() {
    let mut h = Health::new();
    assert!(!h.check("main", true, 0, false, true));
    assert!(!h.check("main", true, 100_000, true, true));
    assert!(!h.check("main", true, 200_000, false, false));
    // the busy and disabled checks counted as heartbeats
    assert!(!h.check("main", true, 220_000, false, true));
    assert!(h.check("main", true, 230_001, false, true));
}

#[test]
fn hidden_window_is_forgotten_and_heartbeats_count() {
    let mut h = Health::new();
    assert!(!h.check("main", true, 0, false, true));
    h.heartbeat("main", 50_000);
    assert!(!h.check("main", true, 70_000, false, true));
    assert!(!h.check("main", false, 200_000, false, true));
    // shown again: counts as just shown
    assert!(!h.check("main", true, 400_000, false, true));
    assert!(h.check("main", true, 430_001, false, true));
}

#[test]
fn reloads_are_rationed_across_windows() {
    let mut h = Health::new();
    assert!(!h.check("main", true, 0, false, true));
    assert!(!h.check("recorder", true, 0, false, true));
    assert!(h.check("main", true, 40_000, false, true));
    assert!(h.check("recorder", true, 40_000, false, true));
    // a third window, stale later within ten minutes, is not reloaded
    assert!(!h.check("details", true, 50_000, false, true));
    assert!(!h.check("details", true, 90_000, false, true));
    assert!(h.check("details", true, 640_000, false, true));
}
