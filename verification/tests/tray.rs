use thundertray::tray::{
    tray_title, unread_menu_label, ToggleDebounce, TrayAction, TrayEvent, TrayLoop, Watchdog,
    WatchdogAction,
};

#[test]
fn test_thunder_tray_title() {
    assert_eq!(tray_title(0), "ThunderTray");
}

#[test]
fn test_thunder_tray_title_with_unread() {
    assert_eq!(tray_title(5), "ThunderTray - 5 unread");
}

#[test]
fn unread_menu_entry_shows_the_count() {
    assert_eq!(unread_menu_label(0), "Unread: 0");
    assert_eq!(unread_menu_label(4294967295), "Unread: 4294967295");
}

#[test]
fn counts_are_published_only_when_they_change() {
    let mut state = TrayLoop::new(3);
    assert_eq!(state.handle(TrayEvent::Tick(3)), TrayAction::Idle);
    assert_eq!(state.handle(TrayEvent::Tick(4)), TrayAction::UpdateCount(4));
    assert_eq!(state.last_count, 4);
    assert_eq!(state.handle(TrayEvent::QuitRequested), TrayAction::Shutdown);
    assert_eq!(state.handle(TrayEvent::Tick(9)), TrayAction::Idle);
    assert_eq!(state.last_count, 4);
}

#[test]
fn every_stop_request_shuts_down() {
    for event in [TrayEvent::Terminate, TrayEvent::Interrupt, TrayEvent::QuitRequested] {
        let mut state = TrayLoop::new(0);
        assert_eq!(state.handle(event), TrayAction::Shutdown);
        assert!(state.stopped);
    }
}

#[test]
fn clicks_within_half_a_second_are_ignored() {
    let mut debounce = ToggleDebounce::new();
    assert!(debounce.accept(10_000));
    assert!(!debounce.accept(10_499));
    assert!(debounce.accept(10_500));
    assert!(!debounce.accept(10_200));
    assert_eq!(debounce.last_toggle_ms, Some(10_500));
}

#[test]
fn watchdog_pauses_after_three_starts_within_a_minute() {
    let mut dog = Watchdog::new();
    assert_eq!(dog.decide(true, 0), WatchdogAction::WaitWhileRunning);
    for t in [1_000u64, 2_000, 3_000] {
        assert_eq!(dog.decide(false, t), WatchdogAction::Start);
        dog.record_start(t);
    }
    assert_eq!(dog.decide(false, 4_000), WatchdogAction::Pause);
    assert_eq!(dog.decide(false, 1_000_000), WatchdogAction::Pause);
}

#[test]
fn old_starts_are_forgotten() {
    let mut dog = Watchdog::new();
    for t in [0u64, 1_000, 2_000] {
        assert_eq!(dog.decide(false, t), WatchdogAction::Start);
        dog.record_start(t);
    }
    assert_eq!(dog.decide(false, 60_500), WatchdogAction::Start);
    dog.record_start(60_500);
    assert_eq!(dog.decide(false, 62_001), WatchdogAction::Start);
}

#[test]
fn no_minute_holds_more_than_three_starts() {
    // Thunderbird runs for half a minute after each start; the watchdog restarts
    // it whenever it is not running, and any four starts span more than a minute.
    let mut dog = Watchdog::new();
    let mut starts: Vec<u64> = Vec::new();
    let mut now: u64 = 0;
    while now < 600_000 {
        let running = starts.last().is_some_and(|&s| now - s < 30_000);
        match dog.decide(running, now) {
            WatchdogAction::Start => {
                dog.record_start(now + 100);
                starts.push(now + 100);
            }
            WatchdogAction::Pause => break,
            WatchdogAction::WaitWhileRunning => {}
        }
        now += 7_000;
    }
    assert!(starts.len() > 3);
    for window in starts.windows(4) {
        assert!(window[3] - window[0] > 60_000);
    }
}
