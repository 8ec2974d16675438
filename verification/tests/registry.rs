use pinga::{PingApp, PingWindow, Pong, CADENCE_NANOS};
use std::time::Duration;

fn ms(millis: u64) -> Pong {
    Pong::Success(Duration::from_millis(millis))
}

fn asked(requests: &[pinga::ProbeRequest]) -> Vec<(u64, String)> {
    requests.iter().map(|request| (request.id, request.address.clone())).collect()
}

#[test]
fn a_new_registry_holds_the_three_initial_monitors() {
    let app = PingApp::new();
    assert_eq!(app.len(), 3);
    assert_eq!(app.ids(), vec![0, 1, 2]);
    let listing = app.list_targets();
    let shown: Vec<(u64, &str, &str)> = listing
        .iter()
        .map(|info| (info.id, info.display_name.as_str(), info.address_spec.as_str()))
        .collect();
    assert_eq!(
        shown,
        vec![
            (0, "localhost (v4)", "127.0.0.1"),
            (1, "localhost (v6)", "::1"),
            (2, "Google DNS", "8.8.8.8"),
        ]
    );
    for info in &listing {
        assert_eq!(info.group, 0);
        assert!(!info.scanning);
        assert_eq!(info.current_status, None);
    }
}

#[test]
fn the_default_registry_is_the_new_one() {
    let app = PingApp::default();
    assert_eq!(app.ids(), vec![0, 1, 2]);
    assert_eq!(app.window(2).address(), "8.8.8.8");
}

#[test]
fn every_created_monitor_gets_an_identifier_of_its_own() {
    let mut app = PingApp::new();
    assert!(app.can_create());
    let first = app.create(PingWindow::new("a", "10.0.0.1", None));
    let second = app.create(PingWindow::empty(None));
    assert_eq!((first, second), (3, 4));
    assert!(app.contains(first));
    assert!(app.contains(second));
    assert!(!app.contains(5));
    assert_eq!(app.window(first).hostname(), "a");
    assert_eq!(app.window(second).address(), "127.0.0.1");
    assert_eq!(app.ids(), vec![0, 1, 2, 3, 4]);
}

#[test]
fn a_destroyed_monitor_is_gone_and_its_identifier_is_not_used_again() {
    let mut app = PingApp::new();
    app.destroy(1);
    assert!(!app.contains(1));
    assert_eq!(app.ids(), vec![0, 2]);
    let id = app.create(PingWindow::new("b", "10.0.0.2", None));
    assert_eq!(id, 3);
    app.destroy(3);
    app.destroy(0);
    assert_eq!(app.ids(), vec![2]);
    assert_eq!(app.create(PingWindow::empty(None)), 4);
}

#[test]
fn a_tick_starts_a_probe_for_each_monitor_that_is_due() {
    let mut app = PingApp::new();
    assert!(app.tick_all(0).is_empty());
    app.set_scanning(0, true);
    app.set_scanning(2, true);
    let requests = app.tick_all(10);
    assert_eq!(asked(&requests), vec![(0, "127.0.0.1".to_string()), (2, "8.8.8.8".to_string())]);
    assert!(app.window(0).in_flight());
    assert!(!app.window(1).in_flight());
    assert!(app.window(2).in_flight());
    // ticking again, however often, starts nothing while those are out
    assert!(app.tick_all(11).is_empty());
    assert!(app.tick_all(11 + 3 * CADENCE_NANOS).is_empty());
}

#[test]
fn results_may_arrive_in_any_order() {
    let mut app = PingApp::new();
    app.set_scanning(0, true);
    app.set_scanning(1, true);
    app.set_scanning(2, true);
    assert_eq!(app.tick_all(0).len(), 3);
    assert!(app.complete(2, ms(30), 40));
    assert!(app.complete(0, Pong::Failure, 50));
    assert_eq!(app.window(2).success(), Some(true));
    assert_eq!(app.window(0).success(), Some(false));
    assert_eq!(app.window(1).success(), None);
    // the one that is still out blocks only its own monitor
    let requests = app.tick_all(51 + CADENCE_NANOS);
    assert_eq!(asked(&requests), vec![(0, "127.0.0.1".to_string()), (2, "8.8.8.8".to_string())]);
    assert!(app.complete(1, ms(900), 60 + CADENCE_NANOS));
    assert_eq!(app.window(1).last_ping(), 60 + CADENCE_NANOS);
}

#[test]
fn a_probe_asks_for_the_address_as_it_stands_at_the_tick() {
    let mut app = PingApp::new();
    app.set_address(1, "example.org");
    app.rename(1, "example");
    app.set_scanning(1, true);
    assert_eq!(asked(&app.tick_all(0)), vec![(1, "example.org".to_string())]);
    assert_eq!(app.window(1).hostname(), "example");
}

#[test]
fn the_result_of_a_destroyed_monitor_is_dropped() {
    let mut app = PingApp::new();
    app.set_scanning(1, true);
    assert_eq!(app.tick_all(0).len(), 1);
    app.destroy(1);
    assert!(!app.complete(1, ms(3), 5));
    assert_eq!(app.ids(), vec![0, 2]);
    assert!(app.window(0).history().is_empty());
    assert!(app.window(2).history().is_empty());
}

#[test]
fn switching_a_monitor_on_clears_only_its_own_status() {
    let mut app = PingApp::new();
    app.set_scanning(0, true);
    app.set_scanning(1, true);
    assert_eq!(app.tick_all(0).len(), 2);
    assert!(app.complete(0, ms(3), 1));
    assert!(app.complete(1, Pong::Failure, 1));
    app.set_scanning(0, false);
    assert_eq!(app.window(0).success(), Some(true));
    app.set_scanning(0, true);
    assert_eq!(app.window(0).success(), None);
    assert_eq!(app.window(1).success(), Some(false));
    assert_eq!(app.window(0).history().len(), 1);
}

#[test]
fn the_listing_shows_what_was_set() {
    let mut app = PingApp::new();
    app.set_group(2, 3);
    app.rename(2, "resolver");
    app.set_scanning(2, true);
    assert_eq!(app.tick_all(0).len(), 1);
    assert!(app.complete(2, ms(8), 2));
    let listing = app.list_targets();
    assert_eq!(listing.len(), 3);
    assert_eq!(listing[2].id, 2);
    assert_eq!(listing[2].display_name, "resolver");
    assert_eq!(listing[2].address_spec, "8.8.8.8");
    assert_eq!(listing[2].group, 3);
    assert!(listing[2].scanning);
    assert_eq!(listing[2].current_status, Some(true));
    assert_eq!(listing[0].group, 0);
    assert!(!listing[0].scanning);
}

#[test]
fn the_series_of_a_monitor_is_found_by_its_identifier() {
    let mut app = PingApp::new();
    app.set_scanning(1, true);
    let mut now = 0;
    for outcome in [ms(10), Pong::Failure, ms(20), ms(30)] {
        assert_eq!(app.tick_all(now).len(), 1);
        assert!(app.complete(1, outcome, now + 1));
        now += CADENCE_NANOS + 2;
    }
    assert_eq!(
        app.history_segments(1, 4),
        vec![
            vec![(0, Duration::from_millis(10))],
            vec![(2, Duration::from_millis(20)), (3, Duration::from_millis(30))],
        ]
    );
    assert!(app.history_segments(0, 4).is_empty());
}

#[test]
fn closed_panels_are_swept_away() {
    let mut app = PingApp::new();
    let mut closed = PingWindow::new("gone", "10.0.0.9", None);
    closed.close();
    let gone = app.create(closed);
    let kept = app.create(PingWindow::new("kept", "10.0.0.8", None));
    let mut also_closed = PingWindow::empty(None);
    also_closed.close();
    let also_gone = app.create(also_closed);
    assert_eq!(app.len(), 6);
    app.sweep();
    assert_eq!(app.ids(), vec![0, 1, 2, kept]);
    assert!(!app.contains(gone));
    assert!(!app.contains(also_gone));
    app.sweep();
    assert_eq!(app.len(), 4);
}

#[test]
fn a_registry_counts_its_instants_from_the_given_start() {
    let start = 1_700_000_000_000_000_000;
    let mut app = PingApp::starting_at(start);
    assert_eq!(app.ids(), vec![0, 1, 2]);
    let first = app.now();
    let second = app.now();
    assert!(start <= first && first <= second);
    assert!(second - start < 60 * CADENCE_NANOS);
    app.set_scanning(2, true);
    assert_eq!(app.update().len(), 1);
    assert!(app.record(2, Pong::Failure));
    let (at, _) = app.window(2).history()[0];
    assert!(second <= at && at <= app.now());
}

#[test]
fn the_registry_ticks_and_records_by_its_own_clock() {
    let mut app = PingApp::new();
    app.set_scanning(0, true);
    let requests = app.update();
    assert_eq!(asked(&requests), vec![(0, "127.0.0.1".to_string())]);
    assert!(app.update().is_empty());
    let before = app.now();
    assert!(app.record(0, ms(1)));
    let after = app.now();
    let at = app.window(0).last_ping();
    assert!(before <= at && at <= after);
    assert_eq!(app.window(0).success(), Some(true));
    assert!(!app.record(77, ms(1)));
}

#[test]
fn the_panel_settings_of_a_monitor_are_set_by_its_identifier() {
    let mut app = PingApp::new();
    app.set_scratchpad(1, "behind the firewall");
    app.set_show_plot(1, true);
    app.set_show_scratchpad(1, true);
    assert_eq!(app.window(1).scratchpad(), "behind the firewall");
    assert!(app.window(1).show_plot());
    assert!(app.window(1).show_scratchpad());
    assert_eq!(app.window(0).scratchpad(), "");
    assert!(!app.window(0).show_plot());
    assert!(!app.window(2).show_scratchpad());
}

#[test]
fn a_closed_panel_stays_until_the_next_sweep() {
    let mut app = PingApp::new();
    app.close(0);
    assert!(app.contains(0));
    assert!(!app.window(0).is_open());
    assert!(app.window(1).is_open());
    app.sweep();
    assert_eq!(app.ids(), vec![1, 2]);
}

#[test]
fn ticking_again_at_the_same_instant_starts_nothing() {
    let mut app = PingApp::new();
    app.set_scanning(0, true);
    app.set_scanning(1, true);
    assert_eq!(app.tick_all(7).len(), 2);
    assert!(app.tick_all(7).is_empty());
    assert!(app.complete(0, ms(1), 8));
    // the cadence has not passed for monitor 0, and monitor 1 is still out
    assert!(app.tick_all(8 + CADENCE_NANOS).is_empty());
    assert_eq!(asked(&app.tick_all(9 + CADENCE_NANOS)), vec![(0, "127.0.0.1".to_string())]);
}
