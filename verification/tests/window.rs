use egui::Pos2;
use pinga::{
    default_true, first_address, Group, Indicator, PingWindow, Pong, CADENCE_NANOS, GROUP_COUNT,
    PLOT_LEN, UNTITLED,
};
use std::time::Duration;

fn ms(millis: u64) -> Pong {
    Pong::Success(Duration::from_millis(millis))
}

fn outcomes(window: &PingWindow) -> Vec<(u64, Option<Duration>)> {
    window.history().iter().map(|(at, pong)| (*at, pong.latency())).collect()
}

#[test]
fn a_new_monitor_is_idle_and_empty() {
    let window = PingWindow::new("router", "192.168.0.1", None);
    assert_eq!(window.hostname(), "router");
    assert_eq!(window.address(), "192.168.0.1");
    assert_eq!(window.group(), 0);
    assert_eq!(window.scratchpad(), "");
    assert!(window.origin().is_none());
    assert!(window.is_open());
    assert!(!window.scanning());
    assert!(!window.show_plot());
    assert!(!window.show_scratchpad());
    assert_eq!(window.success(), None);
    assert!(window.history().is_empty());
    assert!(!window.in_flight());
}

#[test]
fn an_empty_monitor_watches_the_local_host() {
    let window = PingWindow::empty(Some(Pos2::new(40.0, 25.0)));
    assert_eq!(window.hostname(), "localhost (v4)");
    assert_eq!(window.address(), "127.0.0.1");
    assert!(window.origin() == Some(Pos2::new(40.0, 25.0)));
    assert!(!window.scanning());
    assert_eq!(window.success(), None);
}

#[test]
fn a_panel_starts_open() {
    assert!(default_true());
}

#[test]
fn an_idle_monitor_never_probes() {
    let mut window = PingWindow::new("a", "b", None);
    assert!(!window.tick(0));
    assert!(!window.tick(10 * CADENCE_NANOS));
    assert!(!window.in_flight());
}

#[test]
fn the_first_tick_of_a_scanning_monitor_probes_at_once() {
    let mut window = PingWindow::new("a", "b", None);
    window.set_scanning(true);
    assert!(window.tick(3));
    assert!(window.in_flight());
    // exactly one: the next ticks start nothing while that probe is out
    assert!(!window.tick(4));
    assert!(!window.tick(4 + 5 * CADENCE_NANOS));
}

#[test]
fn no_second_probe_starts_while_one_is_outstanding() {
    let mut window = PingWindow::new("a", "b", None);
    window.set_scanning(true);
    let mut started = 0;
    for step in 0..50u64 {
        if window.tick(step * CADENCE_NANOS * 2) {
            started += 1;
        }
    }
    assert_eq!(started, 1);
    window.complete(ms(5), 100 * CADENCE_NANOS);
    assert!(!window.in_flight());
    assert!(window.tick(102 * CADENCE_NANOS));
    assert!(!window.tick(104 * CADENCE_NANOS));
}

#[test]
fn later_probes_wait_for_more_than_the_cadence() {
    let mut window = PingWindow::new("a", "b", None);
    window.set_scanning(true);
    assert!(window.tick(0));
    window.complete(ms(5), 1_000);
    assert_eq!(window.last_ping(), 1_000);
    assert!(!window.tick(1_000));
    assert!(!window.tick(1_000 + CADENCE_NANOS - 1));
    assert!(!window.tick(1_000 + CADENCE_NANOS));
    assert!(window.tick(1_000 + CADENCE_NANOS + 1));
}

#[test]
fn the_cadence_is_one_second() {
    assert_eq!(CADENCE_NANOS, 1_000_000_000);
    assert_eq!(PLOT_LEN, 20);
    assert_eq!(GROUP_COUNT, 5);
}

#[test]
fn a_clock_that_runs_backwards_starts_no_probe() {
    let mut window = PingWindow::new("a", "b", None);
    window.set_scanning(true);
    assert!(window.tick(5 * CADENCE_NANOS));
    window.complete(ms(5), 5 * CADENCE_NANOS);
    assert!(!window.tick(0));
    assert!(!window.tick(5 * CADENCE_NANOS - 1));
}

#[test]
fn a_completion_is_recorded_and_becomes_the_status() {
    let mut window = PingWindow::new("a", "b", None);
    window.set_scanning(true);
    assert!(window.tick(10));
    window.complete(ms(7), 20);
    assert_eq!(window.success(), Some(true));
    assert_eq!(window.last_ping(), 20);
    assert!(window.tick(20 + CADENCE_NANOS + 1));
    window.complete(Pong::Failure, 30 + CADENCE_NANOS);
    assert_eq!(window.success(), Some(false));
    assert_eq!(
        outcomes(&window),
        vec![(20, Some(Duration::from_millis(7))), (30 + CADENCE_NANOS, None)]
    );
}

#[test]
fn a_host_that_does_not_resolve_is_recorded_as_a_failure() {
    let mut window = PingWindow::new("nowhere", "no.such.host.invalid", None);
    window.set_scanning(true);
    assert!(window.tick(0));
    let resolved = first_address::<u8>(None);
    let outcome = Pong::from_result(resolved.map(|_| Duration::from_millis(1)));
    window.complete(outcome, 9);
    assert_eq!(window.success(), Some(false));
    assert_eq!(outcomes(&window), vec![(9, None)]);
    assert!(window.scanning());
}

#[test]
fn switching_scanning_on_clears_the_status() {
    for earlier in [ms(3), Pong::Failure] {
        let mut window = PingWindow::new("a", "b", None);
        window.set_scanning(true);
        assert!(window.tick(0));
        window.complete(earlier, 1);
        assert!(window.success().is_some());
        window.set_scanning(false);
        assert!(window.success().is_some());
        window.set_scanning(true);
        assert_eq!(window.success(), None);
        assert_eq!(window.history().len(), 1);
        // and the next tick probes at once, long before the cadence has passed
        assert!(window.tick(2));
    }
}

#[test]
fn switching_scanning_off_keeps_the_status_and_the_history() {
    let mut window = PingWindow::new("a", "b", None);
    window.set_scanning(true);
    assert!(window.tick(0));
    window.complete(ms(3), 1);
    window.set_scanning(false);
    assert!(!window.scanning());
    assert_eq!(window.success(), Some(true));
    assert_eq!(window.history().len(), 1);
    assert!(!window.tick(10 * CADENCE_NANOS));
}

#[test]
fn switching_scanning_on_while_on_keeps_the_status() {
    let mut window = PingWindow::new("a", "b", None);
    window.set_scanning(true);
    assert!(window.tick(0));
    window.complete(Pong::Failure, 1);
    window.set_scanning(true);
    assert_eq!(window.success(), Some(false));
}

#[test]
fn a_late_result_is_recorded_after_scanning_was_switched_off() {
    let mut window = PingWindow::new("a", "b", None);
    window.set_scanning(true);
    assert!(window.tick(0));
    window.set_scanning(false);
    window.complete(ms(9), 50);
    assert_eq!(window.history().len(), 1);
    assert_eq!(window.success(), Some(true));
    assert!(!window.in_flight());
    assert!(!window.tick(60 + CADENCE_NANOS));
}

#[test]
fn the_status_light_follows_scanning_and_the_latest_result() {
    let mut window = PingWindow::new("a", "b", None);
    assert_eq!(window.indicator(), Indicator::Idle);
    window.set_scanning(true);
    assert_eq!(window.indicator(), Indicator::Idle);
    assert!(window.tick(0));
    window.complete(ms(2), 1);
    assert_eq!(window.indicator(), Indicator::Pass);
    assert!(window.tick(2 + CADENCE_NANOS));
    window.complete(Pong::Failure, 3 + CADENCE_NANOS);
    assert_eq!(window.indicator(), Indicator::Fail);
    window.set_scanning(false);
    assert_eq!(window.indicator(), Indicator::Idle);
}

#[test]
fn a_host_without_a_name_is_shown_as_untitled() {
    let mut window = PingWindow::new("", "10.0.0.1", None);
    assert!(window.is_untitled());
    assert_eq!(window.title(), UNTITLED);
    assert_eq!(UNTITLED, "Sin t\u{ed}tulo");
    window.rename("gateway");
    assert!(!window.is_untitled());
    assert_eq!(window.title(), "gateway");
}

#[test]
fn the_link_of_a_host_is_its_address_behind_the_scheme() {
    let mut window = PingWindow::new("printer", "192.168.0.40", None);
    assert_eq!(window.url(), "http://192.168.0.40");
    window.set_address("printer.lan");
    assert_eq!(window.url(), "http://printer.lan");
    window.set_address("");
    assert_eq!(window.url(), pinga::URL_SCHEME);
}

#[test]
fn the_settings_change_only_what_they_name() {
    let mut window = PingWindow::new("a", "b", None);
    window.set_scanning(true);
    assert!(window.tick(0));
    window.complete(ms(4), 1);
    window.rename("north");
    window.set_address("10.1.1.1");
    window.set_group(4);
    window.set_scratchpad("rack 3");
    window.set_show_plot(true);
    window.set_show_scratchpad(true);
    assert_eq!(window.hostname(), "north");
    assert_eq!(window.address(), "10.1.1.1");
    assert_eq!(window.group(), 4);
    assert_eq!(window.scratchpad(), "rack 3");
    assert!(window.show_plot());
    assert!(window.show_scratchpad());
    assert!(window.scanning());
    assert_eq!(window.success(), Some(true));
    assert_eq!(window.history().len(), 1);
    assert!(window.is_open());
    window.close();
    assert!(!window.is_open());
    assert_eq!(window.hostname(), "north");
}

#[test]
fn a_group_keeps_its_index() {
    for index in 0..GROUP_COUNT {
        assert_eq!(Group::new(index).index(), index);
    }
}

#[test]
fn a_monitor_plots_the_runs_of_its_own_history() {
    let mut window = PingWindow::new("a", "b", None);
    window.set_scanning(true);
    let results = [Pong::Failure, ms(10), Pong::Failure, Pong::Failure, ms(20), ms(30)];
    let mut now = 0;
    for outcome in results {
        assert!(window.tick(now));
        window.complete(outcome, now + 1);
        now += CADENCE_NANOS + 2;
    }
    assert_eq!(
        window.history_segments(PLOT_LEN),
        vec![
            vec![(1, Duration::from_millis(10))],
            vec![(4, Duration::from_millis(20)), (5, Duration::from_millis(30))],
        ]
    );
    // a window of three sees only the tail, at positions counted from its start
    assert_eq!(
        window.history_segments(3),
        vec![vec![(1, Duration::from_millis(20)), (2, Duration::from_millis(30))]]
    );
}
