use camera_relay::mdns_discovery::{
    Advertisement, CameraFinder, ScanAction, ScanEvent, SourceState, TimedEvent,
};
use camera_relay::text::{chars_of, contains, find_key, matches_at};

const WINDOW: u64 = 20_000;
const SCAN: u64 = 20_000;

fn ids(names: &[&str]) -> Vec<String> {
    names.iter().map(|s| s.to_string()).collect()
}

fn advert(name: &str, addresses: &[&str]) -> Advertisement {
    Advertisement { fullname: name.to_string(), addresses: ids(addresses) }
}

fn finder() -> CameraFinder {
    CameraFinder::new(ids(&["source_1", "source_2", "source_3", "source_4"]), WINDOW, SCAN)
}

#[test]
fn advertised_source_resolves_until_the_window_elapses() {
    let mut f = finder();
    f.record(&advert("source_2._http._tcp.local.", &["192.168.1.42"]), 1_000);
    assert_eq!(f.resolve("source_2", 1_000), Some("192.168.1.42".to_string()));
    assert_eq!(f.resolve("source_2", 15_000), Some("192.168.1.42".to_string()));
    assert_eq!(f.resolve("source_2", 21_000), Some("192.168.1.42".to_string()));
    assert_eq!(f.resolve("source_2", 21_001), None);
    assert_eq!(f.resolve("source_2", u64::MAX), None);
    assert_eq!(f.resolve("source_1", 1_000), None);
}

#[test]
fn unknown_source_is_absent() {
    let f = finder();
    assert_eq!(f.resolve("source_1", 0), None);
    assert_eq!(f.resolve("", 0), None);
    assert_eq!(f.get_camera_url("source_1", 0), None);
}

#[test]
fn refresh_revives_a_stale_record() {
    let mut f = finder();
    f.record(&advert("source_1._http._tcp.local.", &["10.0.0.5"]), 0);
    assert_eq!(f.resolve("source_1", 30_000), None);
    f.record(&advert("source_1._http._tcp.local.", &["10.0.0.6"]), 30_000);
    assert_eq!(f.resolve("source_1", 30_000), Some("10.0.0.6".to_string()));
    assert_eq!(f.resolve("source_1", 50_000), Some("10.0.0.6".to_string()));
    assert_eq!(f.resolve("source_1", 50_001), None);
}

#[test]
fn older_sighting_updates_the_address_but_not_the_freshness() {
    let mut f = finder();
    f.record(&advert("source_3.local.", &["10.0.0.1"]), 10_000);
    f.record(&advert("source_3.local.", &["10.0.0.2"]), 4_000);
    assert_eq!(f.resolve("source_3", 30_000), Some("10.0.0.2".to_string()));
    assert_eq!(f.resolve("source_3", 30_001), None);
    f.record(&advert("source_3.local.", &["10.0.0.3"]), 10_000);
    assert_eq!(f.resolve("source_3", 30_000), Some("10.0.0.3".to_string()));
    assert_eq!(f.resolve("source_3", 30_001), None);
}

#[test]
fn lookup_before_the_sighting_counts_as_fresh() {
    let mut f = finder();
    f.record(&advert("source_1", &["10.0.0.1"]), 500);
    assert_eq!(f.resolve("source_1", 0), Some("10.0.0.1".to_string()));
}

#[test]
fn first_configured_identifier_wins() {
    let mut f = CameraFinder::new(ids(&["cam", "cam_front", "front"]), WINDOW, SCAN);
    f.record(&advert("cam_front._http._tcp.local.", &["10.1.1.1"]), 0);
    assert_eq!(f.resolve("cam", 0), Some("10.1.1.1".to_string()));
    assert_eq!(f.resolve("cam_front", 0), None);
    assert_eq!(f.resolve("front", 0), None);
    assert_eq!(f.match_name("my_front_door"), Some(2));
    assert_eq!(f.match_name("cam_front"), Some(0));
    assert_eq!(f.match_name("garage"), None);
}

#[test]
fn last_address_of_an_advertisement_is_kept() {
    let mut f = finder();
    f.record(&advert("source_4.local.", &["10.0.0.1", "fe80::1", "10.0.0.9"]), 0);
    assert_eq!(f.resolve("source_4", 0), Some("10.0.0.9".to_string()));
}

#[test]
fn advertisement_without_address_or_match_changes_nothing() {
    let mut f = finder();
    f.record(&advert("source_1.local.", &[]), 0);
    assert_eq!(f.resolve("source_1", 0), None);
    f.record(&advert("printer._http._tcp.local.", &["10.0.0.7"]), 0);
    for id in ["source_1", "source_2", "source_3", "source_4", "printer"] {
        assert_eq!(f.resolve(id, 0), None);
    }
    f.record(&advert("source_1.local.", &["10.0.0.1"]), 0);
    f.record(&advert("source_1.local.", &[]), 9_000);
    assert_eq!(f.resolve("source_1", 20_000), Some("10.0.0.1".to_string()));
    assert_eq!(f.resolve("source_1", 20_001), None);
}

#[test]
fn camera_url_wraps_the_address() {
    let mut f = finder();
    f.record(&advert("source_2._http._tcp.local.", &["192.168.1.42"]), 0);
    assert_eq!(f.get_camera_url("source_2", 10), Some("http://192.168.1.42/stream".to_string()));
    assert_eq!(f.get_camera_url("source_2", 20_001), None);
    assert_eq!(f.get_camera_url("source_3", 10), None);
}

#[test]
fn zero_window_keeps_a_record_for_its_own_tick_only() {
    let mut f = CameraFinder::new(ids(&["cam"]), 0, SCAN);
    f.record(&advert("cam", &["1.2.3.4"]), 77);
    assert_eq!(f.resolve("cam", 77), Some("1.2.3.4".to_string()));
    assert_eq!(f.resolve("cam", 78), None);
}

#[test]
fn scan_step_follows_the_clock_and_the_listener() {
    let mut f = finder();
    let seen = ScanEvent::Resolved(advert("source_1.local.", &["10.0.0.1"]));
    assert_eq!(f.scan_step(100, 200, &ScanEvent::Other), ScanAction::Continue);
    assert_eq!(f.scan_step(100, 200, &seen), ScanAction::Continue);
    assert_eq!(f.resolve("source_1", 200), Some("10.0.0.1".to_string()));
    assert_eq!(f.scan_step(100, 300, &ScanEvent::TransportError), ScanAction::Stop);
    assert_eq!(f.resolve("source_1", 300), Some("10.0.0.1".to_string()));
    let late = ScanEvent::Resolved(advert("source_2.local.", &["10.0.0.2"]));
    assert_eq!(f.scan_step(100, 100 + SCAN - 1, &ScanEvent::Other), ScanAction::Continue);
    assert_eq!(f.scan_step(100, 100 + SCAN, &late), ScanAction::Stop);
    assert_eq!(f.resolve("source_2", 100 + SCAN), None);
    assert_eq!(f.scan_step(500, 100, &late), ScanAction::Continue);
    assert_eq!(f.resolve("source_2", 100), Some("10.0.0.2".to_string()));
}

#[test]
fn scan_cycle_ends_at_the_deadline() {
    let mut f = finder();
    let events = vec![
        TimedEvent { at: 1_000, event: ScanEvent::Resolved(advert("source_1.local.", &["10.0.0.1"])) },
        TimedEvent { at: 2_000, event: ScanEvent::Other },
        TimedEvent { at: 19_999, event: ScanEvent::Resolved(advert("source_2.local.", &["10.0.0.2"])) },
        TimedEvent { at: 20_000, event: ScanEvent::Resolved(advert("source_3.local.", &["10.0.0.3"])) },
        TimedEvent { at: 20_001, event: ScanEvent::Resolved(advert("source_4.local.", &["10.0.0.4"])) },
    ];
    assert_eq!(f.discover_cameras(0, &events), 3);
    assert_eq!(f.resolve("source_1", 20_000), Some("10.0.0.1".to_string()));
    assert_eq!(f.resolve("source_2", 20_000), Some("10.0.0.2".to_string()));
    assert_eq!(f.resolve("source_3", 20_000), None);
    assert_eq!(f.resolve("source_4", 20_001), None);
}

#[test]
fn scan_cycle_ends_at_a_transport_error_and_keeps_what_it_found() {
    let mut f = finder();
    let events = vec![
        TimedEvent { at: 10, event: ScanEvent::Resolved(advert("source_1.local.", &["10.0.0.1"])) },
        TimedEvent { at: 20, event: ScanEvent::TransportError },
        TimedEvent { at: 30, event: ScanEvent::Resolved(advert("source_2.local.", &["10.0.0.2"])) },
    ];
    assert_eq!(f.discover_cameras(0, &events), 1);
    assert_eq!(f.resolve("source_1", 30), Some("10.0.0.1".to_string()));
    assert_eq!(f.resolve("source_2", 30), None);
    assert_eq!(f.discover_cameras(100, &Vec::new()), 0);
    assert_eq!(f.resolve("source_1", 100), Some("10.0.0.1".to_string()));
}

#[test]
fn scan_cycle_runs_through_all_events_in_time() {
    let mut f = finder();
    let events = vec![
        TimedEvent { at: 5, event: ScanEvent::Resolved(advert("source_1.local.", &["10.0.0.1"])) },
        TimedEvent { at: 6, event: ScanEvent::Resolved(advert("source_1.local.", &["10.0.0.2"])) },
    ];
    assert_eq!(f.discover_cameras(5, &events), 2);
    assert_eq!(f.resolve("source_1", 6), Some("10.0.0.2".to_string()));
    assert_eq!(f.resolve("source_1", 6 + WINDOW), Some("10.0.0.2".to_string()));
    assert_eq!(f.resolve("source_1", 7 + WINDOW), None);
}

#[test]
fn substring_search() {
    assert!(contains("source_2._http._tcp.local.", "source_2"));
    assert!(contains("source_2._http._tcp.local.", "local."));
    assert!(contains("source_2._http._tcp.local.", "._http."));
    assert!(!contains("source_2._http._tcp.local.", "source_1"));
    assert!(!contains("abc", "abcd"));
    assert!(contains("abc", ""));
    assert!(contains("", ""));
    assert!(!contains("", "a"));
    assert!(contains("aab", "ab"));
    assert!(!contains("abab", "bb"));
    assert!(contains("caméra_1.local", "méra"));
    assert!(!contains("camera", "é"));
}

#[test]
fn characters_and_positions() {
    assert_eq!(chars_of("héllo"), vec!['h', 'é', 'l', 'l', 'o']);
    assert_eq!(chars_of(""), Vec::<char>::new());
    let hay = chars_of("abcabd");
    let needle = chars_of("abd");
    assert!(!matches_at(&hay, &needle, 0));
    assert!(matches_at(&hay, &needle, 3));
    assert!(matches_at(&hay, &Vec::new(), 6));
    let keys = ids(&["a", "b", "c"]);
    assert_eq!(find_key(&keys, "b"), Some(1));
    assert_eq!(find_key(&keys, "d"), None);
    assert_eq!(find_key(&Vec::new(), "a"), None);
}

#[test]
fn source_goes_from_unknown_to_resolved_to_stale_and_back() {
    let mut f = finder();
    assert_eq!(f.state("source_1", 0), SourceState::Unknown);
    f.record(&advert("source_1.local.", &["10.0.0.1"]), 1_000);
    assert_eq!(f.state("source_1", 1_000), SourceState::Resolved);
    assert_eq!(f.state("source_1", 21_000), SourceState::Resolved);
    assert_eq!(f.state("source_1", 21_001), SourceState::Stale);
    assert_eq!(f.state("source_2", 21_001), SourceState::Unknown);
    f.record(&advert("source_1.local.", &["10.0.0.1"]), 40_000);
    assert_eq!(f.state("source_1", 40_000), SourceState::Resolved);
}

#[test]
fn time_left_counts_down_to_zero() {
    let f = finder();
    assert_eq!(f.time_left(1_000, 1_000), 20_000);
    assert_eq!(f.time_left(1_000, 6_000), 15_000);
    assert_eq!(f.time_left(1_000, 20_999), 1);
    assert_eq!(f.time_left(1_000, 21_000), 0);
    assert_eq!(f.time_left(1_000, u64::MAX), 0);
    assert_eq!(f.time_left(1_000, 10), 20_000);
}
