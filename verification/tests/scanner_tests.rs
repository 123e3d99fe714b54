use luxo_core::scanner::ConnectorProbe;
use luxo_core::scanner::ConnectorScanner;
use luxo_core::scanner::ScanEvent;

fn probe(connector: u32, connected: bool, crtc: Option<u32>) -> ConnectorProbe {
    ConnectorProbe { connector, connected, crtc }
}

#[test]
fn first_scan_emits_one_connected_per_bound_connector() {
    let mut scanner = ConnectorScanner::new();
    let events = scanner.scan(&vec![
        probe(1, true, Some(100)),
        probe(2, true, None),
        probe(3, false, Some(101)),
    ]);
    // Connectors without an assigned CRTC, and disconnected ones, are ignored.
    assert_eq!(events, vec![ScanEvent::Connected { connector: 1, crtc: 100 }]);
}

#[test]
fn identical_scan_twice_emits_nothing_the_second_time() {
    let mut scanner = ConnectorScanner::new();
    let probes = vec![probe(1, true, Some(100)), probe(2, true, Some(101))];
    let first = scanner.scan(&probes);
    assert_eq!(first.len(), 2);
    let second = scanner.scan(&probes);
    assert_eq!(second.len(), 0);
}

#[test]
fn unplug_emits_disconnected() {
    let mut scanner = ConnectorScanner::new();
    scanner.scan(&vec![probe(1, true, Some(100))]);
    let events = scanner.scan(&vec![probe(1, false, None)]);
    assert_eq!(events, vec![ScanEvent::Disconnected { connector: 1, crtc: 100 }]);
}

#[test]
fn crtc_rewire_emits_disconnect_then_connect() {
    let mut scanner = ConnectorScanner::new();
    scanner.scan(&vec![probe(1, true, Some(100))]);
    let events = scanner.scan(&vec![probe(1, true, Some(101))]);
    assert_eq!(
        events,
        vec![
            ScanEvent::Disconnected { connector: 1, crtc: 100 },
            ScanEvent::Connected { connector: 1, crtc: 101 },
        ]
    );
}

#[test]
fn current_pairs_reports_the_record() {
    let mut scanner = ConnectorScanner::new();
    scanner.scan(&vec![probe(7, true, Some(70))]);
    let pairs = scanner.current_pairs();
    assert_eq!(pairs.len(), 1);
    assert_eq!(pairs[0].connector, 7);
    assert_eq!(pairs[0].crtc, 70);
}
