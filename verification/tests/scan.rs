use scanny::plan::{MAX_PORT, PORT_COUNT};
use scanny::probe::{Attempt, PROBE_TIMEOUT_SECS};
use scanny::scanner::Scanner;

/// Stands in for the network: one host that answers at its own address, on
/// the ports that listen there. Any other address is out of reach.
struct Host {
    address: String,
    listening: Vec<u16>,
}

impl Host {
    fn local(listening: &[u16]) -> Host {
        Host { address: "127.0.0.1".to_string(), listening: listening.to_vec() }
    }

    fn attempt(&self, address: &str, port: u16) -> Attempt {
        if address != self.address {
            Attempt::Elapsed
        } else if self.listening.contains(&port) {
            Attempt::Connected
        } else {
            Attempt::Failed
        }
    }

    fn attempts(&self, address: &str) -> Vec<Attempt> {
        Scanner::targets().into_iter().map(|port| self.attempt(address, port)).collect()
    }

    fn scan(&self, address: String) -> Vec<u16> {
        Scanner::scan(&self.attempts(&address))
    }
}

#[test]
fn test_scan_open_port() {
    let host = Host::local(&[3000]);
    let ip = "127.0.0.1".to_string();
    let ports = host.scan(ip);
    assert!(ports.contains(&3000));
}

#[test]
fn test_scan_closed_port() {
    let host = Host::local(&[]);
    let ip = "127.0.0.1".to_string();
    let ports = host.scan(ip);
    assert!(!ports.contains(&3001));
}

#[test]
fn closed_port_beside_an_open_one_is_left_out() {
    let host = Host::local(&[3000]);
    let ports = host.scan("127.0.0.1".to_string());
    assert_eq!(ports, vec![3000]);
    assert!(!ports.contains(&3001));
}

#[test]
fn plan_holds_every_port_once() {
    let ports = Scanner::targets();
    assert_eq!(ports.len(), 65536);
    assert_eq!(ports.len(), PORT_COUNT);
    for (place, port) in ports.iter().enumerate() {
        assert_eq!(usize::from(*port), place);
    }
    assert_eq!(ports[0], 0);
    assert_eq!(ports[65535], MAX_PORT);
    assert_eq!(MAX_PORT, 65535);
}

#[test]
fn only_an_established_connection_counts_as_open() {
    assert!(Scanner::check_port(Attempt::Connected));
    assert!(!Scanner::check_port(Attempt::Failed));
    assert!(!Scanner::check_port(Attempt::Elapsed));
    assert!(!Scanner::check_port(Attempt::Aborted));
}

#[test]
fn report_hands_in_the_port_only_when_open() {
    assert_eq!(Scanner::report(3000, Attempt::Connected), Some(3000));
    assert_eq!(Scanner::report(0, Attempt::Connected), Some(0));
    assert_eq!(Scanner::report(65535, Attempt::Connected), Some(65535));
    assert_eq!(Scanner::report(3001, Attempt::Failed), None);
    assert_eq!(Scanner::report(3001, Attempt::Elapsed), None);
    assert_eq!(Scanner::report(3001, Attempt::Aborted), None);
}

#[test]
fn collect_keeps_what_was_handed_in_and_its_order() {
    let reports: Vec<Option<u16>> = vec![Some(443), None, Some(22), None, None, Some(443)];
    assert_eq!(Scanner::collect(&reports), vec![443, 22, 443]);
}

#[test]
fn collect_of_nothing_is_empty() {
    assert_eq!(Scanner::collect(&Vec::new()), Vec::<u16>::new());
    assert_eq!(Scanner::collect(&vec![None, None, None]), Vec::<u16>::new());
}

#[test]
fn scan_lists_open_ports_in_rising_order() {
    let host = Host::local(&[8080, 22, 65535, 0, 443]);
    let ports = host.scan("127.0.0.1".to_string());
    assert_eq!(ports, vec![0, 22, 443, 8080, 65535]);
}

#[test]
fn scan_lists_each_open_port_once() {
    let host = Host::local(&[80, 80, 3000, 80]);
    let ports = host.scan("127.0.0.1".to_string());
    assert_eq!(ports, vec![80, 3000]);
    for i in 1..ports.len() {
        assert!(ports[i - 1] < ports[i]);
    }
}

#[test]
fn scan_of_a_host_with_every_port_open_lists_them_all() {
    let attempts: Vec<Attempt> = vec![Attempt::Connected; PORT_COUNT];
    let ports = Scanner::scan(&attempts);
    assert_eq!(ports, Scanner::targets());
}

#[test]
fn scan_of_an_unreachable_address_is_empty() {
    let host = Host::local(&[22, 3000]);
    let ports = host.scan("10.255.255.1".to_string());
    assert!(ports.is_empty());
}

#[test]
fn scan_of_a_host_with_no_open_port_is_empty() {
    let host = Host::local(&[]);
    assert!(host.scan("127.0.0.1".to_string()).is_empty());
    assert!(Scanner::scan(&vec![Attempt::Aborted; PORT_COUNT]).is_empty());
}

#[test]
fn repeated_scans_agree() {
    let host = Host::local(&[22, 3000, 49152]);
    let first = host.scan("127.0.0.1".to_string());
    let second = host.scan("127.0.0.1".to_string());
    assert_eq!(first, second);
    assert_eq!(first, vec![22, 3000, 49152]);
}

#[test]
fn cause_of_a_failure_does_not_change_the_list() {
    let host = Host::local(&[22, 3000]);
    let refused = host.attempts("127.0.0.1");
    let mut mixed = refused.clone();
    mixed[21] = Attempt::Elapsed;
    mixed[23] = Attempt::Aborted;
    mixed[3001] = Attempt::Elapsed;
    assert_ne!(refused, mixed);
    assert_eq!(Scanner::scan(&refused), Scanner::scan(&mixed));
    assert_eq!(Scanner::scan(&mixed), vec![22, 3000]);
}

#[test]
fn scan_is_the_merge_of_the_reports() {
    let host = Host::local(&[1, 1024, 3000]);
    let attempts = host.attempts("127.0.0.1");
    let reports: Vec<Option<u16>> = Scanner::targets()
        .into_iter()
        .zip(attempts.iter())
        .map(|(port, attempt)| Scanner::report(port, *attempt))
        .collect();
    assert_eq!(Scanner::collect(&reports), Scanner::scan(&attempts));
}

#[test]
fn one_attempt_may_take_one_second() {
    assert_eq!(PROBE_TIMEOUT_SECS, 1);
}
