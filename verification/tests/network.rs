use ylong::sysinfo::error::{Error, InnerError};
use ylong::sysinfo::network::{
    interface_names, mac_string, parse_counter, Address, FlowTexts, IfAddrEntry, Network,
    NetworksInfo, State,
};

fn flow(rx_bytes: &str, tx_bytes: &str, rx_packets: &str, tx_packets: &str) -> FlowTexts {
    FlowTexts {
        rx_bytes: rx_bytes.to_string(),
        tx_bytes: tx_bytes.to_string(),
        rx_packets: rx_packets.to_string(),
        tx_packets: tx_packets.to_string(),
    }
}

fn entry(name: &str, flags: i32, addr: Address) -> IfAddrEntry {
    IfAddrEntry {
        name: name.to_string(),
        flags,
        addr,
    }
}

fn sample_entries() -> Vec<IfAddrEntry> {
    vec![
        entry("lo", 0x49, Address::V4("127.0.0.1".to_string())),
        entry("eth0", 4099, Address::Packet(vec![0x02, 0x42, 0xac, 0x11, 0x00, 0x02])),
        entry("eth0", 4099, Address::V4("172.17.0.2".to_string())),
        entry("lo", 0x49, Address::V6("::1".to_string())),
        entry("eth0", 4163, Address::Other),
    ]
}

fn ut_networks_info_new() {
    let entries = sample_entries();
    let flows = vec![flow("10\n", "20\n", "1\n", "2\n"), flow("300\n", "400\n", "3\n", "4\n")];
    let networks_info = NetworksInfo::new(&entries, &flows);
    assert!(networks_info.is_ok());

    let broken = vec![flow("10\n", "20\n", "1\n", "2\n"), flow("x\n", "400\n", "3\n", "4\n")];
    let networks_info = NetworksInfo::new(&entries, &broken);
    assert!(networks_info.is_err());
}

fn ut_networks_info_iter() {
    let entries = sample_entries();
    let flows = vec![flow("10", "20", "1", "2"), flow("300", "400", "3", "4")];
    let networks_info = NetworksInfo::new(&entries, &flows).unwrap();
    for network in networks_info.iter() {
        assert_eq!(networks_info.get(network.name()).unwrap().name(), network.name());
    }
}

fn ut_networks_info_iter_mut() {
    let entries = sample_entries();
    let flows = vec![flow("10", "20", "1", "2"), flow("300", "400", "3", "4")];
    let mut networks_info = NetworksInfo::new(&entries, &flows).unwrap();
    let names: Vec<String> = networks_info.iter().iter().map(|n| n.name().to_string()).collect();
    for (network, name) in networks_info.iter_mut().iter_mut().zip(names.iter()) {
        assert_eq!(network.name(), name);
    }
}

fn ut_state() {
    let state = State::new(4099);
    assert!(state.is_up());
    assert!(state.is_broadcast());
    assert!(state.is_multicast());
    assert!(!state.is_debug());
    assert!(!state.is_loopback());
    assert!(!state.is_point_to_point());
    assert!(!state.is_no_trailers());
    assert!(!state.is_running());
    assert!(!state.is_no_arp());
    assert!(!state.is_promisc());
    assert!(!state.is_all_multi());
    assert!(!state.is_master());
    assert!(!state.is_slave());
    assert!(!state.is_port_sel());
    assert!(!state.is_auto_media());
    assert!(!state.is_dynamic());
}

#[test]
fn ut_networks_test() {
    ut_networks_info_new();
    ut_networks_info_iter();
    ut_networks_info_iter_mut();
    ut_state();
}

#[test]
fn network_counters_are_read_from_text() {
    assert_eq!(parse_counter("12345\n").unwrap(), 12345);
    assert_eq!(parse_counter("0").unwrap(), 0);
    assert_eq!(parse_counter("18446744073709551615").unwrap(), u64::MAX);
    assert!(matches!(
        parse_counter("18446744073709551616"),
        Err(Error::Internal(InnerError::ParseIntError))
    ));
    assert!(matches!(
        parse_counter("12a"),
        Err(Error::Internal(InnerError::ParseIntError))
    ));
    assert!(parse_counter("").is_err());
}

#[test]
fn network_mac_text() {
    assert_eq!(
        mac_string(&[0x02, 0x42, 0xac, 0x11, 0x00, 0x02]),
        "02:42:ac:11:00:02"
    );
    assert_eq!(mac_string(&[255, 0, 1, 2, 3, 4, 99]), "ff:00:01:02:03:04");
}

#[test]
fn network_interfaces_from_entries() {
    let entries = sample_entries();
    let names = interface_names(&entries);
    assert_eq!(names, vec!["lo".to_string(), "eth0".to_string()]);
    let flows = vec![flow("10", "20", "1", "2"), flow("300", "400", "3", "4")];
    let info = NetworksInfo::new(&entries, &flows).unwrap();
    assert_eq!(info.iter().len(), 2);
    let lo = info.get("lo").unwrap();
    assert_eq!(lo.ipv4(), "127.0.0.1");
    assert_eq!(lo.ipv6(), "::1");
    assert!(lo.is_loopback());
    assert!(lo.is_running());
    assert_eq!(lo.rx_bytes(), 10);
    assert_eq!(lo.tx_packets(), 2);
    let eth = info.get("eth0").unwrap();
    assert_eq!(eth.mac(), "02:42:ac:11:00:02");
    assert_eq!(eth.ipv4(), "172.17.0.2");
    assert_eq!(eth.ipv6(), "");
    assert!(eth.is_running());
    assert_eq!(eth.rx_bytes(), 300);
    assert_eq!(eth.tx_bytes(), 400);
    assert_eq!(eth.rx_packets(), 3);
    assert_eq!(eth.tx_packets(), 4);
    assert!(info.get("wlan0").is_none());
}

#[test]
fn network_update_keeps_counters_on_bad_text() {
    let mut n = Network::new("eth1".to_string());
    assert!(n.update_flow(&flow("5", "6", "7", "8")).is_ok());
    assert_eq!(n.rx_bytes(), 5);
    assert!(n.update_flow(&flow("5", "x", "7", "8")).is_err());
    assert_eq!(n.tx_bytes(), 6);
    assert_eq!(n.name(), "eth1");
    assert!(!n.is_up());
}
