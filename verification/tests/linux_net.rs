use iris::adapter_map::{address_of, Adapter, AdapterMap};
use iris::assoc::Assoc;
use iris::dns::DnsMap;
use iris::error::EngineError;
use iris::ip::IpAddr;
use iris::linux::account::{
    account_closed_tcp, account_tcp, account_udp, byte_delta, record_recent_flow, tcp_owner_map,
    Baseline, Charge, ClosedTcp, FlowKey, FlowOwner, NetworkEvent, PollData, TcpOwner, UdpKey,
};
use iris::linux::adapters::{classify, enumerate, is_vpn_name, InterfaceAddress, InterfaceFacts};
use iris::linux::conn::{by_pid, kill_connection, Kill};
use iris::linux::ct::{build_delete, build_dump, parse_dump as parse_flows, Flow};
use iris::linux::dns_packet::{build_dns_filter, parse_dns_message, parse_dns_packet};
use iris::linux::egress::{cgroup_for, create_cgroup, resolver_rules, Cgroup, PluginNet};
use iris::linux::events::{Action, EventLoop, Received, Stage, IDLE_MS, POLL_MS};
use iris::linux::fw::{
    decide, local_endpoint, PacketDecision, PendingConnection, RuleMap, Verdict, HOLD_MS,
};
use iris::linux::monitor::{active_sockets, Accounting};
use iris::linux::netlink::{for_each_attr, push_attr, recv_dump, DumpEnd};
use iris::linux::packet::parse_tuple;
use iris::linux::sockets::{
    build_request, dump_requests, is_established, parse_msg, tcp_states, SockInfo, STATES_ALL,
    TCP_LISTEN,
};
use iris::linux::spawn::{child_env, exit_code, hex_token, plugin_ids, resource_limits};
use iris::linux::trace::{drain, opened, parse_sample, perf_attr, tracepoint_id, valid_ring, Fields};
use iris::linux::verdict::{install_table, PacketQueue, Resolver, Search, Wfp};
use iris::model::{AdapterKind, AppId, Direction, Endpoint, Protocol};
use iris::rule::RuleAction;

fn v4(a: u8, b: u8, c: u8, d: u8) -> IpAddr {
    IpAddr::from_v4(&[a, b, c, d])
}

fn v6(bytes: [u8; 16]) -> IpAddr {
    IpAddr::from_v6(&bytes)
}

fn facts() -> InterfaceFacts {
    InterfaceFacts { wireless: false, phy80211: false, tun_flags: false, hardware: None }
}

#[test]
fn vpn_names_match_tunnel_drivers() {
    assert!(is_vpn_name("tun0"));
    assert!(is_vpn_name("wg0"));
    assert!(is_vpn_name("tailscale0"));
    assert!(is_vpn_name("ppp0"));
    assert!(!is_vpn_name("eth0"));
    assert!(!is_vpn_name("enp3s0"));
    assert!(!is_vpn_name("wlan0"));
}

#[test]
fn tunnel_names_ignore_case() {
    assert!(is_vpn_name("WG0"));
    assert!(is_vpn_name("TailScale0"));
}

#[test]
fn adapters_loopback_short_circuits_and_the_table_populates() {
    let map = AdapterMap::new(&vec![(v4(192, 0, 2, 7), AdapterKind::Wifi)], 5_000);
    let lo = IpAddr::parse("127.0.0.1").unwrap();
    let remote = IpAddr::parse("203.0.113.9").unwrap();
    assert_eq!(map.kind_for(lo, remote, 5_000), Adapter::Known(AdapterKind::Loopback));
    assert_eq!(map.kind_for(v4(192, 0, 2, 7), remote, 5_000), Adapter::Known(AdapterKind::Wifi));
    // the other end is tried where the expected one is unknown
    assert_eq!(map.kind_for(remote, v4(192, 0, 2, 7), 5_000), Adapter::Known(AdapterKind::Wifi));
}

#[test]
fn unknown_addresses_cause_a_listing_at_most_every_two_seconds() {
    let mut map = AdapterMap::new(&vec![], 5_000);
    let here = v4(192, 0, 2, 7);
    let there = v4(203, 0, 113, 9);
    assert_eq!(map.kind_for(here, there, 6_999), Adapter::Known(AdapterKind::Other));
    assert_eq!(map.kind_for(here, there, 7_000), Adapter::ListAgain);
    map.refresh(&vec![(here, AdapterKind::Ethernet), (here, AdapterKind::Vpn)], 7_000);
    assert_eq!(map.settled_kind(here, there), AdapterKind::Vpn);
    assert_eq!(map.settled_kind(there, there), AdapterKind::Other);
}

#[test]
fn interfaces_are_classified_by_what_the_system_says() {
    assert_eq!(classify("lo", &facts()), AdapterKind::Loopback);
    assert_eq!(classify("wlan0", &InterfaceFacts { wireless: true, ..facts() }), AdapterKind::Wifi);
    assert_eq!(classify("abc0", &InterfaceFacts { tun_flags: true, ..facts() }), AdapterKind::Vpn);
    let ether = InterfaceFacts { hardware: Some("1\n".to_string()), ..facts() };
    assert_eq!(classify("eth0", &ether), AdapterKind::Ethernet);
    assert_eq!(classify("wg0", &ether), AdapterKind::Vpn);
}

#[test]
fn socket_addresses_are_read() {
    let short = [2u8, 0, 0, 80, 192, 0, 2, 9];
    assert_eq!(address_of(&short, 10), Some(v4(192, 0, 2, 9)));
    let mut long = vec![10u8, 0, 0, 80, 0, 0, 0, 0];
    long.extend_from_slice(&[0x20, 1, 0xd, 0xb8, 0, 0, 0, 0, 0, 0, 0, 0, 0, 0, 0, 1]);
    let six = v6([0x20, 1, 0xd, 0xb8, 0, 0, 0, 0, 0, 0, 0, 0, 0, 0, 0, 1]);
    assert_eq!(address_of(&long, 10), Some(six));
    assert_eq!(address_of(&long, 23), None);
    assert_eq!(address_of(&[2], 10), None);
    let list = vec![
        InterfaceAddress { kind: AdapterKind::Wifi, address: short.to_vec() },
        InterfaceAddress { kind: AdapterKind::Vpn, address: vec![17, 0] },
        InterfaceAddress { kind: AdapterKind::Ethernet, address: long },
    ];
    assert_eq!(
        enumerate(&list),
        vec![(v4(192, 0, 2, 9), AdapterKind::Wifi), (six, AdapterKind::Ethernet)]
    );
}

fn cgroup(path: &str, nft: &str, level: usize) -> Cgroup {
    Cgroup { path: path.to_string(), nft_path: nft.to_string(), level }
}

#[test]
fn empty_policy_has_no_loopback_escape() {
    let net = PluginNet::open(997);
    let rules = net.chain_rules(None);
    assert!(!rules.contains("oif"));
    assert!(rules.contains("meta skuid 997 drop"));
}

#[test]
fn granted_endpoint_is_exact() {
    let mut net = PluginNet::open(997);
    let group = cgroup(
        "/sys/fs/cgroup/system.slice/iris.service/iris-plugins/a",
        "system.slice/iris.service/iris-plugins/a",
        4,
    );
    net.begin_pin("/plugin", vec![(v4(192, 0, 2, 4), 443)], false, group).unwrap();
    let rules = net.chain_rules(None);
    assert!(rules.contains("socket cgroupv2 level 4 \"system.slice/iris.service/iris-plugins/a\""));
    assert!(rules.contains("ip daddr 192.0.2.4 th dport 443 accept"));
    assert!(!rules.contains("dport 53"));
}

#[test]
fn grants_stay_scoped_to_their_plugin() {
    let mut net = PluginNet::open(997);
    for (name, end) in [("a", (v4(192, 0, 2, 4), 443)), ("b", (v4(198, 51, 100, 8), 8443))] {
        let group = cgroup(
            &format!("/sys/fs/cgroup/iris-plugins/{name}"),
            &format!("iris-plugins/{name}"),
            2,
        );
        net.begin_pin(&format!("/plugin-{name}"), vec![end], false, group).unwrap();
    }
    let rules = net.chain_rules(None);
    assert!(rules.contains(
        "socket cgroupv2 level 2 \"iris-plugins/a\" ip daddr 192.0.2.4 th dport 443 accept"
    ));
    assert!(rules.contains(
        "socket cgroupv2 level 2 \"iris-plugins/b\" ip daddr 198.51.100.8 th dport 8443 accept"
    ));
    assert!(!rules.contains("socket cgroupv2 level 2 \"iris-plugins/a\" ip daddr 198.51.100.8"));
    assert!(!rules.contains("socket cgroupv2 level 2 \"iris-plugins/b\" ip daddr 192.0.2.4"));
}

#[test]
fn a_failed_pin_leaves_the_old_grant() {
    let mut net = PluginNet::open(997);
    let group = || cgroup("/sys/fs/cgroup/p/a", "p/a", 2);
    let begun = net.begin_pin("/plugin", vec![(v4(192, 0, 2, 4), 443)], false, group()).unwrap();
    assert!(net.finish_pin("/plugin", begun, Ok(())).is_ok());
    let before = net.chain_rules(None);
    let begun = net.begin_pin("/plugin", vec![(v4(192, 0, 2, 5), 80)], true, group()).unwrap();
    assert_ne!(net.chain_rules(None), before);
    let failed = net.finish_pin("/plugin", begun, Err(EngineError::Os("nft".to_string())));
    assert!(matches!(failed, Err(EngineError::Os(_))));
    assert_eq!(net.chain_rules(None), before);
    // another plugin cannot share the group
    assert!(net.begin_pin("/other", vec![], false, group()).is_err());
    assert_eq!(net.chain_rules(None), before);
}

#[test]
fn name_servers_are_permitted_where_names_are_looked_up() {
    let text = "# resolvers\nnameserver 192.0.2.53\nsearch example.com\n";
    let rules = resolver_rules(text, "scope");
    assert!(rules.contains("192.0.2.53"));
    assert!(rules.contains("dport 53"));
    assert_eq!(resolver_rules("search example.com\n", "scope"), "");
}

#[test]
fn control_groups_are_named_after_the_plugin() {
    let path = cgroup_for("0::/system.slice/iris.service\n", 0xabc).unwrap();
    assert!(path.ends_with("0000000000000abc"));
    assert!(path.starts_with("/sys/fs/cgroup/system.slice/iris.service/"));
    assert!(cgroup_for("1:name=systemd:/x\n", 1).is_err());
    let group = create_cgroup("/sys/fs/cgroup/a/b").unwrap();
    assert_eq!((group.nft_path.as_str(), group.level), ("a/b", 2));
    assert!(create_cgroup("/elsewhere").is_err());
}

#[test]
fn parses_ports_after_an_ipv6_extension_header() {
    let mut packet = vec![0u8; 52];
    packet[0] = 0x60;
    packet[6] = 0;
    packet[40] = 6;
    packet[41] = 0;
    packet[48..50].copy_from_slice(&1234u16.to_be_bytes());
    packet[50..52].copy_from_slice(&443u16.to_be_bytes());
    let tuple = parse_tuple(&packet).unwrap();
    assert_eq!((tuple.source_port, tuple.destination_port), (1234, 443));
    assert_eq!(tuple.protocol, Protocol::Tcp);
}

#[test]
fn rejects_noninitial_ipv4_fragments() {
    let mut packet = vec![0u8; 24];
    packet[0] = 0x45;
    packet[6..8].copy_from_slice(&1u16.to_be_bytes());
    packet[9] = 6;
    assert!(parse_tuple(&packet).is_none());
}

/// A packet from 192.0.2.2 port 40000 to 198.51.100.4 port 443.
fn tcp_packet() -> Vec<u8> {
    let mut packet = vec![0u8; 40];
    packet[0] = 0x45;
    packet[9] = 6;
    packet[12..16].copy_from_slice(&[192, 0, 2, 2]);
    packet[16..20].copy_from_slice(&[198, 51, 100, 4]);
    packet[20..22].copy_from_slice(&40000u16.to_be_bytes());
    packet[22..24].copy_from_slice(&443u16.to_be_bytes());
    packet
}

#[test]
fn packets_name_their_local_end() {
    let packet = tcp_packet();
    assert_eq!(local_endpoint(&packet, Direction::Outbound), Some((v4(192, 0, 2, 2), 40000)));
    assert_eq!(local_endpoint(&packet, Direction::Inbound), Some((v4(198, 51, 100, 4), 443)));
    assert_eq!(local_endpoint(&[], Direction::Outbound), None);
}

#[test]
fn a_rule_decides_and_removing_it_asks_again() {
    let mut rules = RuleMap::new();
    let app = || Some("/usr/bin/browser".to_string());
    let packet = tcp_packet();
    let pending = decide(&packet, Direction::Outbound, &rules, app());
    assert!(matches!(pending, PacketDecision::Pending(ref p) if p.remote.port == 443));
    rules.insert(7, "/usr/bin/browser".to_string(), Direction::Outbound, RuleAction::Block);
    assert_eq!(
        decide(&packet, Direction::Outbound, &rules, app()),
        PacketDecision::Verdict(Verdict::Drop)
    );
    rules.trust(&vec!["/usr/bin/browser".to_string()]);
    assert_eq!(
        decide(&packet, Direction::Outbound, &rules, app()),
        PacketDecision::Verdict(Verdict::Drop)
    );
    rules.remove_id(7);
    assert_eq!(
        decide(&packet, Direction::Outbound, &rules, app()),
        PacketDecision::Verdict(Verdict::Accept)
    );
    rules.forget("/usr/bin/browser");
    assert!(matches!(
        decide(&packet, Direction::Outbound, &rules, app()),
        PacketDecision::Pending(_)
    ));
}

#[test]
fn removing_a_rule_leaves_the_others_in_force() {
    let app = "/opt/a".to_string();
    let mut rules = RuleMap::new();
    rules.insert(1, app.clone(), Direction::Outbound, RuleAction::Block);
    rules.insert(2, app.clone(), Direction::Outbound, RuleAction::Allow);
    rules.insert(3, app.clone(), Direction::Inbound, RuleAction::Allow);
    assert_eq!(rules.lookup(Direction::Outbound, &app), Some(RuleAction::Allow));
    rules.remove_id(2);
    assert_eq!(rules.lookup(Direction::Outbound, &app), Some(RuleAction::Block));
    assert_eq!(rules.lookup(Direction::Inbound, &app), Some(RuleAction::Allow));
    rules.insert(4, app.clone(), Direction::Outbound, RuleAction::Allow);
    rules.remove_id(1);
    assert_eq!(rules.lookup(Direction::Outbound, &app), Some(RuleAction::Allow));
    rules.remove_id(4);
    assert_eq!(rules.lookup(Direction::Outbound, &app), None);

    let mut wfp = Wfp::open();
    let begun = wfp.begin_apply(2, "/opt/a", Direction::Outbound, RuleAction::Block).unwrap();
    wfp.finish_apply(begun, 2, Ok(())).unwrap();
    let begun = wfp.begin_apply(2, "/opt/a", Direction::Outbound, RuleAction::Allow).unwrap();
    assert!(wfp.finish_apply(begun, 1, Ok(())).is_err());
    assert_eq!(wfp.rule_map().lookup(Direction::Outbound, &app), Some(RuleAction::Block));
}

#[test]
fn a_failed_reset_leaves_the_hook_to_be_installed() {
    let mut wfp = Wfp::open();
    assert!(wfp.reset(Ok(())).is_ok());
    assert_eq!(wfp.remove(2, &vec![]), Ok(false));
    assert!(wfp.reset(Err(EngineError::Os("nft".to_string()))).is_err());
    assert_eq!(wfp.remove(2, &vec![]), Ok(true));
    assert!(wfp.finish_remove(2, Err(EngineError::Os("nft".to_string()))).is_err());
    assert_eq!(wfp.remove(2, &vec![]), Ok(true));
    assert!(wfp.finish_remove(2, Ok(())).is_ok());
    assert_eq!(wfp.remove(2, &vec![]), Ok(false));
}

#[test]
fn removing_rules_fails_where_a_worker_went_away_meanwhile() {
    let app = "/opt/a".to_string();
    let mut wfp = Wfp::open();
    let begun = wfp.begin_apply(2, "/opt/a", Direction::Outbound, RuleAction::Block).unwrap();
    let ids = wfp.finish_apply(begun, 2, Ok(())).unwrap();
    assert!(wfp.remove(1, &ids).is_err());
    assert_eq!(wfp.rule_map().lookup(Direction::Outbound, &app), Some(RuleAction::Block));
    assert_eq!(wfp.remove(2, &ids), Ok(false));
    assert!(matches!(
        wfp.finish_remove(1, Ok(())),
        Err(EngineError::Os(m)) if m == "firewall verdict worker is unavailable"
    ));
    assert_eq!(wfp.rule_map().lookup(Direction::Outbound, &app), None);
}

#[test]
fn sockets_past_opening_have_a_peer() {
    for state in [1, 4, 5, 6, 8, 9, 11] {
        assert!(is_established(state), "{state}");
    }
    for state in [2, 3, 7, 10, 12] {
        assert!(!is_established(state), "{state}");
    }
}

fn pending(path: &str) -> PacketDecision {
    PacketDecision::Pending(PendingConnection {
        app: AppId(path.to_string()),
        remote: Endpoint { addr: v4(198, 51, 100, 4), port: 443, protocol: Protocol::Tcp },
        direction: Direction::Outbound,
    })
}

#[test]
fn held_packets_wait_for_a_rule_or_their_time() {
    let mut queue = PacketQueue::new();
    let mut rules = RuleMap::new();
    let first = queue.on_packet(1, pending("/a"), 0);
    assert!(first.verdict.is_none() && first.report.is_some());
    // a second packet of the same program is held without another report
    let second = queue.on_packet(2, pending("/a"), 10);
    assert!(second.verdict.is_none() && second.report.is_none());
    let third = queue.on_packet(3, pending("/b"), 20);
    assert!(third.report.is_some());
    assert_eq!(queue.review(&rules, Direction::Outbound, 30), vec![]);
    rules.insert(1, "/a".to_string(), Direction::Outbound, RuleAction::Allow);
    assert_eq!(
        queue.review(&rules, Direction::Outbound, 40),
        vec![(1, Verdict::Accept), (2, Verdict::Accept)]
    );
    assert_eq!(
        queue.review(&rules, Direction::Outbound, 20 + HOLD_MS),
        vec![(3, Verdict::Drop)]
    );
    assert_eq!(queue.close(), Vec::<u64>::new());
}

#[test]
fn rules_are_enforced_only_while_every_worker_is_ready() {
    let mut wfp = Wfp::open();
    assert!(wfp.begin_apply(1, "/a", Direction::Outbound, RuleAction::Block).is_err());
    let begun = wfp.begin_apply(2, "/a", Direction::Outbound, RuleAction::Block).unwrap();
    assert!(begun.install);
    let failed = wfp.finish_apply(begun, 2, Err(EngineError::Os("nft".to_string())));
    assert!(failed.is_err());
    assert_eq!(wfp.rule_map().lookup(Direction::Outbound, &"/a".to_string()), None);
    let begun = wfp.begin_apply(2, "/a", Direction::Outbound, RuleAction::Block).unwrap();
    let ids = wfp.finish_apply(begun, 2, Ok(())).unwrap();
    assert_eq!(
        wfp.rule_map().lookup(Direction::Outbound, &"/a".to_string()),
        Some(RuleAction::Block)
    );
    assert!(wfp.remove(2, &ids).is_ok());
    assert_eq!(wfp.rule_map().lookup(Direction::Outbound, &"/a".to_string()), None);
    assert!(install_table().contains("queue"));
}

fn socket() -> SockInfo {
    SockInfo {
        protocol: Protocol::Tcp,
        state: 7,
        local: (v4(192, 0, 2, 2), 40000),
        remote: (v4(198, 51, 100, 4), 443),
        uid: 1000,
        inode: 0,
        cookie: 9,
        bytes: Some((350, 600)),
    }
}

fn browser() -> TcpOwner {
    TcpOwner { pid: 42, path: "/usr/bin/browser".to_string(), kind: AdapterKind::Wifi }
}

fn charge_of(r: ClosedTcp) -> Charge {
    match r {
        ClosedTcp::Done(Some(c)) => c,
        _ => panic!("no charge"),
    }
}

#[test]
fn closed_socket_adds_bytes_after_the_last_poll() {
    let mut seen: Assoc<u64, Baseline> = Assoc::new();
    seen.put(9, Baseline { sent: 100, recv: 200, missed: 0 });
    let mut owners: Assoc<u64, TcpOwner> = Assoc::new();
    owners.put(9, browser());
    let sample = charge_of(account_closed_tcp(&socket(), &seen, &owners, &Assoc::new()));
    assert_eq!(sample.pid, 42);
    assert_eq!(sample.path, "/usr/bin/browser");
    assert_eq!(sample.sent, 250);
    assert_eq!(sample.recv, 400);
}

#[test]
fn short_socket_uses_tracepoint_owner_and_full_counters() {
    let socket = socket();
    let mut flow_owners: Assoc<FlowKey, (TcpOwner, u64)> = Assoc::new();
    flow_owners.put(FlowKey { local: socket.local, remote: socket.remote }, (browser(), 0));
    let sample =
        charge_of(account_closed_tcp(&socket, &Assoc::new(), &Assoc::new(), &flow_owners));
    assert_eq!(sample.sent, 350);
    assert_eq!(sample.recv, 600);
}

#[test]
fn new_socket_counts_from_zero_after_the_initial_baseline() {
    assert_eq!(byte_delta(400, 700, None, false), (0, 0));
    assert_eq!(byte_delta(400, 700, None, true), (400, 700));
    let base = Baseline { sent: 300, recv: 500, missed: 0 };
    assert_eq!(byte_delta(400, 700, Some(&base), true), (100, 200));
}

#[test]
fn a_closed_socket_without_an_owner_waits() {
    let r = account_closed_tcp(&socket(), &Assoc::new(), &Assoc::new(), &Assoc::new());
    assert!(matches!(r, ClosedTcp::Waiting));
}

#[test]
fn polls_charge_the_difference_to_the_holder() {
    let mut sock = socket();
    sock.state = 1;
    sock.inode = 5;
    let socks = vec![sock];
    let mut owners: Assoc<u64, u32> = Assoc::new();
    owners.put(5, 42);
    let mut images: Assoc<u32, String> = Assoc::new();
    images.put(42, "/usr/bin/browser".to_string());
    let adapters = AdapterMap::new(&vec![(v4(192, 0, 2, 2), AdapterKind::Wifi)], 0);
    let poll = PollData { socks: &socks, owners: &owners, images: &images, adapters: &adapters };
    let mut seen: Assoc<u64, Baseline> = Assoc::new();
    let mut charges: Vec<Charge> = Vec::new();
    account_tcp(&poll, &mut seen, false, &mut charges);
    assert!(charges.is_empty());
    let mut more = sock;
    more.bytes = Some((400, 650));
    let socks = vec![more];
    let poll = PollData { socks: &socks, owners: &owners, images: &images, adapters: &adapters };
    account_tcp(&poll, &mut seen, true, &mut charges);
    assert_eq!(charges.len(), 1);
    assert_eq!((charges[0].pid, charges[0].sent, charges[0].recv), (42, 50, 50));
    assert_eq!(charges[0].kind, AdapterKind::Wifi);
    let mut known: Assoc<u64, TcpOwner> = Assoc::new();
    tcp_owner_map(&poll, &mut known);
    assert_eq!(known.get(&9).map(|o| o.pid), Some(42));
}

#[test]
fn datagram_flows_are_charged_to_the_socket_of_their_port() {
    let mut sock = socket();
    sock.protocol = Protocol::Udp;
    sock.inode = 5;
    sock.bytes = None;
    let socks = vec![sock];
    let mut owners: Assoc<u64, u32> = Assoc::new();
    owners.put(5, 42);
    let mut images: Assoc<u32, String> = Assoc::new();
    images.put(42, "/usr/bin/browser".to_string());
    let adapters = AdapterMap::new(&vec![], 0);
    let poll = PollData { socks: &socks, owners: &owners, images: &images, adapters: &adapters };
    let flow = Flow {
        protocol: Protocol::Udp,
        orig_src: v4(192, 0, 2, 2),
        orig_dst: v4(198, 51, 100, 4),
        sport: 40000,
        dport: 443,
        orig_bytes: 10,
        reply_bytes: 20,
    };
    let mut seen: Assoc<UdpKey, Baseline> = Assoc::new();
    let mut charges: Vec<Charge> = Vec::new();
    account_udp(&poll, &vec![flow], &mut seen, true, &mut charges);
    assert_eq!(charges.len(), 1);
    assert_eq!((charges[0].sent, charges[0].recv), (10, 20));
}

#[test]
fn accounting_remembers_who_opened_a_connection() {
    let mut accounting = Accounting::new(false);
    let empty: Vec<SockInfo> = vec![];
    let owners: Assoc<u64, u32> = Assoc::new();
    let images: Assoc<u32, String> = Assoc::new();
    let adapters = AdapterMap::new(&vec![], 0);
    let poll = PollData { socks: &empty, owners: &owners, images: &images, adapters: &adapters };
    let sock = socket();
    let opened = NetworkEvent::Owner(FlowOwner {
        key: FlowKey { local: sock.local, remote: sock.remote },
        pid: 42,
        path: "/usr/bin/browser".to_string(),
    });
    let charges = accounting.step(vec![opened], &poll, &vec![], false, 100);
    assert!(charges.is_empty());
    let charges = accounting.step(vec![NetworkEvent::Closed(sock)], &poll, &vec![], false, 200);
    assert_eq!(charges.len(), 1);
    assert_eq!((charges[0].pid, charges[0].sent, charges[0].recv), (42, 350, 600));
    let recent = accounting.take_recent_flows();
    assert_eq!(recent.len(), 1);
    assert_eq!(recent[0].path, "/usr/bin/browser");
    assert!(accounting.take_recent_flows().is_empty());
}

#[test]
fn recent_flows_are_cut_when_there_are_many() {
    let mut flows = Vec::new();
    for port in 0..300u16 {
        record_recent_flow(&mut flows, "/a".to_string(), (v4(192, 0, 2, 1), port));
    }
    assert!(flows.len() <= 256);
    assert_eq!(flows[flows.len() - 1].remote.port, 299);
}

fn a_response(rtype: u16, rdata: &[u8]) -> Vec<u8> {
    let mut m = vec![0x12, 0x34, 0x81, 0x80, 0x00, 0x01, 0x00, 0x01, 0, 0, 0, 0];
    m.push(7);
    m.extend_from_slice(b"example");
    m.push(3);
    m.extend_from_slice(b"com");
    m.push(0);
    m.extend_from_slice(&[0x00, 0x01, 0x00, 0x01]);
    m.extend_from_slice(&[0xc0, 0x0c]);
    m.extend_from_slice(&rtype.to_be_bytes());
    m.extend_from_slice(&[0x00, 0x01, 0x00, 0x00, 0x01, 0x2c]);
    m.extend_from_slice(&(rdata.len() as u16).to_be_bytes());
    m.extend_from_slice(rdata);
    m
}

#[test]
fn records_a_and_aaaa_answers_under_the_queried_name() {
    let six = [0x20, 0x01, 0xd, 0xb8, 0, 0, 0, 0, 0, 0, 0, 0, 0, 0, 0, 1];
    let mut map = DnsMap::new();
    parse_dns_message(&a_response(1, &[1, 2, 3, 4]), &mut map);
    parse_dns_message(&a_response(28, &six), &mut map);
    assert_eq!(map.lookup(&v4(1, 2, 3, 4)).as_deref(), Some("example.com"));
    assert_eq!(map.lookup(&v6(six)).as_deref(), Some("example.com"));
}

#[test]
fn malformed_dns_is_dropped_without_panicking() {
    let mut map = DnsMap::new();
    // a compression pointer that jumps to itself must terminate, not hang
    let mut loopy = vec![0, 0, 0x81, 0x80, 0x00, 0x01, 0x00, 0x01, 0, 0, 0, 0];
    loopy.extend_from_slice(&[1, b'a', 0, 0x00, 0x01, 0x00, 0x01]);
    let here = loopy.len() as u8;
    loopy.extend_from_slice(&[0xc0, here]);
    parse_dns_message(&loopy, &mut map);

    // rdlen that runs past the buffer, both slightly and wildly
    let mut trunc = a_response(1, &[1, 2, 3, 4]);
    trunc.truncate(trunc.len() - 2);
    parse_dns_message(&trunc, &mut map);
    let mut over = a_response(1, &[1, 2, 3, 4]);
    let n = over.len();
    over[n - 6] = 0xff;
    over[n - 5] = 0xff;
    parse_dns_message(&over, &mut map);

    // headers too short to hold counts or a question
    parse_dns_message(&[], &mut map);
    parse_dns_message(&[0u8; 4], &mut map);

    // none of the malformed inputs should have recorded anything
    assert!(map.lookup(&v4(1, 2, 3, 4)).is_none());
}

#[test]
fn names_are_read_from_whole_packets() {
    let message = a_response(1, &[1, 2, 3, 4]);
    let mut packet = vec![0u8; 28];
    packet[0] = 0x45;
    packet[9] = 17;
    packet[20..22].copy_from_slice(&53u16.to_be_bytes());
    packet[22..24].copy_from_slice(&40000u16.to_be_bytes());
    packet.extend_from_slice(&message);
    let mut map = DnsMap::new();
    parse_dns_packet(&packet, &mut map);
    assert_eq!(map.lookup(&v4(1, 2, 3, 4)).as_deref(), Some("example.com"));
    assert!(!build_dns_filter().is_empty());
}

#[test]
fn activity_dump_excludes_listeners() {
    assert_eq!(tcp_states() & (1 << TCP_LISTEN), 0);
}

#[test]
fn attribution_dump_requests_listeners() {
    assert_ne!(STATES_ALL & (1 << TCP_LISTEN), 0);
}

#[test]
fn listeners_are_no_activity() {
    let mut listener = socket();
    listener.state = 10;
    let active = active_sockets(&vec![socket(), listener]);
    assert_eq!(active.len(), 1);
    assert_eq!(active[0].state, 7);
    assert_eq!(dump_requests(tcp_states()).len(), 4);
    assert_eq!(build_request(2, 6, 5).len(), 72);
    assert!(parse_msg(2, Protocol::Tcp, &[0u8; 10]).is_none());
}

#[test]
fn parses_tracepoint_fields_and_ipv4_flow() {
    let format = "\
field:__u16 sport; offset:24; size:2; signed:0;\n\
field:__u16 dport; offset:26; size:2; signed:0;\n\
field:__u16 family; offset:28; size:2; signed:0;\n\
field:__u16 protocol; offset:30; size:2; signed:0;\n\
field:__u8 saddr[4]; offset:32; size:4; signed:0;\n\
field:__u8 daddr[4]; offset:36; size:4; signed:0;\n\
field:__u8 saddr_v6[16]; offset:40; size:16; signed:0;\n\
field:__u8 daddr_v6[16]; offset:56; size:16; signed:0;";
    let fields = Fields::parse(format).unwrap();
    let mut raw = [0u8; 72];
    raw[24..26].copy_from_slice(&40000u16.to_ne_bytes());
    raw[26..28].copy_from_slice(&443u16.to_ne_bytes());
    raw[28..30].copy_from_slice(&2u16.to_ne_bytes());
    raw[30..32].copy_from_slice(&6u16.to_ne_bytes());
    raw[32..36].copy_from_slice(&[192, 0, 2, 3]);
    raw[36..40].copy_from_slice(&[198, 51, 100, 8]);

    let flow = fields.flow(&raw).unwrap();
    assert_eq!(flow.local, (v4(192, 0, 2, 3), 40000));
    assert_eq!(flow.remote, (v4(198, 51, 100, 8), 443));
    assert!(Fields::parse("field:__u16 sport; offset:24; size:2;").is_err());
}

#[test]
fn perf_samples_are_drained_in_order() {
    let mut ring = vec![0u8; 64];
    // one sample of 24 bytes at 56, so that it goes round the end
    let mut record = Vec::new();
    record.extend_from_slice(&9u32.to_le_bytes());
    record.extend_from_slice(&[0, 0]);
    record.extend_from_slice(&24u16.to_le_bytes());
    record.extend_from_slice(&42u32.to_le_bytes());
    record.extend_from_slice(&43u32.to_le_bytes());
    record.extend_from_slice(&4u32.to_le_bytes());
    record.extend_from_slice(&[1, 2, 3, 4]);
    for (i, b) in record.iter().enumerate() {
        ring[(56 + i) % 64] = *b;
    }
    let (samples, tail) = drain(&ring, 80, 56);
    assert_eq!(tail, 80);
    assert_eq!(samples.len(), 1);
    assert_eq!(parse_sample(&samples[0]), Some((42, vec![1, 2, 3, 4])));
    assert!(valid_ring(4096, 32768, 36864));
    assert!(!valid_ring(4096, 32767, 36864));
    assert!(!valid_ring(0, 32768, 36864));
    assert!(!valid_ring(8192, 32768, 36864));
}

#[test]
fn perf_attributes_sample_every_event() {
    let attr = perf_attr(1789);
    assert_eq!(attr.len(), 64);
    assert_eq!(&attr[0..4], &2u32.to_le_bytes());
    assert_eq!(&attr[8..16], &1789u64.to_le_bytes());
    assert_eq!(&attr[24..32], &1026u64.to_le_bytes());
    assert_eq!(tracepoint_id(" 1789\n"), Some(1789));
    assert_eq!(tracepoint_id("x"), None);
    assert!(opened(1).is_ok());
    assert!(opened(0).is_err());
}

#[test]
fn netlink_attributes_read_back() {
    let mut buf = Vec::new();
    push_attr(&mut buf, 1, &[1, 2, 3]);
    push_attr(&mut buf, 9, &[]);
    assert_eq!(buf.len() % 4, 0);
    let attrs = for_each_attr(&buf);
    assert_eq!(attrs.len(), 2);
    assert_eq!((attrs[0].ty, attrs[0].value.clone()), (1, vec![1, 2, 3]));
    assert_eq!((attrs[1].ty, attrs[1].value.len()), (9, 0));
    let mut done = vec![0u8; 24];
    done[0..4].copy_from_slice(&16u32.to_le_bytes());
    done[4..6].copy_from_slice(&3u16.to_le_bytes());
    assert_eq!(recv_dump(&done, 16).end, DumpEnd::Done);
}

#[test]
fn conntrack_requests_name_their_flow() {
    assert_eq!(build_dump().len(), 20);
    let delete = build_delete((v4(192, 0, 2, 2), 40000), (v4(198, 51, 100, 4), 443), 6);
    assert_eq!(u32::from_le_bytes([delete[0], delete[1], delete[2], delete[3]]) as usize, delete.len());
    assert!(delete.windows(4).any(|w| w == [198, 51, 100, 4]));
    assert!(parse_flows(&vec![]).is_empty());
}

#[test]
fn connections_are_grouped_and_the_systems_own_are_kept() {
    let mut sock = socket();
    sock.state = 1;
    sock.inode = 5;
    let socks = vec![sock];
    let mut owners: Assoc<u64, u32> = Assoc::new();
    owners.put(5, 42);
    let mut images: Assoc<u32, String> = Assoc::new();
    images.put(42, "/usr/bin/browser".to_string());
    let mut names = DnsMap::new();
    names.record("example.com", v4(198, 51, 100, 4));
    let grouped = by_pid(&socks, &owners, &images, &names);
    let (path, conns) = grouped.get(&42).unwrap();
    assert_eq!(path, "/usr/bin/browser");
    assert_eq!(conns.len(), 1);
    assert_eq!(conns[0].host.as_deref(), Some("example.com"));
    assert_eq!(conns[0].direction, Direction::Outbound);
    assert!(matches!(kill_connection(&socks, 40000, v4(198, 51, 100, 4), 443), Kill::Send(_)));
    assert_eq!(kill_connection(&socks, 40001, v4(198, 51, 100, 4), 443), Kill::NotFound);
    let mut system = sock;
    system.uid = 0;
    assert_eq!(
        kill_connection(&vec![system], 40000, v4(198, 51, 100, 4), 443),
        Kill::Refused(0)
    );
}

#[test]
fn a_wildcard_socket_answers_for_its_port() {
    let mut resolver = Resolver::new();
    assert!(resolver.is_stale(0));
    let mut sock = socket();
    sock.local = (v4(0, 0, 0, 0), 40000);
    sock.inode = 5;
    let mut owners: Assoc<u64, u32> = Assoc::new();
    owners.put(5, 42);
    resolver.refresh(owners, &vec![sock], 1_000);
    assert!(!resolver.is_stale(1_200));
    assert!(resolver.is_stale(1_201));
    assert_eq!(resolver.pid_for((v4(192, 0, 2, 2), 40000)), Some(42));
    assert_eq!(resolver.pid_for((v4(192, 0, 2, 2), 40001)), None);
    assert_eq!(resolver.exe_for(1_201), Search::List { last: false });
    let look = resolver.exe_for(1_200);
    assert_eq!(look, Search::Look { last: false });
    assert_eq!(look.step(true), Search::Over);
    let again = look.step(false);
    assert_eq!(again, Search::List { last: true });
    assert_eq!(again.step(false), Search::Look { last: true });
    assert_eq!(again.step(false).step(false), Search::Over);
}

#[test]
fn the_event_loop_waits_where_nothing_blocks() {
    let start = EventLoop {
        owners: false,
        datagrams: false,
        closes: true,
        udp_active: false,
        waited: false,
        stage: Stage::Closes,
    };
    assert_eq!(start.action(), Action::Closes);
    let idle = start.step(Received::WouldBlock);
    assert_eq!(idle.action(), Action::Wait(IDLE_MS));
    let over = start.step(Received::Failed).step(Received::Reports);
    assert_eq!(over.action(), Action::Stop);
    let all = EventLoop { owners: true, datagrams: true, stage: Stage::Owners, ..start };
    assert_eq!(all.action(), Action::Owners(POLL_MS));
    // the first source has blocked, so the second must not
    assert_eq!(all.step(Received::Reports).action(), Action::Datagrams(0));
}

#[test]
fn plugins_are_started_with_little() {
    assert_eq!(hex_token(&[0, 255, 16]), "00ff10");
    assert_eq!(plugin_ids(Some((997, 996))).unwrap(), (997, 996));
    assert!(plugin_ids(None).is_err());
    assert!(plugin_ids(Some((0, 0))).is_err());
    assert_eq!(resource_limits().len(), 4);
    let env = child_env("/opt/p/plugin", &vec![("A".to_string(), "b".to_string())]);
    assert_eq!(env.len(), 4);
    assert_eq!(env[2], ("HOME".to_string(), "/opt/p".to_string()));
    assert_eq!(exit_code(Some(3)), 3);
    assert_eq!(exit_code(Some(-1)), u32::MAX);
    assert_eq!(exit_code(None), u32::MAX);
}
