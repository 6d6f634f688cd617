use iris::aggregate::Aggregator;
use iris::dns::DnsMap;
use iris::enrich::{ip_scope, Annotation, AnnotationValue, IpSet, Severity};
use iris::error::EngineError;
use iris::ip::IpAddr;
use iris::model::{AdapterKind, AppId, ByteCounts, Direction};
use iris::path::{join, parent_of, set_extension};
use iris::rule::{ProposalState, Rule, RuleAction};
use iris::usage::Granularity;

fn app(p: &str) -> AppId {
    AppId::from_path(p)
}

fn ip(s: &str) -> IpAddr {
    IpAddr::parse(s).unwrap()
}

#[test]
fn trims_image_paths() {
    assert_eq!(AppId::from_path("  /opt/Iris/app  ").as_str(), "/opt/Iris/app");
}

#[test]
fn preserves_case_on_case_sensitive_hosts() {
    assert_ne!(AppId::from_path("/opt/Foo/app"), AppId::from_path("/opt/foo/app"));
}

#[test]
fn caseless_hosts_fold_case() {
    assert_eq!(AppId::from_caseless_path(" C:/Foo/App.EXE ").as_str(), "c:/foo/app.exe");
}

#[test]
fn file_name_is_the_last_component() {
    assert_eq!(app("c:\\x\\y.exe").file_name(), "y.exe");
    assert_eq!(app("/usr/bin/curl").file_name(), "curl");
    assert_eq!(app("/usr/bin/").file_name(), "/usr/bin/");
    assert_eq!(app("curl").file_name(), "curl");
}

#[test]
fn rate_is_bytes_over_elapsed_seconds() {
    let mut agg = Aggregator::new(0);
    agg.record(&app("c:/x.exe"), Some("X"), 1000, 2000);
    let tick = agg.flush(1000);
    assert_eq!(tick.apps.len(), 1);
    let s = &tick.apps[0];
    assert_eq!(s.rate_sent, 1000);
    assert_eq!(s.rate_recv, 2000);
    assert_eq!(s.total.sent, 1000);
    assert_eq!(s.total.recv, 2000);
    assert_eq!(tick.total_rate_sent, 1000);
    assert_eq!(tick.total_rate_recv, 2000);
    assert_eq!(s.name.as_deref(), Some("X"));
}

#[test]
fn half_second_window_doubles_the_rate() {
    let mut agg = Aggregator::new(0);
    agg.record(&app("c:/x.exe"), None, 500, 0);
    let tick = agg.flush(500);
    assert_eq!(tick.apps[0].rate_sent, 1000);
}

#[test]
fn totals_accumulate_but_rate_resets_and_app_persists() {
    let mut agg = Aggregator::new(0);
    agg.record(&app("c:/x.exe"), None, 100, 0);
    let _ = agg.flush(1000);
    // idle window: app is still reported, now at rate 0, total retained
    let tick = agg.flush(2000);
    assert_eq!(tick.apps.len(), 1);
    assert_eq!(tick.apps[0].rate_sent, 0);
    assert_eq!(tick.apps[0].total.sent, 100);
    agg.record(&app("c:/x.exe"), None, 50, 0);
    let tick = agg.flush(3000);
    assert_eq!(tick.apps[0].total.sent, 150);
    assert_eq!(tick.apps[0].rate_sent, 50);
}

#[test]
fn touch_tracks_a_connection_only_app() {
    let mut agg = Aggregator::new(0);
    agg.touch(&app("c:/conn.exe"));
    let tick = agg.flush(1000);
    assert_eq!(tick.apps.len(), 1);
    assert_eq!(tick.apps[0].total.total(), 0);
}

#[test]
fn forget_drops_an_app() {
    let mut agg = Aggregator::new(0);
    agg.record(&app("c:/x.exe"), None, 100, 0);
    agg.forget(&app("c:/x.exe"));
    let tick = agg.flush(1000);
    assert!(tick.apps.is_empty());
}

#[test]
fn the_first_name_given_stays() {
    let mut agg = Aggregator::new(0);
    agg.record(&app("/x"), None, 1, 0);
    agg.record(&app("/x"), Some("X"), 1, 0);
    agg.record(&app("/x"), Some("Y"), 1, 0);
    let tick = agg.flush(10);
    assert_eq!(tick.apps[0].name.as_deref(), Some("X"));
    assert_eq!(tick.apps[0].rate_sent, 300);
}

#[test]
fn counters_stop_at_the_largest_value() {
    let mut c = ByteCounts { sent: u64::MAX - 1, recv: 5 };
    c.add(ByteCounts { sent: 7, recv: 1 });
    assert_eq!(c, ByteCounts { sent: u64::MAX, recv: 6 });
    assert_eq!(c.total(), u64::MAX);
    assert_eq!(ByteCounts::default().total(), 0);
}

#[test]
fn adapter_names_round_trip() {
    for k in [
        AdapterKind::Ethernet,
        AdapterKind::Wifi,
        AdapterKind::Vpn,
        AdapterKind::Loopback,
        AdapterKind::Other,
    ] {
        assert_eq!(AdapterKind::parse(k.as_str()), Some(k));
    }
    assert_eq!(AdapterKind::Vpn.as_str(), "vpn");
    assert_eq!(AdapterKind::parse("Vpn"), None);
}

#[test]
fn scopes_common_addresses() {
    assert_eq!(ip_scope(&ip("127.0.0.1")), "Loopback");
    assert_eq!(ip_scope(&ip("192.168.1.4")), "Private network");
    assert_eq!(ip_scope(&ip("10.0.0.9")), "Private network");
    assert_eq!(ip_scope(&ip("8.8.8.8")), "Public internet");
    assert_eq!(ip_scope(&ip("::1")), "Loopback");
    assert_eq!(ip_scope(&ip("fe80::1")), "Link-local");
    assert_eq!(ip_scope(&ip("fc00::1")), "Private network");
    assert_eq!(ip_scope(&ip("2606:4700:4700::1111")), "Public internet");
}

#[test]
fn scopes_the_edges() {
    assert_eq!(ip_scope(&ip("172.16.0.0")), "Private network");
    assert_eq!(ip_scope(&ip("172.31.255.255")), "Private network");
    assert_eq!(ip_scope(&ip("172.32.0.0")), "Public internet");
    assert_eq!(ip_scope(&ip("169.254.9.9")), "Link-local");
    assert_eq!(ip_scope(&ip("239.255.255.255")), "Multicast");
    assert_eq!(ip_scope(&ip("240.0.0.0")), "Public internet");
    assert_eq!(ip_scope(&ip("0.0.0.0")), "Unspecified");
    assert_eq!(ip_scope(&ip("::")), "Unspecified");
    assert_eq!(ip_scope(&ip("ff02::1")), "Multicast");
    assert_eq!(ip_scope(&ip("fdff::1")), "Private network");
    assert_eq!(ip_scope(&ip("febf::1")), "Link-local");
    assert_eq!(ip_scope(&ip("fec0::1")), "Public internet");
}

#[test]
fn ip_set_matches_addresses_and_prefixes() {
    let (set, rejected) = IpSet::parse(
        "# c2 ranges\n203.0.113.7\n198.51.100.0/24  # documentation net\n2001:db8::/32\n\nnot-an-ip\n10.0.0.1/40\n",
    );
    assert_eq!(rejected, vec!["not-an-ip".to_string(), "10.0.0.1/40".to_string()]);
    assert_eq!(set.len(), 3);
    assert!(set.contains(&ip("203.0.113.7")));
    assert!(!set.contains(&ip("203.0.113.8")));
    assert!(set.contains(&ip("198.51.100.200")));
    assert!(!set.contains(&ip("198.51.101.1")));
    assert!(set.contains(&ip("2001:db8:dead::beef")));
    assert!(!set.contains(&ip("2001:db9::1")));
    assert!(IpSet::parse("").0.is_empty());
}

#[test]
fn a_prefix_of_zero_holds_every_address_of_its_family() {
    let (set, rejected) = IpSet::parse("0.0.0.0/0\r\n ::1 / 128 \n1.2.3.4/+8\n5.6.7.8/x");
    assert_eq!(rejected, vec!["5.6.7.8/x".to_string()]);
    assert!(set.contains(&ip("255.1.2.3")));
    assert!(set.contains(&ip("::1")));
    assert!(!set.contains(&ip("::2")));
    assert!(!set.is_empty());
}

#[test]
fn annotations_hold_text() {
    let a = Annotation::text("net.scope", "Network", "Public internet".to_string(), Severity::Info);
    assert_eq!(a.key, "net.scope");
    assert_eq!(a.label, "Network");
    assert_eq!(a.value, AnnotationValue::Text("Public internet".to_string()));
    assert_eq!(a.severity, Severity::Info);
}

#[test]
fn addresses_read_from_text() {
    assert_eq!(IpAddr::parse("1.2.3.4"), Some(IpAddr::V4(0x1020304)));
    assert_eq!(IpAddr::parse("255.255.255.255"), Some(IpAddr::V4(0xffffffff)));
    assert_eq!(IpAddr::parse("0.0.0.0"), Some(IpAddr::V4(0x0)));
    assert_eq!(IpAddr::parse("::"), Some(IpAddr::V6(0x0)));
    assert_eq!(IpAddr::parse("::1"), Some(IpAddr::V6(0x1)));
    assert_eq!(IpAddr::parse("1::"), Some(IpAddr::V6(0x10000000000000000000000000000)));
    assert_eq!(IpAddr::parse("1::2"), Some(IpAddr::V6(0x10000000000000000000000000002)));
    assert_eq!(IpAddr::parse("1:2:3:4:5:6:7:8"), Some(IpAddr::V6(0x10002000300040005000600070008)));
    assert_eq!(IpAddr::parse("1:2:3:4:5:6:7::"), Some(IpAddr::V6(0x10002000300040005000600070000)));
    assert_eq!(IpAddr::parse("::2:3:4:5:6:7:8"), Some(IpAddr::V6(0x2000300040005000600070008)));
    assert_eq!(IpAddr::parse("::1.2.3.4"), Some(IpAddr::V6(0x1020304)));
    assert_eq!(IpAddr::parse("::ffff:1.2.3.4"), Some(IpAddr::V6(0xffff01020304)));
    assert_eq!(IpAddr::parse("1:2:3:4:5:6:1.2.3.4"), Some(IpAddr::V6(0x10002000300040005000601020304)));
    assert_eq!(IpAddr::parse("::FFFF"), Some(IpAddr::V6(0xffff)));
    assert_eq!(IpAddr::parse("2001:db8::8a2e:370:7334"), Some(IpAddr::V6(0x20010db80000000000008a2e03707334)));
    assert_eq!(IpAddr::parse("0001::0"), Some(IpAddr::V6(0x10000000000000000000000000000)));
    assert_eq!(IpAddr::parse("::1:2:3:4:5:1.2.3.4"), Some(IpAddr::V6(0x1000200030004000501020304)));
    for bad in [
        "256.1.1.1",
        "01.2.3.4",
        "1.2.3",
        "1.2.3.4.5",
        "1..2.3",
        "",
        "1.2.3.4 ",
        "+1.2.3.4",
        "1:2:3:4:5:6:7",
        "1:2:3:4:5:6:7:8:9",
        "1:2:3:4:5:6:7:8::",
        "1:2:3:4::5:6:7:8",
        ":1::2",
        "1:::2",
        "1::2::3",
        ":",
        ":::",
        "1:2:3:4:5:6:7:1.2.3.4",
        "1.2.3.4::",
        "::1.2.3.4:5",
        "::1.2.3.256",
        "12345::",
        "::g",
        "fe80::1%eth0",
        "1:2:3:4:5:1.2.3.4",
        "::00001",
        "1.2.3.4:5",
        "é",
        "1:2:3:4:5:6:7:",
        ":2:3:4:5:6:7:8",
        "::1:2:3:4:5:6:1.2.3.4",
    ] {
        assert_eq!(IpAddr::parse(bad), None, "{bad:?}");
    }
}

#[test]
fn white_space_is_what_the_standard_library_says() {
    for n in 0..=0x10ffffu32 {
        if let Some(c) = char::from_u32(n) {
            assert_eq!(iris::text::white(c), c.is_whitespace(), "{n:x}");
        }
    }
}

#[test]
fn texts_split_as_the_standard_library_splits_them() {
    let cases = [
        "", "a", "a\n", "\n", "a\r\nb", "a\rb\n", "a\n\nb", "a\r", "\r\n", " a  b\tc ", "/", "/a//b/",
        "a/b", "  ", "x\u{2003}y",
    ];
    for c in cases {
        let v = iris::text::chars_of(c);
        let join = |p: Vec<Vec<char>>| -> Vec<String> {
            p.into_iter().map(|x| x.into_iter().collect()).collect()
        };
        assert_eq!(join(iris::text::lines_of(&v)), c.lines().collect::<Vec<_>>(), "{c:?}");
        assert_eq!(join(iris::text::words_of(&v)), c.split_whitespace().collect::<Vec<_>>());
        assert_eq!(join(iris::text::split_chars(&v, '/')), c.split('/').collect::<Vec<_>>());
        let t: String = iris::text::trim_chars(&v).iter().collect();
        assert_eq!(t, c.trim());
    }
    for c in ["0", "+7", "255", "256", "-1", "", "+", "007", "1a", "99999999999999999999"] {
        let v = iris::text::chars_of(c);
        assert_eq!(iris::text::parse_dec(&v, 255), c.parse::<u8>().ok().map(u64::from), "{c}");
        assert_eq!(iris::text::parse_dec(&v, u64::MAX), c.parse::<u64>().ok(), "{c}");
    }
}

#[test]
fn addresses_are_shown_as_the_standard_library_shows_them() {
    for text in [
        "0.0.0.0",
        "127.0.0.1",
        "255.255.255.255",
        "::",
        "::1",
        "1::",
        "2001:db8::1",
        "2001:db8:0:1:1:1:1:1",
        "2001:0:0:1::1",
        "1:2:3:4:5:6:7:8",
        "fe80::abcd:0:1",
        "::ffff:192.0.2.1",
    ] {
        assert_eq!(ip(text).to_text(), text);
    }
    // one group alone is not left out, and the first of two runs is
    assert_eq!(ip("2001:db8:0:1:0:0:1:1").to_text(), "2001:db8:0:1::1:1");
    assert_eq!(ip("1:0:0:2:0:0:3:4").to_text(), "1::2:0:0:3:4");
    assert_eq!(ip("ABCD::EF").to_text(), "abcd::ef");
}

#[test]
fn the_text_of_an_address_reads_as_the_address() {
    for a in [
        IpAddr::V4(0),
        IpAddr::V4(0x0a00_0105),
        IpAddr::V4(u32::MAX),
        IpAddr::V6(0),
        IpAddr::V6(1),
        IpAddr::V6(0xffff_0a00_0105),
        IpAddr::V6(0x2001_0db8_0000_0001_0000_0000_0001_0001),
        IpAddr::V6(0xfe80_0000_0000_0000_0000_0000_0000_0000),
        IpAddr::V6(u128::MAX),
    ] {
        assert_eq!(IpAddr::parse(&a.to_text()), Some(a));
    }
}

#[test]
fn usage_buckets_start_at_whole_units() {
    assert_eq!(Granularity::Minute.bucket_start(61_234), 60_000);
    assert_eq!(Granularity::Hour.bucket_start(3_599_999), 0);
    assert_eq!(Granularity::Day.bucket_start(90_000_000), 86_400_000);
    assert_eq!(Granularity::Day.width_ms(), 24 * Granularity::Hour.width_ms());
}

#[test]
fn rules_block_outbound_by_default() {
    let r = Rule::block_outbound(app("/usr/bin/curl"));
    assert_eq!((r.direction, r.action, r.label.clone()), (Direction::Outbound, RuleAction::Block, None));
    assert_eq!(ProposalState::parse("accepted"), Some(ProposalState::Accepted));
    assert_eq!(ProposalState::parse("Accepted"), None);
    assert_eq!(ProposalState::Rejected.as_str(), "rejected");
}

#[test]
fn errors_tell_what_happened() {
    assert!(EngineError::Os("nft".to_string()).message().contains("nft"));
    assert_ne!(EngineError::NotInitialized.message(), "");
    assert!(EngineError::PermissionDenied("x".to_string()).message().ends_with('x'));
}

#[test]
fn the_number_of_names_is_bounded() {
    let mut names = DnsMap::new();
    for n in 0..8192u32 {
        names.record("a.example", IpAddr::V4(n));
    }
    assert!(names.lookup(&IpAddr::V4(0)).is_some());
    names.record("b.example", IpAddr::V4(9000));
    assert_eq!(names.lookup(&IpAddr::V4(9000)).as_deref(), Some("b.example"));
    let left = (0..8192u32).filter(|n| names.lookup(&IpAddr::V4(*n)).is_some()).count();
    assert_eq!(left, 4095);
    // a name is known by the address that a mapped one stands for
    names.record("c.example", ip("::ffff:192.0.2.9"));
    assert_eq!(names.lookup(&ip("192.0.2.9")).as_deref(), Some("c.example"));
    names.record("", ip("192.0.2.10"));
    assert_eq!(names.lookup(&ip("192.0.2.10")), None);
}

#[test]
fn paths_are_taken_apart_as_the_standard_library_takes_them() {
    for p in [
        "/a/b", "a/b/", "/", "", ".", "a/./b", "..", "/a//b", "./a", "/a/b.tar.gz", ".hidden",
        "a/..", "/a/./b/c", "///a/", "./.",
    ] {
        let std = std::path::Path::new(p);
        assert_eq!(set_extension(p, "db"), std.with_extension("db").to_string_lossy(), "{p:?}");
        let parent = std.parent().map(|q| q.to_string_lossy().into_owned());
        assert_eq!(parent_of(p), parent, "{p:?}");
        for q in ["c", "/c", "", "c/d"] {
            assert_eq!(join(p, q), std.join(q).to_string_lossy(), "{p:?} {q:?}");
        }
    }
}
