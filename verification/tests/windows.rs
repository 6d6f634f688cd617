use iris::path_windows::{are_beside, join, set_extension};
use iris::store::rows::set_aside_windows;
use iris::ui::report::save_download_windows;
use iris::ui::updater::{installer_is_bundled_windows, installer_path_windows};
use iris::assoc::Assoc;
use iris::error::EngineError;
use iris::ip::IpAddr;
use iris::model::{AdapterKind, AppId, ConnState, Direction, Endpoint, Protocol};
use iris::rule::RuleAction;
use iris::utf16::{lossy, wide};
use iris::win::adapters::{
    classify, enumerate, label, AdapterFacts, IF_TYPE_ETHERNET_CSMACD, IF_TYPE_IEEE80211,
    IF_TYPE_PPP, IF_TYPE_PROP_VIRTUAL, IF_TYPE_SOFTWARE_LOOPBACK,
};
use iris::win::conn::{by_pid, fetch_tcp, kill_target, may_end, snapshot, Fetch};
use iris::win::dns::DnsMap;
use iris::win::egress::{block_filters, permit_filters, pin, repin, AppPin};
use iris::win::etw::{
    charge, direction, ends, on_dns_event, on_net_event as on_traffic, started, Dir,
};
use iris::win::filter::{os_error, Condition, Install, InstallStep, Layer};
use iris::win::netevent::{
    app_id_path, device_of, on_net_event, to_drive_path, AskFilters, DeniedConnection, Drives,
    NetEvent, DRIVES_MS,
};
use iris::win::proc::{image_path_of, PidCache};
use iris::win::spawn::{
    build_environment, command_line, confine_to_job, exit_code, spawn_restricted, After, Handle,
    JobNext, JobStage, Next, Stage,
};
use iris::win::svc::ServiceMap;
use iris::win::wfp::{
    app_id_error, ask_filters, clear_page, filter_error, rule_filters, trust_apps, AskStep, Report,
    Wfp, ERROR_FILE_NOT_FOUND, ERROR_PATH_NOT_FOUND, WEIGHT_APP_RULE, WEIGHT_ASK_FALLBACK,
    WEIGHT_SEEDED_TRUST,
};

fn v4(a: u8, b: u8, c: u8, d: u8) -> IpAddr {
    IpAddr::from_v4(&[a, b, c, d])
}

#[test]
fn classifies_interface_types() {
    assert_eq!(classify(IF_TYPE_IEEE80211, ""), AdapterKind::Wifi);
    assert_eq!(
        classify(IF_TYPE_ETHERNET_CSMACD, "intel(r) ethernet connection i219-v"),
        AdapterKind::Ethernet
    );
    assert_eq!(classify(IF_TYPE_ETHERNET_CSMACD, "tap-windows adapter v9"), AdapterKind::Vpn);
    assert_eq!(classify(IF_TYPE_PROP_VIRTUAL, "wintun userspace tunnel"), AdapterKind::Vpn);
    assert_eq!(classify(IF_TYPE_PPP, "wan miniport (sstp)"), AdapterKind::Vpn);
    assert_eq!(classify(IF_TYPE_SOFTWARE_LOOPBACK, ""), AdapterKind::Loopback);
    assert_eq!(classify(999, "some usb modem"), AdapterKind::Other);
}

#[test]
fn adapters_that_are_down_have_no_addresses() {
    let addr = vec![2u8, 0, 0, 0, 192, 0, 2, 7];
    let adapter = |up: bool| AdapterFacts {
        up,
        if_type: IF_TYPE_IEEE80211,
        label: String::new(),
        addresses: vec![addr.clone()],
    };
    assert_eq!(
        enumerate(&vec![adapter(false), adapter(true)]),
        vec![(v4(192, 0, 2, 7), AdapterKind::Wifi)]
    );
    assert!(label(Some("Intel WIFI"), true, Some("Home")).contains("intel wifi"));
}

#[test]
fn leaves_a_drive_letter_path_alone() {
    assert_eq!(
        to_drive_path("c:\\windows\\system32\\svchost.exe", &vec![]),
        "c:\\windows\\system32\\svchost.exe"
    );
}

#[test]
fn leaves_an_unmapped_device_path_intact_rather_than_mangling_it() {
    let path = "\\device\\nothingmapped\\app.exe";
    assert_eq!(to_drive_path(path, &vec![]), path);
}

fn drives() -> Vec<(String, String)> {
    vec![
        device_of("c:", &wide("\\Device\\HarddiskVolume3")).unwrap(),
        device_of("d:", &wide("\\Device\\Mup")).unwrap(),
    ]
}

#[test]
fn device_paths_become_drive_paths() {
    let list = drives();
    assert_eq!(to_drive_path("\\device\\harddiskvolume3\\a.exe", &list), "c:\\a.exe");
    assert_eq!(to_drive_path("\\Device\\MUP\\a.exe", &list), "d:\\a.exe");
    assert_eq!(device_of("e:", &wide("")), None);
    let blob = wide("\\device\\harddiskvolume3\\a.exe");
    assert_eq!(app_id_path(&blob, &list).as_deref(), Some("c:\\a.exe"));
    assert_eq!(app_id_path(&[0], &list), None);
}

#[test]
fn drives_are_listed_again_after_a_while() {
    let mut known = Drives::new();
    assert!(known.needs_refresh(0));
    known.refresh(drives(), 10);
    assert!(!known.needs_refresh(10 + DRIVES_MS - 1));
    assert!(known.needs_refresh(10 + DRIVES_MS));
}

fn denied() -> NetEvent {
    NetEvent {
        dropped: true,
        filter_id: 5,
        app_id: Some(wide("\\device\\harddiskvolume3\\a.exe")),
        v6: false,
        remote: Some(v4(198, 51, 100, 4)),
        ip_protocol: Some(17),
        remote_port: Some(53),
    }
}

#[test]
fn only_the_ask_filters_drops_are_reported() {
    let mut filters = AskFilters::new();
    filters.set_ask_filters(&vec![(5, Direction::Outbound)]);
    assert_eq!(
        on_net_event(&denied(), &filters, &drives()),
        Some(DeniedConnection {
            app: AppId("c:\\a.exe".to_string()),
            remote: Endpoint { addr: v4(198, 51, 100, 4), port: 53, protocol: Protocol::Udp },
            direction: Direction::Outbound,
        })
    );
    assert_eq!(on_net_event(&NetEvent { filter_id: 6, ..denied() }, &filters, &drives()), None);
    assert_eq!(on_net_event(&NetEvent { dropped: false, ..denied() }, &filters, &drives()), None);
    assert_eq!(on_net_event(&NetEvent { app_id: None, ..denied() }, &filters, &drives()), None);
    let bare = NetEvent { remote: None, remote_port: None, ip_protocol: None, ..denied() };
    assert_eq!(
        on_net_event(&bare, &filters, &drives()).unwrap().remote,
        Endpoint { addr: v4(0, 0, 0, 0), port: 0, protocol: Protocol::Tcp }
    );
    filters.set_ask_filters(&vec![]);
    assert_eq!(on_net_event(&denied(), &filters, &drives()), None);
}

#[test]
fn block_exception_matches_only_non_loopback_traffic() {
    let block = rule_filters(Direction::Outbound, RuleAction::Block, WEIGHT_APP_RULE);
    for f in block.iter() {
        assert!(f.conditions.contains(&Condition::NotLoopback));
    }
    let allow = rule_filters(Direction::Outbound, RuleAction::Allow, WEIGHT_APP_RULE);
    for f in allow.iter() {
        assert_eq!(f.conditions, vec![Condition::App]);
    }
    assert_eq!(allow[0].layer, Layer::ConnectV4);
    assert_eq!(allow[1].layer, Layer::ConnectV6);
}

/// The weight that the filters of a rule are put in place with.
fn rule_weight(weight: u64) -> u64 {
    let fs = rule_filters(Direction::Outbound, RuleAction::Allow, weight);
    assert!(fs.iter().all(|f| f.weight == weight));
    fs[0].weight
}

/// The weight that the filters for everything else are put in place with.
fn fallback_weight() -> u64 {
    let fs = ask_filters();
    assert!(fs.iter().all(|f| f.weight == fs[0].weight));
    fs[0].weight
}

#[test]
fn a_block_rule_outranks_a_grandfathered_permit_which_outranks_the_deny() {
    let rule = rule_weight(WEIGHT_APP_RULE);
    let seeded = rule_weight(WEIGHT_SEEDED_TRUST);
    let fallback = fallback_weight();
    assert!(rule > seeded, "a user rule {rule} must outweigh seeded trust {seeded}");
    assert!(seeded > fallback, "seeded trust {seeded} must outweigh the catch-all {fallback}");
}

#[test]
fn a_per_app_decision_outranks_the_ask_mode_catch_all() {
    let app = rule_weight(WEIGHT_APP_RULE);
    let fallback = fallback_weight();
    assert!(app > fallback, "app rule {app} must outweigh ask mode {fallback}");
}

#[test]
fn the_ask_mode_weight_survives_the_round_trip_into_wfp() {
    assert_eq!(fallback_weight(), WEIGHT_ASK_FALLBACK);
}

#[test]
fn defers_only_missing_application_paths() {
    assert!(matches!(
        app_id_error("c:\\gone.exe", ERROR_FILE_NOT_FOUND),
        EngineError::NotFound(_)
    ));
    assert!(matches!(
        app_id_error("c:\\gone\\app.exe", ERROR_PATH_NOT_FOUND),
        EngineError::NotFound(_)
    ));
    assert!(matches!(app_id_error("c:\\private\\app.exe", 5), EngineError::Os(_)));
}

#[test]
fn error_codes_are_told_in_hexadecimal() {
    assert!(os_error("open", 0x80320009).message().contains("0x80320009"));
    assert!(filter_error(5).message().contains("0x5"));
}

#[test]
fn filters_stand_together_or_not_at_all() {
    let first = match Install::begin(2) {
        InstallStep::More(i) => i,
        s => panic!("{s:?}"),
    };
    assert_eq!(first.next(), 0);
    let second = match first.step(Ok(10)) {
        InstallStep::More(i) => i,
        s => panic!("{s:?}"),
    };
    assert_eq!(second.next(), 1);
    match second.step(Err(5)) {
        InstallStep::Undo(ids, code) => assert_eq!((ids, code), (vec![10], 5)),
        s => panic!("{s:?}"),
    }
    assert!(matches!(Install::begin(0), InstallStep::Finished(ids) if ids.is_empty()));
}

#[test]
fn ask_mode_is_on_from_installing_to_removing() {
    let mut wfp = Wfp::open();
    assert!(!wfp.ask_mode_active());
    assert!(matches!(wfp.set_ask_mode(false), AskStep::Nothing));
    match wfp.set_ask_mode(true) {
        AskStep::Install(fs) => assert_eq!(fs.len(), 4),
        s => panic!("{s:?}"),
    }
    let (named, report) = wfp.ask_installed(&vec![1, 2, 3, 4]);
    assert_eq!(report, Report::Subscribe);
    assert_eq!(named[0], (1, Direction::Outbound));
    assert_eq!(named[2], (3, Direction::Inbound));
    assert!(wfp.ask_reported(named, Ok(())).is_ok());
    assert!(wfp.ask_mode_active());
    assert!(matches!(wfp.set_ask_mode(true), AskStep::Nothing));
    match wfp.set_ask_mode(false) {
        AskStep::Remove(ids) => assert_eq!(ids, vec![1, 2, 3, 4]),
        s => panic!("{s:?}"),
    }
    assert!(!wfp.ask_mode_active());
}

#[test]
fn ask_mode_without_reports_is_an_error() {
    let mut wfp = Wfp::open();
    wfp.set_ask_mode(true);
    let (named, _) = wfp.ask_installed(&vec![1, 2, 3, 4]);
    assert!(wfp.ask_reported(named, Err("no events".to_string())).is_err());
}

#[test]
fn accepted_apps_are_trusted_both_ways() {
    let wanted = trust_apps(&vec!["c:\\a.exe".to_string()]);
    assert_eq!(
        wanted,
        vec![
            ("c:\\a.exe".to_string(), Direction::Outbound),
            ("c:\\a.exe".to_string(), Direction::Inbound),
        ]
    );
    let mut wfp = Wfp::open();
    assert!(wfp.trusted(Ok(vec![7, 8])));
    assert!(!wfp.trusted(Err(EngineError::NotFound("c:\\gone.exe".to_string()))));
    assert_eq!(wfp.trusted_filters, vec![7, 8]);
}

#[test]
fn old_filters_are_listed_page_by_page() {
    assert_eq!(clear_page(true, 64).1, true);
    assert_eq!(clear_page(true, 63).1, false);
    assert_eq!(clear_page(false, 0), (false, false));
}

#[test]
fn plugins_reach_only_what_they_were_granted() {
    let blocked = block_filters();
    assert!(blocked.iter().all(|f| f.action == RuleAction::Block));
    let allowed = permit_filters(&vec![(v4(192, 0, 2, 4), 443)], false);
    assert_eq!(allowed.len(), 1);
    assert!(allowed[0].conditions.contains(&Condition::RemoteV4(0xc0000204)));
    assert!(allowed[0].conditions.contains(&Condition::RemotePort(443)));
    assert!(allowed[0].weight > blocked[0].weight);
    let dns = permit_filters(&vec![], true);
    assert!(!dns.is_empty());
    assert!(dns.iter().all(|f| f.conditions.contains(&Condition::RemotePort(53))));
}

#[test]
fn failed_pins_are_taken_back() {
    let failed = pin(vec![1, 2], Err(EngineError::Os("x".to_string())));
    assert!(matches!(failed, Err((ids, EngineError::Os(_))) if ids == vec![1, 2]));
    let mut held = pin(vec![1], Ok(vec![3])).unwrap();
    assert_eq!(held, AppPin { permit_ids: vec![3] });
    assert!(repin(&mut held, Err(EngineError::Os("x".to_string()))).is_err());
    assert_eq!(held, AppPin { permit_ids: vec![3] });
    assert_eq!(repin(&mut held, Ok(vec![4, 5])).unwrap(), vec![3]);
    assert_eq!(held, AppPin { permit_ids: vec![4, 5] });
}

/// A row of the table of connections over the fourth version.
fn row(state: u32, local: u16, remote: [u8; 4], port: u16, pid: u32) -> Vec<u8> {
    let mut r = Vec::new();
    r.extend_from_slice(&state.to_le_bytes());
    r.extend_from_slice(&[192, 0, 2, 2]);
    r.extend_from_slice(&local.to_be_bytes());
    r.extend_from_slice(&[0, 0]);
    r.extend_from_slice(&remote);
    r.extend_from_slice(&port.to_be_bytes());
    r.extend_from_slice(&[0, 0]);
    r.extend_from_slice(&pid.to_le_bytes());
    r
}

fn table() -> Vec<u8> {
    let mut t = 2u32.to_le_bytes().to_vec();
    t.extend_from_slice(&row(5, 40000, [198, 51, 100, 4], 443, 42));
    t.extend_from_slice(&row(2, 80, [0, 0, 0, 0], 0, 4));
    t
}

#[test]
fn connection_tables_are_read_row_by_row() {
    let empty = 0u32.to_le_bytes();
    let conns = snapshot(&table(), &empty);
    // what only listens is no connection
    assert_eq!(conns.len(), 1);
    assert_eq!(conns[0].pid, 42);
    assert_eq!(conns[0].local_port, 40000);
    assert_eq!(conns[0].remote.addr, v4(198, 51, 100, 4));
    assert_eq!(conns[0].remote.port, 443);
    assert_eq!(conns[0].state, ConnState::Active);
    let mut images: Assoc<u32, String> = Assoc::new();
    images.put(42, "c:\\a.exe".to_string());
    let mut names = DnsMap::new_map();
    names.record_results("example.com", "198.51.100.4;");
    let grouped = by_pid(&conns, &images, &names);
    let (path, list) = grouped.get(&42).unwrap();
    assert_eq!(path, "c:\\a.exe");
    assert_eq!(list[0].host.as_deref(), Some("example.com"));
}

#[test]
fn connections_are_closed_by_their_row() {
    let t = table();
    let target = kill_target(&t, 40000, v4(198, 51, 100, 4), 443).unwrap();
    assert_eq!(target.pid, 42);
    assert_eq!(target.tuple, t[8..24].to_vec());
    assert!(kill_target(&t, 40001, v4(198, 51, 100, 4), 443).is_none());
    assert!(!may_end(Some(0)));
    assert!(may_end(Some(1)));
    assert!(!may_end(None));
}

#[test]
fn tables_are_fetched_with_more_room_a_few_times() {
    assert_eq!(fetch_tcp(0, 100, Some(0)), Fetch::Taken);
    assert_eq!(fetch_tcp(0, 100, Some(122)), Fetch::Read(100));
    assert_eq!(fetch_tcp(5, 100, Some(122)), Fetch::Nothing);
    assert_eq!(fetch_tcp(0, 100, Some(5)), Fetch::Nothing);
}

#[test]
fn lookups_are_remembered_by_address() {
    let mut names = DnsMap::new_map();
    names.record_results("a.example", "type:  5 b.example;192.0.2.1;::ffff:192.0.2.2;");
    assert_eq!(names.lookup(&v4(192, 0, 2, 1)).as_deref(), Some("a.example"));
    assert_eq!(names.lookup(&v4(192, 0, 2, 2)).as_deref(), Some("a.example"));
    on_dns_event(&mut names, 3008, Some("c.example".to_string()), Some("192.0.2.1".to_string()));
    assert_eq!(names.lookup(&v4(192, 0, 2, 1)).as_deref(), Some("c.example"));
    on_dns_event(&mut names, 3006, Some("d.example".to_string()), Some("192.0.2.1".to_string()));
    assert_eq!(names.lookup(&v4(192, 0, 2, 1)).as_deref(), Some("c.example"));
}

#[test]
fn traffic_events_are_charged_to_their_process() {
    assert_eq!(direction(10), Some(Dir::Sent));
    assert_eq!(direction(11), Some(Dir::Recv));
    assert_eq!(direction(12), None);
    let t = on_traffic(Some(Dir::Recv), Some(42), Some(1500)).unwrap();
    let c = charge(t, Some("c:\\a.exe".to_string()), Some(AdapterKind::Wifi)).unwrap();
    assert_eq!((c.pid, c.sent, c.recv), (42, 0, 1500));
    assert!(charge(t, None, Some(AdapterKind::Wifi)).is_none());
    assert!(on_traffic(Some(Dir::Recv), Some(0), Some(1500)).is_none());
    assert!(on_traffic(Some(Dir::Recv), Some(42), Some(0)).is_none());
    let (a, b) = (v4(192, 0, 2, 1), v4(192, 0, 2, 2));
    assert_eq!(ends(Dir::Sent, Some(a), Some(b)), Some((a, b)));
    assert_eq!(started(Ok(()), Err("x".to_string())), Ok(false));
    assert!(started(Err("x".to_string()), Ok(())).is_err());
}

#[test]
fn image_paths_take_as_much_room_as_they_need() {
    assert_eq!(image_path_of(&vec![None, Some("C:\\A.exe".encode_utf16().collect())]).as_deref(), Some("C:\\A.exe"));
    assert_eq!(image_path_of(&vec![]), None);
    let mut cache = PidCache::new();
    assert!(!cache.cached(4));
    assert_eq!(cache.resolve(4, Some("c:\\a.exe".to_string())).as_deref(), Some("c:\\a.exe"));
    assert!(cache.cached(4));
    assert_eq!(cache.resolve(4, None).as_deref(), Some("c:\\a.exe"));
    cache.clear();
    assert!(!cache.cached(4));
}

#[test]
fn services_are_grouped_by_process() {
    let mut map = ServiceMap::new();
    map.refresh(Some(vec![
        (4, "Dnscache".to_string()),
        (4, "BFE".to_string()),
        (0, "Stopped".to_string()),
    ]));
    assert_eq!(map.get(4), Some(&vec!["Dnscache".to_string(), "BFE".to_string()]));
    map.refresh(None);
    assert!(map.get(4).is_some());
}

#[test]
fn plugins_inherit_a_few_variables() {
    let vars = vec![
        ("SystemRoot".to_string(), "C:\\Windows".to_string()),
        ("SECRET".to_string(), "x".to_string()),
    ];
    let extra = vec![("IRIS_PLUGIN_TOKEN".to_string(), "t".to_string())];
    let block = lossy(&build_environment(&vars, &extra));
    assert!(block.contains("SystemRoot=C:\\Windows\0"));
    assert!(block.contains("IRIS_PLUGIN_TOKEN=t\0"));
    assert!(!block.contains("SECRET"));
    assert!(block.ends_with("\0\0"));
    assert_eq!(command_line("c:\\p.exe"), "\"c:\\p.exe\"");
}

#[test]
fn tokens_are_closed_on_every_way_out() {
    assert_eq!(
        spawn_restricted(Stage::Open, true),
        After { close: None, next: Next::Do(Stage::Restrict) }
    );
    assert_eq!(
        spawn_restricted(Stage::Restrict, true),
        After { close: Some(Handle::Base), next: Next::Do(Stage::Lower) }
    );
    assert_eq!(
        spawn_restricted(Stage::Lower, false),
        After { close: Some(Handle::Restricted), next: Next::Failed }
    );
    assert_eq!(
        spawn_restricted(Stage::Create, true),
        After { close: Some(Handle::Restricted), next: Next::Started }
    );
    assert_eq!(confine_to_job(JobStage::Create, false), JobNext::Without { close: false });
    assert_eq!(confine_to_job(JobStage::Limit, false), JobNext::Without { close: true });
    assert_eq!(confine_to_job(JobStage::Assign, true), JobNext::Confined);
    assert_eq!(exit_code(true, None), None);
    assert_eq!(exit_code(false, Some(3)), Some(3));
}

#[test]
fn text_survives_sixteen_bit_units() {
    assert_eq!(lossy(&wide("a\u{1F600}\u{e9}")), "a\u{1F600}\u{e9}\0");
    assert_eq!(wide("\u{1F600}"), vec![0xD83D, 0xDE00, 0]);
    assert_eq!(lossy(&[0x61, 0xD800, 0x62]), "a\u{FFFD}b");
}

#[test]
fn the_installer_is_bundled_where_it_shares_the_programs_folder() {
    for (installer, exe, bundled) in [
        (r"C:\iris\rot-installer.exe", r"C:\iris\iris.exe", true),
        (r"c:/iris/.//rot-installer.exe", r"C:\iris\iris.exe", true),
        (r"C:\rot\rot-installer.exe", r"C:\iris\iris.exe", false),
        (r"C:\Iris\rot-installer.exe", r"C:\iris\iris.exe", false),
        (r"D:\iris\rot-installer.exe", r"C:\iris\iris.exe", false),
        (r"C:iris\rot-installer.exe", r"C:\iris\iris.exe", false),
        (r"C:rot-installer.exe", r"c:iris.exe", true),
        (r"\\host\apps\rot-installer.exe", r"//host/apps/iris.exe", true),
        (r"\\host\apps\rot-installer.exe", r"\\host\other\iris.exe", false),
        (r"\\?\C:\iris\rot-installer.exe", r"\\?\c:\iris\iris.exe", true),
        (r"\\?\C:\iris\rot-installer.exe", r"C:\iris\iris.exe", false),
        (r"\\?\C:\iris\.\a.exe", r"\\?\C:\iris\b.exe", false),
        (r"\\?\UNC\host\apps\a.exe", r"\\?\UNC\host\apps\b.exe", true),
        (r"\\.\pipe\a", r"\\.\pipe\b", true),
        (r"C:\", r"C:\", false),
        ("", "", false),
    ] {
        assert_eq!(installer_is_bundled_windows(installer, exe), bundled, "{installer} {exe}");
        assert_eq!(are_beside(exe, installer), bundled, "{exe} {installer}");
    }
}

#[test]
fn downloads_are_put_behind_a_backslash() {
    for (dir, path) in [
        (r"C:\Users\u\Downloads", r"C:\Users\u\Downloads\a.csv"),
        (r"C:\Users\u\Downloads\", r"C:\Users\u\Downloads\a.csv"),
        ("C:/d/", "C:/d/a.csv"),
        ("C:", "C:a.csv"),
        (r"C:\", r"C:\a.csv"),
        ("", "a.csv"),
        (r"\\host\share", r"\\host\share\a.csv"),
        (r"\\?\C:", r"\\?\C:\a.csv"),
        (r"\\?\C:\\d\", r"\\?\C:\d\a.csv"),
    ] {
        assert_eq!(save_download_windows(dir, r"x\..\a.csv"), path);
        assert_eq!(join(dir, "a.csv"), path);
    }
    assert_eq!(save_download_windows(r"C:\d", "a.csv:b.csv"), r"C:\d\iris-export.csv");
}

#[test]
fn extensions_belong_to_the_last_name() {
    for (path, changed) in [
        (r"C:\ProgramData\Iris\iris.db", r"C:\ProgramData\Iris\iris.x"),
        (r"C:\Program.Data\iris", r"C:\Program.Data\iris.x"),
        (r"C:\a.b/c.d\.\", r"C:\a.b/c.x"),
        ("C:iris.db", "C:iris.x"),
        (r"C:\", r"C:\"),
        (r"C:\a\..", r"C:\a\.."),
        (r"\\host\sh.are", r"\\host\sh.are"),
        (r"\\host\share\.hidden", r"\\host\share\.hidden.x"),
        (r"\\?\C:\d\a/b.c", r"\\?\C:\d\a/b.x"),
        (r"\\?\C:\d\.", r"\\?\C:\d\."),
        ("", ""),
    ] {
        assert_eq!(set_extension(path, "x"), changed);
    }
    let aside = set_aside_windows(r"C:\Program.Data\iris");
    assert_eq!(aside.corrupt, r"C:\Program.Data\iris.db.corrupt");
    assert_eq!(aside.wal, r"C:\Program.Data\iris.db-wal");
    assert_eq!(aside.shm, r"C:\Program.Data\iris.db-shm");
}

#[test]
fn the_installer_is_looked_for_in_windows_folders() {
    assert_eq!(
        installer_path_windows(Some("C:"), Some(r"C:\Program Files"), Some(r"C:\L\")),
        vec![
            r"C:rot-installer.exe",
            r"C:installer\rot-installer.exe",
            r"C:\Program Files\rot\installer\rot-installer.exe",
            r"C:\L\Programs\rot-installer\rot-installer.exe",
        ]
    );
}
