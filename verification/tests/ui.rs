use iris::alert::{Alert, AlertKind};
use iris::enrich::EnrichTarget;
use iris::ip::IpAddr;
use iris::ipc::message::{ClientMessage, Reply, ServerMessage, PROTOCOL_VERSION};
use iris::model::{AdapterKind, AppId, ByteCounts, Direction, Endpoint, Protocol, StatsTick};
use iris::rule::RuleAction;
use iris::ui::commands::{
    ack_alert, decision, dispatched, enrichment_targets, forget_apps, get_adapter_usage, list_rules,
    rule_grant, try_unelevated, usage_query, Waited, NEEDS_ELEVATION,
};
use iris::ui::display::{dpi_values, may_fall_back, Session as DisplaySession};
use iris::ui::elevate::{exit_outcome, join_windows, start_failure, wait_outcome};
use iris::ui::icon::{icon_data_uri, icon_png};
use iris::ui::net::{country_query, geo_country, reverse_dns, reverse_query};
use iris::ui::notify::{needs_decision, NotifyState, Toast};
use iris::ui::prompt::{
    prompt_extended_style, stack_height, target_monitor, trailing_edge, PromptState, Resize, Screen,
    WS_EX_APPWINDOW, WS_EX_TOOLWINDOW,
};
use iris::ui::report::save_download;
use iris::ui::rulectl::{
    mutate, proposal_accept, rule_add, rule_add_caseless, rule_import, rule_remove,
    rule_set_enabled, service_args, set_rule_grant,
};
use iris::ui::session::{
    finish_alert_reconcile, hello, mismatch_message, request, restore_requests, welcome, Action,
    EngineCmd, Refusal, Restore, RestoreStep, Session, StatusState, TickDetailState,
};
use iris::ui::startup::{autostart_entry, autostart_file, run_command};
use iris::ui::updater::{
    adopt_args, check_installer_update, installer_is_bundled, installer_path,
    installer_path_windows, on_adopt, on_look, on_release, on_status, version_tuple, Check, Ran,
    Update,
};
use iris::usage::Granularity;

#[test]
fn sizes_the_visible_prompt_stack_without_exceeding_two_cards() {
    assert_eq!(stack_height(1) as f64, 228.0);
    assert_eq!(stack_height(2) as f64, 466.0);
    assert_eq!(stack_height(3) as f64, 466.0);
}

#[test]
fn anchors_a_physical_size_to_the_work_area_corner() {
    // origin + available - extent - margin
    assert_eq!(trailing_edge(0, 720, 466, 18), 236);
    assert_eq!(trailing_edge(40, 1080, 699, 27), 394);
}

#[test]
fn prompt_host_cannot_enter_alt_tab() {
    let style = prompt_extended_style(WS_EX_APPWINDOW);
    assert_eq!(style & WS_EX_APPWINDOW, 0);
    assert_ne!(style & WS_EX_TOOLWINDOW, 0);
}

#[test]
fn the_prompt_window_hides_when_nothing_is_left() {
    let mut p = PromptState::default();
    assert_eq!(p.resize_connection_prompts(3), Resize::Show(2));
    assert_eq!(p.opening(), 2);
    assert_eq!(p.resize_connection_prompts(0), Resize::Hide);
    assert_eq!(p.opening(), 1);
}

#[test]
fn prompts_open_where_the_pointer_is() {
    let screens = vec![
        Screen { x: 0, y: 0, width: 1920, height: 1080 },
        Screen { x: 1920, y: 0, width: 1280, height: 1024 },
    ];
    assert_eq!(target_monitor(Some((1920, 10)), &screens), Some(1));
    assert_eq!(target_monitor(Some((1919, 10)), &screens), Some(0));
    assert_eq!(target_monitor(Some((-5, 10)), &screens), None);
    assert_eq!(target_monitor(None, &screens), None);
}

fn prompt(id: i64, acknowledged: bool) -> Alert {
    Alert {
        id,
        at_ms: 5,
        kind: AlertKind::NewApp {
            app: AppId("/usr/bin/curl".to_string()),
            remote: Some(Endpoint {
                addr: IpAddr::parse("192.0.2.1").unwrap(),
                port: 443,
                protocol: Protocol::Tcp,
            }),
            direction: Some(Direction::Outbound),
        },
        acknowledged,
    }
}

fn told(id: i64, text: &str) -> Alert {
    Alert {
        id,
        at_ms: 5,
        kind: AlertKind::Plugin { source: "Rep".to_string(), message: text.to_string() },
        acknowledged: false,
    }
}

#[test]
fn an_alert_is_notified_once() {
    let mut n = NotifyState::default();
    n.set_notifications_enabled(true);
    let first = n.alert_toast(&told(1, "look"));
    assert_eq!(first, Some(Toast { title: "Rep".to_string(), body: "look".to_string() }));
    assert_eq!(n.alert_toast(&told(1, "look")), None);
    n.set_notifications_enabled(false);
    assert_eq!(n.alert_toast(&told(2, "look")), None);
    assert!(needs_decision(&prompt(3, false)));
    assert!(!needs_decision(&told(4, "x")));
}

#[test]
fn the_backlog_is_summed_up_once() {
    let mut n = NotifyState::default();
    n.set_notifications_enabled(true);
    let t = n.announce_backlog(&vec![told(1, "a"), told(2, "b")]).unwrap();
    assert_eq!(t.title, "Iris");
    assert!(t.body.contains('2'));
    assert_eq!(n.announce_backlog(&vec![told(3, "c")]), None);
    // what the summary covered is not notified again
    assert!(!n.first_sighting(1));
    assert!(n.first_sighting(3));
}

#[test]
fn scaling_is_left_alone_where_it_was_chosen() {
    let s = DisplaySession { scaled: false, display: true, backend: None, kind: Some("wayland") };
    assert!(may_fall_back(&s));
    assert!(!may_fall_back(&DisplaySession { scaled: true, ..s }));
    assert!(!may_fall_back(&DisplaySession { display: false, ..s }));
    assert!(!may_fall_back(&DisplaySession { kind: Some("x11"), ..s }));
    assert!(!may_fall_back(&DisplaySession { backend: Some("wayland"), ..s }));
    assert!(may_fall_back(&DisplaySession { backend: Some("x11"), ..s }));
    assert_eq!(dpi_values("Xft.antialias:\t1\nXft.dpi:\t144\n"), vec!["144".to_string()]);
}

#[test]
fn elevation_reports_what_went_wrong() {
    assert_eq!(start_failure(true, "x"), "pkexec is not installed");
    assert_eq!(start_failure(false, "denied"), "could not run pkexec: denied");
    assert_eq!(exit_outcome(Some(0)), Ok(()));
    assert_eq!(exit_outcome(Some(126)), Err("the authentication prompt was dismissed".to_string()));
    assert_eq!(exit_outcome(Some(127)), Err("authorization failed".to_string()));
    assert_eq!(
        exit_outcome(Some(-3)),
        Err("the engine reported failure (exit code -3)".to_string())
    );
    assert_eq!(exit_outcome(None), Err("the elevated process was terminated".to_string()));
    assert_eq!(wait_outcome(true, true, 0), Ok(()));
    assert!(wait_outcome(true, true, 1).is_err());
    assert_eq!(
        wait_outcome(false, true, 0),
        Err("the service operation timed out".to_string())
    );
    let args = vec!["--rule-add".to_string(), "c:\\a b.exe".to_string()];
    assert_eq!(join_windows(&args).unwrap(), "--rule-add \"c:\\a b.exe\"");
    assert!(join_windows(&vec!["a\"b".to_string()]).is_err());
    let args = ["a", "", "b\tc d", "e"].map(str::to_string).to_vec();
    assert_eq!(join_windows(&args).unwrap(), "a \"\" \"b\tc d\" e");
    assert_eq!(join_windows(&Vec::new()).unwrap(), "");
}

#[test]
fn icons_travel_as_text_or_pixels() {
    assert_eq!(icon_data_uri("/x/a.png", &[1, 2, 3, 4]), "data:image/png;base64,AQIDBA==");
    assert_eq!(icon_data_uri("/x/a.svg", &[60]), "data:image/svg+xml;base64,PA==");
    let png = icon_png(&[1, 2, 3, 0], 1, 1).unwrap();
    assert_eq!(&png[0..8], &[0x89, b'P', b'N', b'G', 13, 10, 26, 10]);
    assert_ne!(png, icon_png(&[1, 2, 4, 0], 1, 1).unwrap());
}

#[test]
fn addresses_are_looked_up_only_where_they_are_public() {
    assert_eq!(reverse_query("8.8.8.8"), IpAddr::parse("8.8.8.8"));
    assert_eq!(reverse_query("not an address"), None);
    assert_eq!(reverse_dns("8.8.8.8", Some("dns.google".to_string())).as_deref(), Some("dns.google"));
    assert_eq!(reverse_dns("8.8.8.8", Some("8.8.8.8".to_string())), None);
    assert_eq!(reverse_dns("8.8.8.8", None), None);
    assert_eq!(country_query(false, "8.8.8.8"), None);
    assert_eq!(country_query(true, "8.8.8.8"), IpAddr::parse("8.8.8.8"));
    let names = vec![
        ("de".to_string(), "Schweden".to_string()),
        ("en".to_string(), "Sweden".to_string()),
    ];
    assert_eq!(geo_country(Some(names)).as_deref(), Some("Sweden"));
    assert_eq!(geo_country(None), None);
}

#[test]
fn downloads_stay_in_their_folder() {
    assert_eq!(save_download("/home/u/Downloads", "usage.csv"), "/home/u/Downloads/usage.csv");
    assert_eq!(save_download("/d", "../../etc/x.json"), "/d/x.json");
    assert_eq!(save_download("/d", "a.JSON"), "/d/a.JSON");
    for bad in ["", ".", "..", "a..csv", "x.csv:stream.csv", "a\n.csv", "run.sh", "dir/", ".csv"] {
        assert_eq!(save_download("/d", bad), "/d/iris-export.csv", "{bad:?}");
    }
}

#[test]
fn rule_changes_are_sent_or_run_with_rights() {
    let (cmd, args) = rule_add("/usr/bin/curl".to_string(), "inbound", "allow");
    match cmd {
        EngineCmd::AddRule(r) => {
            assert_eq!(r.app.as_str(), "/usr/bin/curl");
            assert_eq!((r.direction, r.action), (Direction::Inbound, RuleAction::Allow));
        }
        c => panic!("{c:?}"),
    }
    assert_eq!(args, vec!["--rule-add", "/usr/bin/curl", "inbound", "allow"]);
    let (cmd, args) = rule_add_caseless(" C:\\Tools\\App.EXE".to_string(), "out", "deny");
    match cmd {
        EngineCmd::AddRule(r) => {
            assert_eq!(r.app.as_str(), "c:\\tools\\app.exe");
            assert_eq!((r.direction, r.action), (Direction::Outbound, RuleAction::Block));
        }
        c => panic!("{c:?}"),
    }
    assert_eq!(args, vec!["--rule-add", " C:\\Tools\\App.EXE", "outbound", "block"]);
    assert_eq!(rule_remove(-4).1, vec!["--rule-remove", "-4"]);
    assert_eq!(rule_set_enabled(4, false).1, vec!["--rule-enable", "4", "false"]);
    assert_eq!(set_rule_grant(true), vec!["--grant-rules", "true"]);
    assert_eq!(proposal_accept(9).1, vec!["--proposal-accept", "9"]);
    assert_eq!(service_args(true), vec!["--install"]);
    assert_eq!(rule_import("/b".to_string(), 5, 5).unwrap(), vec!["--rule-import", "/b"]);
    assert!(rule_import("/b".to_string(), 6, 5).is_err());
    assert_eq!(mutate(Ok(true)), Ok(false));
    assert_eq!(mutate(Ok(false)), Ok(true));
    assert!(mutate(Err("x".to_string())).is_err());
}

#[test]
fn replies_answer_their_command() {
    let r: Result<Reply<u8>, String> = dispatched(Waited::Dropped);
    assert_eq!(r, Err("engine offline".to_string()));
    let r: Result<Reply<u8>, String> = dispatched(Waited::TimedOut);
    assert_eq!(r, Err("engine timed out".to_string()));
    assert_eq!(ack_alert::<u8>(Reply::Done), Ok(()));
    assert_eq!(ack_alert::<u8>(Reply::Error("no".to_string())), Err("no".to_string()));
    assert_eq!(ack_alert::<u8>(Reply::Pong), Err("unexpected reply".to_string()));
    assert_eq!(list_rules::<u8>(Reply::Rules(vec![])), Ok(vec![]));
    assert_eq!(forget_apps::<u8>(Reply::Forgotten(3)), Ok(3));
    assert_eq!(rule_grant::<u8>(Reply::RuleGrant(true)), Ok(true));
    assert_eq!(try_unelevated::<u8>(Ok(Reply::Done)), Ok(true));
    assert_eq!(try_unelevated::<u8>(Ok(Reply::Error(NEEDS_ELEVATION.to_string()))), Ok(false));
    assert!(try_unelevated::<u8>(Ok(Reply::Error("no".to_string()))).is_err());
    let bytes = ByteCounts { sent: 1, recv: 2 };
    let rows = get_adapter_usage::<u8>(Reply::AdapterUsage(vec![(AdapterKind::Vpn, bytes)]));
    assert_eq!(rows.unwrap()[0].kind, AdapterKind::Vpn);
    assert_eq!(decision("allow"), RuleAction::Allow);
    assert_eq!(decision("anything"), RuleAction::Block);
    assert_eq!(usage_query(1, 2, "day").granularity, Granularity::Day);
    assert_eq!(usage_query(1, 2, "x").granularity, Granularity::Minute);
    let targets = enrichment_targets(&vec!["192.0.2.1".to_string(), "x".to_string()]);
    assert_eq!(targets, vec![EnrichTarget::Endpoint(IpAddr::parse("192.0.2.1").unwrap())]);
}

#[test]
fn a_session_starts_with_the_same_protocol() {
    assert_eq!(hello(), ClientMessage::Hello { protocol: PROTOCOL_VERSION });
    let ours: ServerMessage<u8> =
        ServerMessage::Welcome { protocol: PROTOCOL_VERSION, engine_version: "1.2".to_string() };
    assert_eq!(welcome(Some(ours)).unwrap(), "1.2");
    let other: ServerMessage<u8> =
        ServerMessage::Welcome { protocol: 4, engine_version: "1.0".to_string() };
    assert!(matches!(welcome(Some(other)), Err(Refusal::Mismatch(4))));
    assert_eq!(mismatch_message(4), "protocol mismatch: engine 4, ui 5");
    assert!(matches!(welcome::<u8>(None), Err(Refusal::NotWelcome(None))));
}

fn tick(at_ms: u64) -> ServerMessage<u8> {
    ServerMessage::Tick(StatsTick {
        at_ms,
        total_rate_sent: 0,
        total_rate_recv: 0,
        apps: vec![],
        adapters: vec![],
    })
}

#[test]
fn a_reply_reaches_its_request_once() {
    let mut s: Session<&str> = Session::new();
    let id = s.next_request();
    let m = s.on_command(EngineCmd::ListRules, "rules");
    assert_eq!(m, ClientMessage::ListRules { req: id });
    let m = s.on_command(EngineCmd::AckAlert(7), "ack");
    assert_eq!(m, ClientMessage::AckAlert { req: id + 1, id: 7 });
    let reply = || ServerMessage::Reply { req: id + 1, result: Reply::<u8>::Done };
    match s.on_message(reply(), None) {
        Action::Deliver { resp, reply } => assert_eq!((resp, reply), ("ack", Reply::Done)),
        a => panic!("{a:?}"),
    }
    assert!(matches!(s.on_message(reply(), None), Action::Ignore));
}

#[test]
fn samples_keep_their_distance() {
    let mut s: Session<u8> = Session::new();
    let mut detail = TickDetailState::default();
    detail.set_tick_details(true, 1_000);
    assert!(matches!(s.on_message(tick(1_000), Some(detail)), Action::Tick(_)));
    assert!(matches!(s.on_message(tick(1_500), Some(detail)), Action::Ignore));
    assert!(matches!(s.on_message(tick(2_000), Some(detail)), Action::Tick(_)));
}

#[test]
fn alerts_are_restored_before_the_session() {
    let asked = restore_requests();
    assert_eq!(
        asked,
        vec![
            ClientMessage::Subscribe,
            ClientMessage::ListAlerts { req: 0, unacked_only: true },
            ClientMessage::ListPromptAlerts { req: 1 },
        ]
    );
    let r = Restore::new();
    let backlog = Reply::<u8>::Alerts(vec![told(1, "a")]);
    let (r, step) = r.reconcile_alerts(Some(ServerMessage::Reply { req: 0, result: backlog }));
    assert!(matches!(step, RestoreStep::On(Action::Ignore)));
    let prompts = Reply::<u8>::Alerts(vec![prompt(2, false)]);
    let (_, step) = r.reconcile_alerts(Some(ServerMessage::Reply { req: 1, result: prompts }));
    match step {
        RestoreStep::Restored { backlog, prompts } => {
            assert_eq!((backlog[0].id, prompts[0].id), (1, 2));
            assert_eq!(finish_alert_reconcile(&prompts).map(|a| a.id), Some(2));
        }
        s => panic!("{s:?}"),
    }
    let (_, step) = Restore::new().reconcile_alerts::<u8>(None);
    assert!(matches!(step, RestoreStep::Failed(e) if e == "engine disconnected during alert restore"));
}

#[test]
fn the_status_admits_commands_only_while_online() {
    let mut s = StatusState::default();
    assert_eq!(s.admits(), Err("engine offline".to_string()));
    s.set_status(true, Some("1.2".to_string()));
    assert_eq!(s.admits(), Ok(()));
    assert_eq!(s.engine_status().version.as_deref(), Some("1.2"));
    assert_eq!(
        request(EngineCmd::RejectProposal(3), 8),
        ClientMessage::ResolveProposal { req: 8, id: 3, accept: false }
    );
}

#[test]
fn starting_with_the_system_names_the_program() {
    assert_eq!(
        autostart_file(None, Some("/home/u")).as_deref(),
        Some("/home/u/.config/autostart/iris.desktop")
    );
    assert_eq!(
        autostart_file(Some("/cfg"), Some("/home/u")).as_deref(),
        Some("/cfg/autostart/iris.desktop")
    );
    assert_eq!(autostart_file(None, None), None);
    assert!(autostart_entry("/opt/i \"x\"").contains("Exec=\"/opt/i \\\"x\\\"\" --tray"));
    assert_eq!(run_command("c:\\iris.exe"), "\"c:\\iris.exe\" --tray");
}

#[test]
fn versions_are_read_as_numbers() {
    assert_eq!(version_tuple("v1.2.3-rc1"), vec![1, 2, 3]);
    assert_eq!(version_tuple("1.x"), vec![1, 0]);
}

fn ran(success: bool, stdout: &str) -> Result<Ran, String> {
    Ok(Ran { success, stdout: stdout.as_bytes().to_vec(), stderr: b" no luck \n".to_vec() })
}

fn failure(c: Check) -> String {
    match c {
        Check::Done(Err(e)) => e,
        c => panic!("{c:?}"),
    }
}

#[test]
fn updates_are_found_step_by_step() {
    assert!(matches!(check_installer_update(true), Check::Status { again: false }));
    assert_eq!(failure(check_installer_update(false)), "shared updater is not installed");
    assert!(matches!(on_status(false, ran(true, "[]"), true), Check::Adopt));
    assert!(matches!(on_status(false, ran(true, "[{}]"), true), Check::Look));
    assert_eq!(
        failure(on_status(true, ran(true, "[]"), true)),
        "Iris is still owned by its legacy or system package"
    );
    assert!(failure(on_status(false, ran(true, "x"), true)).starts_with("read installer status: "));
    assert!(matches!(on_adopt(Ok((true, String::new()))), Check::Status { again: true }));
    assert_eq!(
        failure(on_adopt(Ok((false, "exit status: 2".to_string())))),
        "installer migration exited with exit status: 2"
    );
    assert_eq!(on_look(ran(true, "{}")).unwrap(), b"{}".to_vec());
    assert_eq!(failure(on_look(ran(false, "")).unwrap_err()), "no luck");
    assert!(matches!(on_release(Ok("1.2.0".to_string()), "1.2.0"), Check::Done(Ok(None))));
    match on_release(Ok("1.10.0".to_string()), "1.9.9") {
        Check::Done(Ok(Some(u))) => assert_eq!(u, Update { version: "1.10.0".to_string() }),
        c => panic!("{c:?}"),
    }
}

#[test]
fn the_installer_is_looked_for_beside_the_program_first() {
    assert_eq!(
        installer_path(Some("/opt/iris"), None, Some("/home/u")),
        vec![
            "/opt/iris/rot-installer",
            "/opt/iris/installer/rot-installer",
            "/opt/rot/installer/rot-installer",
            "/home/u/.local/share/rot/apps/installer/rot-installer",
        ]
    );
    assert_eq!(
        installer_path_windows(None, Some("C:\\Program Files"), None),
        vec!["C:\\Program Files\\rot\\installer\\rot-installer.exe"]
    );
    assert!(installer_is_bundled("/opt/iris/rot-installer", "/opt/iris/iris"));
    assert!(!installer_is_bundled("/opt/rot/rot-installer", "/opt/iris/iris"));
    assert_eq!(
        adopt_args("/opt/iris", "1.0"),
        vec!["adopt", "iris", "--scope", "machine", "--root", "/opt/iris", "--version", "1.0"]
    );
}
