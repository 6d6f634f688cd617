use iris::alert::{Alert, AlertKind};
use iris::model::{AdapterKind, AppId, ByteCounts};
use iris::rule::{ProposalState, Rule, RuleProposal};
use iris::store::grants::{grant_row, set_plugin_grant, PluginGrant};
use iris::store::proposals::{
    after_settling, resolve_proposal, settled_proposal, Answer, Draft, Stage, Step,
};
use iris::store::rows::{
    adapter_totals, app_totals, buckets, changed, first_seen_at, inserted_alert, intact,
    list_alerts, list_proposals, set_aside, AlertRow, ProposalRow,
};
use iris::store::schema::migrate;
use iris::store::statement::{
    add_adapter_usage, add_usage, adapter_usage_totals, ensure_app, first_seen, insert_alert,
    load_u64, prune_usage, query_usage, set_plugin_enabled, store_u64, usage_totals, Statement,
    SqlValue,
};
use iris::usage::{Granularity, UsageQuery};
use rusqlite::{params_from_iter, types, Connection, Row};

struct Store {
    conn: Connection,
}

fn bound(v: SqlValue) -> types::Value {
    match v {
        SqlValue::Null => types::Value::Null,
        SqlValue::Int(n) => types::Value::Integer(n),
        SqlValue::Text(s) => types::Value::Text(s),
    }
}

/// A rule as the store keeps it.
fn rule_json(r: &Rule) -> String {
    format!("{{\"app\":\"{}\"}}", r.app.as_str())
}

fn rule_of(json: &str) -> Option<Rule> {
    let path = json.strip_prefix("{\"app\":\"")?.strip_suffix("\"}")?;
    Some(Rule::block_outbound(AppId(path.to_string())))
}

impl Store {
    fn open_in_memory() -> Store {
        let conn = Connection::open_in_memory().unwrap();
        let version: i64 = conn.query_row("PRAGMA user_version", [], |r| r.get(0)).unwrap();
        let m = migrate(version);
        for batch in m.batches {
            conn.execute_batch(batch).unwrap();
        }
        if let Some(v) = m.stamp {
            conn.pragma_update(None, "user_version", v).unwrap();
        }
        Store { conn }
    }

    fn run(&self, s: Statement) -> Option<usize> {
        let sql = s.sql();
        self.conn.execute(sql, params_from_iter(s.params().into_iter().map(bound))).ok()
    }

    fn rows<T>(&self, s: Statement, f: impl FnMut(&Row) -> rusqlite::Result<T>) -> Vec<T> {
        let mut q = self.conn.prepare(s.sql()).unwrap();
        let found = q.query_map(params_from_iter(s.params().into_iter().map(bound)), f).unwrap();
        found.map(|r| r.unwrap()).collect()
    }

    fn ensure_app(&self, path: &str, at: u64) -> bool {
        changed(self.run(ensure_app(path, None, at)))
    }

    fn first_seen(&self, path: &str) -> Option<u64> {
        first_seen_at(self.rows(first_seen(path), |r| r.get(0)).pop())
    }

    fn add_usage(&self, path: &str, at: u64, sent: u64, recv: u64) {
        if let Some(s) = add_usage(path, at, sent, recv) {
            self.run(s).unwrap();
        }
    }

    fn usage_totals(&self, from: u64, to: u64) -> Vec<(AppId, ByteCounts)> {
        let rows = self.rows(usage_totals(from, to), |r| Ok((r.get(0)?, r.get(1)?, r.get(2)?)));
        app_totals(&rows)
    }

    fn add_adapter_usage(&self, kind: AdapterKind, at: u64, sent: u64, recv: u64) {
        if let Some(s) = add_adapter_usage(kind, at, sent, recv) {
            self.run(s).unwrap();
        }
    }

    fn adapter_usage_totals(&self, from: u64, to: u64) -> Vec<(AdapterKind, ByteCounts)> {
        let rows =
            self.rows(adapter_usage_totals(from, to), |r| Ok((r.get(0)?, r.get(1)?, r.get(2)?)));
        adapter_totals(&rows)
    }

    fn grants(&self, s: Statement) -> Vec<PluginGrant> {
        self.rows(s, |r| {
            let (caps, egress): (String, String) = (r.get(1)?, r.get(2)?);
            Ok(grant_row(r.get(0)?, &caps, &egress, r.get(3)?, r.get(4)?))
        })
    }

    fn plugin_grant(&self, id: &str) -> Option<PluginGrant> {
        self.grants(Statement::GrantOf { id: id.to_string() }).pop()
    }

    fn insert_proposal(
        &self,
        source: &str,
        rule: &Rule,
        reason: &str,
        at_ms: u64,
    ) -> Option<RuleProposal> {
        let draft = Draft {
            source: source.to_string(),
            rule: rule.clone(),
            rule_json: rule_json(rule),
            reason: reason.to_string(),
            at_ms,
        };
        let mut step = draft.insert_proposal();
        loop {
            step = match step {
                Step::Done(r) => return r,
                Step::Run(stage, s) => {
                    let answer = match stage {
                        Stage::Finding => Answer::Found(
                            self.rows(s, |r| Ok((r.get(0)?, r.get(1)?, r.get(2)?))).pop(),
                        ),
                        Stage::Counting => Answer::Pending(self.rows(s, |r| r.get(0)).pop()),
                        Stage::Inserting => {
                            let n = self.run(s);
                            Answer::Written(n, self.conn.last_insert_rowid())
                        }
                    };
                    draft.next(stage, answer)
                }
            };
        }
    }

    fn list_proposals(&self) -> Vec<RuleProposal> {
        let rows = self.rows(Statement::ListProposals, |r| {
            let json: String = r.get(2)?;
            Ok(ProposalRow {
                id: r.get(0)?,
                source: r.get(1)?,
                rule: rule_of(&json),
                reason: r.get(3)?,
                at_ms: r.get(4)?,
                state: r.get(5)?,
            })
        });
        list_proposals(&rows)
    }

    fn resolve_proposal(&self, id: i64, accept: bool) -> Option<RuleProposal> {
        let n = self.run(resolve_proposal(id, accept));
        let row = self
            .rows(after_settling(id, n)?, |r| {
                let json: String = r.get(1)?;
                Ok((r.get(0)?, rule_of(&json), r.get(2)?, r.get(3)?))
            })
            .pop();
        settled_proposal(id, accept, row)
    }

    fn insert_alert(&self, kind: AlertKind, at: u64) -> Alert {
        let n = self.run(insert_alert("{}".to_string(), at));
        inserted_alert(kind, at, n, self.conn.last_insert_rowid())
    }

    fn list_alerts(&self, unacked_only: bool) -> Vec<Alert> {
        let rows = self.rows(Statement::ListAlerts { unacked_only }, |r| {
            Ok(AlertRow {
                id: r.get(0)?,
                at_ms: r.get(1)?,
                kind: Some(new_app()),
                acknowledged: r.get(3)?,
            })
        });
        list_alerts(&rows)
    }
}

fn new_app() -> AlertKind {
    AlertKind::NewApp { app: AppId("c:/x.exe".to_string()), remote: None, direction: None }
}

#[test]
fn first_seen_fires_once() {
    let s = Store::open_in_memory();
    assert!(s.ensure_app("c:/x.exe", 100));
    assert!(!s.ensure_app("c:/x.exe", 200));
    assert_eq!(s.first_seen("c:/x.exe"), Some(100));
}

#[test]
fn usage_accumulates_into_minute_buckets() {
    let s = Store::open_in_memory();
    s.add_usage("c:/x.exe", 1_000, 100, 200);
    s.add_usage("c:/x.exe", 2_000, 50, 0); // same minute
    let totals = s.usage_totals(0, 120_000);
    assert_eq!(totals.len(), 1);
    assert_eq!(totals[0].1.sent, 150);
    assert_eq!(totals[0].1.recv, 200);
}

#[test]
fn adapter_usage_accumulates_and_totals() {
    let s = Store::open_in_memory();
    s.add_adapter_usage(AdapterKind::Wifi, 1_000, 100, 200);
    s.add_adapter_usage(AdapterKind::Wifi, 2_000, 50, 0); // same minute
    s.add_adapter_usage(AdapterKind::Vpn, 1_000, 10, 10);
    let totals = s.adapter_usage_totals(0, 120_000);
    assert_eq!(totals.len(), 2);
    assert_eq!(totals[0].0, AdapterKind::Wifi);
    assert_eq!(totals[0].1.sent, 150);
    assert_eq!(totals[0].1.recv, 200);
    assert_eq!(totals[1].0, AdapterKind::Vpn);
    // outside the window
    assert!(s.adapter_usage_totals(120_000, 240_000).is_empty());
}

#[test]
fn plugin_grants_roundtrip_and_toggle() {
    let s = Store::open_in_memory();
    assert!(s.plugin_grant("com.example.rep").is_none());
    assert!(!changed(s.run(set_plugin_enabled("com.example.rep", true))));
    s.run(set_plugin_grant(
        "com.example.rep",
        &vec!["observe:ticks".to_string(), "enrich:endpoint".to_string()],
        &vec!["api.example.com:443".to_string()],
        true,
        1_000,
    ))
    .unwrap();
    let g = s.plugin_grant("com.example.rep").unwrap();
    assert!(g.enabled);
    assert_eq!(g.caps.len(), 2);
    assert_eq!(g.egress, vec!["api.example.com:443".to_string()]);
    assert!(changed(s.run(set_plugin_enabled("com.example.rep", false))));
    assert!(!s.plugin_grant("com.example.rep").unwrap().enabled);
    assert_eq!(s.grants(Statement::Grants).len(), 1);
}

#[test]
fn proposals_dedupe_cap_and_resolve_once() {
    let s = Store::open_in_memory();
    let rule = Rule::block_outbound(AppId("c:/evil.exe".to_string()));

    let p = s.insert_proposal("Rep", &rule, "known bad", 1_000).unwrap();
    assert_eq!(p.state, ProposalState::Pending);
    // the identical pending proposal comes back instead of stacking
    let again = s.insert_proposal("Rep", &rule, "still bad", 2_000).unwrap();
    assert_eq!(again.id, p.id);
    assert_eq!(s.list_proposals().len(), 1);

    // resolving settles it exactly once and hands back the rule to apply
    let accepted = s.resolve_proposal(p.id, true).unwrap();
    assert_eq!(accepted.state, ProposalState::Accepted);
    assert_eq!(accepted.rule, rule);
    assert!(s.resolve_proposal(p.id, false).is_none());

    // once settled, the same rule may be proposed afresh
    let fresh = s.insert_proposal("Rep", &rule, "back again", 3_000).unwrap();
    assert_ne!(fresh.id, p.id);
    assert!(s.resolve_proposal(fresh.id, false).is_some());

    // a source's pending backlog is bounded
    for n in 0..60 {
        let r = Rule::block_outbound(AppId(format!("c:/{n}.exe")));
        s.insert_proposal("Flood", &r, "x", 1);
    }
    let pending = s
        .list_proposals()
        .into_iter()
        .filter(|p| p.source == "Flood" && p.state == ProposalState::Pending)
        .count();
    assert_eq!(pending, 50);
}

#[test]
fn alerts_roundtrip_and_ack() {
    let s = Store::open_in_memory();
    let a = s.insert_alert(new_app(), 500);
    assert_eq!(s.list_alerts(true).len(), 1);
    s.run(Statement::AckAlert { id: a.id });
    assert_eq!(s.list_alerts(true).len(), 0);
    assert_eq!(s.list_alerts(false).len(), 1);
}

#[test]
fn acknowledging_all_leaves_none_waiting() {
    let s = Store::open_in_memory();
    s.insert_alert(new_app(), 500);
    s.insert_alert(new_app(), 600);
    s.run(Statement::AckAll);
    assert!(s.list_alerts(true).is_empty());
    let all = s.list_alerts(false);
    assert_eq!((all[0].at_ms, all[1].at_ms), (600, 500));
}

#[test]
fn pruning_keeps_what_is_newer() {
    let s = Store::open_in_memory();
    s.add_usage("c:/x.exe", 1_000, 1, 1);
    s.add_usage("c:/x.exe", 61_000, 2, 2);
    s.add_adapter_usage(AdapterKind::Wifi, 1_000, 1, 1);
    let (apps, adapters) = prune_usage(60_000);
    s.run(apps).unwrap();
    s.run(adapters).unwrap();
    assert_eq!(s.usage_totals(0, 120_000)[0].1.sent, 2);
    assert!(s.adapter_usage_totals(0, 120_000).is_empty());
}

#[test]
fn usage_is_grouped_by_the_granularity_asked_for() {
    let s = Store::open_in_memory();
    s.add_usage("c:/x.exe", 60_000, 1, 0);
    s.add_usage("c:/x.exe", 120_000, 2, 0);
    s.add_usage("c:/y.exe", 60_000, 4, 0);
    let q = |app: Option<&str>, granularity| UsageQuery {
        app: app.map(|p| AppId(p.to_string())),
        from_ms: 0,
        to_ms: 7_200_000,
        granularity,
    };
    let run = |q: UsageQuery| {
        let rows = s.rows(query_usage(&q), |r| {
            Ok((r.get(0)?, r.get(1)?, r.get(2)?, r.get(3)?))
        });
        buckets(&Some(rows))
    };
    assert_eq!(run(q(Some("c:/x.exe"), Granularity::Minute)).len(), 2);
    let hours = run(q(Some("c:/x.exe"), Granularity::Hour));
    assert_eq!(hours.len(), 1);
    assert_eq!((hours[0].bucket_start_ms, hours[0].bytes.sent), (0, 3));
    assert_eq!(run(q(None, Granularity::Day)).len(), 2);
    assert!(buckets(&None).is_empty());
    s.add_usage("c:/x.exe", 7_100_000, 8, 16);
    s.add_usage("c:/y.exe", 3_600_000, 32, 64);
    for granularity in [Granularity::Minute, Granularity::Hour, Granularity::Day] {
        let out = run(q(None, granularity));
        let sent: u64 = out.iter().map(|b| b.bytes.sent).sum();
        let recv: u64 = out.iter().map(|b| b.bytes.recv).sum();
        assert_eq!((sent, recv), (47, 80));
        assert!(out.iter().all(|b| b.bucket_start_ms % granularity.width_ms() == 0));
        for (i, a) in out.iter().enumerate() {
            for b in &out[i + 1..] {
                assert!(a.bucket_start_ms <= b.bucket_start_ms);
                assert!(a.app != b.app || a.bucket_start_ms != b.bucket_start_ms);
            }
        }
    }
}

#[test]
fn usage_of_nothing_is_not_written() {
    assert!(add_usage("c:/x.exe", 1_000, 0, 0).is_none());
    assert!(add_adapter_usage(AdapterKind::Vpn, 1_000, 0, 0).is_none());
}

#[test]
fn numbers_keep_their_bits_in_the_column() {
    assert_eq!(store_u64(7), 7);
    assert_eq!(store_u64(u64::MAX), -1);
    assert_eq!(load_u64(-1), u64::MAX);
    assert_eq!(load_u64(store_u64(1 << 63)), 1 << 63);
}

#[test]
fn a_migrated_database_is_left_alone() {
    let s = Store::open_in_memory();
    s.ensure_app("c:/x.exe", 100);
    let version: i64 = s.conn.query_row("PRAGMA user_version", [], |r| r.get(0)).unwrap();
    assert_eq!(version, 4);
    for batch in migrate(version).batches {
        s.conn.execute_batch(batch).unwrap();
    }
    assert_eq!(s.first_seen("c:/x.exe"), Some(100));
}

#[test]
fn damaged_databases_are_set_aside() {
    assert!(intact(Some("ok")));
    assert!(!intact(Some("row 3 missing")));
    assert!(!intact(None));
    let aside = set_aside("/var/lib/iris/iris.db");
    assert_eq!(aside.corrupt, "/var/lib/iris/iris.db.corrupt");
    assert_eq!(aside.wal, "/var/lib/iris/iris.db-wal");
    assert_eq!(aside.shm, "/var/lib/iris/iris.db-shm");
}

#[test]
fn unreadable_rows_are_left_out() {
    let rows = vec![
        ("wifi".to_string(), 1, 2),
        ("carrier-pigeon".to_string(), 3, 4),
    ];
    assert_eq!(adapter_totals(&rows).len(), 1);
    let alerts = vec![AlertRow { id: 1, at_ms: 2, kind: None, acknowledged: 0 }];
    assert!(list_alerts(&alerts).is_empty());
    assert!(grant_row("x".to_string(), "not json", "[]", 1, 0).caps.is_empty());
    assert_eq!(grant_row("x".to_string(), "[\"a\"]", "[]", 1, 0).caps, vec!["a".to_string()]);
}

#[test]
fn grants_are_kept_as_lists_of_texts() {
    let s = set_plugin_grant("x", &vec!["a\"b".to_string()], &vec![], false, 5);
    match s {
        Statement::SetGrant { caps, egress, .. } => {
            assert_eq!((caps.as_str(), egress.as_str()), ("[\"a\\\"b\"]", "[]"));
        }
        s => panic!("{s:?}"),
    }
}
