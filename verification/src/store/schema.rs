//! The tables, and how an older database is brought up to date.

use vstd::prelude::*;

verus! {

/// The version of the tables.
pub const SCHEMA_VERSION: i64 = 4;

/// The first tables: applications, traffic and alerts.
pub const SCHEMA: &'static str = "
CREATE TABLE IF NOT EXISTS apps (
    path TEXT PRIMARY KEY,
    first_seen INTEGER NOT NULL,
    name TEXT
);
CREATE TABLE IF NOT EXISTS usage (
    path TEXT NOT NULL,
    bucket INTEGER NOT NULL,
    sent INTEGER NOT NULL DEFAULT 0,
    recv INTEGER NOT NULL DEFAULT 0,
    PRIMARY KEY (path, bucket)
);
CREATE INDEX IF NOT EXISTS usage_bucket ON usage(bucket);
CREATE TABLE IF NOT EXISTS alerts (
    id INTEGER PRIMARY KEY AUTOINCREMENT,
    at_ms INTEGER NOT NULL,
    kind TEXT NOT NULL,
    acknowledged INTEGER NOT NULL DEFAULT 0
);
";

/// The traffic of each kind of adapter.
pub const SCHEMA_V2_ADAPTER_USAGE: &'static str = "
CREATE TABLE IF NOT EXISTS adapter_usage (
    kind TEXT NOT NULL,
    bucket INTEGER NOT NULL,
    sent INTEGER NOT NULL DEFAULT 0,
    recv INTEGER NOT NULL DEFAULT 0,
    PRIMARY KEY (kind, bucket)
);
CREATE INDEX IF NOT EXISTS adapter_usage_bucket ON adapter_usage(bucket);
";

/// What the user agreed that plugins may do.
pub const SCHEMA_V3_PLUGIN_GRANTS: &'static str = "
CREATE TABLE IF NOT EXISTS plugin_grants (
    id TEXT PRIMARY KEY,
    caps TEXT NOT NULL,
    egress TEXT NOT NULL,
    enabled INTEGER NOT NULL DEFAULT 0,
    granted_at INTEGER NOT NULL
);
";

/// The rules that plugins propose.
pub const SCHEMA_V4_RULE_PROPOSALS: &'static str = "
CREATE TABLE IF NOT EXISTS rule_proposals (
    id INTEGER PRIMARY KEY AUTOINCREMENT,
    source TEXT NOT NULL,
    rule TEXT NOT NULL,
    reason TEXT NOT NULL,
    at_ms INTEGER NOT NULL,
    state TEXT NOT NULL DEFAULT 'pending'
);
CREATE INDEX IF NOT EXISTS rule_proposals_state ON rule_proposals(state);
";

/// What brings the tables from one version to the next.
pub open spec fn batch(version: int) -> Seq<char> {
    if version < 1 {
        SCHEMA@
    } else if version == 1 {
        SCHEMA_V2_ADAPTER_USAGE@
    } else if version == 2 {
        SCHEMA_V3_PLUGIN_GRANTS@
    } else {
        SCHEMA_V4_RULE_PROPOSALS@
    }
}

/// The version that the first batch starts from.
pub open spec fn start_of(version: int) -> int {
    if version < 0 {
        0
    } else {
        version
    }
}

/// The texts of string slices.
pub open spec fn strs(v: Seq<&'static str>) -> Seq<Seq<char>> {
    v.map_values(|s: &'static str| s@)
}

/// What is to be run on a database of some version, in order, and whether the
/// version is to be written afterwards.
pub struct Migration {
    pub batches: Vec<&'static str>,
    /// The version to write.
    pub stamp: Option<i64>,
}

/// What brings a database up to date.
pub fn migrate(version: i64) -> (m: Migration)
    ensures
        strs(m.batches@) == Seq::new(
            (if version < SCHEMA_VERSION {
                SCHEMA_VERSION - start_of(version as int)
            } else {
                0
            }) as nat,
            |i: int| batch(start_of(version as int) + i),
        ),
        m.stamp == (if version < SCHEMA_VERSION {
            Some(SCHEMA_VERSION)
        } else {
            None::<i64>
        }),
{
    let mut batches: Vec<&'static str> = Vec::new();
    if version < 1 {
        batches.push(SCHEMA);
    }
    if version < 2 {
        batches.push(SCHEMA_V2_ADAPTER_USAGE);
    }
    if version < 3 {
        batches.push(SCHEMA_V3_PLUGIN_GRANTS);
    }
    if version < 4 {
        batches.push(SCHEMA_V4_RULE_PROPOSALS);
    }
    let stamp = if version < SCHEMA_VERSION {
        Some(SCHEMA_VERSION)
    } else {
        None
    };
    let ghost want = Seq::new(
        (if version < SCHEMA_VERSION {
            SCHEMA_VERSION - start_of(version as int)
        } else {
            0
        }) as nat,
        |i: int| batch(start_of(version as int) + i),
    );
    assert(strs(batches@) =~= want);
    Migration { batches, stamp }
}

/// The version of a database once it has been brought up to date.
pub open spec fn migrated(version: int) -> int {
    if version < SCHEMA_VERSION {
        SCHEMA_VERSION as int
    } else {
        version
    }
}

/// A database is brought up to date once: afterwards there is nothing to run and
/// nothing to write.
pub proof fn law_a_migrated_database_stays(version: int)
    ensures
        migrated(version) >= SCHEMA_VERSION,
        migrated(migrated(version)) == migrated(version),
{
}

/// A database gets the steps that it lacks, in order, up to the fourth.
pub proof fn law_steps_follow_the_version(version: int)
    ensures
        version <= 0 ==> batch(version) == SCHEMA@ && start_of(version) == 0,
        version >= 0 ==> start_of(version) == version,
        batch(1) == SCHEMA_V2_ADAPTER_USAGE@,
        batch(2) == SCHEMA_V3_PLUGIN_GRANTS@,
        batch(3) == SCHEMA_V4_RULE_PROPOSALS@,
        migrated(version) == (if version < 4 {
            4
        } else {
            version
        }),
{
}

} // verus!
