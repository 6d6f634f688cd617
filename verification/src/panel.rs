//! What a plugin's panel shows: widgets, described and never drawn by the plugin.

use crate::enrich::Severity;
use vstd::prelude::*;

verus! {

/// One block of a panel. `F` is the type of a point of a trend line.
#[derive(Debug, Clone, PartialEq, Eq)]
pub enum Widget<F> {
    /// One prominent figure.
    Stat { label: String, value: String },
    /// Labels with values.
    Kv(Vec<(String, String)>),
    /// A small table.
    Table { columns: Vec<String>, rows: Vec<Vec<String>> },
    /// Badges, each with its severity.
    BadgeRow(Vec<(String, Severity)>),
    /// A small trend line.
    Sparkline { label: String, points: Vec<F> },
    /// A sentence.
    Note(String),
}

/// What a plugin's tab shows.
#[derive(Debug, Clone, PartialEq, Eq)]
pub struct Panel<F> {
    pub title: String,
    pub widgets: Vec<Widget<F>>,
}

} // verus!
