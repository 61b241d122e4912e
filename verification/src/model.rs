//! The plain figures the analyser hands the writer: every branch of the
//! statistics that holds no fractional number.
//!
//! A missing branch renders as an empty section rather than failing, so every
//! one of these has a neutral default.

use vstd::prelude::*;

use crate::stats::Figure;

verus! {

/// What the export is, and how much of it there was.
#[derive(Debug, Clone, Default)]
pub struct ExportInfo {
    pub name: String,
    pub root: String,
    pub topics: usize,
    pub messages: usize,
    pub service_messages: usize,
    /// `None` when the export carries no member list at all, which is a
    /// different fact from a list of nobody.
    pub members_count: Option<i64>,
    pub roster_complete: Option<bool>,
}

/// The busiest day.
#[derive(Debug, Clone, Default)]
pub struct Busiest {
    pub date: String,
    pub messages: i64,
}

/// The longest run of silent days.
#[derive(Debug, Clone, Default)]
pub struct Gap {
    pub days: usize,
    pub from: String,
    pub to: String,
}

/// One kind of attachment: how many were sent, how many were saved, and the
/// bytes Telegram reported for them.
#[derive(Debug, Clone, Default)]
pub struct MediaKind {
    pub kind: String,
    pub label: String,
    pub sent: i64,
    pub saved: i64,
    pub bytes: i64,
}

/// Who opens a burst of talk.
#[derive(Debug, Clone, Default)]
pub struct Starter {
    pub key: String,
    pub name: String,
    pub count: i64,
}

/// One person's median reply time.
#[derive(Debug, Clone, Default)]
pub struct Latency {
    pub key: String,
    pub name: String,
    pub replies: usize,
    pub median: i64,
}

/// Directed: the author of a reply and the author of its parent.
#[derive(Debug, Clone, Default)]
pub struct Edge {
    pub from: String,
    pub to: String,
    pub count: i64,
    pub from_name: String,
    pub to_name: String,
}

/// One pooled, undirected edge of the interaction graph.
#[derive(Debug, Clone, Default)]
pub struct Link {
    pub a: String,
    pub b: String,
    pub weight: i64,
}

/// A record, and the message that backs it.
#[derive(Debug, Clone, Default)]
pub struct Superlative {
    pub title: String,
    pub id: Option<i64>,
    pub topic: Option<usize>,
    pub date: String,
    pub who: String,
    pub text: String,
    pub value: Figure,
    pub unit: String,
}

/// A per-person record, restricted to people with enough messages to mean it.
#[derive(Debug, Clone, Default)]
pub struct Award {
    pub title: String,
    pub name: String,
    pub key: String,
    /// Already formatted.
    pub value: String,
    pub note: String,
    pub messages: i64,
}

/// The longest run of consecutive days somebody posted on.
#[derive(Debug, Clone, Default)]
pub struct Streak {
    pub name: String,
    pub days: usize,
    pub ended: String,
}

/// Arrivals, departures, and how many people were actually talking, month by month.
#[derive(Debug, Clone, Default)]
pub struct Churn {
    pub months: Vec<String>,
    pub roster_joins: Vec<i64>,
    pub announced_joins: Vec<i64>,
    pub announced_leaves: Vec<i64>,
    pub active: Vec<usize>,
    pub events: Vec<ChurnEvent>,
    pub roster_dated: i64,
    pub roster_size: usize,
}

/// One announced join or removal.
#[derive(Debug, Clone, Default)]
pub struct ChurnEvent {
    pub date: String,
    /// `join` or `leave`.
    pub kind: String,
    pub count: usize,
    pub who: String,
    pub names: Vec<String>,
}

/// Somebody who renamed themselves, under their newest name.
#[derive(Debug, Clone, Default)]
pub struct Renamed {
    pub name: String,
    pub aliases: Vec<String>,
}

/// Reply latency, cut by the hour the message being answered was posted.
#[derive(Debug, Clone, Default)]
pub struct Answer {
    pub counts: [i64; 24],
    pub medians: [i64; 24],
    pub counted: i64,
    /// Replies an hour needs before its median is quoted.
    pub minimum: i64,
    pub cap: i64,
    pub fastest_hour: Option<HourPick>,
    pub slowest_hour: Option<HourPick>,
}

/// An hour of the day and its median reply time.
#[derive(Debug, Clone, Default)]
pub struct HourPick {
    pub hour: usize,
    pub median: i64,
    pub replies: i64,
}

/// The deepest reply chain.
#[derive(Debug, Clone, Default)]
pub struct Deepest {
    pub id: i64,
    pub topic: usize,
    pub date: String,
    pub messages: i64,
}

/// What `render` is told that the statistics cannot tell it.
#[derive(Debug, Clone)]
pub struct Options {
    pub embed_fonts: bool,
    /// Who the notes section says wrote the file.
    pub source: String,
    /// The date the notes section stamps: injected rather than read from the
    /// clock, which is what makes the whole document reproducible.
    pub stamp: String,
}

/// Who the notes section says wrote the file, by default.
pub fn source_name() -> (out: &'static str)
    ensures
        out@ == "Telegram Export Analyser"@,
{
    "Telegram Export Analyser"
}

impl Options {
    /// Fonts embedded, the default author, and the given stamp.
    pub fn stamped(stamp: String) -> (o: Self)
        ensures
            o.embed_fonts,
            o.source@ == "Telegram Export Analyser"@,
            o.stamp@ == stamp@,
    {
        Options { embed_fonts: true, source: String::from_str(source_name()), stamp }
    }
}

} // verus!
