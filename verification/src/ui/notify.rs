//! Which alerts become notifications, and what they say.

use crate::alert::{Alert, AlertKind};
use crate::text::{dec_text, owned, push_dec};
use vstd::prelude::*;

verus! {

/// How many alerts are remembered before they are forgotten all at once.
pub const REMEMBERED: usize = 4096;

/// What the user wants to be notified of, and what was notified in this run.
#[derive(Debug)]
pub struct NotifyState {
    /// Whether the user wants notifications.
    pub enabled: bool,
    /// The alerts that have been notified.
    pub toasted: Vec<i64>,
    /// Whether the summary of what happened before this run was due already.
    pub backlog_announced: bool,
}

impl Default for NotifyState {
    fn default() -> (r: NotifyState)
        ensures
            r.enabled,
            r.toasted@.len() == 0,
            !r.backlog_announced,
    {
        NotifyState { enabled: true, toasted: Vec::new(), backlog_announced: false }
    }
}

/// A notification.
#[derive(Debug, PartialEq, Eq)]
pub struct Toast {
    pub title: String,
    pub body: String,
}

/// Whether an alert asks the user to decide, in a window of its own.
pub open spec fn asks(alert: Alert) -> bool {
    &&& !alert.acknowledged
    &&& alert.kind is NewApp
    &&& alert.kind->NewApp_remote is Some
    &&& alert.kind->direction is Some
}

/// Whether an alert asks the user to decide, in a window of its own.
pub fn needs_decision(alert: &Alert) -> (r: bool)
    ensures
        r == asks(*alert),
{
    !alert.acknowledged && match &alert.kind {
        AlertKind::NewApp { remote: Some(_), direction: Some(_), .. } => true,
        _ => false,
    }
}

/// `seen` with `id`, where it is not there yet.
pub open spec fn with_id(seen: Seq<i64>, id: i64) -> Seq<i64> {
    if seen.contains(id) {
        seen
    } else {
        seen.push(id)
    }
}

/// `seen` with the ids of alerts.
pub open spec fn with_alerts(seen: Seq<i64>, alerts: Seq<Alert>) -> Seq<i64>
    decreases alerts.len(),
{
    if alerts.len() == 0 {
        seen
    } else {
        with_id(with_alerts(seen, alerts.drop_last()), alerts.last().id)
    }
}

/// Whether an alert counts to what happened before this run.
pub open spec fn overdue(alert: Alert) -> bool {
    !alert.acknowledged && !asks(alert)
}

/// How many alerts count to what happened before this run.
pub open spec fn overdue_count(alerts: Seq<Alert>) -> nat
    decreases alerts.len(),
{
    if alerts.len() == 0 {
        0
    } else {
        overdue_count(alerts.drop_last()) + if overdue(alerts.last()) {
            1nat
        } else {
            0nat
        }
    }
}

/// The title of an alert's notification.
pub open spec fn title_of(kind: AlertKind) -> Seq<char> {
    match kind {
        AlertKind::Plugin { source, message } => source@,
        AlertKind::NewApp { app, remote, direction } => "New app on the network"@,
        AlertKind::Blocked { app, remote } => "Connection blocked"@,
    }
}

/// The text of an alert's notification.
pub open spec fn body_of(kind: AlertKind) -> Seq<char> {
    match kind {
        AlertKind::Plugin { source, message } => message@,
        AlertKind::NewApp { app, remote, direction } => app.shown()
            + " connected for the first time"@,
        AlertKind::Blocked { app, remote } => "Blocked "@ + app.shown(),
    }
}

/// The text of the summary of `n` alerts.
pub open spec fn summary(n: nat) -> Seq<char> {
    if n == 1 {
        "1 alert while Iris was closed"@
    } else {
        dec_text(n) + " alerts while Iris was closed"@
    }
}

impl NotifyState {
    /// The alerts that are remembered after one more: what is there already is
    /// dropped first where it has grown beyond the limit.
    pub open spec fn remembering(self, id: i64) -> Seq<i64> {
        with_id(
            if self.toasted@.len() > REMEMBERED {
                Seq::empty()
            } else {
                self.toasted@
            },
            id,
        )
    }

    /// Whether an alert was notified before.
    pub open spec fn knows(self, id: i64) -> bool {
        self.toasted@.len() <= REMEMBERED && self.toasted@.contains(id)
    }

    /// Switches notifications on or off.
    pub fn set_notifications_enabled(&mut self, enabled: bool)
        ensures
            *final(self) == (NotifyState { enabled, ..*old(self) }),
    {
        self.enabled = enabled;
    }

    fn remember(&mut self, id: i64) -> (fresh: bool)
        ensures
            final(self).toasted@ == with_id(old(self).toasted@, id),
            fresh == !old(self).toasted@.contains(id),
            final(self).enabled == old(self).enabled,
            final(self).backlog_announced == old(self).backlog_announced,
    {
        let mut i: usize = 0;
        while i < self.toasted.len()
            invariant
                i <= self.toasted@.len(),
                *self == *old(self),
                forall|j: int| 0 <= j < i ==> self.toasted@[j] != id,
            decreases self.toasted@.len() - i,
        {
            if self.toasted[i] == id {
                assert(self.toasted@[i as int] == id);
                return false;
            }
            i += 1;
        }
        self.toasted.push(id);
        true
    }

    /// Remembers an alert, and says whether it was not remembered yet.
    pub fn first_sighting(&mut self, id: i64) -> (fresh: bool)
        ensures
            final(self).toasted@ == old(self).remembering(id),
            fresh == !old(self).knows(id),
            final(self).enabled == old(self).enabled,
            final(self).backlog_announced == old(self).backlog_announced,
    {
        if self.toasted.len() > REMEMBERED {
            self.toasted.clear();
        }
        self.remember(id)
    }

    /// The notification of an alert that has just come. There is none where the
    /// alert asks for a decision, where the user wants none, or where the alert
    /// was notified before.
    pub fn alert_toast(&mut self, alert: &Alert) -> (r: Option<Toast>)
        ensures
            final(self).enabled == old(self).enabled,
            final(self).backlog_announced == old(self).backlog_announced,
            final(self).toasted@ == (if asks(*alert) || !old(self).enabled {
                old(self).toasted@
            } else {
                old(self).remembering(alert.id)
            }),
            r is Some == (!asks(*alert) && old(self).enabled && !old(self).knows(alert.id)),
            r matches Some(t) ==> t.title@ == title_of(alert.kind) && t.body@ == body_of(
                alert.kind,
            ),
    {
        if needs_decision(alert) || !self.enabled || !self.first_sighting(alert.id) {
            return None;
        }
        let (title, body) = match &alert.kind {
            AlertKind::Plugin { source, message } => (source.clone(), message.clone()),
            AlertKind::NewApp { app, .. } => {
                let mut b = owned(app.file_name());
                b.push_str(" connected for the first time");
                (owned("New app on the network"), b)
            },
            AlertKind::Blocked { app, .. } => {
                let mut b = owned("Blocked ");
                b.push_str(app.file_name());
                (owned("Connection blocked"), b)
            },
        };
        Some(Toast { title, body })
    }

    /// The summary of what happened before this run: one notification, the first
    /// time that it is asked for, where there is anything to say and the user
    /// wants to hear it. The alerts that it covers are not notified again.
    pub fn announce_backlog(&mut self, alerts: &Vec<Alert>) -> (r: Option<Toast>)
        ensures
            final(self).enabled == old(self).enabled,
            final(self).backlog_announced,
            r is Some == (!old(self).backlog_announced && overdue_count(alerts@) > 0
                && old(self).enabled),
            final(self).toasted@ == (if r is Some {
                with_alerts(old(self).toasted@, alerts@)
            } else {
                old(self).toasted@
            }),
            r matches Some(t) ==> t.title@ == "Iris"@ && t.body@ == summary(overdue_count(alerts@)),
    {
        let mut count: usize = 0;
        let mut i: usize = 0;
        while i < alerts.len()
            invariant
                i <= alerts@.len(),
                count <= i,
                count == overdue_count(alerts@.take(i as int)),
            decreases alerts@.len() - i,
        {
            assert(alerts@.take(i + 1).drop_last() =~= alerts@.take(i as int));
            if !alerts[i].acknowledged && !needs_decision(&alerts[i]) {
                count += 1;
            }
            i += 1;
        }
        assert(alerts@.take(alerts@.len() as int) =~= alerts@);
        let before: bool = self.backlog_announced;
        self.backlog_announced = true;
        if before || count == 0 || !self.enabled {
            return None;
        }
        let mut i: usize = 0;
        while i < alerts.len()
            invariant
                i <= alerts@.len(),
                self.enabled == old(self).enabled,
                self.backlog_announced,
                self.toasted@ == with_alerts(old(self).toasted@, alerts@.take(i as int)),
            decreases alerts@.len() - i,
        {
            assert(alerts@.take(i + 1).drop_last() =~= alerts@.take(i as int));
            self.remember(alerts[i].id);
            i += 1;
        }
        assert(alerts@.take(alerts@.len() as int) =~= alerts@);
        let body = if count == 1 {
            owned("1 alert while Iris was closed")
        } else {
            let mut b = owned("");
            push_dec(&mut b, count as u64);
            b.push_str(" alerts while Iris was closed");
            proof {
                reveal_strlit("");
                assert(b@ =~= dec_text(count as nat) + " alerts while Iris was closed"@);
            }
            b
        };
        Some(Toast { title: owned("Iris"), body })
    }
}

/// What an alert's notification leaves behind: the alert is known, so it is not
/// notified again, unless more alerts than are remembered have come by then.
pub proof fn law_an_alert_is_notified_once(s: NotifyState, id: i64)
    ensures
        s.remembering(id).contains(id),
        s.toasted@.len() <= REMEMBERED ==> forall|other: i64|
            s.toasted@.contains(other) ==> #[trigger] s.remembering(id).contains(other),
{
    let base = if s.toasted@.len() > REMEMBERED {
        Seq::empty()
    } else {
        s.toasted@
    };
    if !base.contains(id) {
        assert(base.push(id)[base.len() as int] == id);
        assert forall|other: i64| base.contains(other) implies #[trigger] base.push(id).contains(
            other,
        ) by {
            let i = choose|i: int| 0 <= i < base.len() && base[i] == other;
            assert(base.push(id)[i] == other);
        }
    }
}

proof fn lemma_with_alerts(seen: Seq<i64>, alerts: Seq<Alert>, id: i64)
    requires
        seen.contains(id) || exists|i: int| 0 <= i < alerts.len() && #[trigger] alerts[i].id == id,
    ensures
        with_alerts(seen, alerts).contains(id),
    decreases alerts.len(),
{
    if alerts.len() > 0 {
        let before = with_alerts(seen, alerts.drop_last());
        if alerts.last().id == id {
            if !before.contains(id) {
                assert(before.push(id)[before.len() as int] == id);
            }
        } else {
            if !seen.contains(id) {
                let i = choose|i: int| 0 <= i < alerts.len() && #[trigger] alerts[i].id == id;
                assert(alerts.drop_last()[i].id == id);
            }
            lemma_with_alerts(seen, alerts.drop_last(), id);
            let i = choose|i: int| 0 <= i < before.len() && before[i] == id;
            assert(before.push(alerts.last().id)[i] == id);
        }
    }
}

/// The alerts that a summary covers are all remembered.
pub proof fn law_a_summary_covers_its_alerts(seen: Seq<i64>, alerts: Seq<Alert>, i: int)
    requires
        0 <= i < alerts.len(),
    ensures
        with_alerts(seen, alerts).contains(alerts[i].id),
{
    lemma_with_alerts(seen, alerts, alerts[i].id);
}

/// An alert asks for a decision where it tells of a new program whose connection is
/// known, and it has not been acknowledged.
pub proof fn law_new_connections_ask(alert: Alert)
    ensures
        asks(alert) == (match alert.kind {
            AlertKind::NewApp { app, remote: Some(r), direction: Some(d) } => !alert.acknowledged,
            _ => false,
        }),
{
}

/// The summary counts the alerts that are not acknowledged and ask for nothing.
pub proof fn law_the_summary_counts_what_waits(alerts: Seq<Alert>)
    ensures
        overdue_count(alerts) == alerts.filter(|a: Alert| !a.acknowledged && !asks(a)).len(),
    decreases alerts.len(),
{
    reveal(Seq::filter);
    if alerts.len() > 0 {
        law_the_summary_counts_what_waits(alerts.drop_last());
    }
}

/// Up to 4096 alerts are remembered, and one more; then all are forgotten at once.
pub proof fn law_alerts_are_forgotten_at_once(s: NotifyState, id: i64)
    ensures
        s.toasted@.len() > 4096 ==> s.remembering(id) == seq![id] && !s.knows(id),
        s.toasted@.len() <= 4096 && !s.toasted@.contains(id) ==> s.remembering(id)
            == s.toasted@.push(id) && !s.knows(id),
        s.toasted@.len() <= 4096 && s.toasted@.contains(id) ==> s.remembering(id) == s.toasted@
            && s.knows(id),
{
    assert(Seq::<i64>::empty().push(id) =~= seq![id]);
}

/// A notification tells what its alert tells.
pub proof fn law_notifications_tell_their_alert(
    source: String,
    message: String,
    app: crate::model::AppId,
    remote: crate::model::Endpoint,
    direction: Option<crate::model::Direction>,
)
    ensures
        title_of(AlertKind::Plugin { source, message }) == source@,
        body_of(AlertKind::Plugin { source, message }) == message@,
        title_of(AlertKind::NewApp { app, remote: Some(remote), direction })
            == "New app on the network"@,
        body_of(AlertKind::NewApp { app, remote: Some(remote), direction }) == app.shown()
            + " connected for the first time"@,
        title_of(AlertKind::Blocked { app, remote }) == "Connection blocked"@,
        body_of(AlertKind::Blocked { app, remote }) == "Blocked "@ + app.shown(),
        summary(1) == "1 alert while Iris was closed"@,
        forall|n: nat|
            n != 1 ==> #[trigger] summary(n) == dec_text(n) + " alerts while Iris was closed"@,
{
}

} // verus!
