//! Which alerts are sent to Discord, and when an alert is quiet because it
//! was sent within the last hour.
use vstd::prelude::*;

use crate::monitor::{alert_text, Alert};

verus! {

/// One hour, in nanoseconds of a monotonic clock.
pub const COOLDOWN_NANOS: u128 = 3_600_000_000_000;

/// Alerts hotter than this many degrees Celsius are sent; the screen warns
/// from a lower limit.
pub const NOTIFY_TEMPERATURE_C: u8 = 60;

/// The cooldown key of an alert: one per kind and device, one for all
/// degraded arrays.
pub open spec fn alert_key_text(alert: Alert) -> Seq<char> {
    match alert {
        Alert::RaidDegraded { .. } => "raid_degraded"@,
        Alert::DiskFail { device } => "disk_fail_"@ + device@,
        Alert::HighTemperature { device, .. } => "high_temp_"@ + device@,
        Alert::GrownDefects { device, .. } => "grown_defects_"@ + device@,
    }
}

pub fn alert_key(alert: &Alert) -> (k: String)
    ensures
        k@ == alert_key_text(*alert),
{
    match alert {
        Alert::RaidDegraded { .. } => String::from_str("raid_degraded"),
        Alert::DiskFail { device } => String::from_str("disk_fail_").concat(device.as_str()),
        Alert::HighTemperature { device, .. } => String::from_str("high_temp_").concat(device.as_str()),
        Alert::GrownDefects { device, .. } => String::from_str("grown_defects_").concat(
            device.as_str(),
        ),
    }
}

/// Failed disks and degraded arrays are sent, temperatures only above the
/// notification limit, grown defects never.
pub open spec fn notifies(alert: Alert) -> bool {
    match alert {
        Alert::RaidDegraded { .. } => true,
        Alert::DiskFail { .. } => true,
        Alert::HighTemperature { temp, .. } => temp > NOTIFY_TEMPERATURE_C,
        Alert::GrownDefects { .. } => false,
    }
}

pub fn should_notify(alert: &Alert) -> (r: bool)
    ensures
        r == notifies(*alert),
{
    match alert {
        Alert::RaidDegraded { .. } => true,
        Alert::DiskFail { .. } => true,
        Alert::HighTemperature { temp, .. } => *temp > NOTIFY_TEMPERATURE_C,
        Alert::GrownDefects { .. } => false,
    }
}

pub open spec fn discord_text(hostname: Seq<char>, alert_message: Seq<char>) -> Seq<char> {
    "🚨 **VaultWatch Alert** — `"@ + hostname + "`\n"@ + alert_message
}

/// The Discord message for an alert raised on `hostname`.
pub fn format_discord_message(hostname: &str, alert_message: &str) -> (t: String)
    ensures
        t@ == discord_text(hostname@, alert_message@),
{
    String::from_str("🚨 **VaultWatch Alert** — `").concat(hostname).concat("`\n").concat(
        alert_message,
    )
}

pub open spec fn cooldown_views(v: Seq<(String, u128)>) -> Seq<(Seq<char>, u128)> {
    v.map_values(|e: (String, u128)| (e.0@, e.1))
}

/// When the alert with `key` was last sent, looking from `i` on.
pub open spec fn last_sent(cooldowns: Seq<(Seq<char>, u128)>, key: Seq<char>, i: int) -> Option<u128>
    decreases cooldowns.len() - i,
{
    if i < 0 || i >= cooldowns.len() {
        None
    } else if cooldowns[i].0 == key {
        Some(cooldowns[i].1)
    } else {
        last_sent(cooldowns, key, i + 1)
    }
}

pub open spec fn position_of(cooldowns: Seq<(Seq<char>, u128)>, key: Seq<char>, i: int) -> int
    decreases cooldowns.len() - i,
{
    if i < 0 || i >= cooldowns.len() {
        -1
    } else if cooldowns[i].0 == key {
        i
    } else {
        position_of(cooldowns, key, i + 1)
    }
}

/// Records that the alert with `key` was sent at `now`.
pub open spec fn record_sent(cooldowns: Seq<(Seq<char>, u128)>, key: Seq<char>, now: u128) -> Seq<
    (Seq<char>, u128),
> {
    if position_of(cooldowns, key, 0) >= 0 {
        cooldowns.update(position_of(cooldowns, key, 0), (key, now))
    } else {
        cooldowns.push((key, now))
    }
}

/// Whether the alert with `key` was sent less than an hour before `now`.
pub open spec fn quiet(cooldowns: Seq<(Seq<char>, u128)>, key: Seq<char>, now: u128) -> bool {
    match last_sent(cooldowns, key, 0) {
        Some(t) => (if now >= t {
            now - t
        } else {
            0
        }) < COOLDOWN_NANOS,
        None => false,
    }
}

/// The first `k` alerts of a round: each alert that is sent and not quiet
/// under the cooldowns at the start of the round is sent, and its cooldown
/// starts at `now` whether or not the sending succeeds.
pub open spec fn notification_plan(
    alerts: Seq<Alert>,
    k: int,
    cooldowns: Seq<(Seq<char>, u128)>,
    now: u128,
) -> (Seq<(Seq<char>, u128)>, Seq<Seq<char>>)
    decreases k,
{
    if k <= 0 {
        (cooldowns, seq![])
    } else {
        let (updated, messages) = notification_plan(alerts, k - 1, cooldowns, now);
        let alert = alerts[k - 1];
        if notifies(alert) && !quiet(cooldowns, alert_key_text(alert), now) {
            (record_sent(updated, alert_key_text(alert), now), messages.push(alert_text(alert)))
        } else {
            (updated, messages)
        }
    }
}

pub struct NotificationPlan {
    /// The alert messages to send, in order.
    pub messages: Vec<String>,
    /// The cooldowns after the round.
    pub cooldowns: Vec<(String, u128)>,
}

fn find_key(cooldowns: &Vec<(String, u128)>, key: &String) -> (r: Option<usize>)
    ensures
        match r {
            Some(i) => i < cooldowns@.len() && i as int == position_of(cooldown_views(cooldowns@), key@, 0)
                && last_sent(cooldown_views(cooldowns@), key@, 0) == Some(cooldowns@[i as int].1),
            None => position_of(cooldown_views(cooldowns@), key@, 0) == -1 && last_sent(
                cooldown_views(cooldowns@),
                key@,
                0,
            ) is None,
        },
{
    let ghost v = cooldown_views(cooldowns@);
    let mut i: usize = 0;
    while i < cooldowns.len()
        invariant
            v == cooldown_views(cooldowns@),
            i <= cooldowns@.len(),
            position_of(v, key@, 0) == position_of(v, key@, i as int),
            last_sent(v, key@, 0) == last_sent(v, key@, i as int),
        decreases cooldowns@.len() - i,
    {
        if cooldowns[i].0 == *key {
            assert(v[i as int].0 == key@);
            return Some(i);
        }
        i = i + 1;
    }
    None
}

/// Decides a notification round at monotonic time `now_nanos`.
pub fn plan_notifications(alerts: &[Alert], cooldowns: &Vec<(String, u128)>, now_nanos: u128) -> (p:
    NotificationPlan)
    ensures
        (cooldown_views(p.cooldowns@), p.messages@.map_values(|m: String| m@)) == notification_plan(
            alerts@,
            alerts@.len() as int,
            cooldown_views(cooldowns@),
            now_nanos,
        ),
{
    let ghost start = cooldown_views(cooldowns@);
    let mut updated: Vec<(String, u128)> = Vec::new();
    let mut j: usize = 0;
    while j < cooldowns.len()
        invariant
            j <= cooldowns@.len(),
            cooldown_views(updated@) == cooldown_views(cooldowns@).take(j as int),
        decreases cooldowns@.len() - j,
    {
        let ghost before = cooldown_views(updated@);
        updated.push((cooldowns[j].0.clone(), cooldowns[j].1));
        assert(cooldown_views(updated@) =~= before.push(cooldown_views(cooldowns@)[j as int]));
        assert(cooldown_views(cooldowns@).take(j + 1) =~= cooldown_views(cooldowns@).take(j as int).push(cooldown_views(cooldowns@)[j as int]));
        j = j + 1;
    }
    assert(cooldown_views(cooldowns@).take(cooldowns@.len() as int) =~= start);
    let mut messages: Vec<String> = Vec::new();
    let mut k: usize = 0;
    while k < alerts.len()
        invariant
            start == cooldown_views(cooldowns@),
            k <= alerts@.len(),
            (cooldown_views(updated@), messages@.map_values(|m: String| m@)) == notification_plan(
                alerts@,
                k as int,
                start,
                now_nanos,
            ),
        decreases alerts@.len() - k,
    {
        let alert = &alerts[k];
        if should_notify(alert) {
            let key = alert_key(alert);
            let quiet_now = match find_key(cooldowns, &key) {
                Some(i) => {
                    let sent = cooldowns[i].1;
                    let elapsed: u128 = if now_nanos >= sent {
                        now_nanos - sent
                    } else {
                        0
                    };
                    elapsed < COOLDOWN_NANOS
                },
                None => false,
            };
            if !quiet_now {
                let ghost before_updated = cooldown_views(updated@);
                let ghost before_messages = messages@.map_values(|m: String| m@);
                match find_key(&updated, &key) {
                    Some(i) => {
                        updated.set(i, (key, now_nanos));
                        assert(cooldown_views(updated@) =~= before_updated.update(
                            i as int,
                            (alert_key_text(*alert), now_nanos),
                        ));
                    },
                    None => {
                        updated.push((key, now_nanos));
                        assert(cooldown_views(updated@) =~= before_updated.push(
                            (alert_key_text(*alert), now_nanos),
                        ));
                    },
                }
                messages.push(alert.message());
                assert(messages@.map_values(|m: String| m@) =~= before_messages.push(
                    alert_text(*alert),
                ));
            }
        }
        k = k + 1;
    }
    NotificationPlan { messages, cooldowns: updated }
}

proof fn lemma_last_sent_position(c: Seq<(Seq<char>, u128)>, k: Seq<char>, i: int)
    requires
        0 <= i,
    ensures
        position_of(c, k, i) == -1 || (i <= position_of(c, k, i) < c.len() && c[position_of(c, k, i)].0 == k),
        last_sent(c, k, i) == (if position_of(c, k, i) >= 0 {
            Some(c[position_of(c, k, i)].1)
        } else {
            None::<u128>
        }),
    decreases c.len() - i,
{
    if i < c.len() && c[i].0 != k {
        lemma_last_sent_position(c, k, i + 1);
    }
}

/// Changing the time of an entry keeps the first position of every key.
proof fn lemma_position_update(c: Seq<(Seq<char>, u128)>, p: int, v: u128, k: Seq<char>, i: int)
    requires
        0 <= p < c.len(),
        0 <= i,
    ensures
        position_of(c.update(p, (c[p].0, v)), k, i) == position_of(c, k, i),
    decreases c.len() - i,
{
    if i < c.len() {
        lemma_position_update(c, p, v, k, i + 1);
    }
}

/// A new entry at the end is found only where no earlier one is.
proof fn lemma_position_push(c: Seq<(Seq<char>, u128)>, e: (Seq<char>, u128), k: Seq<char>, i: int)
    requires
        0 <= i <= c.len(),
    ensures
        position_of(c.push(e), k, i) == (if position_of(c, k, i) >= 0 {
            position_of(c, k, i)
        } else if e.0 == k {
            c.len() as int
        } else {
            -1
        }),
    decreases c.len() - i,
{
    let d = c.push(e);
    if i < c.len() {
        assert(d[i] == c[i]);
        lemma_position_push(c, e, k, i + 1);
    } else {
        assert(d[i] == e);
        assert(position_of(d, k, i + 1) == -1);
    }
}

/// After recording `key2` at `now`, `key2` was last sent at `now` and every
/// other key keeps its time.
proof fn lemma_record_sent(c: Seq<(Seq<char>, u128)>, key2: Seq<char>, now: u128, k: Seq<char>)
    ensures
        last_sent(record_sent(c, key2, now), k, 0) == (if k == key2 {
            Some(now)
        } else {
            last_sent(c, k, 0)
        }),
{
    let r = record_sent(c, key2, now);
    lemma_last_sent_position(c, key2, 0);
    lemma_last_sent_position(c, k, 0);
    lemma_last_sent_position(r, k, 0);
    let p = position_of(c, key2, 0);
    if p >= 0 {
        assert(r == c.update(p, (c[p].0, now)));
        lemma_position_update(c, p, now, k, 0);
    } else {
        lemma_position_push(c, (key2, now), k, 0);
    }
}

proof fn lemma_key_recorded(alerts: Seq<Alert>, cooldowns: Seq<(Seq<char>, u128)>, now: u128, i: int, k: int)
    requires
        0 <= i < k <= alerts.len(),
        notifies(alerts[i]),
        !quiet(cooldowns, alert_key_text(alerts[i]), now),
    ensures
        last_sent(notification_plan(alerts, k, cooldowns, now).0, alert_key_text(alerts[i]), 0) == Some(now),
    decreases k,
{
    let key = alert_key_text(alerts[i]);
    if k == i + 1 {
        lemma_record_sent(notification_plan(alerts, i, cooldowns, now).0, key, now, key);
    } else {
        lemma_key_recorded(alerts, cooldowns, now, i, k - 1);
        lemma_record_sent(
            notification_plan(alerts, k - 1, cooldowns, now).0,
            alert_key_text(alerts[k - 1]),
            now,
            key,
        );
    }
}

/// An alert that a round sends is quiet in every later round less than an
/// hour after it: the cooldowns a round returns hold the alert's key with
/// the round's time.
pub proof fn lemma_sent_alert_stays_quiet(
    alerts: Seq<Alert>,
    cooldowns: Seq<(Seq<char>, u128)>,
    now: u128,
    i: int,
    later: u128,
)
    requires
        0 <= i < alerts.len(),
        notifies(alerts[i]),
        !quiet(cooldowns, alert_key_text(alerts[i]), now),
        now <= later,
        later - now < COOLDOWN_NANOS,
    ensures
        quiet(
            notification_plan(alerts, alerts.len() as int, cooldowns, now).0,
            alert_key_text(alerts[i]),
            later,
        ),
{
    lemma_key_recorded(alerts, cooldowns, now, i, alerts.len() as int);
}

/// Whether an alert is one that is sent to Discord, said of the alert
/// itself: a failed disk, a degraded array, or a disk hotter than 60 °C.
pub open spec fn sent_kind(a: Alert) -> bool {
    ||| a is DiskFail
    ||| a is RaidDegraded
    ||| (a matches Alert::HighTemperature { temp, .. } && temp > 60)
}

/// A round of one alert that is not cooling down sends that alert's
/// message and starts its cooldown now exactly when it is a failed disk, a
/// degraded array or a disk hotter than 60 °C; any other alert sends nothing
/// and leaves the cooldowns as they were.
pub proof fn lemma_single_alert_round(a: Alert, cooldowns: Seq<(Seq<char>, u128)>, now: u128)
    requires
        !quiet(cooldowns, alert_key_text(a), now),
    ensures
        sent_kind(a) ==> notification_plan(seq![a], 1, cooldowns, now).1 == seq![alert_text(a)],
        sent_kind(a) ==> last_sent(notification_plan(seq![a], 1, cooldowns, now).0, alert_key_text(a), 0)
            == Some(now),
        !sent_kind(a) ==> notification_plan(seq![a], 1, cooldowns, now) == (
            cooldowns,
            Seq::<Seq<char>>::empty(),
        ),
{
    assert(seq![a][0] == a);
    assert(notification_plan(seq![a], 0, cooldowns, now) == (cooldowns, Seq::<Seq<char>>::empty()));
    if sent_kind(a) {
        lemma_record_sent(cooldowns, alert_key_text(a), now, alert_key_text(a));
        assert(Seq::<Seq<char>>::empty().push(alert_text(a)) =~= seq![alert_text(a)]);
    }
}

proof fn lemma_messages_grow(alerts: Seq<Alert>, cooldowns: Seq<(Seq<char>, u128)>, now: u128, i: int, k: int)
    requires
        0 <= i <= k <= alerts.len(),
    ensures
        notification_plan(alerts, k, cooldowns, now).1.len() >= notification_plan(alerts, i, cooldowns, now).1.len(),
        forall|m: int|
            0 <= m < notification_plan(alerts, i, cooldowns, now).1.len() ==> notification_plan(
                alerts,
                k,
                cooldowns,
                now,
            ).1[m] == #[trigger] notification_plan(alerts, i, cooldowns, now).1[m],
    decreases k - i,
{
    if i < k {
        lemma_messages_grow(alerts, cooldowns, now, i, k - 1);
    }
}

/// In any round, every failed-disk, degraded-array or over-60 °C alert
/// whose key is not cooling down has its message sent.
pub proof fn lemma_round_sends_due_alerts(alerts: Seq<Alert>, cooldowns: Seq<(Seq<char>, u128)>, now: u128, i: int)
    requires
        0 <= i < alerts.len(),
        sent_kind(alerts[i]),
        !quiet(cooldowns, alert_key_text(alerts[i]), now),
    ensures
        notification_plan(alerts, alerts.len() as int, cooldowns, now).1.contains(alert_text(alerts[i])),
{
    let after = notification_plan(alerts, i + 1, cooldowns, now).1;
    let before = notification_plan(alerts, i, cooldowns, now).1;
    assert(after == before.push(alert_text(alerts[i])));
    lemma_messages_grow(alerts, cooldowns, now, i + 1, alerts.len() as int);
    let all = notification_plan(alerts, alerts.len() as int, cooldowns, now).1;
    assert(after[before.len() as int] == alert_text(alerts[i]));
    assert(all[before.len() as int] == alert_text(alerts[i]));
}

} // verus!
