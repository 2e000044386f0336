//! The monitor's model of disks, arrays and alerts, and the rules that
//! derive alerts and the disk list shown to the operator.
use vstd::prelude::*;
use vstd::string::*;
use vstd::utf8::*;

use crate::order::{sort_by_key, sorted_by_key, stable_sort, ByteKeyed};
use crate::storage::{string_views, whole_names, StorageInventory};
use crate::text::{decimal_chars, decimal_text};

verus! {

pub const HISTORY_SIZE: usize = 60;

/// Temperatures above this many degrees Celsius raise an alert.
pub const TEMPERATURE_ALERT_C: u8 = 55;

#[derive(Debug, Clone, Copy, PartialEq, Eq, Structural)]
pub enum HealthStatus {
    Healthy,
    Failed,
    Unavailable,
}

/// Why a metric is or is not available.
#[derive(Debug, Clone, Copy, PartialEq, Eq, Structural)]
pub enum MetricAvailability {
    Available,
    Unsupported,
    PermissionDenied,
    Asleep,
    DeviceGone,
    Hidden,
    Stale,
    Malformed,
    TemporarilyUnavailable,
}

#[derive(Debug, Clone)]
pub struct DiskInfo {
    pub device: String,
    pub serial: Option<String>,
    pub temperature_c: Option<u8>,
    pub health: HealthStatus,
    pub health_availability: MetricAvailability,
    pub power_on_hours: Option<u64>,
    pub grown_defects: Option<u64>,
    pub non_medium_errors: Option<u64>,
    pub read_errors: Option<u64>,
    pub write_errors: Option<u64>,
}

pub struct DiskInfoView {
    pub device: Seq<char>,
    pub serial: Option<Seq<char>>,
    pub temperature_c: Option<u8>,
    pub health: HealthStatus,
    pub health_availability: MetricAvailability,
    pub power_on_hours: Option<u64>,
    pub grown_defects: Option<u64>,
    pub non_medium_errors: Option<u64>,
    pub read_errors: Option<u64>,
    pub write_errors: Option<u64>,
}

impl View for DiskInfo {
    type V = DiskInfoView;

    open spec fn view(&self) -> DiskInfoView {
        DiskInfoView {
            device: self.device@,
            serial: match self.serial {
                Some(s) => Some(s@),
                None => None,
            },
            temperature_c: self.temperature_c,
            health: self.health,
            health_availability: self.health_availability,
            power_on_hours: self.power_on_hours,
            grown_defects: self.grown_defects,
            non_medium_errors: self.non_medium_errors,
            read_errors: self.read_errors,
            write_errors: self.write_errors,
        }
    }
}

/// A disk about which nothing could be collected.
pub open spec fn unavailable_disk(device: Seq<char>) -> DiskInfoView {
    DiskInfoView {
        device,
        serial: None,
        temperature_c: None,
        health: HealthStatus::Unavailable,
        health_availability: MetricAvailability::TemporarilyUnavailable,
        power_on_hours: None,
        grown_defects: None,
        non_medium_errors: None,
        read_errors: None,
        write_errors: None,
    }
}

impl DiskInfo {
    pub fn unavailable(device: String) -> (d: DiskInfo)
        ensures
            d@ == unavailable_disk(device@),
    {
        DiskInfo {
            device,
            serial: None,
            temperature_c: None,
            health: HealthStatus::Unavailable,
            health_availability: MetricAvailability::TemporarilyUnavailable,
            power_on_hours: None,
            grown_defects: None,
            non_medium_errors: None,
            read_errors: None,
            write_errors: None,
        }
    }
}

impl ByteKeyed for DiskInfo {
    open spec fn key_of(&self) -> Seq<u8> {
        encode_utf8(self.device@)
    }

    fn key(&self) -> (k: &[u8]) {
        self.device.as_str().as_bytes()
    }
}

#[derive(Debug, Clone, PartialEq, Eq)]
pub enum Alert {
    HighTemperature { device: String, temp: u8 },
    DiskFail { device: String },
    GrownDefects { device: String, count: u64 },
    RaidDegraded { array: String },
}

/// The text of an alert.
pub open spec fn alert_text(alert: Alert) -> Seq<char> {
    match alert {
        Alert::HighTemperature { device, temp } => "⚠  "@ + device@ + ": Temperature "@
            + decimal_chars(temp as nat) + "°C exceeds 55°C"@,
        Alert::DiskFail { device } => "✗  "@ + device@ + ": SMART health FAIL"@,
        Alert::GrownDefects { device, count } => "⚠  "@ + device@ + ": Grown defects = "@
            + decimal_chars(count as nat),
        Alert::RaidDegraded { array } => "✗  RAID: "@ + array@ + " DEGRADED — disk missing"@,
    }
}

impl Alert {
    pub fn message(&self) -> (m: String)
        ensures
            m@ == alert_text(*self),
    {
        match self {
            Alert::HighTemperature { device, temp } => String::from_str("⚠  ").concat(
                device.as_str(),
            ).concat(": Temperature ").concat(decimal_text(*temp as u64).as_str()).concat(
                "°C exceeds 55°C",
            ),
            Alert::DiskFail { device } => String::from_str("✗  ").concat(device.as_str()).concat(
                ": SMART health FAIL",
            ),
            Alert::GrownDefects { device, count } => String::from_str("⚠  ").concat(
                device.as_str(),
            ).concat(": Grown defects = ").concat(decimal_text(*count).as_str()),
            Alert::RaidDegraded { array } => String::from_str("✗  RAID: ").concat(
                array.as_str(),
            ).concat(" DEGRADED — disk missing"),
        }
    }

    /// A failed disk or a degraded array is critical; the others warn.
    pub fn is_critical(&self) -> (r: bool)
        ensures
            r == (*self is DiskFail || *self is RaidDegraded),
    {
        match self {
            Alert::DiskFail { .. } | Alert::RaidDegraded { .. } => true,
            _ => false,
        }
    }
}

#[derive(Debug, Clone)]
pub struct DepError {
    pub tool: String,
    pub install_hint: String,
}

#[derive(Debug, Clone, Copy, PartialEq, Eq, Structural)]
pub enum RaidState {
    Active,
    Rebuilding,
    Degraded,
    Unknown,
}

/// What the monitor shows of an array, apart from the progress fraction.
#[derive(Debug, Clone, PartialEq, Eq)]
pub struct RaidSummary {
    pub name: String,
    pub state: RaidState,
    pub rebuild_speed_mb: Option<u64>,
    pub eta_minutes: Option<u64>,
    pub active_disks: u8,
    pub total_disks: u8,
}

/// Whether the array snapshot the monitor holds is complete.
#[derive(Debug, Clone, Copy, PartialEq, Eq, Structural)]
pub enum RaidAvailability {
    Complete,
    Partial,
    Unavailable,
}

#[derive(Debug, Clone, Copy, PartialEq, Eq, Structural)]
pub enum ViewMode {
    Table,
    Graph,
}

#[derive(Debug, Clone, Copy, PartialEq, Eq, Hash, Structural)]
pub enum FocusedPanel {
    DiskTable,
    SmartDetails,
    TempGraph,
    ReadGraph,
    WriteGraph,
    RaidGraph,
}

/// The alerts of one disk: a failed health check, a temperature above the
/// limit, and any grown defect, in that order. Unavailable health raises
/// nothing.
pub open spec fn disk_alerts(d: DiskInfo) -> Seq<Alert> {
    (if d.health == HealthStatus::Failed {
        seq![Alert::DiskFail { device: d.device }]
    } else {
        seq![]
    }) + (match d.temperature_c {
        Some(t) => if t > TEMPERATURE_ALERT_C {
            seq![Alert::HighTemperature { device: d.device, temp: t }]
        } else {
            seq![]
        },
        None => seq![],
    }) + (match d.grown_defects {
        Some(count) => if count > 0 {
            seq![Alert::GrownDefects { device: d.device, count }]
        } else {
            seq![]
        },
        None => seq![],
    })
}

pub open spec fn alert_views(v: Seq<Alert>) -> Seq<AlertView> {
    v.map_values(|a: Alert| alert_view(a))
}

/// An alert with its names taken as text.
pub enum AlertView {
    HighTemperature { device: Seq<char>, temp: u8 },
    DiskFail { device: Seq<char> },
    GrownDefects { device: Seq<char>, count: u64 },
    RaidDegraded { array: Seq<char> },
}

pub open spec fn alert_view(a: Alert) -> AlertView {
    match a {
        Alert::HighTemperature { device, temp } => AlertView::HighTemperature { device: device@, temp },
        Alert::DiskFail { device } => AlertView::DiskFail { device: device@ },
        Alert::GrownDefects { device, count } => AlertView::GrownDefects { device: device@, count },
        Alert::RaidDegraded { array } => AlertView::RaidDegraded { array: array@ },
    }
}

/// Alerts for every degraded array, in order, then for every disk.
pub open spec fn alerts_of(raids: Seq<RaidSummary>, disks: Seq<DiskInfo>) -> Seq<AlertView> {
    raid_alerts(raids, raids.len() as int) + disks_alerts(disks, disks.len() as int)
}

pub open spec fn raid_alerts(raids: Seq<RaidSummary>, k: int) -> Seq<AlertView>
    decreases k,
{
    if k <= 0 {
        seq![]
    } else if raids[k - 1].state == RaidState::Degraded {
        raid_alerts(raids, k - 1).push(AlertView::RaidDegraded { array: raids[k - 1].name@ })
    } else {
        raid_alerts(raids, k - 1)
    }
}

pub open spec fn disks_alerts(disks: Seq<DiskInfo>, k: int) -> Seq<AlertView>
    decreases k,
{
    if k <= 0 {
        seq![]
    } else {
        disks_alerts(disks, k - 1) + alert_views(disk_alerts(disks[k - 1]))
    }
}

/// The alerts to raise for the current arrays and disks.
pub fn collect_alerts(raids: &[RaidSummary], disks: &[DiskInfo]) -> (r: Vec<Alert>)
    ensures
        alert_views(r@) == alerts_of(raids@, disks@),
{
    let mut alerts: Vec<Alert> = Vec::new();
    let mut i: usize = 0;
    while i < raids.len()
        invariant
            i <= raids@.len(),
            alert_views(alerts@) == raid_alerts(raids@, i as int),
        decreases raids@.len() - i,
    {
        if raids[i].state == RaidState::Degraded {
            let ghost before = alerts@;
            alerts.push(Alert::RaidDegraded { array: raids[i].name.clone() });
            assert(alert_views(alerts@) =~= alert_views(before).push(
                AlertView::RaidDegraded { array: raids@[i as int].name@ },
            ));
        }
        i = i + 1;
    }
    let ghost raids_done = alert_views(alerts@);
    let mut k: usize = 0;
    assert(raids_done + disks_alerts(disks@, 0) =~= raids_done);
    while k < disks.len()
        invariant
            k <= disks@.len(),
            raids_done == raid_alerts(raids@, raids@.len() as int),
            alert_views(alerts@) == raids_done + disks_alerts(disks@, k as int),
        decreases disks@.len() - k,
    {
        let disk = &disks[k];
        let ghost before = alert_views(alerts@);
        let ghost mine: Seq<AlertView> = seq![];
        let ghost d = disks@[k as int];
        if disk.health == HealthStatus::Failed {
            alerts.push(Alert::DiskFail { device: disk.device.clone() });
        }
        let ghost after_fail = alert_views(alerts@);
        match disk.temperature_c {
            Some(t) => {
                if t > TEMPERATURE_ALERT_C {
                    alerts.push(Alert::HighTemperature { device: disk.device.clone(), temp: t });
                }
            },
            None => {},
        }
        let ghost after_temp = alert_views(alerts@);
        match disk.grown_defects {
            Some(count) => {
                if count > 0 {
                    alerts.push(Alert::GrownDefects { device: disk.device.clone(), count });
                }
            },
            None => {},
        }
        proof {
            let own = alert_views(disk_alerts(d));
            assert(alert_views(alerts@) =~= before + own);
            assert(before + own =~= raids_done + (disks_alerts(disks@, k as int) + own));
        }
        k = k + 1;
    }
    alerts
}

/// Whole devices of the inventory that no collected disk describes.
pub open spec fn missing_devices(names: Seq<Seq<char>>, collected: Seq<DiskInfo>, k: int) -> Seq<
    Seq<char>,
>
    decreases k,
{
    if k <= 0 {
        seq![]
    } else {
        let rest = missing_devices(names, collected, k - 1);
        if exists|i: int| 0 <= i < collected.len() && #[trigger] collected[i].device@ == names[k - 1] {
            rest
        } else if rest.contains(names[k - 1]) {
            rest
        } else {
            rest.push(names[k - 1])
        }
    }
}


pub open spec fn disk_views(v: Seq<DiskInfo>) -> Seq<DiskInfoView> {
    v.map_values(|d: DiskInfo| d@)
}

fn has_device(disks: &Vec<DiskInfo>, device: &String) -> (r: bool)
    ensures
        r == exists|i: int| 0 <= i < disks@.len() && #[trigger] disks@[i].device@ == device@,
{
    let mut i: usize = 0;
    while i < disks.len()
        invariant
            i <= disks@.len(),
            forall|k: int| 0 <= k < i ==> disks@[k].device@ != device@,
        decreases disks@.len() - i,
    {
        if disks[i].device == *device {
            assert(disks@[i as int].device@ == device@);
            return true;
        }
        i = i + 1;
    }
    false
}

/// The disk list shown: every collected disk, plus an unavailable entry
/// for each whole inventory device that was not collected, stably sorted by
/// device name.
pub fn merge_inventory_disks(inventory: &StorageInventory, collected: Vec<DiskInfo>) -> (r: Vec<
    DiskInfo,
>)
    ensures
        exists|input: Seq<DiskInfo>|
            disk_views(input) == disk_views(collected@) + missing_devices(
                whole_names(inventory.nodes@),
                collected@,
                whole_names(inventory.nodes@).len() as int,
            ).map_values(|d: Seq<char>| unavailable_disk(d)) && r@ == stable_sort(input),
        sorted_by_key(r@),
{
    let names = inventory.whole_device_names();
    let ghost ns = string_views(names@);
    let ghost original = collected@;
    let mut disks = collected;
    let mut k: usize = 0;
    while k < names.len()
        invariant
            ns == string_views(names@),
            ns == whole_names(inventory.nodes@),
            k <= names@.len(),
            disks@.len() >= original.len(),
            disks@.len() - original.len() == missing_devices(ns, original, k as int).len(),
            disks@.take(original.len() as int) == original,
            disk_views(disks@.skip(original.len() as int)) == missing_devices(ns, original, k as int).map_values(
                |d: Seq<char>| unavailable_disk(d),
            ),
            forall|i: int| 0 <= i < disks@.len() - original.len() ==> disks@[original.len() + i].device@ == #[trigger] missing_devices(ns, original, k as int)[i],
        decreases names@.len() - k,
    {
        let ghost missing = missing_devices(ns, original, k as int);
        let ghost before = disks@;
        assert(ns[k as int] == names@[k as int]@);
        if !has_device(&disks, &names[k]) {
            proof {
                // not among the collected disks, nor among those added
                assert(!(exists|i: int| 0 <= i < original.len() && #[trigger] original[i].device@ == ns[k as int])) by {
                    if exists|i: int| 0 <= i < original.len() && #[trigger] original[i].device@ == ns[k as int] {
                        let i = choose|i: int| 0 <= i < original.len() && #[trigger] original[i].device@ == ns[k as int];
                        assert(before.take(original.len() as int)[i] == before[i]);
                    }
                }
                if missing.contains(ns[k as int]) {
                    let i = choose|i: int| 0 <= i < missing.len() && missing[i] == ns[k as int];
                    assert(before[original.len() + i].device@ == ns[k as int]);
                }
            }
            disks.push(DiskInfo::unavailable(names[k].clone()));
            proof {
                let added = missing_devices(ns, original, k + 1);
                assert(added == missing.push(ns[k as int]));
                assert(disks@.take(original.len() as int) =~= before.take(original.len() as int));
                assert(disks@.skip(original.len() as int) =~= before.skip(original.len() as int).push(disks@.last()));
                assert(disk_views(disks@.skip(original.len() as int)) =~= disk_views(before.skip(original.len() as int)).push(unavailable_disk(ns[k as int])));
                assert(added.map_values(|d: Seq<char>| unavailable_disk(d)) =~= missing.map_values(|d: Seq<char>| unavailable_disk(d)).push(unavailable_disk(ns[k as int])));
            }
        } else {
            proof {
                let i = choose|i: int| 0 <= i < before.len() && #[trigger] before[i].device@ == ns[k as int];
                if i < original.len() {
                    assert(before.take(original.len() as int)[i] == before[i]);
                    assert(original[i].device@ == ns[k as int]);
                } else {
                    assert(missing[i - original.len()] == ns[k as int]);
                    assert(missing.contains(ns[k as int]));
                }
            }
        }
        k = k + 1;
    }
    proof {
        assert(disk_views(disks@) =~= disk_views(original) + disk_views(disks@.skip(original.len() as int))) by {
            assert(disks@ =~= disks@.take(original.len() as int) + disks@.skip(original.len() as int));
        }
    }
    let ghost input = disks@;
    let r = sort_by_key(disks);
    r
}

proof fn lemma_concat_contains<A>(a: Seq<A>, b: Seq<A>, x: A)
    ensures
        (a + b).contains(x) <==> a.contains(x) || b.contains(x),
{
    if (a + b).contains(x) {
        let k = choose|k: int| 0 <= k < (a + b).len() && (a + b)[k] == x;
        if k < a.len() {
            assert(a[k] == x);
        } else {
            assert(b[k - a.len()] == x);
        }
    }
    if a.contains(x) {
        let k = choose|k: int| 0 <= k < a.len() && a[k] == x;
        assert((a + b)[k] == x);
    }
    if b.contains(x) {
        let k = choose|k: int| 0 <= k < b.len() && b[k] == x;
        assert((a + b)[a.len() + k] == x);
    }
}

/// Why an alert is raised, said of the inputs: a degraded array of that
/// name, a disk of that name whose health check failed, a disk of that name
/// hotter than 55 °C at that temperature, or a disk of that name with that
/// many grown defects, more than zero.
pub open spec fn alert_cause(raids: Seq<RaidSummary>, disks: Seq<DiskInfo>, x: AlertView) -> bool {
    match x {
        AlertView::RaidDegraded { array } => exists|i: int|
            0 <= i < raids.len() && #[trigger] raids[i].name@ == array && raids[i].state
                == RaidState::Degraded,
        AlertView::DiskFail { device } => exists|j: int|
            0 <= j < disks.len() && #[trigger] disks[j].device@ == device && disks[j].health
                == HealthStatus::Failed,
        AlertView::HighTemperature { device, temp } => temp > 55 && exists|j: int|
            0 <= j < disks.len() && #[trigger] disks[j].device@ == device && disks[j].temperature_c
                == Some(temp),
        AlertView::GrownDefects { device, count } => count > 0 && exists|j: int|
            0 <= j < disks.len() && #[trigger] disks[j].device@ == device && disks[j].grown_defects
                == Some(count),
    }
}

proof fn lemma_raid_alerts_contain(raids: Seq<RaidSummary>, k: int, x: AlertView)
    requires
        0 <= k <= raids.len(),
    ensures
        raid_alerts(raids, k).contains(x) <==> (x is RaidDegraded && exists|i: int|
            0 <= i < k && #[trigger] raids[i].name@ == x->array && raids[i].state == RaidState::Degraded),
    decreases k,
{
    if k > 0 {
        lemma_raid_alerts_contain(raids, k - 1, x);
        let prior = raid_alerts(raids, k - 1);
        if raids[k - 1].state == RaidState::Degraded {
            let y = AlertView::RaidDegraded { array: raids[k - 1].name@ };
            lemma_concat_contains(prior, seq![y], x);
            assert(prior.push(y) == prior + seq![y]);
            if seq![y].contains(x) {
                assert(x == y);
            }
            if x == y {
                assert(seq![y][0] == x);
            }
        }
    }
}

proof fn lemma_disk_alerts_contain(d: DiskInfo, x: AlertView)
    ensures
        alert_views(disk_alerts(d)).contains(x) <==> match x {
            AlertView::RaidDegraded { .. } => false,
            AlertView::DiskFail { device } => device == d.device@ && d.health == HealthStatus::Failed,
            AlertView::HighTemperature { device, temp } => temp > 55 && device == d.device@
                && d.temperature_c == Some(temp),
            AlertView::GrownDefects { device, count } => count > 0 && device == d.device@
                && d.grown_defects == Some(count),
        },
{
    let a = if d.health == HealthStatus::Failed {
        seq![Alert::DiskFail { device: d.device }]
    } else {
        seq![]
    };
    let b = match d.temperature_c {
        Some(t) => if t > TEMPERATURE_ALERT_C {
            seq![Alert::HighTemperature { device: d.device, temp: t }]
        } else {
            seq![]
        },
        None => seq![],
    };
    let c = match d.grown_defects {
        Some(count) => if count > 0 {
            seq![Alert::GrownDefects { device: d.device, count }]
        } else {
            seq![]
        },
        None => seq![],
    };
    assert(disk_alerts(d) == a + b + c);
    assert(alert_views(a + b + c) =~= alert_views(a) + alert_views(b) + alert_views(c));
    lemma_concat_contains(alert_views(a) + alert_views(b), alert_views(c), x);
    lemma_concat_contains(alert_views(a), alert_views(b), x);
    if alert_views(a).contains(x) {
        assert(alert_views(a)[0] == x);
    }
    if alert_views(b).contains(x) {
        assert(alert_views(b)[0] == x);
    }
    if alert_views(c).contains(x) {
        assert(alert_views(c)[0] == x);
    }
    match x {
        AlertView::DiskFail { device } => {
            if device == d.device@ && d.health == HealthStatus::Failed {
                assert(alert_views(a)[0] == x);
            }
        },
        AlertView::HighTemperature { device, temp } => {
            if temp > 55 && device == d.device@ && d.temperature_c == Some(temp) {
                assert(alert_views(b)[0] == x);
            }
        },
        AlertView::GrownDefects { device, count } => {
            if count > 0 && device == d.device@ && d.grown_defects == Some(count) {
                assert(alert_views(c)[0] == x);
            }
        },
        _ => {},
    }
}

proof fn lemma_disks_alerts_contain(disks: Seq<DiskInfo>, k: int, x: AlertView)
    requires
        0 <= k <= disks.len(),
    ensures
        disks_alerts(disks, k).contains(x) <==> exists|j: int|
            0 <= j < k && alert_views(disk_alerts(#[trigger] disks[j])).contains(x),
    decreases k,
{
    if k > 0 {
        lemma_disks_alerts_contain(disks, k - 1, x);
        lemma_concat_contains(disks_alerts(disks, k - 1), alert_views(disk_alerts(disks[k - 1])), x);
    }
}

/// An alert is raised exactly when its cause holds: for every array and
/// disk, and only for them. In particular every degraded array raises
/// `RaidDegraded` with its name, and an array in any other state raises
/// nothing under its own name.
pub proof fn lemma_alerts_match_causes(raids: Seq<RaidSummary>, disks: Seq<DiskInfo>, x: AlertView)
    ensures
        alerts_of(raids, disks).contains(x) <==> alert_cause(raids, disks, x),
{
    lemma_concat_contains(raid_alerts(raids, raids.len() as int), disks_alerts(disks, disks.len() as int), x);
    lemma_raid_alerts_contain(raids, raids.len() as int, x);
    lemma_disks_alerts_contain(disks, disks.len() as int, x);
    if disks_alerts(disks, disks.len() as int).contains(x) {
        let j = choose|j: int| 0 <= j < disks.len() && alert_views(disk_alerts(#[trigger] disks[j])).contains(x);
        lemma_disk_alerts_contain(disks[j], x);
    }
    if alert_cause(raids, disks, x) {
        match x {
            AlertView::RaidDegraded { array } => {},
            AlertView::DiskFail { device } => {
                let j = choose|j: int| 0 <= j < disks.len() && #[trigger] disks[j].device@ == device
                    && disks[j].health == HealthStatus::Failed;
                lemma_disk_alerts_contain(disks[j], x);
            },
            AlertView::HighTemperature { device, temp } => {
                let j = choose|j: int| 0 <= j < disks.len() && #[trigger] disks[j].device@ == device
                    && disks[j].temperature_c == Some(temp);
                lemma_disk_alerts_contain(disks[j], x);
            },
            AlertView::GrownDefects { device, count } => {
                let j = choose|j: int| 0 <= j < disks.len() && #[trigger] disks[j].device@ == device
                    && disks[j].grown_defects == Some(count);
                lemma_disk_alerts_contain(disks[j], x);
            },
        }
    }
}

} // verus!
