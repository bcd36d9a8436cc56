//! Decisions of the system monitor: which alerts the readings raise, which
//! one the badge shows, and when the badge is updated.
//!
//! The readings (CPU, memory, disks, GPU, Ollama) are taken by the caller;
//! percentages are computed there.
use crate::text::{
    decimal, first_index, lemma_first_index, lemma_no_index, push_decimal, push_str, str_chars,
    str_eq,
};
use vstd::prelude::*;

verus! {

/// Configuration for the monitor daemon.
#[derive(Clone)]
pub struct MonitorConfig {
    pub interval_secs: u64,
    pub cpu_warn: u8,
    pub cpu_crit: u8,
    pub mem_warn: u8,
    pub mem_crit: u8,
    pub disk_warn: u8,
    pub disk_crit: u8,
    pub gpu_warn: u8,
    pub gpu_crit: u8,
    pub ollama_url: String,
    pub idle_message: Option<String>,
}

impl Default for MonitorConfig {
    fn default() -> (config: Self)
        ensures
            config.interval_secs == 5,
            config.cpu_warn == 80,
            config.cpu_crit == 95,
            config.mem_warn == 80,
            config.mem_crit == 95,
            config.disk_warn == 80,
            config.disk_crit == 95,
            config.gpu_warn == 80,
            config.gpu_crit == 95,
            config.ollama_url@ == "http://localhost:11434"@,
            config.idle_message is None,
    {
        MonitorConfig {
            interval_secs: 5,
            cpu_warn: 80,
            cpu_crit: 95,
            mem_warn: 80,
            mem_crit: 95,
            disk_warn: 80,
            disk_crit: 95,
            gpu_warn: 80,
            gpu_crit: 95,
            ollama_url: "http://localhost:11434".to_owned(),
            idle_message: None,
        }
    }
}

/// Alert severity level.
#[derive(Debug, Clone, Copy, PartialEq, Eq, Structural)]
pub enum AlertLevel {
    Normal,
    Info,
    Warning,
    Critical,
}

impl AlertLevel {
    /// The tag printed before a message of this level.
    pub fn tag(&self) -> (t: &'static str)
        ensures
            *self == AlertLevel::Critical ==> t@ == "CRIT"@,
            *self == AlertLevel::Warning ==> t@ == "WARN"@,
            *self == AlertLevel::Info ==> t@ == "INFO"@,
            *self == AlertLevel::Normal ==> t@ == "IDLE"@,
    {
        match self {
            AlertLevel::Critical => "CRIT",
            AlertLevel::Warning => "WARN",
            AlertLevel::Info => "INFO",
            AlertLevel::Normal => "IDLE",
        }
    }
}

/// An alert to display on the badge.
#[derive(Debug, Clone)]
pub struct Alert {
    /// Lower numbers are shown first.
    pub priority: u8,
    pub icon: &'static str,
    pub message: String,
    pub level: AlertLevel,
}

/// What an alert says.
pub struct AlertModel {
    pub priority: u8,
    pub icon: Seq<char>,
    pub message: Seq<char>,
    pub level: AlertLevel,
}

impl View for Alert {
    type V = AlertModel;

    open spec fn view(&self) -> AlertModel {
        AlertModel {
            priority: self.priority,
            icon: self.icon@,
            message: self.message@,
            level: self.level,
        }
    }
}

pub open spec fn alert_model(
    priority: u8,
    icon: Seq<char>,
    message: Seq<char>,
    level: AlertLevel,
) -> AlertModel {
    AlertModel { priority, icon, message, level }
}

/// The model of an optional alert.
pub open spec fn opt_alert(a: Option<Alert>) -> Option<AlertModel> {
    match a {
        Some(a) => Some(a@),
        None => None,
    }
}

/// The badge message of an alert: `:icon:message`, or the message alone
/// when there is no icon.
pub open spec fn badge_message(a: AlertModel) -> Seq<char> {
    if a.icon.len() == 0 {
        a.message
    } else {
        seq![':'] + a.icon + seq![':'] + a.message
    }
}

/// `prefix`, the number in decimal, then `%`.
pub open spec fn percent_text(prefix: Seq<char>, pct: u8) -> Seq<char> {
    prefix + decimal(pct as nat) + seq!['%']
}

/// The alert for a usage percentage: critical at or above `crit`,
/// otherwise warning at or above `warn`, otherwise none.
pub open spec fn usage_alert(
    pct: u8,
    warn: u8,
    crit: u8,
    icon: Seq<char>,
    crit_priority: u8,
    crit_message: Seq<char>,
    warn_priority: u8,
) -> Option<AlertModel> {
    if pct >= crit {
        Some(alert_model(crit_priority, icon, crit_message, AlertLevel::Critical))
    } else if pct >= warn {
        Some(alert_model(warn_priority, icon, percent_text(" "@, pct), AlertLevel::Warning))
    } else {
        None
    }
}

impl Alert {
    /// An alert without icon at the lowest priority.
    pub fn normal(message: String) -> (a: Self)
        ensures
            a@ == alert_model(255, ""@, message@, AlertLevel::Normal),
    {
        Alert { priority: 255, icon: "", message, level: AlertLevel::Normal }
    }

    pub fn info(priority: u8, icon: &'static str, message: String) -> (a: Self)
        ensures
            a@ == alert_model(priority, icon@, message@, AlertLevel::Info),
    {
        Alert { priority, icon, message, level: AlertLevel::Info }
    }

    pub fn warning(priority: u8, icon: &'static str, message: String) -> (a: Self)
        ensures
            a@ == alert_model(priority, icon@, message@, AlertLevel::Warning),
    {
        Alert { priority, icon, message, level: AlertLevel::Warning }
    }

    pub fn critical(priority: u8, icon: &'static str, message: String) -> (a: Self)
        ensures
            a@ == alert_model(priority, icon@, message@, AlertLevel::Critical),
    {
        Alert { priority, icon, message, level: AlertLevel::Critical }
    }

    /// Formats the alert as a badge message.
    pub fn to_badge_message(&self) -> (m: String)
        ensures
            m@ == badge_message(self@),
    {
        if self.icon.is_empty() {
            self.message.clone()
        } else {
            let mut m = String::new();
            m.push(':');
            push_str(&mut m, self.icon);
            m.push(':');
            push_str(&mut m, self.message.as_str());
            assert(m@ =~= badge_message(self@));
            m
        }
    }
}

/// `prefix` followed by `pct` in decimal and `%`.
fn percent_message(prefix: &str, pct: u8) -> (m: String)
    ensures
        m@ == percent_text(prefix@, pct),
{
    let mut m = String::new();
    push_str(&mut m, prefix);
    push_decimal(&mut m, pct as u64);
    m.push('%');
    assert(m@ =~= percent_text(prefix@, pct));
    m
}

/// The alert for a usage percentage (see `usage_alert`).
fn usage_level_alert(
    pct: u8,
    warn: u8,
    crit: u8,
    icon: &'static str,
    crit_priority: u8,
    crit_message: String,
    warn_priority: u8,
) -> (a: Option<Alert>)
    ensures
        opt_alert(a) == usage_alert(pct, warn, crit, icon@, crit_priority, crit_message@, warn_priority),
{
    if pct >= crit {
        Some(Alert::critical(crit_priority, icon, crit_message))
    } else if pct >= warn {
        Some(Alert::warning(warn_priority, icon, percent_message(" ", pct)))
    } else {
        None
    }
}

/// CPU alert for a usage of `usage_pct` percent: priority 4 when critical, 8 when a warning.
pub fn collect_cpu_alert(usage_pct: u8, config: &MonitorConfig) -> (a: Option<Alert>)
    ensures
        opt_alert(a) == usage_alert(
            usage_pct,
            config.cpu_warn,
            config.cpu_crit,
            "cpu"@,
            4,
            percent_text(" CRIT "@, usage_pct),
            8,
        ),
{
    let crit_message = percent_message(" CRIT ", usage_pct);
    usage_level_alert(usage_pct, config.cpu_warn, config.cpu_crit, "cpu", 4, crit_message, 8)
}

/// Memory alert: none when the total is unknown (0); otherwise priority 2
/// when critical, 6 when a warning.
pub fn collect_memory_alert(total: u64, usage_pct: u8, config: &MonitorConfig) -> (a: Option<Alert>)
    ensures
        total == 0 ==> a is None,
        total != 0 ==> opt_alert(a) == usage_alert(
            usage_pct,
            config.mem_warn,
            config.mem_crit,
            "memory"@,
            2,
            percent_text(" CRIT "@, usage_pct),
            6,
        ),
{
    if total == 0 {
        return None;
    }
    let crit_message = percent_message(" CRIT ", usage_pct);
    usage_level_alert(usage_pct, config.mem_warn, config.mem_crit, "memory", 2, crit_message, 6)
}

/// A mounted filesystem as the disk listing reports it.
pub struct DiskUsage {
    /// Mount point, where it is valid UTF-8.
    pub mount_point: Option<String>,
    /// Total space in bytes.
    pub total: u64,
    /// Used space in percent of the total (meaningless when the total is 0).
    pub usage_pct: u8,
}

/// The disk counts: it is mounted at `/` with a known size.
pub open spec fn is_root_disk(d: DiskUsage) -> bool {
    &&& d.mount_point matches Some(m) && m@ == "/"@
    &&& d.total != 0
}

/// The alert of one disk: priority 1 when critical, 9 when a warning.
pub open spec fn disk_usage_alert(d: DiskUsage, config: MonitorConfig) -> Option<AlertModel> {
    usage_alert(d.usage_pct, config.disk_warn, config.disk_crit, "disk"@, 1, " FULL!"@, 9)
}

/// The first root disk that raises an alert decides; the others are not looked at.
pub open spec fn disks_alert(disks: Seq<DiskUsage>, config: MonitorConfig) -> Option<AlertModel>
    decreases disks.len(),
{
    if disks.len() == 0 {
        None
    } else if is_root_disk(disks[0]) && disk_usage_alert(disks[0], config) is Some {
        disk_usage_alert(disks[0], config)
    } else {
        disks_alert(disks.drop_first(), config)
    }
}

/// Disk alert for the root filesystem.
pub fn collect_disk_alert(disks: &Vec<DiskUsage>, config: &MonitorConfig) -> (a: Option<Alert>)
    ensures
        opt_alert(a) == disks_alert(disks@, *config),
{
    let n = disks.len();
    let mut i: usize = 0;
    assert(disks@.skip(0) =~= disks@);
    while i < n
        invariant
            i <= n,
            n == disks@.len(),
            disks_alert(disks@, *config) == disks_alert(disks@.skip(i as int), *config),
        decreases n - i,
    {
        let d = &disks[i];
        assert(disks@.skip(i as int)[0] == disks@[i as int]);
        assert(disks@.skip(i as int).drop_first() =~= disks@.skip(i + 1));
        let is_root = match &d.mount_point {
            Some(m) => str_eq(m.as_str(), "/"),
            None => false,
        };
        if is_root && d.total != 0 {
            let a = usage_level_alert(
                d.usage_pct,
                config.disk_warn,
                config.disk_crit,
                "disk",
                1,
                " FULL!".to_owned(),
                9,
            );
            if a.is_some() {
                return a;
            }
        }
        i = i + 1;
    }
    None
}

/// GPU alert for a utilization reading, taken modulo 256 as a byte:
/// priority 3 when critical, 7 when a warning; none without a reading.
pub fn collect_gpu_alert(utilization: Option<u32>, config: &MonitorConfig) -> (a: Option<Alert>)
    ensures
        utilization is None ==> a is None,
        utilization matches Some(u) ==> opt_alert(a) == usage_alert(
            (u % 256) as u8,
            config.gpu_warn,
            config.gpu_crit,
            "gpu"@,
            3,
            percent_text(" CRIT "@, (u % 256) as u8),
            7,
        ),
{
    match utilization {
        None => None,
        Some(u) => {
            let usage_pct = (u % 256) as u8;
            let crit_message = percent_message(" CRIT ", usage_pct);
            usage_level_alert(usage_pct, config.gpu_warn, config.gpu_crit, "gpu", 3, crit_message, 7)
        },
    }
}

/// The model name without its tag: everything before the first `:`.
pub open spec fn model_base_name(name: Seq<char>) -> Seq<char> {
    match first_index(name, ':') {
        Some(j) => name.take(j),
        None => name,
    }
}

/// The alert for the models Ollama reports as loaded.
pub open spec fn models_alert(models: Option<Seq<Seq<char>>>) -> Option<AlertModel> {
    match models {
        Some(ms) => if ms.len() > 0 {
            Some(alert_model(5, "info"@, seq![' '] + model_base_name(ms[0]), AlertLevel::Info))
        } else {
            None
        },
        None => None,
    }
}

/// The names of the loaded models.
pub open spec fn model_names(models: Option<Vec<String>>) -> Option<Seq<Seq<char>>> {
    match models {
        Some(v) => Some(v@.map_values(|s: String| s@)),
        None => None,
    }
}

/// Ollama alert: the first loaded model, at priority 5, as information.
/// `models` is `None` when the server did not answer or listed no models field.
pub fn collect_ollama_alert(models: &Option<Vec<String>>) -> (a: Option<Alert>)
    ensures
        opt_alert(a) == models_alert(model_names(*models)),
{
    match models {
        Some(list) => {
            if list.len() == 0 {
                return None;
            }
            let name = str_chars(list[0].as_str());
            let n = name.len();
            let mut j: usize = 0;
            while j < n && name[j] != ':'
                invariant
                    j <= n,
                    n == name@.len(),
                    forall|k: int| 0 <= k < j ==> name@[k] != ':',
                decreases n - j,
            {
                j = j + 1;
            }
            proof {
                if j < n {
                    lemma_first_index(name@, ':', j as int);
                    assert(name@.take(j as int) =~= name@.subrange(0, j as int));
                } else {
                    lemma_no_index(name@, ':');
                    assert(name@.subrange(0, j as int) =~= name@);
                }
            }
            let mut message = String::new();
            message.push(' ');
            let mut k: usize = 0;
            while k < j
                invariant
                    k <= j <= n,
                    n == name@.len(),
                    message@ == seq![' '] + name@.subrange(0, k as int),
                decreases j - k,
            {
                message.push(name[k]);
                assert(name@.subrange(0, k + 1) =~= name@.subrange(0, k as int).push(name@[k as int]));
                k = k + 1;
            }
            assert(list@.map_values(|s: String| s@)[0] == list@[0]@);
            Some(Alert::info(5, "info", message))
        },
        None => None,
    }
}

/// What the monitor reads each round.
pub struct SystemReadings {
    /// CPU usage in percent.
    pub cpu_usage_pct: u8,
    /// Total memory in bytes.
    pub memory_total: u64,
    /// Used memory in percent of the total (meaningless when the total is 0).
    pub memory_usage_pct: u8,
    pub disks: Vec<DiskUsage>,
    /// GPU utilization, where a GPU could be read.
    pub gpu_utilization: Option<u32>,
    /// Names of the models Ollama has loaded, where it answered.
    pub ollama_models: Option<Vec<String>>,
}

/// The alerts of one round, in the order CPU, memory, disk, GPU, Ollama.
pub open spec fn readings_alerts(r: SystemReadings, config: MonitorConfig) -> Seq<AlertModel> {
    let cpu = usage_alert(
        r.cpu_usage_pct,
        config.cpu_warn,
        config.cpu_crit,
        "cpu"@,
        4,
        percent_text(" CRIT "@, r.cpu_usage_pct),
        8,
    );
    let memory = if r.memory_total == 0 {
        None
    } else {
        usage_alert(
            r.memory_usage_pct,
            config.mem_warn,
            config.mem_crit,
            "memory"@,
            2,
            percent_text(" CRIT "@, r.memory_usage_pct),
            6,
        )
    };
    let disk = disks_alert(r.disks@, config);
    let gpu = match r.gpu_utilization {
        Some(u) => usage_alert(
            (u % 256) as u8,
            config.gpu_warn,
            config.gpu_crit,
            "gpu"@,
            3,
            percent_text(" CRIT "@, (u % 256) as u8),
            7,
        ),
        None => None,
    };
    let ollama = models_alert(model_names(r.ollama_models));
    present(cpu) + present(memory) + present(disk) + present(gpu) + present(ollama)
}

/// Each source's alert is among a round's alerts whenever its reading
/// reaches a threshold: CPU (critical priority 4, warning 8), memory when
/// its total is known (2, 6), GPU (3, 7), and the Ollama model (5).
pub proof fn lemma_round_alerts(r: SystemReadings, config: MonitorConfig)
    ensures
        r.cpu_usage_pct >= config.cpu_crit ==> readings_alerts(r, config).contains(
            alert_model(4, "cpu"@, " CRIT "@ + decimal(r.cpu_usage_pct as nat) + seq!['%'], AlertLevel::Critical),
        ),
        config.cpu_warn <= r.cpu_usage_pct < config.cpu_crit ==> readings_alerts(r, config).contains(
            alert_model(8, "cpu"@, " "@ + decimal(r.cpu_usage_pct as nat) + seq!['%'], AlertLevel::Warning),
        ),
        r.memory_total != 0 && r.memory_usage_pct >= config.mem_crit ==> readings_alerts(
            r,
            config,
        ).contains(
            alert_model(
                2,
                "memory"@,
                " CRIT "@ + decimal(r.memory_usage_pct as nat) + seq!['%'],
                AlertLevel::Critical,
            ),
        ),
        r.memory_total != 0 && config.mem_warn <= r.memory_usage_pct < config.mem_crit
            ==> readings_alerts(r, config).contains(
            alert_model(6, "memory"@, " "@ + decimal(r.memory_usage_pct as nat) + seq!['%'], AlertLevel::Warning),
        ),
        forall|u: u32|
            r.gpu_utilization == Some(u) && (u % 256) as u8 >= config.gpu_crit ==> readings_alerts(
                r,
                config,
            ).contains(
                alert_model(
                    3,
                    "gpu"@,
                    " CRIT "@ + decimal((u % 256) as nat) + seq!['%'],
                    AlertLevel::Critical,
                ),
            ),
        forall|u: u32|
            r.gpu_utilization == Some(u) && config.gpu_warn <= ((u % 256) as u8) < config.gpu_crit
                ==> readings_alerts(r, config).contains(
                alert_model(7, "gpu"@, " "@ + decimal((u % 256) as nat) + seq!['%'], AlertLevel::Warning),
            ),
        forall|ms: Vec<String>|
            r.ollama_models == Some(ms) && ms@.len() > 0 ==> readings_alerts(r, config).contains(
                alert_model(5, "info"@, seq![' '] + model_base_name(ms@[0]@), AlertLevel::Info),
            ),
        readings_alerts(r, config).len() <= 5,
{
    let cpu = usage_alert(
        r.cpu_usage_pct,
        config.cpu_warn,
        config.cpu_crit,
        "cpu"@,
        4,
        percent_text(" CRIT "@, r.cpu_usage_pct),
        8,
    );
    let memory = if r.memory_total == 0 {
        None
    } else {
        usage_alert(
            r.memory_usage_pct,
            config.mem_warn,
            config.mem_crit,
            "memory"@,
            2,
            percent_text(" CRIT "@, r.memory_usage_pct),
            6,
        )
    };
    let disk = disks_alert(r.disks@, config);
    let gpu = match r.gpu_utilization {
        Some(u) => usage_alert(
            (u % 256) as u8,
            config.gpu_warn,
            config.gpu_crit,
            "gpu"@,
            3,
            percent_text(" CRIT "@, (u % 256) as u8),
            7,
        ),
        None => None,
    };
    let ollama = models_alert(model_names(r.ollama_models));
    let all = readings_alerts(r, config);
    let p1 = present(cpu);
    let p2 = present(memory);
    let p3 = present(disk);
    let p4 = present(gpu);
    let p5 = present(ollama);
    assert(all == p1 + p2 + p3 + p4 + p5);
    if let Some(a) = cpu {
        assert(all[0] == a);
    }
    if let Some(a) = memory {
        assert(all[p1.len() as int] == a);
    }
    if let Some(a) = gpu {
        assert(all[(p1.len() + p2.len() + p3.len()) as int] == a);
    }
    if let Some(a) = ollama {
        assert(all[(p1.len() + p2.len() + p3.len() + p4.len()) as int] == a);
    }
    assert forall|u: u32|
        r.gpu_utilization == Some(u) && (u % 256) as u8 >= config.gpu_crit implies all.contains(
            alert_model(
                3,
                "gpu"@,
                " CRIT "@ + decimal((u % 256) as nat) + seq!['%'],
                AlertLevel::Critical,
            ),
        ) by {
        assert(all[(p1.len() + p2.len() + p3.len()) as int] == gpu.unwrap());
    }
    assert forall|u: u32|
        r.gpu_utilization == Some(u) && config.gpu_warn <= ((u % 256) as u8) < config.gpu_crit
            implies all.contains(
            alert_model(7, "gpu"@, " "@ + decimal((u % 256) as nat) + seq!['%'], AlertLevel::Warning),
        ) by {
        assert(all[(p1.len() + p2.len() + p3.len()) as int] == gpu.unwrap());
    }
    assert forall|ms: Vec<String>|
        r.ollama_models == Some(ms) && ms@.len() > 0 implies all.contains(
            alert_model(5, "info"@, seq![' '] + model_base_name(ms@[0]@), AlertLevel::Info),
        ) by {
        assert(model_names(r.ollama_models).unwrap()[0] == ms@[0]@);
        assert(all[(p1.len() + p2.len() + p3.len() + p4.len()) as int] == ollama.unwrap());
    }
}

/// The alert, if any, as a sequence of zero or one.
pub open spec fn present(a: Option<AlertModel>) -> Seq<AlertModel> {
    match a {
        Some(a) => seq![a],
        None => Seq::empty(),
    }
}

/// The models of a vector of alerts.
pub open spec fn alert_models(v: Seq<Alert>) -> Seq<AlertModel> {
    v.map_values(|a: Alert| a@)
}

fn push_present(alerts: &mut Vec<Alert>, a: Option<Alert>)
    ensures
        alert_models(final(alerts)@) == alert_models(old(alerts)@) + present(opt_alert(a)),
{
    if let Some(a) = a {
        alerts.push(a);
    }
    assert(alert_models(alerts@) =~= alert_models(old(alerts)@) + present(opt_alert(a)));
}

/// Collects the alerts of all sources.
pub fn collect_all_alerts(readings: &SystemReadings, config: &MonitorConfig) -> (alerts: Vec<Alert>)
    ensures
        alert_models(alerts@) == readings_alerts(*readings, *config),
{
    let mut alerts: Vec<Alert> = Vec::new();
    assert(alert_models(alerts@) =~= Seq::<AlertModel>::empty());
    push_present(&mut alerts, collect_cpu_alert(readings.cpu_usage_pct, config));
    push_present(
        &mut alerts,
        collect_memory_alert(readings.memory_total, readings.memory_usage_pct, config),
    );
    push_present(&mut alerts, collect_disk_alert(&readings.disks, config));
    push_present(&mut alerts, collect_gpu_alert(readings.gpu_utilization, config));
    push_present(&mut alerts, collect_ollama_alert(&readings.ollama_models));
    assert(alert_models(alerts@) =~= readings_alerts(*readings, *config));
    alerts
}

/// `i` is the first alert of the lowest priority number.
pub open spec fn is_top(alerts: Seq<AlertModel>, i: int) -> bool {
    &&& 0 <= i < alerts.len()
    &&& forall|k: int| 0 <= k < alerts.len() ==> alerts[i].priority <= alerts[k].priority
    &&& forall|k: int| 0 <= k < i ==> alerts[k].priority > alerts[i].priority
}

/// The alert the badge shows: the first one of the lowest priority number.
pub open spec fn top_alert(alerts: Seq<AlertModel>) -> Option<AlertModel> {
    if alerts.len() == 0 {
        None
    } else {
        Some(alerts[choose|i: int| is_top(alerts, i)])
    }
}

/// Index of the alert the badge shows, as `min_by_key` on the priority picks it.
pub fn top_alert_index(alerts: &Vec<Alert>) -> (r: Option<usize>)
    ensures
        alerts@.len() == 0 <==> r is None,
        r matches Some(i) ==> is_top(alert_models(alerts@), i as int),
{
    let n = alerts.len();
    if n == 0 {
        return None;
    }
    let ghost s = alert_models(alerts@);
    let mut best: usize = 0;
    let mut i: usize = 1;
    while i < n
        invariant
            1 <= i <= n,
            n == alerts@.len(),
            s == alert_models(alerts@),
            best < i,
            forall|k: int| 0 <= k < i ==> s[best as int].priority <= s[k].priority,
            forall|k: int| 0 <= k < best ==> s[k].priority > s[best as int].priority,
        decreases n - i,
    {
        if alerts[i].priority < alerts[best].priority {
            best = i;
        }
        i = i + 1;
    }
    Some(best)
}

proof fn lemma_top_unique(alerts: Seq<AlertModel>, i: int)
    requires
        is_top(alerts, i),
    ensures
        top_alert(alerts) == Some(alerts[i]),
{
    let j = choose|j: int| is_top(alerts, j);
    assert(is_top(alerts, j));
    if j < i {
        assert(alerts[j].priority > alerts[i].priority);
    } else if i < j {
        assert(alerts[i].priority > alerts[j].priority);
    }
}

/// Some alert of a non-empty list is its top alert.
pub proof fn lemma_top_exists(alerts: Seq<AlertModel>)
    requires
        alerts.len() > 0,
    ensures
        exists|i: int| is_top(alerts, i),
    decreases alerts.len(),
{
    if alerts.len() == 1 {
        assert(is_top(alerts, 0));
    } else {
        let prev = alerts.drop_last();
        lemma_top_exists(prev);
        let i = choose|i: int| is_top(prev, i);
        let last = alerts.len() - 1;
        if alerts[last].priority < alerts[i].priority {
            assert forall|k: int| 0 <= k < alerts.len() implies alerts[last].priority
                <= alerts[k].priority by {
                if k < last {
                    assert(prev[k] == alerts[k]);
                }
            }
            assert forall|k: int| 0 <= k < last implies alerts[k].priority
                > alerts[last].priority by {
                assert(prev[k] == alerts[k]);
            }
            assert(is_top(alerts, last));
        } else {
            assert forall|k: int| 0 <= k < alerts.len() implies alerts[i].priority
                <= alerts[k].priority by {
                if k < last {
                    assert(prev[k] == alerts[k]);
                }
            }
            assert forall|k: int| 0 <= k < i implies alerts[k].priority > alerts[i].priority by {
                assert(prev[k] == alerts[k]);
            }
            assert(is_top(alerts, i));
        }
    }
}

/// Critical alerts have priorities 1 to 4, the Ollama information 5, and
/// warnings 6 to 9.
pub open spec fn ranked(a: AlertModel) -> bool {
    &&& a.level != AlertLevel::Normal
    &&& a.level == AlertLevel::Critical <==> 1 <= a.priority <= 4
    &&& a.level == AlertLevel::Info <==> a.priority == 5
    &&& a.level == AlertLevel::Warning <==> 6 <= a.priority <= 9
}

/// Every alert of a round is ranked by its level.
pub proof fn lemma_alerts_ranked(r: SystemReadings, config: MonitorConfig)
    ensures
        forall|i: int| 0 <= i < readings_alerts(r, config).len() ==> ranked(
            #[trigger] readings_alerts(r, config)[i],
        ),
{
    lemma_disks_alert_ranked(r.disks@, config);
}

proof fn lemma_disks_alert_ranked(disks: Seq<DiskUsage>, config: MonitorConfig)
    ensures
        disks_alert(disks, config) matches Some(a) ==> ranked(a),
    decreases disks.len(),
{
    if disks.len() > 0 {
        lemma_disks_alert_ranked(disks.drop_first(), config);
    }
}

/// When any source is critical, the alert the badge shows is critical.
pub proof fn lemma_critical_first(r: SystemReadings, config: MonitorConfig)
    ensures
        (exists|i: int|
            0 <= i < readings_alerts(r, config).len() && #[trigger] readings_alerts(r, config)[i].level
                == AlertLevel::Critical) ==> (top_alert(readings_alerts(r, config)) matches Some(top)
            && top.level == AlertLevel::Critical),
{
    let alerts = readings_alerts(r, config);
    lemma_alerts_ranked(r, config);
    if exists|i: int| 0 <= i < alerts.len() && #[trigger] alerts[i].level == AlertLevel::Critical {
        let i = choose|i: int| 0 <= i < alerts.len() && #[trigger] alerts[i].level
            == AlertLevel::Critical;
        lemma_top_exists(alerts);
        let t = choose|t: int| is_top(alerts, t);
        assert(ranked(alerts[i]));
        assert(ranked(alerts[t]));
        assert(alerts[t].priority <= alerts[i].priority);
        lemma_top_unique(alerts, t);
    }
}

/// What the monitor loop does after a round.
pub enum MonitorAction {
    /// Show an alert's message, logged with its level.
    Show { level: AlertLevel, message: String },
    /// Show the idle message.
    ShowIdle(String),
    /// Nothing to change.
    Unchanged,
}

/// What an action says.
pub enum ActionModel {
    Show { level: AlertLevel, message: Seq<char> },
    ShowIdle(Seq<char>),
    Unchanged,
}

impl View for MonitorAction {
    type V = ActionModel;

    open spec fn view(&self) -> ActionModel {
        match self {
            MonitorAction::Show { level, message } => ActionModel::Show {
                level: *level,
                message: message@,
            },
            MonitorAction::ShowIdle(m) => ActionModel::ShowIdle(m@),
            MonitorAction::Unchanged => ActionModel::Unchanged,
        }
    }
}

/// What the monitor remembers between rounds.
pub struct MonitorState {
    /// The message the badge was last given.
    pub last_alert: Option<String>,
}

/// What the monitor's memory says.
pub struct StateModel {
    pub last_alert: Option<Seq<char>>,
}

impl View for MonitorState {
    type V = StateModel;

    open spec fn view(&self) -> StateModel {
        StateModel {
            last_alert: match self.last_alert {
                Some(m) => Some(m@),
                None => None,
            },
        }
    }
}

/// One round of the monitor with idle message `idle`: the next state and the action.
pub open spec fn step_spec(state: StateModel, alerts: Seq<AlertModel>, idle: Seq<char>) -> (
    StateModel,
    ActionModel,
) {
    match top_alert(alerts) {
        Some(top) => {
            let message = badge_message(top);
            if state.last_alert != Some(message) {
                (StateModel { last_alert: Some(message) }, ActionModel::Show { level: top.level, message })
            } else {
                (state, ActionModel::Unchanged)
            }
        },
        None => if state.last_alert != Some(idle) {
            (StateModel { last_alert: Some(idle) }, ActionModel::ShowIdle(idle))
        } else {
            (state, ActionModel::Unchanged)
        },
    }
}

/// Whether an optional string holds exactly the given characters.
fn holds(s: &Option<String>, m: &String) -> (r: bool)
    ensures
        r == (s matches Some(x) && x@ == m@),
{
    match s {
        Some(x) => *x == *m,
        None => false,
    }
}

impl MonitorState {
    /// The state before the first round.
    pub fn new() -> (s: Self)
        ensures
            s@ == (StateModel { last_alert: None }),
    {
        MonitorState { last_alert: None }
    }

    /// Decides one round from its alerts: the highest-priority alert is shown
    /// when its message differs from the last one shown; with no alerts the
    /// idle message (see `get_idle_message`) is shown when it differs from the
    /// last one shown.
    pub fn step(&mut self, alerts: &Vec<Alert>, idle_message: &String) -> (action: MonitorAction)
        ensures
            (final(self)@, action@) == step_spec(old(self)@, alert_models(alerts@), idle_message@),
    {
        let ghost s = alert_models(alerts@);
        match top_alert_index(alerts) {
            Some(i) => {
                proof {
                    lemma_top_unique(s, i as int);
                }
                let alert = &alerts[i];
                let message = alert.to_badge_message();
                if !holds(&self.last_alert, &message) {
                    let shown = message.clone();
                    self.last_alert = Some(message);
                    MonitorAction::Show { level: alert.level, message: shown }
                } else {
                    MonitorAction::Unchanged
                }
            },
            None => {
                assert(s.len() == 0);
                if !holds(&self.last_alert, idle_message) {
                    self.last_alert = Some(idle_message.clone());
                    MonitorAction::ShowIdle(idle_message.clone())
                } else {
                    MonitorAction::Unchanged
                }
            },
        }
    }
}

/// A round with alerts shows the top alert's badge message exactly when it
/// differs from the last message shown, and then remembers it; otherwise
/// nothing changes.
pub proof fn lemma_step_shows_new_top(state: StateModel, alerts: Seq<AlertModel>, idle: Seq<char>)
    requires
        alerts.len() > 0,
    ensures
        ({
            let top = top_alert(alerts).unwrap();
            let m = badge_message(top);
            &&& state.last_alert != Some(m) ==> step_spec(state, alerts, idle) == (
                StateModel { last_alert: Some(m) },
                ActionModel::Show { level: top.level, message: m },
            )
            &&& state.last_alert == Some(m) ==> step_spec(state, alerts, idle) == (
                state,
                ActionModel::Unchanged,
            )
        }),
{
}

/// The top alert is one of the alerts, and no alert has a lower priority number.
pub proof fn lemma_top_alert_is_minimal(alerts: Seq<AlertModel>)
    requires
        alerts.len() > 0,
    ensures
        alerts.contains(top_alert(alerts).unwrap()),
        forall|k: int|
            0 <= k < alerts.len() ==> top_alert(alerts).unwrap().priority <= #[trigger] alerts[k].priority,
{
    lemma_top_exists(alerts);
    let t = choose|t: int| is_top(alerts, t);
    lemma_top_unique(alerts, t);
}

/// A second round with the same alerts and idle message changes nothing.
pub proof fn lemma_step_settles(state: StateModel, alerts: Seq<AlertModel>, idle: Seq<char>)
    ensures
        ({
            let first = step_spec(state, alerts, idle);
            let second = step_spec(first.0, alerts, idle);
            second.0 == first.0 && second.1 == ActionModel::Unchanged
        }),
{
}

/// A round without alerts shows the idle message unless it was the last
/// message shown.
pub proof fn lemma_idle_shown(state: StateModel, idle: Seq<char>)
    ensures
        state.last_alert != Some(idle) ==> step_spec(state, Seq::empty(), idle) == (
            StateModel { last_alert: Some(idle) },
            ActionModel::ShowIdle(idle),
        ),
{
}

/// Reads the host name through `gethostname::gethostname`, converted lossily
/// to UTF-8. Nothing is claimed of the result: it depends on the machine.
/// `gethostname` panics only when the operating system call fails, which its
/// documentation rules out for a buffer of the maximum host name size.
#[verifier::external_body]
fn host_name() -> String {
    gethostname::gethostname().to_string_lossy().to_string()
}

/// The idle message: the configured one, or else the host name.
pub fn get_idle_message(config: &MonitorConfig) -> (m: String)
    ensures
        config.idle_message matches Some(c) ==> m@ == c@,
{
    match &config.idle_message {
        Some(msg) => msg.clone(),
        None => host_name(),
    }
}

} // verus!
