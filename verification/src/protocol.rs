//! The messages the Server and the Agent exchange, and the release-tag rule
//! both of them apply.

use vstd::prelude::*;

use crate::text::{all_digits, chars_of, digit, split, split_char};

verus! {

#[derive(Debug, Clone, PartialEq, Eq)]
pub struct HealthResponse {
    pub status: String,
}

#[derive(Debug, Clone, PartialEq, Eq)]
pub struct AgentStatus {
    pub status: String,
    pub hostname: String,
    pub operating_system: String,
    pub architecture: String,
    pub uptime_seconds: Option<u64>,
}

#[derive(Debug, Clone, PartialEq, Eq)]
pub struct SystemInfo {
    pub hostname: String,
    pub operating_system: String,
    pub os_version: Option<String>,
    pub kernel_version: String,
    pub architecture: String,
    pub uptime_seconds: u64,
    pub boot_id: Option<String>,
    pub timezone: Option<String>,
    /// IPv4 addresses with global scope on physical network interfaces.
    pub lan_addresses: Vec<String>,
}

#[derive(Debug, Clone, Copy, PartialEq, Eq)]
pub struct SystemCapabilities {
    pub reboot_allowed: bool,
    pub update_allowed: bool,
}

#[derive(Debug, Clone, PartialEq, Eq)]
pub struct AgentDiagnostics {
    pub version: String,
    pub host: DiagnosticHost,
    pub deckox_services: DeckoxServiceDiagnostics,
    pub runtime_config: RuntimeConfigSummary,
}

#[derive(Debug, Clone, PartialEq, Eq)]
pub struct DiagnosticsReport {
    pub generated_at_ms: u64,
    pub server: DiagnosticServer,
    pub agent: DiagnosticAgent,
    pub host: Option<DiagnosticHost>,
    pub deckox_services: Option<DeckoxServiceDiagnostics>,
    pub runtime_config: Option<RuntimeConfigSummary>,
}

#[derive(Debug, Clone, PartialEq, Eq)]
pub struct DiagnosticServer {
    pub version: String,
    pub status: String,
}

#[derive(Debug, Clone, PartialEq, Eq)]
pub struct DiagnosticAgent {
    pub connected: bool,
    pub version: Option<String>,
    pub error_code: Option<String>,
}

#[derive(Debug, Clone, PartialEq, Eq)]
pub struct DiagnosticHost {
    pub hostname: String,
    pub operating_system: String,
    pub os_version: Option<String>,
    pub kernel_version: String,
    pub architecture: String,
    pub uptime_seconds: u64,
    pub timezone: Option<String>,
    /// Packages `apt` already knows are upgradable from its local cache.
    pub upgradable_packages: Option<u32>,
}

#[derive(Debug, Clone, PartialEq, Eq)]
pub struct DeckoxServiceDiagnostics {
    pub agent: DiagnosticUnitState,
    pub server: DiagnosticUnitState,
}

#[derive(Debug, Clone, PartialEq, Eq)]
pub struct DiagnosticUnitState {
    pub load_state: String,
    pub active_state: String,
    pub sub_state: String,
    pub unit_file_state: Option<String>,
}

#[derive(Debug, Clone, Copy, PartialEq, Eq)]
pub struct RuntimeConfigSummary {
    pub reboot_allowed: bool,
    pub update_allowed: bool,
    pub allowed_services_count: usize,
}

#[derive(Debug, Clone, PartialEq, Eq)]
pub struct UpdateStatus {
    pub current_version: String,
    pub latest_version: Option<String>,
    pub update_available: bool,
    pub release_url: Option<String>,
    pub checked_at_ms: Option<u64>,
    pub status: UpdateCheckStatus,
}

#[derive(Debug, Clone, Copy, PartialEq, Eq, Structural)]
pub enum UpdateCheckStatus {
    UpToDate,
    Available,
    Unavailable,
}

/// Sent from Server to Agent to run a self-update: the release tag and the
/// installer fetched from that tag.
#[derive(Debug, Clone, PartialEq, Eq)]
pub struct AgentUpdateRequest {
    pub target_version: String,
    pub install_script: String,
}

#[derive(Debug, Clone, Copy, PartialEq, Eq)]
pub struct NetworkMetrics {
    pub received_bytes_per_second: u64,
    pub transmitted_bytes_per_second: u64,
}

#[derive(Debug, Clone, Copy, PartialEq, Eq)]
pub struct DiskIoMetrics {
    pub read_bytes_per_second: u64,
    pub written_bytes_per_second: u64,
}

#[derive(Debug, Clone, Copy, PartialEq, Eq)]
pub struct MemoryMetrics {
    pub total_bytes: u64,
    pub used_bytes: u64,
    pub available_bytes: u64,
    pub swap_total_bytes: u64,
    pub swap_used_bytes: u64,
}

/// One pre-update snapshot the installer took.
#[derive(Debug, Clone, PartialEq, Eq)]
pub struct BackupSummary {
    pub name: String,
    /// `None` when the installer recorded the replaced version as `unknown`.
    pub previous_version: Option<String>,
    pub created_at_ms: Option<u64>,
    pub size_bytes: u64,
}

#[derive(Debug, Clone, PartialEq, Eq)]
pub struct ServiceSummary {
    pub id: String,
    pub description: String,
    pub load_state: String,
    pub active_state: String,
    pub sub_state: String,
    pub unit_file_state: Option<String>,
    pub control_allowed: bool,
}

#[derive(Debug, Clone, PartialEq, Eq)]
pub struct ServiceDetails {
    pub id: String,
    pub description: String,
    pub load_state: String,
    pub active_state: String,
    pub sub_state: String,
    pub unit_file_state: Option<String>,
    pub main_pid: Option<u32>,
    pub control_allowed: bool,
}

/// State of one admin-managed package.
#[derive(Debug, Clone, PartialEq, Eq)]
pub struct SoftwarePackage {
    pub name: String,
    pub installed: bool,
    pub installed_version: Option<String>,
    pub available_version: Option<String>,
    pub upgradable: bool,
}

#[derive(Debug, Clone, Copy, PartialEq, Eq, Structural)]
pub enum SoftwareAction {
    Install,
    Remove,
    Upgrade,
}

#[derive(Debug, Clone, PartialEq, Eq)]
pub enum AgentCommand {
    GetSystemStatus,
    ListServices,
    StartService { service_id: String },
    StopService { service_id: String },
    RestartService { service_id: String },
}

#[derive(Debug, Clone, Copy, PartialEq, Eq, Structural)]
pub enum ServiceAction {
    Start,
    Stop,
    Restart,
    Enable,
    Disable,
}

/// The service actions worth repeating on a timer.
#[derive(Debug, Clone, Copy, PartialEq, Eq, Structural)]
pub enum ScheduleAction {
    Start,
    Stop,
    Restart,
}

/// A recurring `action` the Agent runs against `service_id` on its own.
#[derive(Debug, Clone, PartialEq, Eq)]
pub struct ServiceSchedule {
    pub id: String,
    pub service_id: String,
    pub action: ScheduleAction,
    /// Local time, 0-23.
    pub hour: u8,
    /// Local time, 0-59.
    pub minute: u8,
    /// ISO weekday numbers (1 = Monday ... 7 = Sunday), never empty.
    pub weekdays: Vec<u8>,
    pub enabled: bool,
    pub created_at_ms: u64,
    pub last_run_at_ms: Option<u64>,
    /// `"success"` or `"failed: <reason>"`; `None` until the first run.
    pub last_result: Option<String>,
}

/// A schedule as plain values.
pub struct ScheduleView {
    pub id: Seq<char>,
    pub service_id: Seq<char>,
    pub action: ScheduleAction,
    pub hour: u8,
    pub minute: u8,
    pub weekdays: Seq<u8>,
    pub enabled: bool,
    pub created_at_ms: u64,
    pub last_run_at_ms: Option<u64>,
    pub last_result: Option<Seq<char>>,
}

impl View for ServiceSchedule {
    type V = ScheduleView;

    open spec fn view(&self) -> ScheduleView {
        ScheduleView {
            id: self.id@,
            service_id: self.service_id@,
            action: self.action,
            hour: self.hour,
            minute: self.minute,
            weekdays: self.weekdays@,
            enabled: self.enabled,
            created_at_ms: self.created_at_ms,
            last_run_at_ms: self.last_run_at_ms,
            last_result: match self.last_result {
                Some(r) => Some(r@),
                None => None,
            },
        }
    }
}

impl ServiceSchedule {
    /// A copy with the same fields.
    pub fn copy(&self) -> (r: ServiceSchedule)
        ensures
            r@ == self@,
    {
        let mut weekdays: Vec<u8> = Vec::new();
        let mut i: usize = 0;
        while i < self.weekdays.len()
            invariant
                i <= self.weekdays@.len(),
                weekdays@ == self.weekdays@.take(i as int),
            decreases self.weekdays@.len() - i,
        {
            weekdays.push(self.weekdays[i]);
            assert(weekdays@ =~= self.weekdays@.take(i + 1));
            i = i + 1;
        }
        assert(self.weekdays@.take(i as int) =~= self.weekdays@);
        ServiceSchedule {
            id: self.id.clone(),
            service_id: self.service_id.clone(),
            action: self.action,
            hour: self.hour,
            minute: self.minute,
            weekdays,
            enabled: self.enabled,
            created_at_ms: self.created_at_ms,
            last_run_at_ms: self.last_run_at_ms,
            last_result: match &self.last_result {
                Some(r) => Some(r.clone()),
                None => None,
            },
        }
    }
}

#[derive(Debug, Clone, PartialEq, Eq)]
pub struct CreateScheduleRequest {
    pub service_id: String,
    pub action: ScheduleAction,
    pub hour: u8,
    pub minute: u8,
    pub weekdays: Vec<u8>,
}

#[derive(Debug, Clone, PartialEq, Eq)]
pub struct ServiceLogs {
    pub service_id: String,
    pub entries: Vec<ServiceLogEntry>,
}

#[derive(Debug, Clone, PartialEq, Eq)]
pub struct ServiceLogEntry {
    pub timestamp_ms: u64,
    pub priority: u8,
    pub message: String,
    pub process: Option<String>,
    pub pid: Option<u32>,
}

#[derive(Debug, Clone, Copy, PartialEq, Eq, Structural)]
pub enum ServiceLogPriority {
    All,
    Error,
    Warning,
    Info,
}

#[derive(Debug, Clone, PartialEq, Eq)]
pub struct CommandResult {
    pub command_id: String,
    pub status: CommandStatus,
    pub message: Option<String>,
}

#[derive(Debug, Clone, Copy, PartialEq, Eq, Structural)]
pub enum CommandStatus {
    Accepted,
    Running,
    Completed,
    Failed,
}

/// A single recorded administrative action.
#[derive(Debug, Clone, PartialEq, Eq)]
pub struct AuditEvent {
    pub timestamp_ms: u64,
    pub event: String,
    pub actor: String,
    pub source_ip: String,
    pub result: String,
    pub detail: Option<String>,
}

#[derive(Debug, Clone, PartialEq, Eq)]
pub struct AuditPage {
    pub events: Vec<AuditEvent>,
    pub has_more: bool,
}

/// The protocol revision the Server and the Agent speak; both must agree.
pub const PROTOCOL_VERSION: u32 = 1;

/// What the Agent says of itself (`GET /v1/info`).
#[derive(Debug, Clone, PartialEq, Eq)]
pub struct AgentInfo {
    pub protocol_version: u32,
    pub agent_version: String,
    /// Identifies the Agent process; positions in its event stream are
    /// meaningful only within one epoch.
    pub epoch: String,
}

#[derive(Debug, Clone, Copy, PartialEq, Eq, Structural)]
pub enum EventResult {
    Accepted,
    Rejected,
    Completed,
    Failed,
}

/// One numbered entry of the Agent's event stream.
#[derive(Debug, Clone, PartialEq, Eq)]
pub struct AgentEvent {
    pub seq: u64,
    pub timestamp_ms: u64,
    pub kind: String,
    pub result: EventResult,
    pub subject: String,
    pub request_id: Option<String>,
    pub command_id: Option<String>,
    pub message: Option<String>,
}

/// Optional texts as plain values.
pub open spec fn opt_view(o: Option<String>) -> Option<Seq<char>> {
    match o {
        Some(s) => Some(s@),
        None => None,
    }
}

/// A copy of an optional string.
pub fn copy_opt(o: &Option<String>) -> (r: Option<String>)
    ensures
        opt_view(r) == opt_view(*o),
{
    match o {
        Some(s) => Some(s.clone()),
        None => None,
    }
}

/// An event as plain values.
pub struct EventView {
    pub seq: u64,
    pub timestamp_ms: u64,
    pub kind: Seq<char>,
    pub result: EventResult,
    pub subject: Seq<char>,
    pub request_id: Option<Seq<char>>,
    pub command_id: Option<Seq<char>>,
    pub message: Option<Seq<char>>,
}

impl View for AgentEvent {
    type V = EventView;

    open spec fn view(&self) -> EventView {
        EventView {
            seq: self.seq,
            timestamp_ms: self.timestamp_ms,
            kind: self.kind@,
            result: self.result,
            subject: self.subject@,
            request_id: opt_view(self.request_id),
            command_id: opt_view(self.command_id),
            message: opt_view(self.message),
        }
    }
}

impl AgentEvent {
    pub fn copy(&self) -> (r: AgentEvent)
        ensures
            r@ == self@,
    {
        AgentEvent {
            seq: self.seq,
            timestamp_ms: self.timestamp_ms,
            kind: self.kind.clone(),
            result: self.result,
            subject: self.subject.clone(),
            request_id: copy_opt(&self.request_id),
            command_id: copy_opt(&self.command_id),
            message: copy_opt(&self.message),
        }
    }
}

/// An update status as plain values.
pub struct StatusView {
    pub current_version: Seq<char>,
    pub latest_version: Option<Seq<char>>,
    pub update_available: bool,
    pub release_url: Option<Seq<char>>,
    pub checked_at_ms: Option<u64>,
    pub status: UpdateCheckStatus,
}

impl View for UpdateStatus {
    type V = StatusView;

    open spec fn view(&self) -> StatusView {
        StatusView {
            current_version: self.current_version@,
            latest_version: opt_view(self.latest_version),
            update_available: self.update_available,
            release_url: opt_view(self.release_url),
            checked_at_ms: self.checked_at_ms,
            status: self.status,
        }
    }
}

impl UpdateStatus {
    pub fn copy(&self) -> (r: UpdateStatus)
        ensures
            r@ == self@,
    {
        UpdateStatus {
            current_version: self.current_version.clone(),
            latest_version: copy_opt(&self.latest_version),
            update_available: self.update_available,
            release_url: copy_opt(&self.release_url),
            checked_at_ms: self.checked_at_ms,
            status: self.status,
        }
    }
}

/// A page of the Agent's event stream.
#[derive(Debug, Clone, PartialEq, Eq)]
pub struct EventBatch {
    pub epoch: String,
    pub events: Vec<AgentEvent>,
    /// The position to ask from next time.
    pub next_after: u64,
}

/// A well-formed `vMAJOR.MINOR.PATCH` tag: `v`, then exactly three
/// dot-separated non-empty runs of ASCII digits.
pub open spec fn valid_release_tag(s: Seq<char>) -> bool {
    &&& s.len() > 0
    &&& s[0] == 'v'
    &&& split(s.drop_first(), '.').len() == 3
    &&& forall|k: int|
        0 <= k < 3 ==> #[trigger] split(s.drop_first(), '.')[k].len() > 0 && all_digits(
            split(s.drop_first(), '.')[k],
        )
}

/// `true` for well-formed `vMAJOR.MINOR.PATCH` release tags such as `v0.4.2`.
///
/// Both Server and Agent check a release tag with this before it is put in a
/// fetch URL or handed to the self-update installer.
pub fn is_valid_release_tag(value: &str) -> (r: bool)
    ensures
        r == valid_release_tag(value@),
{
    let v = chars_of(value);
    if v.len() == 0 || v[0] != 'v' {
        return false;
    }
    let parts = split_char(&v, 1, v.len(), '.');
    assert(v@.subrange(1, v@.len() as int) =~= value@.drop_first());
    if parts.len() != 3 {
        return false;
    }
    let mut k: usize = 0;
    while k < 3
        invariant
            v@ == value@,
            v@.len() > 0 && v@[0] == 'v',
            parts@.len() == 3,
            crate::text::spans_are(v@, parts@, split(value@.drop_first(), '.')),
            k <= 3,
            forall|j: int|
                0 <= j < k ==> #[trigger] split(value@.drop_first(), '.')[j].len() > 0
                    && all_digits(split(value@.drop_first(), '.')[j]),
        decreases 3 - k,
    {
        let (a, b) = parts[k];
        let ghost piece = split(value@.drop_first(), '.')[k as int];
        assert(v@.subrange(a as int, b as int) == piece);
        if a == b {
            assert(split(value@.drop_first(), '.')[k as int].len() == 0);
            return false;
        }
        let mut i = a;
        while i < b
            invariant
                a <= i <= b <= v@.len(),
                v@.subrange(a as int, b as int) == piece,
                piece == split(value@.drop_first(), '.')[k as int],
                k < 3,
                forall|j: int| 0 <= j < i - a ==> crate::text::is_digit(#[trigger] piece[j]),
            decreases b - i,
        {
            if !digit(v[i]) {
                assert(!crate::text::is_digit(piece[i - a]));
                assert(!all_digits(split(value@.drop_first(), '.')[k as int]));
                return false;
            }
            i = i + 1;
        }
        assert(all_digits(piece));
        k = k + 1;
    }
    true
}

} // verus!
