//! The diagnostics report: the Server's own status with the Agent's fixed,
//! safe set of host facts, or the reason the Agent could not give them.

use vstd::prelude::*;

use crate::protocol::{AgentDiagnostics, DiagnosticAgent, DiagnosticServer, DiagnosticsReport};
use crate::text::owned;

verus! {

/// The download name of the report; it names no host, path or user.
pub const REPORT_FILENAME: &'static str = "attachment; filename=\"deckox-diagnostics.json\"";

/// How asking the Agent for `GET /v1/diagnostics` went.
pub enum AgentAnswer {
    /// No answer: the socket could not be reached.
    Unreachable,
    /// An answer with a status other than success.
    Refused,
    /// A success whose body is not the diagnostics.
    Invalid,
    Answered(AgentDiagnostics),
}

fn server_part(version: &str, status: &str) -> (r: DiagnosticServer)
    ensures
        r.version@ == version@,
        r.status@ == status@,
{
    DiagnosticServer { version: owned(version), status: owned(status) }
}

/// The report with the Agent's diagnostics; the Server is `running`.
pub fn available_report(generated_at_ms: u64, server_version: &str, agent: AgentDiagnostics) -> (r: DiagnosticsReport)
    ensures
        r.generated_at_ms == generated_at_ms,
        r.server.version@ == server_version@ && r.server.status@ == "running"@,
        r.agent.connected,
        crate::protocol::opt_view(r.agent.version) == Some(agent.version@),
        r.agent.error_code is None,
        r.host == Some(agent.host),
        r.deckox_services == Some(agent.deckox_services),
        r.runtime_config == Some(agent.runtime_config),
{
    let AgentDiagnostics { version, host, deckox_services, runtime_config } = agent;
    DiagnosticsReport {
        generated_at_ms,
        server: server_part(server_version, "running"),
        agent: DiagnosticAgent { connected: true, version: Some(version), error_code: None },
        host: Some(host),
        deckox_services: Some(deckox_services),
        runtime_config: Some(runtime_config),
    }
}

/// The report without the Agent's part: the Server is `degraded`, and the
/// error code says why.
pub fn failure_report(generated_at_ms: u64, server_version: &str, connected: bool, error_code: &str) -> (r: DiagnosticsReport)
    ensures
        r.generated_at_ms == generated_at_ms,
        r.server.version@ == server_version@ && r.server.status@ == "degraded"@,
        r.agent.connected == connected,
        r.agent.version is None,
        crate::protocol::opt_view(r.agent.error_code) == Some(error_code@),
        r.host is None && r.deckox_services is None && r.runtime_config is None,
{
    DiagnosticsReport {
        generated_at_ms,
        server: server_part(server_version, "degraded"),
        agent: DiagnosticAgent { connected, version: None, error_code: Some(owned(error_code)) },
        host: None,
        deckox_services: None,
        runtime_config: None,
    }
}

/// The report for the Agent's answer: `agent_unavailable` without one,
/// `diagnostics_unavailable` for a refusal, `invalid_agent_response` for a
/// body that is not the diagnostics.
pub fn report_for(generated_at_ms: u64, server_version: &str, answer: AgentAnswer) -> (r: DiagnosticsReport)
    ensures
        r.generated_at_ms == generated_at_ms,
        r.server.version@ == server_version@,
        match answer {
            AgentAnswer::Unreachable => !r.agent.connected && crate::protocol::opt_view(r.agent.error_code) == Some(
                "agent_unavailable"@,
            ) && r.host is None,
            AgentAnswer::Refused => r.agent.connected && crate::protocol::opt_view(r.agent.error_code) == Some(
                "diagnostics_unavailable"@,
            ) && r.host is None,
            AgentAnswer::Invalid => r.agent.connected && crate::protocol::opt_view(r.agent.error_code) == Some(
                "invalid_agent_response"@,
            ) && r.host is None,
            AgentAnswer::Answered(d) => r.agent.connected && r.agent.error_code is None && r.host == Some(d.host)
                && r.server.status@ == "running"@,
        },
{
    match answer {
        AgentAnswer::Unreachable => failure_report(generated_at_ms, server_version, false, "agent_unavailable"),
        AgentAnswer::Refused => failure_report(generated_at_ms, server_version, true, "diagnostics_unavailable"),
        AgentAnswer::Invalid => failure_report(generated_at_ms, server_version, true, "invalid_agent_response"),
        AgentAnswer::Answered(d) => available_report(generated_at_ms, server_version, d),
    }
}

} // verus!
