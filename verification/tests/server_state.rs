use deckox::server::layout::put_layout;
use deckox::protocol::{
    AgentDiagnostics, DeckoxServiceDiagnostics, DiagnosticHost, DiagnosticUnitState,
    RuntimeConfigSummary,
};
use deckox::server::diagnostics::{failure_report, report_for, AgentAnswer};
use deckox::server::security_headers::security_headers;
use deckox::protocol::{
    is_valid_release_tag, AgentEvent, AgentInfo, EventBatch, EventResult, ServiceLogPriority,
    ServiceSummary, UpdateCheckStatus, UpdateStatus, PROTOCOL_VERSION,
};
use deckox::server::cli::{
    access_report, confirmed, no_account_file, password_from_input, subcommand, Subcommand,
};
use deckox::server::doctor::{check_agent_config, document_checks, check_version, unit_check, verdict, Level, ReadFailure};
use deckox::server::events::EventFeed;
use deckox::server::layout::{check_layout, validate, LayoutShape, StoredLayout};
use deckox::server::metrics::{minimum_interval, should_send, MetricsQuery, Subscriptions};
use deckox::server::modules::{resolve, ModuleRegistry};
use deckox::server::notifier::{
    service_transitions, threshold_transition, update_notification, webhook_test_reply,
    NotifierState,
};
use deckox::server::proxy::{
    log_priority_name, logs_disposition, service_logs_path, service_path, valid_log_lines,
    valid_service_id,
};
use deckox::server::terminal::{connect_refusal, status_body, TerminalClient};
use deckox::server::test_support::{Canned, FakeAgent};
use deckox::server::update::{
    accumulate_chunk, evaluate_update, install_script, release_status, SemVer, install_script_url, parse_version,
    BoundedBodyError, InstallScriptError, StatusCache, MAX_RESPONSE_BYTES,
};

fn info(epoch: &str, protocol_version: u32) -> AgentInfo {
    AgentInfo {
        protocol_version,
        agent_version: "0.0.0".to_owned(),
        epoch: epoch.to_owned(),
    }
}

fn agent_event(seq: u64, subject: &str) -> AgentEvent {
    AgentEvent {
        seq,
        timestamp_ms: 1,
        kind: "service_action".to_owned(),
        result: EventResult::Accepted,
        subject: subject.to_owned(),
        request_id: Some("req".to_owned()),
        command_id: None,
        message: None,
    }
}

fn kinds(feed: &EventFeed) -> Vec<String> {
    feed.since(0).events.into_iter().map(|event| event.kind).collect()
}

fn config_read(text: &str) -> Result<String, ReadFailure> {
    Ok(text.to_owned())
}

fn json(text: &str) -> serde_json::Value {
    serde_json::from_str(text).expect("test JSON")
}

fn service(id: &str, active_state: &str, control_allowed: bool) -> ServiceSummary {
    ServiceSummary {
        id: id.to_owned(),
        description: String::new(),
        load_state: "loaded".to_owned(),
        active_state: active_state.to_owned(),
        sub_state: String::new(),
        unit_file_state: None,
        control_allowed,
    }
}

fn update_status(latest_version: Option<&str>) -> UpdateStatus {
    UpdateStatus {
        current_version: "0.0.0-test".to_owned(),
        latest_version: latest_version.map(str::to_owned),
        update_available: latest_version.is_some(),
        release_url: None,
        checked_at_ms: Some(0),
        status: if latest_version.is_some() {
            UpdateCheckStatus::Available
        } else {
            UpdateCheckStatus::UpToDate
        },
    }
}

#[test]
fn version_marker_must_match_the_binary() {
    assert_eq!(check_version("2.0.0", Some("2.0.0\n")).level, Level::Okay);
    assert_eq!(check_version("2.0.0", Some("v2.0.0")).level, Level::Okay);
    assert_eq!(check_version("2.0.0", Some("1.9.9")).level, Level::Warn);
    assert_eq!(check_version("2.0.0", None).level, Level::Warn);
}

#[test]
fn a_healthy_config_reports_its_settings() {
    let checks = check_agent_config(
        "/etc/deckox/agent.toml",
        config_read(
            "[system]\nallow_reboot = true\n[software]\nauto_adopt = false\nallowed = [\"git\"]\n[services]\nallowed = [\"a.service\", \"b.service\"]\n",
        ),
    );
    assert_eq!(checks.len(), 1);
    assert_eq!(checks[0].level, Level::Okay);
    assert!(checks[0].detail.contains("reboot allowed"), "{}", checks[0].detail);
    assert!(checks[0].detail.contains("2 allowed service(s)"), "{}", checks[0].detail);
    assert!(checks[0].detail.contains("auto_adopt off"), "{}", checks[0].detail);
}

#[test]
fn missing_tables_warn_and_bad_syntax_fails() {
    let checks = check_agent_config(
        "/etc/deckox/agent.toml",
        config_read("[services]\nallowed = [\"docker.service\"]\n"),
    );
    assert_eq!(
        checks.iter().filter(|check| check.level == Level::Warn).count(),
        2,
        "[system] and [software] are reported missing"
    );

    let broken = check_agent_config("/etc/deckox/agent.toml", config_read("[services\nallowed = ["));
    assert_eq!(broken[0].level, Level::Fail);
    let missing = check_agent_config(
        "/nonexistent/agent.toml",
        Err(ReadFailure::Other("No such file or directory".to_owned())),
    );
    assert_eq!(missing[0].level, Level::Fail);
    let denied = check_agent_config("/etc/deckox/agent.toml", Err(ReadFailure::PermissionDenied));
    assert_eq!(denied[0].level, Level::Warn);
}

#[test]
fn the_verdict_names_failures_and_counts_warnings() {
    let active = unit_check("deckox-agent.service", Some("active\n"));
    assert_eq!(active.level, Level::Okay);
    assert_eq!(active.name, "agent unit");
    let inactive = unit_check("deckox-server.service", Some("inactive"));
    assert_ne!(inactive.level, Level::Okay);
    let warn = check_version("2.0.0", None);
    assert!(verdict(&vec![active.clone(), warn.clone()]).is_ok());
    let failed = check_agent_config("/x", config_read("[services\n"));
    assert!(verdict(&vec![active, warn, failed[0].clone()]).is_err());
    assert!(check_version("2.0.0", None).render().contains("version"));
}

#[test]
fn follows_the_agent_and_numbers_its_own_stream() {
    let mut feed = EventFeed::new("instance");
    assert!(feed.apply_info(&info("e1", PROTOCOL_VERSION), 1));
    feed.apply_batch(EventBatch {
        epoch: "e1".to_owned(),
        events: vec![agent_event(1, "a"), agent_event(2, "b")],
        next_after: 2,
    });

    let batch = feed.since(0);
    assert_eq!(kinds(&feed), ["agent_connected", "service_action", "service_action"]);
    assert_eq!(batch.next_after, 3);
    assert_eq!(feed.position(), (2, Some("e1".to_owned())));
    assert!(batch.agent.connected && batch.agent.compatible);
    assert_eq!(feed.since(3).events.len(), 0);
}

#[test]
fn a_new_epoch_means_the_agent_restarted() {
    let mut feed = EventFeed::new("instance");
    feed.apply_info(&info("e1", PROTOCOL_VERSION), 1);
    feed.apply_batch(EventBatch {
        epoch: "e1".to_owned(),
        events: vec![agent_event(1, "a")],
        next_after: 1,
    });
    feed.apply_info(&info("e2", PROTOCOL_VERSION), 2);

    assert_eq!(feed.position(), (0, Some("e2".to_owned())), "read from the start again");
    assert!(kinds(&feed).contains(&"agent_restarted".to_owned()));
}

#[test]
fn losing_and_regaining_the_agent_is_reported_once_each() {
    let mut feed = EventFeed::new("instance");
    feed.apply_info(&info("e1", PROTOCOL_VERSION), 1);
    feed.apply_unreachable("gone", 2);
    feed.apply_unreachable("still gone", 3);
    assert!(!feed.since(0).agent.connected);
    feed.apply_info(&info("e1", PROTOCOL_VERSION), 4);

    assert_eq!(kinds(&feed), ["agent_connected", "agent_disconnected", "agent_connected"]);
}

#[test]
fn a_different_protocol_version_is_reported_and_events_are_skipped() {
    let mut feed = EventFeed::new("instance");
    assert!(!feed.apply_info(&info("e1", PROTOCOL_VERSION + 1), 1));
    assert!(!feed.apply_info(&info("e1", PROTOCOL_VERSION + 1), 2));

    let mismatches = kinds(&feed)
        .into_iter()
        .filter(|kind| kind == "protocol_mismatch")
        .count();
    assert_eq!(mismatches, 1, "reported once, not on every poll");
    assert!(!feed.since(0).agent.compatible);
}

#[test]
fn an_agent_without_v1_info_is_treated_as_an_older_protocol() {
    let mut feed = EventFeed::new("instance");
    assert!(!feed.apply_info(&info("e1", 0), 1));
    assert!(!feed.since(0).agent.compatible);
}

#[test]
fn starts_empty_and_counts_saves() {
    let empty = StoredLayout::empty();
    assert_eq!(empty.revision, 0);
    assert!(empty.layout.is_none());

    let first = empty.saved(json("{\"version\": 1, \"pages\": []}"));
    assert_eq!(first.revision, 1);
    let second = first.saved(json("{\"version\": 1, \"pages\": [{\"id\": \"a\"}]}"));
    assert_eq!(second.revision, 2);
    assert_eq!(second.layout, Some(json("{\"version\": 1, \"pages\": [{\"id\": \"a\"}]}")));
}

#[test]
fn refuses_layouts_the_web_cannot_read() {
    let many_pages = format!("{{\"version\": 1, \"pages\": [{}]}}", vec!["{}"; 51].join(","));
    let padded = format!("{{\"version\": 1, \"pages\": [], \"pad\": \"{}\"}}", "x".repeat(300_000));
    for bad in [
        "[]".to_owned(),
        "{\"pages\": []}".to_owned(),
        "{\"version\": \"1\", \"pages\": []}".to_owned(),
        "{\"version\": 1}".to_owned(),
        many_pages,
        padded,
    ] {
        assert!(check_layout(&json(&bad)).is_err(), "{}", &bad[..bad.len().min(40)]);
    }
    assert!(check_layout(&json("{\"version\": 1, \"pages\": []}")).is_ok());
}

#[test]
fn each_layout_check_has_its_message() {
    let shape = LayoutShape { object: true, numeric_version: true, pages: Some(3), size: 100 };
    assert_eq!(validate(shape), Ok(3));
    assert_eq!(
        validate(LayoutShape { object: false, ..shape }),
        Err("layout must be a JSON object".to_owned())
    );
    assert_eq!(
        validate(LayoutShape { numeric_version: false, ..shape }),
        Err("layout needs a numeric version".to_owned())
    );
    assert_eq!(validate(LayoutShape { pages: None, ..shape }), Err("layout needs a pages list".to_owned()));
    assert_eq!(
        validate(LayoutShape { pages: Some(51), ..shape }),
        Err("layout has more than 50 pages".to_owned())
    );
    assert_eq!(
        validate(LayoutShape { size: 262_145, ..shape }),
        Err("layout is larger than 262144 bytes".to_owned())
    );
}

#[test]
fn validates_service_ids_before_proxying() {
    assert!(valid_service_id("nginx.service"));
    assert!(valid_service_id("postgresql@main.service"));
    assert!(!valid_service_id("-nginx.service"));
    assert!(!valid_service_id("nginx.service/restart"));
    assert!(!valid_service_id("nginx.service\r\nHost: bad"));
}

#[test]
fn validates_log_queries_before_proxying() {
    assert!(valid_log_lines(50));
    assert!(valid_log_lines(500));
    assert!(!valid_log_lines(0));
    assert!(!valid_log_lines(501));
    assert_eq!(log_priority_name(ServiceLogPriority::All), "all");
    assert_eq!(log_priority_name(ServiceLogPriority::Error), "error");
    assert_eq!(log_priority_name(ServiceLogPriority::Warning), "warning");
    assert_eq!(log_priority_name(ServiceLogPriority::Info), "info");
}

#[test]
fn log_attachment_names_the_file_after_the_service() {
    assert_eq!(
        logs_disposition("nginx.service"),
        "attachment; filename=\"deckox-service-logs-nginx.service.json\""
    );
    assert_eq!(service_path("nginx.service", Some("restart")), "/v1/services/nginx.service/restart");
    assert_eq!(
        service_logs_path("nginx.service", 100, ServiceLogPriority::Error),
        "/v1/services/nginx.service/logs?lines=100&priority=error"
    );
}

#[test]
fn accepts_only_supported_intervals() {
    assert_eq!(MetricsQuery { interval: Some(2) }.interval_seconds(), 2);
    assert_eq!(MetricsQuery { interval: Some(3) }.interval_seconds(), 1);
    assert_eq!(MetricsQuery { interval: Some(2) }.interval(), std::time::Duration::from_secs(2));
    assert_eq!(MetricsQuery { interval: None }.interval(), std::time::Duration::from_secs(1));
}

#[test]
fn sampler_is_idle_without_subscribers() {
    assert_eq!(minimum_interval(&vec![]), None);
}

#[test]
fn sampler_uses_fastest_subscriber_interval() {
    let subscriptions = vec![(1, 5), (2, 1), (3, 2)];
    assert_eq!(minimum_interval(&subscriptions), Some(1));
}

#[test]
fn subscriptions_come_and_go() {
    let mut subscriptions = Subscriptions::new();
    assert_eq!(subscriptions.minimum_interval(), None);
    let slow = subscriptions.subscribe(5);
    let fast = subscriptions.subscribe(1);
    assert_ne!(slow, fast);
    assert_eq!(subscriptions.minimum_interval(), Some(1));
    subscriptions.unsubscribe(fast);
    assert_eq!(subscriptions.minimum_interval(), Some(5));
    assert!(should_send(None, 10, 1));
    assert!(!should_send(Some(10), 10, 1));
}

#[test]
fn the_environment_overrides_the_file_only_when_it_names_a_module() {
    let file = || vec!["audit".to_owned()];
    assert_eq!(resolve(None, file()), ["audit"]);
    assert_eq!(resolve(Some(""), file()), ["audit"]);
    assert_eq!(resolve(Some(" , "), file()), ["audit"]);
    assert_eq!(resolve(Some("realtime, notifications"), file()), ["realtime", "notifications"]);
}

#[test]
fn paths_map_to_their_module() {
    assert_eq!(ModuleRegistry::owner_of("/api/v1/audit"), Some("audit"));
    assert_eq!(ModuleRegistry::owner_of("/api/v1/audit/report"), Some("audit"));
    assert_eq!(ModuleRegistry::owner_of("/api/v1/events/metrics"), Some("realtime"));
    assert_eq!(ModuleRegistry::owner_of("/api/v1/update"), Some("update-check"));
    assert_eq!(
        ModuleRegistry::owner_of("/api/v1/system/update"),
        None,
        "that one is the Agent's update module"
    );
    assert_eq!(ModuleRegistry::owner_of("/api/v1/events"), None, "the event feed is core");
    assert_eq!(ModuleRegistry::owner_of("/api/v1/auth/login"), None);
}

#[test]
fn a_typo_in_the_environment_list_is_refused() {
    assert!(ModuleRegistry::new(&vec!["audti".to_owned()]).is_err());
    let registry = ModuleRegistry::new(&vec!["audit".to_owned()]).expect("valid");
    assert!(!registry.is_enabled("audit"));
    assert!(registry.is_enabled("notifications"));
    assert_eq!(registry.infos().iter().filter(|module| !module.enabled).count(), 1);
}

#[test]
fn threshold_transition_fires_once_on_the_way_up_and_down() {
    let at = |value: f64| value >= 80.0;
    assert_eq!(threshold_transition(false, at(79.0)), None);
    assert_eq!(threshold_transition(false, at(80.0)), Some(true));
    assert_eq!(threshold_transition(true, at(80.0)), None);
    assert_eq!(threshold_transition(true, at(79.9)), Some(false));
    assert_eq!(threshold_transition(false, at(79.9)), None);
}

#[test]
fn update_notification_fires_once_per_new_version() {
    let status = update_status(Some("9.9.9"));

    assert_eq!(update_notification(&status, None), Some("9.9.9".to_owned()));
    assert_eq!(
        update_notification(&status, Some("9.9.9")),
        None,
        "already notified about this exact version"
    );
    assert_eq!(
        update_notification(&status, Some("9.9.8")),
        Some("9.9.9".to_owned()),
        "a newer version than the one last notified should notify again"
    );

    let mut state = NotifierState::new();
    assert_eq!(state.observe_update(&status), Some("9.9.9".to_owned()));
    assert_eq!(state.observe_update(&status), None);
    assert_eq!(state.observe_agent(false), Some("agent_unreachable"));
    assert_eq!(state.observe_agent(false), None);
    assert_eq!(state.observe_agent(true), Some("agent_recovered"));
}

#[test]
fn reports_a_newly_failed_allowlisted_service() {
    let services = vec![service("nginx.service", "failed", true)];
    let changes = service_transitions(&vec![], &services);
    assert_eq!(changes.newly_failed, vec!["nginx.service".to_owned()]);
    assert!(changes.recovered.is_empty());
    assert!(changes.currently_failed.contains(&"nginx.service".to_owned()));
}

#[test]
fn ignores_failures_outside_the_control_allowlist() {
    let services = vec![service("random.service", "failed", false)];
    let changes = service_transitions(&vec![], &services);
    assert!(changes.newly_failed.is_empty());
    assert!(changes.currently_failed.is_empty());
}

#[test]
fn reports_recovery_only_when_the_service_is_still_present() {
    let previously_failed = vec!["nginx.service".to_owned(), "removed.service".to_owned()];
    let services = vec![service("nginx.service", "active", true)];
    let changes = service_transitions(&previously_failed, &services);
    assert!(changes.newly_failed.is_empty());
    assert_eq!(changes.recovered, vec!["nginx.service".to_owned()]);
    assert!(changes.currently_failed.is_empty());
}

#[test]
fn a_webhook_test_reports_how_sending_went() {
    assert_eq!(webhook_test_reply(None).status, 400);
    assert_eq!(webhook_test_reply(Some(Ok(()))).status, 204);
    let failed = webhook_test_reply(Some(Err("timeout".to_owned())));
    assert_eq!(failed.status, 502);
    assert_eq!(failed.audit_result, Some("failure"));
}

#[test]
fn parses_terminal_status() {
    let response = b"HTTP/1.1 200 OK\r\ncontent-type: application/json\r\n\r\n{\"enabled\":true,\"isolated\":true,\"privileged\":false,\"active_sessions\":0,\"max_sessions\":2,\"idle_timeout_seconds\":900}";
    let body = status_body(response).expect("status should parse");
    let status = json(std::str::from_utf8(&body).expect("utf-8"));
    assert_eq!(status["enabled"], true);
    assert_eq!(status["isolated"], true);
    assert!(status_body(b"HTTP/1.1 500 Oops\r\n\r\n{}").is_err());
}

#[test]
fn a_refused_terminal_is_explained() {
    assert_eq!(connect_refusal(Some(429)).1, "terminal_session_limit");
    assert_eq!(connect_refusal(Some(503)).1, "terminal_disabled");
    assert!(TerminalClient::new("/run/deckox-terminal/terminal.sock".to_owned()).is_ok());
}

#[test]
fn stable_release_is_newer_than_prerelease() {
    let status = evaluate_update("0.3.8-beta.1", "v0.3.8", 10);

    assert_eq!(status.status, UpdateCheckStatus::Available);
    assert!(status.update_available);
    assert_eq!(status.latest_version.as_deref(), Some("v0.3.8"));
    assert_eq!(
        status.release_url.as_deref(),
        Some("https://github.com/scolor-dev/deckox/releases/tag/v0.3.8")
    );
}

#[test]
fn prerelease_does_not_replace_same_stable_release() {
    let status = evaluate_update("0.3.8", "v0.3.8-beta.2", 10);

    assert_eq!(status.status, UpdateCheckStatus::UpToDate);
    assert!(!status.update_available);
}

#[test]
fn invalid_tag_returns_no_untrusted_release_url() {
    let status = evaluate_update("0.3.7", "../../settings", 10);

    assert_eq!(status.status, UpdateCheckStatus::Unavailable);
    assert!(status.latest_version.is_none());
    assert!(status.release_url.is_none());
}

#[test]
fn rejects_response_body_over_limit() {
    let mut body = vec![0; MAX_RESPONSE_BYTES];

    assert!(accumulate_chunk(&mut body, &[1], MAX_RESPONSE_BYTES).is_err());
    assert_eq!(body.len(), MAX_RESPONSE_BYTES);
    let mut small = vec![1u8];
    assert!(accumulate_chunk(&mut small, &[2, 3], MAX_RESPONSE_BYTES).is_ok());
    assert_eq!(small, vec![1, 2, 3]);
}

#[test]
fn caches_successful_result() {
    let mut cache = StatusCache::new(900_000);
    assert!(cache.fresh(0).is_none());
    let first = evaluate_update("0.3.7", "v0.3.8", 5);
    cache.store(5, &first);
    let second = cache.fresh(100).expect("still fresh");
    assert_eq!(second.status, UpdateCheckStatus::Available);
    assert_eq!(second.checked_at_ms, first.checked_at_ms);
    assert!(cache.fresh(900_006).is_none(), "expired after the time to live");
}

#[test]
fn versions_compare_by_semver_precedence() {
    assert!(parse_version("v1.2.3").is_some());
    assert!(parse_version("1.2").is_none());
    assert!(evaluate_update("1.2.3", "v1.10.0", 0).update_available);
    assert!(!evaluate_update("1.10.0", "v1.9.9", 0).update_available);
}

#[test]
fn the_install_script_comes_from_the_release_tag() {
    assert_eq!(
        install_script_url("v1.2.3"),
        Ok("https://raw.githubusercontent.com/scolor-dev/deckox/v1.2.3/packaging/scripts/install.sh".to_owned())
    );
    assert_eq!(install_script_url("main"), Err(InstallScriptError::InvalidVersion));
    assert_eq!(install_script(Ok(b"#!/bin/sh\necho hi\n".to_vec())), Ok("#!/bin/sh\necho hi\n".to_owned()));
    assert_eq!(install_script(Ok(b"<html>".to_vec())), Err(InstallScriptError::InvalidResponse));
    assert_eq!(
        install_script(Err(BoundedBodyError::TooLarge)),
        Err(InstallScriptError::TooLarge)
    );
}

#[test]
fn accepts_well_formed_tags() {
    assert!(is_valid_release_tag("v1.2.3"));
    assert!(is_valid_release_tag("v0.4.2"));
}

#[test]
fn rejects_malformed_tags() {
    assert!(!is_valid_release_tag("1.2.3"));
    assert!(!is_valid_release_tag("v1.2"));
    assert!(!is_valid_release_tag("v1.2.3-beta"));
    assert!(!is_valid_release_tag("v1.2.3/../etc"));
    assert!(!is_valid_release_tag(""));
}

#[test]
fn command_line_helpers() {
    assert_eq!(subcommand(Some("reset-password")), Some(Subcommand::ResetPassword));
    assert_eq!(subcommand(Some("serve")), None);
    assert_eq!(password_from_input("secret\r\n"), "secret");
    assert!(confirmed(" yes \n"));
    assert!(!confirmed("no"));
    assert!(no_account_file("cannot reset").starts_with("cannot reset while"));
    let report = access_report(8080, Ok(vec!["192.168.1.2".to_owned()]));
    assert_eq!(report.stdout, vec!["http://192.168.1.2:8080".to_owned()]);
    let report = access_report(8080, Err("no socket".to_owned()));
    assert_eq!(report.stdout, vec!["Listening on port 8080.".to_owned()]);
    assert!(report.stderr.expect("an error").ends_with("no socket"));
}

#[test]
fn the_fake_agent_answers_its_routes_and_records_requests() {
    let mut agent = FakeAgent::new(
        "/tmp/agent.sock".to_owned(),
        vec![Canned { method: "GET".to_owned(), path: "/v1/info".to_owned(), status: 200 }],
    );
    assert_eq!(agent.answer("GET".to_owned(), "/v1/info".to_owned(), String::new()), (200, Some(0)));
    assert_eq!(agent.answer("GET".to_owned(), "/v1/other".to_owned(), String::new()).1, None);
    assert_eq!(agent.requests().len(), 2);
}

#[test]
fn unavailable_agent_keeps_safe_server_report() {
    let report = failure_report(123, "0.3.7", false, "agent_unavailable");

    assert_eq!(report.generated_at_ms, 123);
    assert_eq!(report.server.status, "degraded");
    assert!(!report.agent.connected);
    assert_eq!(report.agent.error_code.as_deref(), Some("agent_unavailable"));
    assert!(report.host.is_none());
}

#[test]
fn attachment_uses_a_constant_safe_filename() {
    assert_eq!(
        deckox::server::diagnostics::REPORT_FILENAME,
        "attachment; filename=\"deckox-diagnostics.json\""
    );
}

#[test]
fn each_agent_answer_gives_its_report() {
    let unit = || DiagnosticUnitState {
        load_state: "loaded".to_owned(),
        active_state: "active".to_owned(),
        sub_state: "running".to_owned(),
        unit_file_state: Some("enabled".to_owned()),
    };
    let diagnostics = AgentDiagnostics {
        version: "0.3.7".to_owned(),
        host: DiagnosticHost {
            hostname: "deckox-host".to_owned(),
            operating_system: "Linux".to_owned(),
            os_version: Some("1".to_owned()),
            kernel_version: "6.1".to_owned(),
            architecture: "aarch64".to_owned(),
            uptime_seconds: 42,
            timezone: Some("Asia/Tokyo".to_owned()),
            upgradable_packages: None,
        },
        deckox_services: DeckoxServiceDiagnostics { agent: unit(), server: unit() },
        runtime_config: RuntimeConfigSummary {
            reboot_allowed: false,
            update_allowed: false,
            allowed_services_count: 2,
        },
    };
    let report = report_for(1, "0.3.7", AgentAnswer::Answered(diagnostics));
    assert_eq!(report.server.status, "running");
    assert_eq!(report.agent.version.as_deref(), Some("0.3.7"));
    assert_eq!(report.host.expect("host").hostname, "deckox-host");
    let refused = report_for(1, "0.3.7", AgentAnswer::Refused);
    assert!(refused.agent.connected);
    assert_eq!(refused.agent.error_code.as_deref(), Some("diagnostics_unavailable"));
    let invalid = report_for(1, "0.3.7", AgentAnswer::Invalid);
    assert_eq!(invalid.agent.error_code.as_deref(), Some("invalid_agent_response"));
    assert!(!report_for(1, "0.3.7", AgentAnswer::Unreachable).agent.connected);
}

#[test]
fn every_response_gets_the_security_headers() {
    let plain = security_headers(false);
    assert_eq!(plain.len(), 5);
    assert!(plain.contains(&("x-frame-options", "DENY")));
    assert!(!plain.iter().any(|(name, _)| *name == "strict-transport-security"));
    let secure = security_headers(true);
    assert_eq!(secure.last(), Some(&("strict-transport-security", "max-age=63072000; includeSubDomains")));
}

#[test]
fn a_save_is_refused_or_stored_under_the_next_revision() {
    let empty = StoredLayout::empty();
    assert_eq!(put_layout(&empty, json("{\"pages\": []}")).err(), Some("layout needs a numeric version".to_owned()));
    let saved = put_layout(&empty, json("{\"version\": 1, \"pages\": [{}]}")).ok().expect("saved");
    assert_eq!(saved.revision, 1);
    assert_eq!(saved.layout, Some(json("{\"version\": 1, \"pages\": [{}]}")));
    assert_eq!(check_layout(&json("{\"version\": 1, \"pages\": [{}, {}]}")), Ok(2));
}

#[test]
fn a_release_already_read_gives_its_tag_and_page() {
    let latest = SemVer { major: 1, minor: 4, patch: 0, pre: String::new(), build: String::new() };
    let status = release_status("1.3.0", "v1.4.0", &latest, true, 42);
    assert_eq!(status.latest_version.as_deref(), Some("v1.4.0"));
    assert_eq!(
        status.release_url.as_deref(),
        Some("https://github.com/scolor-dev/deckox/releases/tag/v1.4.0")
    );
    assert!(status.update_available);
    let same = release_status("1.4.0", "1.4.0", &latest, false, 42);
    assert_eq!(same.latest_version.as_deref(), Some("1.4.0"));
    assert!(!same.update_available);
}

#[test]
fn the_checks_of_a_parsed_agent_config_warn_per_missing_table() {
    let checks = document_checks(&Vec::new());
    assert_eq!(checks.len(), 4);
    assert!(checks[0].detail.starts_with("reboot off, update off, 0 allowed service(s)"));
    assert_eq!(checks[1].detail, "[system] is missing, defaults apply (compare with the backups: ls /etc/deckox)");
}
