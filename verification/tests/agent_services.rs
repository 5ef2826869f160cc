use deckox::agent::journal::{journal_arguments, parse_journal_entries};
use deckox::agent::schedules::{normalize_weekdays, validate_time, ScheduleList};
use deckox::agent::services::{
    is_protected, journal_priority, parse_properties, parse_service_list, property_value,
    truncate_message, validate_log_lines, validate_service_id, ServiceManager,
    MAX_LOG_MESSAGE_BYTES,
};
use deckox::protocol::{CreateScheduleRequest, ScheduleAction, ServiceLogPriority};

const PROTECTED_SERVICES: [&str; 2] = ["deckox-agent.service", "deckox-server.service"];

#[test]
fn rejects_out_of_range_time() {
    assert!(validate_time(23, 59).is_ok());
    assert!(validate_time(24, 0).is_err());
    assert!(validate_time(0, 60).is_err());
}

#[test]
fn normalizes_and_deduplicates_weekdays() {
    assert_eq!(normalize_weekdays(&vec![3, 1, 1, 7]).unwrap(), vec![1, 3, 7]);
    assert!(normalize_weekdays(&vec![]).is_err());
    assert!(normalize_weekdays(&vec![0]).is_err());
    assert!(normalize_weekdays(&vec![8]).is_err());
}

fn request(service_id: &str, minute: u8, weekdays: Vec<u8>) -> CreateScheduleRequest {
    CreateScheduleRequest {
        service_id: service_id.to_owned(),
        action: ScheduleAction::Restart,
        hour: 3,
        minute,
        weekdays,
    }
}

#[test]
fn create_rejects_services_outside_the_allowlist() {
    let mut store = ScheduleList::new(Vec::new());
    let services = ServiceManager::new(Vec::new()).expect("service manager");

    let result = store.create(request("nginx.service", 0, vec![1]), &services, "id-1".to_owned(), 10);

    assert!(result.is_err());
    assert!(store.list().is_empty());
}

#[test]
fn create_list_and_delete_round_trip() {
    let mut store = ScheduleList::new(Vec::new());
    let services =
        ServiceManager::new(vec!["nginx.service".to_owned()]).expect("service manager");

    let created = store
        .create(request("nginx.service", 30, vec![1, 3, 5]), &services, "id-1".to_owned(), 10)
        .expect("create");

    assert_eq!(store.list().len(), 1);
    assert!(created.enabled);
    assert_eq!(created.weekdays, vec![1, 3, 5]);
    assert_eq!(created.last_run_at_ms, None);

    let disabled = store.set_enabled(&created.id, false).expect("disable");
    assert!(!disabled.enabled);

    store.delete(&created.id).expect("delete");
    assert!(store.list().is_empty());
    assert!(store.delete(&created.id).is_err());
}

#[test]
fn validates_allowlist() {
    assert!(ServiceManager::new(vec!["nginx.service".to_owned()]).is_ok());
    assert!(ServiceManager::new(vec!["nginx.service;reboot".to_owned()]).is_err());
    assert!(ServiceManager::new(vec!["-nginx.service".to_owned()]).is_err());
    for service in PROTECTED_SERVICES {
        assert!(ServiceManager::new(vec![service.to_owned()]).is_err());
        assert!(is_protected(service));
    }
}

#[test]
fn enforces_allowlist_by_exact_service_id() {
    let manager =
        ServiceManager::new(vec!["nginx.service".to_owned()]).expect("allowlist is valid");
    assert!(manager.ensure_allowed("nginx.service").is_ok());
    assert!(manager.ensure_allowed("nginx-extra.service").is_err());
    assert!(manager.ensure_allowed("deckox-agent.service").is_err());
}

#[test]
fn service_ids_are_checked_before_use() {
    assert!(validate_service_id("nginx.service").is_ok());
    assert!(validate_service_id("").is_err());
    assert!(validate_service_id("a b.service").is_err());
}

#[test]
fn parses_service_rows() {
    let states = vec![("nginx.service".to_owned(), "enabled".to_owned())];
    let allowed = ServiceManager::new(vec!["nginx.service".to_owned()]).expect("valid");
    let services = parse_service_list(
        "nginx.service loaded active running A high performance web server\n",
        &states,
        &allowed,
    );

    assert_eq!(services.len(), 1);
    assert_eq!(services[0].description, "A high performance web server");
    assert_eq!(services[0].unit_file_state.as_deref(), Some("enabled"));
    assert!(services[0].control_allowed);
}

#[test]
fn parses_systemd_properties() {
    let properties =
        parse_properties("Id=nginx.service\nDescription=Nginx\nActiveState=active\nMainPID=123\n");
    assert_eq!(
        property_value(&properties, "ActiveState").as_deref(),
        Some("active")
    );
}

#[test]
fn accepts_only_bounded_log_line_counts() {
    for lines in [50, 100, 200, 500] {
        assert!(validate_log_lines(lines).is_ok());
    }
    for lines in [0, 49, 101, 501] {
        assert!(validate_log_lines(lines).is_err());
    }
}

#[test]
fn maps_log_priorities_to_fixed_journal_values() {
    assert_eq!(journal_priority(ServiceLogPriority::All), None);
    assert_eq!(journal_priority(ServiceLogPriority::Error), Some("err"));
    assert_eq!(journal_priority(ServiceLogPriority::Warning), Some("warning"));
    assert_eq!(journal_priority(ServiceLogPriority::Info), Some("info"));
}

#[test]
fn journal_is_asked_for_one_unit_and_a_bounded_count() {
    let arguments = journal_arguments("nginx.service", 100, ServiceLogPriority::Error);
    assert_eq!(&arguments[0..2], ["--unit".to_owned(), "nginx.service".to_owned()]);
    assert_eq!(&arguments[5..7], ["--lines".to_owned(), "100".to_owned()]);
    assert_eq!(&arguments[7..], ["--priority".to_owned(), "err".to_owned()]);
    assert_eq!(journal_arguments("a.service", 50, ServiceLogPriority::All).len(), 7);
}

#[test]
fn parses_journal_json_lines_and_ignores_invalid_rows() {
    let entries = parse_journal_entries(
        "{\"__REALTIME_TIMESTAMP\":\"1700000000123456\",\"PRIORITY\":\"3\",\"MESSAGE\":\"failed\",\"SYSLOG_IDENTIFIER\":\"nginx\",\"_PID\":\"42\"}\nnot-json\n{\"MESSAGE\":[1,2]}\n",
    );

    assert_eq!(entries.len(), 2);
    assert_eq!(entries[0].timestamp_ms, 1_700_000_000_123);
    assert_eq!(entries[0].priority, 3);
    assert_eq!(entries[0].message, "failed");
    assert_eq!(entries[0].process.as_deref(), Some("nginx"));
    assert_eq!(entries[0].pid, Some(42));
    assert_eq!(entries[1].message, "[binary journal message]");
}

#[test]
fn truncates_log_messages_on_a_utf8_boundary() {
    let message = "あ".repeat(MAX_LOG_MESSAGE_BYTES as usize);
    let truncated = truncate_message(&message);
    assert!(truncated.len() <= MAX_LOG_MESSAGE_BYTES as usize);
    assert!(truncated.ends_with('…'));
}

#[test]
fn a_short_message_is_kept_whole() {
    assert_eq!(truncate_message("started"), "started");
}
