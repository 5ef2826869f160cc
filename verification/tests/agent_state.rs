use deckox::agent::diagnostics::{parse_unit_state, unavailable_unit_state};
use deckox::agent::events::{EventBus, EventDraft, CAPACITY};
use deckox::agent::modules::ModuleRegistry;
use deckox::agent::power::{command_id, PowerManager};
use deckox::protocol::EventResult;

fn draft(subject: &str) -> EventDraft {
    EventDraft {
        kind: "test".to_owned(),
        result: EventResult::Completed,
        subject: subject.to_owned(),
        request_id: None,
        command_id: None,
        message: None,
    }
}

fn strings(items: &[&str]) -> Vec<String> {
    items.iter().map(|item| (*item).to_owned()).collect()
}

#[test]
fn parses_only_fixed_unit_state_properties() {
    let state = parse_unit_state(
        "LoadState=loaded\nActiveState=active\nSubState=running\nUnitFileState=enabled\nDescription=secret\n",
    );

    assert_eq!(state.load_state, "loaded");
    assert_eq!(state.active_state, "active");
    assert_eq!(state.sub_state, "running");
    assert_eq!(state.unit_file_state.as_deref(), Some("enabled"));
}

#[test]
fn missing_properties_do_not_expose_command_output() {
    let state = parse_unit_state("PasswordHash=not-for-diagnostics\n");

    assert_eq!(state.load_state, "unknown");
    assert_eq!(state.active_state, "unknown");
    assert_eq!(state.sub_state, "unknown");
    assert!(state.unit_file_state.is_none());
}

#[test]
fn an_unavailable_unit_says_so() {
    let state = unavailable_unit_state();
    assert_eq!(state.load_state, "unavailable");
    assert_eq!(state.sub_state, "unavailable");
    assert!(state.unit_file_state.is_none());
}

#[test]
fn numbers_events_and_returns_only_newer_ones() {
    let mut bus = EventBus::new();
    bus.publish(draft("a"));
    bus.publish(draft("b"));

    let all = bus.since(None, 0);
    assert_eq!(all.events.iter().map(|event| event.seq).collect::<Vec<_>>(), [1, 2]);
    assert_eq!(all.next_after, 2);

    bus.publish(draft("c"));
    let epoch = bus.epoch().to_owned();
    let newer = bus.since(Some(&epoch), 2);
    assert_eq!(newer.events.len(), 1);
    assert_eq!(newer.events[0].subject, "c");
    assert_eq!(newer.next_after, 3);

    let none = bus.since(Some(&epoch), 3);
    assert!(none.events.is_empty());
    assert_eq!(none.next_after, 3, "an idle consumer keeps its position");
}

#[test]
fn a_different_epoch_restarts_from_the_beginning() {
    let mut bus = EventBus::new();
    bus.publish(draft("a"));
    let batch = bus.since(Some("some-older-agent-process"), 99);
    assert_eq!(batch.events.len(), 1, "stale position is ignored");
    assert_eq!(batch.epoch, bus.epoch());
}

#[test]
fn keeps_only_the_most_recent_events() {
    let mut bus = EventBus::new();
    for index in 0..CAPACITY + 10 {
        bus.publish(draft(&index.to_string()));
    }
    let batch = bus.since(None, 0);
    assert_eq!(batch.events.first().map(|event| event.seq), Some(11));
    let mut position = 0;
    let mut seen = 0;
    loop {
        let page = bus.since(None, position);
        if page.events.is_empty() {
            break;
        }
        seen += page.events.len();
        position = page.next_after;
    }
    assert_eq!(seen, CAPACITY, "paging reaches every retained event");
}

#[test]
fn an_event_keeps_the_time_it_was_published_at() {
    let mut bus = EventBus::with_epoch("epoch-1".to_owned());
    bus.publish_at(draft("a"), 1234);
    let batch = bus.since(Some("epoch-1"), 0);
    assert_eq!(batch.events[0].timestamp_ms, 1234);
    assert_eq!(batch.epoch, "epoch-1");
    assert_eq!(bus.next_number(), 2);
}

#[test]
fn paths_belong_to_the_most_specific_module() {
    assert_eq!(ModuleRegistry::owner_of("/v1/system"), Some("system"));
    assert_eq!(ModuleRegistry::owner_of("/v1/system/metrics"), Some("system"));
    assert_eq!(ModuleRegistry::owner_of("/v1/system/reboot"), Some("power"));
    assert_eq!(ModuleRegistry::owner_of("/v1/system/update"), Some("update"));
    assert_eq!(
        ModuleRegistry::owner_of("/v1/services/a.service/logs"),
        Some("services")
    );
    assert_eq!(ModuleRegistry::owner_of("/v1/storage/disks"), Some("storage"));
    assert_eq!(ModuleRegistry::owner_of("/v1/software/installed"), Some("software"));
}

#[test]
fn core_paths_and_lookalikes_belong_to_no_module() {
    for path in [
        "/v1/health",
        "/v1/info",
        "/v1/events",
        "/v1/jobs",
        "/v1/modules",
        "/v1/system/capabilities",
    ] {
        assert_eq!(ModuleRegistry::owner_of(path), None, "{path}");
    }
    assert_eq!(
        ModuleRegistry::owner_of("/v1/servicesx"),
        None,
        "a prefix must end at a path boundary"
    );
}

#[test]
fn everything_is_on_unless_disabled() {
    let registry = ModuleRegistry::new(&vec![]).expect("valid");
    assert!(registry.manifest().modules.iter().all(|module| module.enabled));

    let registry = ModuleRegistry::new(&strings(&["software", "power"])).expect("valid");
    assert!(!registry.is_enabled("software"));
    assert!(registry.is_enabled("services"));
    let manifest = registry.manifest();
    let software = manifest
        .modules
        .iter()
        .find(|module| module.id == "software")
        .expect("listed");
    assert!(!software.enabled);
}

#[test]
fn a_typo_is_refused_with_the_list_of_modules() {
    let error = ModuleRegistry::new(&strings(&["sofware"])).err().expect("refused");
    assert!(error.contains("unknown module \"sofware\""), "{error}");
    assert!(error.contains("software"), "{error}");
}

#[test]
fn a_module_cannot_stay_on_without_its_dependency() {
    let error = ModuleRegistry::new(&strings(&["services"])).err().expect("refused");
    assert!(error.contains("schedules"), "{error}");
    assert!(ModuleRegistry::new(&strings(&["services", "schedules"])).is_ok());
}

#[test]
fn reports_reboot_capability() {
    assert!(PowerManager::new(true).capabilities().reboot_allowed);
    assert!(!PowerManager::new(false).capabilities().reboot_allowed);
}

#[test]
fn rejects_reboot_when_disabled() {
    assert!(PowerManager::new(false).check_reboot(true).is_err());
    assert!(PowerManager::new(true).check_reboot(false).is_err());
    assert!(PowerManager::new(true).check_reboot(true).is_ok());
}

#[test]
fn reboot_command_ids_carry_time_and_sequence() {
    assert_eq!(command_id(1700, 4), "reboot-1700-4");
}
