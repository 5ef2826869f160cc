use deckox::agent::backups::previous_version_from_name;
use deckox::agent::config::{
    load_config, read_config, render_services_section, render_software_section, render_system_section,
    replace_bounded_section, replace_services_section, write_allowed_services,
    write_software_settings, write_system_settings, AgentConfig, SoftwareConfig, SystemConfig,
};

fn settings(allowed: &[String]) -> SoftwareConfig {
    SoftwareConfig {
        allowed: allowed.to_vec(),
        ..SoftwareConfig::default()
    }
}

fn parse(text: &str) -> AgentConfig {
    match read_config(text) {
        Ok(config) => config,
        Err(error) => panic!("config should parse: {}", error.message),
    }
}

#[test]
fn parses_previous_version_from_backup_directory_names() {
    assert_eq!(
        previous_version_from_name("20260910T120000Z-0.5.1"),
        Some("0.5.1".to_owned())
    );
    assert_eq!(previous_version_from_name("20260910T120000Z-unknown"), None);
    assert_eq!(previous_version_from_name("nohyphenatall"), None);
}

#[test]
fn parses_allowed_services() {
    let config = parse(
        r#"
socket = "/tmp/deckox.sock"

[system]
allow_reboot = true

[software]
allowed = ["nginx"]

[services]
allowed = ["nginx.service", "postgresql.service"]
"#,
    );

    assert_eq!(config.services.allowed.len(), 2);
    assert_eq!(config.software.allowed, vec!["nginx".to_owned()]);
    assert!(config.system.allow_reboot);
    assert!(!config.system.allow_update);
    assert_eq!(config.socket.expect("socket should exist"), "/tmp/deckox.sock");
}

#[test]
fn parses_config_without_a_software_table() {
    let config = parse("socket = \"/tmp/deckox.sock\"\n\n[services]\nallowed = []\n");
    assert!(config.software.allowed.is_empty());
}

#[test]
fn replace_services_section_keeps_everything_before_it() {
    let original = "socket = \"/run/deckox/agent.sock\"\n\n\
         # a comment worth keeping\n\
         [system]\n\
         allow_reboot = true\n\n\
         [services]\n\
         allowed = [\"old.service\"]\n";

    let updated = replace_services_section(
        original,
        &render_services_section(&vec!["nginx.service".to_owned()]),
    );

    assert!(updated.contains("# a comment worth keeping"));
    assert!(updated.contains("allow_reboot = true"));
    assert!(updated.contains("\"nginx.service\""));
    assert!(!updated.contains("old.service"));
}

#[test]
fn replace_services_section_appends_when_absent() {
    let updated = replace_services_section(
        "socket = \"/run/deckox/agent.sock\"\n",
        &render_services_section(&vec![]),
    );

    assert!(updated.starts_with("socket = \"/run/deckox/agent.sock\""));
    assert!(updated.contains("[services]"));
    assert!(updated.contains("allowed = []"));
}

#[test]
fn render_services_section_sorts_and_quotes_ids() {
    let rendered =
        render_services_section(&vec!["b.service".to_owned(), "a.service".to_owned()]);
    let a_index = rendered.find("\"a.service\"").expect("a.service listed");
    let b_index = rendered.find("\"b.service\"").expect("b.service listed");
    assert!(a_index < b_index, "allowlist should be sorted");
}

#[test]
fn replace_bounded_section_leaves_a_later_table_untouched() {
    let original = "socket = \"/tmp/deckox.sock\"\n\n\
         [system]\n\
         allow_reboot = true\n\n\
         [software]\n\
         allowed = [\"docker\"]\n\n\
         [services]\n\
         allowed = [\"old.service\"]\n";

    let updated = replace_bounded_section(
        original,
        "software",
        &render_software_section(&settings(&["nginx".to_owned()])),
    );

    assert!(updated.contains("allow_reboot = true"));
    assert!(updated.contains("  \"nginx\",\n"), "nginx should be listed: {updated}");
    assert!(
        !updated.contains("  \"docker\",\n"),
        "docker should no longer be listed: {updated}"
    );
    assert!(
        updated.contains("[services]\nallowed = [\"old.service\"]"),
        "the [services] table after [software] must survive untouched: {updated}"
    );
}

#[test]
fn replace_bounded_section_appends_when_absent() {
    let updated = replace_bounded_section(
        "socket = \"/tmp/deckox.sock\"\n",
        "software",
        &render_software_section(&settings(&[])),
    );

    assert!(updated.starts_with("socket = \"/tmp/deckox.sock\""));
    assert!(updated.contains("[software]"));
    assert!(updated.contains("allowed = []"));
}

#[test]
fn replace_bounded_section_replaces_a_final_table_like_replace_services_section() {
    let original = "socket = \"/tmp/deckox.sock\"\n\n[software]\nallowed = [\"docker\"]\n";

    let updated = replace_bounded_section(
        original,
        "software",
        &render_software_section(&settings(&["docker".to_owned(), "nginx".to_owned()])),
    );

    assert!(updated.contains("\"docker\""));
    assert!(updated.contains("\"nginx\""));
}

#[test]
fn software_settings_round_trip_including_auto_adopt_and_dismissed() {
    let rendered = render_software_section(&SoftwareConfig {
        allowed: vec!["nginx".to_owned()],
        auto_adopt: false,
        dismissed: vec!["docker-ce-cli".to_owned(), "docker-ce-cli".to_owned()],
    });
    let parsed = parse(&rendered);
    assert_eq!(parsed.software.allowed, vec!["nginx".to_owned()]);
    assert!(!parsed.software.auto_adopt);
    assert_eq!(parsed.software.dismissed, vec!["docker-ce-cli".to_owned()]);
}

#[test]
fn software_auto_adopt_defaults_to_on() {
    let parsed = parse("[software]\nallowed = []\n");
    assert!(parsed.software.auto_adopt);
    assert!(parsed.software.dismissed.is_empty());
}

#[test]
fn render_software_section_sorts_and_quotes_ids() {
    let rendered = render_software_section(&settings(&["nginx".to_owned(), "docker".to_owned()]));
    let docker_index = rendered.find("\"docker\"").expect("docker listed");
    let nginx_index = rendered.find("\"nginx\"").expect("nginx listed");
    assert!(docker_index < nginx_index, "allowlist should be sorted");
}

const SMALL_CONFIG: &str = "socket = \"/run/deckox/agent.sock\"\n\n\
    [system]\n\
    allow_reboot = false\n\
    allow_update = false\n\n\
    # Package state can always be read.\n\
    [software]\n\
    allowed = []\n\n\
    # Service state can always be read.\n\
    [services]\n\
    allowed = []\n";

fn apply_software(original: &str, allowed: &[&str]) -> String {
    let allowed: Vec<String> = allowed.iter().map(|name| (*name).to_owned()).collect();
    write_software_settings(original, &settings(&allowed))
}

#[test]
fn a_later_tables_comment_survives_rewriting_the_table_before_it() {
    let once = apply_software(SMALL_CONFIG, &["nginx"]);
    assert!(
        once.contains("# Service state can always be read"),
        "the comment above [services] must be kept\n{once}"
    );
}

#[test]
fn rewriting_a_table_does_not_pile_up_its_comment_block() {
    let once = apply_software(SMALL_CONFIG, &["nginx"]);
    let twice = apply_software(&once, &["nginx", "git"]);
    assert_eq!(
        once.matches("Package state can always be read").count(),
        twice.matches("Package state can always be read").count(),
        "the generated comment must not be duplicated on every write\n{twice}"
    );
    assert!(twice.contains("allow_reboot"), "[system] must be kept");
}

#[test]
fn repeated_rewrites_of_both_tables_keep_one_of_each() {
    let mut config = SMALL_CONFIG.to_owned();
    for round in 0..3 {
        config = apply_software(&config, &["nginx", "docker-ce"]);
        config = write_allowed_services(&config, &vec!["nginx.service".to_owned()]);
        let parsed = parse(&config);
        assert_eq!(
            parsed.software.allowed,
            vec!["docker-ce".to_owned(), "nginx".to_owned()],
            "round {round}\n{config}"
        );
        assert_eq!(parsed.services.allowed, vec!["nginx.service".to_owned()]);
        assert_eq!(config.matches("\n[software]\n").count(), 1, "round {round}\n{config}");
        assert_eq!(config.matches("\n[services]\n").count(), 1, "round {round}\n{config}");
    }
}

#[test]
fn system_settings_are_written_and_read_back() {
    let updated = write_system_settings(
        SMALL_CONFIG,
        &SystemConfig { allow_reboot: true, allow_update: false },
    );
    let parsed = parse(&updated);
    assert!(parsed.system.allow_reboot);
    assert!(!parsed.system.allow_update);
    assert_eq!(parsed.software.allowed.len(), 0);
    assert!(render_system_section(&SystemConfig { allow_reboot: false, allow_update: true })
        .contains("allow_update = true"));
}

#[test]
fn a_broken_file_is_refused() {
    assert!(read_config("[services\nallowed = [").is_err());
    assert!(read_config("[services]\nallowed = \"nginx.service\"\n").is_err());
}

#[test]
fn the_agent_names_the_config_file_it_refuses() {
    let error = load_config("/etc/deckox/agent.toml", "[system]\nallow_reboot = \"yes\"\n").err().expect("refused");
    assert_eq!(error.message, "invalid config /etc/deckox/agent.toml: system.allow_reboot must be true or false");
    let broken = load_config("/tmp/agent.toml", "[system\n").err().expect("refused");
    assert!(broken.message.starts_with("invalid config /tmp/agent.toml: "));
    assert!(broken.message.len() > "invalid config /tmp/agent.toml: ".len());
    let config = load_config("/tmp/agent.toml", "[services]\nallowed = [\"nginx.service\"]\n").expect("valid");
    assert_eq!(config.services.allowed, vec!["nginx.service".to_owned()]);
    assert!(!config.system.allow_reboot);
    assert!(config.software.auto_adopt);
    let empty = load_config("/tmp/agent.toml", "").expect("defaults");
    assert!(empty.services.allowed.is_empty());
}

#[test]
fn the_command_line_reads_the_same_reasons() {
    let error = read_config("socket = 3\n").err().expect("refused");
    assert_eq!(error.message, "invalid config: socket must be a string");
}
