use deckox::agent::config_cli::{parse_bool, run};

/// The config file as the command line sees it: each run reads the current
/// text, and a change replaces it.
struct File {
    text: String,
    backups: usize,
}

impl File {
    fn new(text: &str) -> File {
        File { text: text.to_owned(), backups: 0 }
    }

    fn run(&mut self, arguments: &[&str]) -> Result<String, String> {
        let arguments: Vec<String> = arguments.iter().map(|a| (*a).to_owned()).collect();
        let outcome = run("/etc/deckox/agent.toml", &arguments, &self.text)?;
        if outcome.backup {
            self.backups += 1;
        }
        if let Some(text) = outcome.new_text {
            self.text = text;
        }
        Ok(outcome.output)
    }
}

const SMALL_CONFIG: &str = "socket = \"/run/deckox/agent.sock\"\n\n\
    [system]\n\
    allow_reboot = false\n\
    allow_update = false\n\n\
    [software]\n\
    allowed = []\n\n\
    [services]\n\
    allowed = []\n";

#[test]
fn set_edits_one_table_and_keeps_the_others() {
    let mut file = File::new(SMALL_CONFIG);
    file.run(&["allow-service", "nginx.service"]).expect("allow service");
    file.run(&["allow-software", "docker-ce"]).expect("allow software");
    file.run(&["set", "allow_reboot", "true"]).expect("set reboot");
    file.run(&["set", "auto_adopt", "false"]).expect("set auto_adopt");

    let shown = file.run(&["show"]).expect("show");
    assert!(shown.contains("allow_reboot: true"), "{shown}");
    assert!(shown.contains("allow_update: false"), "{shown}");
    assert!(shown.contains("auto_adopt: false"), "{shown}");
    assert!(shown.contains("software allowed: docker-ce"), "{shown}");
    assert!(shown.contains("services allowed: nginx.service"), "{shown}");
}

#[test]
fn deny_software_dismisses_and_allow_lifts_it() {
    let mut file = File::new("[software]\nallowed = [\"git\"]\n");
    file.run(&["deny-software", "git"]).expect("deny");
    let shown = file.run(&["show"]).expect("show");
    assert!(shown.contains("software allowed: (none)"), "{shown}");
    assert!(shown.contains("software dismissed: git"), "{shown}");
    file.run(&["allow-software", "git"]).expect("allow");
    let shown = file.run(&["show"]).expect("show");
    assert!(shown.contains("software dismissed: (none)"), "{shown}");
}

#[test]
fn repair_restores_missing_tables_from_a_damaged_file() {
    let mut file = File::new(
        "socket = \"/run/deckox/agent.sock\"\n\n[services]\nallowed = [\"docker.service\"]\n",
    );
    file.run(&["repair"]).expect("repair");

    let shown = file.run(&["show"]).expect("show");
    assert!(shown.contains("services allowed: docker.service"), "{shown}");
    assert!(shown.contains("auto_adopt: true"), "{shown}");
    for header in ["[system]", "[software]", "[services]"] {
        assert_eq!(
            file.text.matches(&format!("\n{header}\n")).count(),
            1,
            "{}",
            file.text
        );
    }
    assert_eq!(file.backups, 1, "the old file is kept");
}

#[test]
fn rejects_bad_input() {
    let mut file = File::new("");
    assert!(file.run(&["set", "allow_reboot", "maybe"]).is_err());
    assert!(file.run(&["set", "nonsense", "true"]).is_err());
    assert!(file.run(&["allow-service", "deckox-agent.service"]).is_err());
    assert!(file.run(&["allow-software", "bad name"]).is_err());
    assert!(file.run(&["frobnicate"]).is_err());
}

#[test]
fn help_prints_the_usage_and_changes_nothing() {
    let mut file = File::new(SMALL_CONFIG);
    let usage = file.run(&[]).expect("usage");
    assert!(usage.starts_with("Usage: deckox-agent config <command>"));
    assert_eq!(file.run(&["--help"]).expect("usage"), usage);
    assert_eq!(file.text, SMALL_CONFIG);
}

#[test]
fn deny_service_removes_it_from_the_allowlist() {
    let mut file = File::new(SMALL_CONFIG);
    file.run(&["allow-service", "nginx.service"]).expect("allow");
    file.run(&["deny-service", "nginx.service"]).expect("deny");
    let shown = file.run(&["show"]).expect("show");
    assert!(shown.contains("services allowed: (none)"), "{shown}");
}

#[test]
fn parses_the_boolean_words() {
    assert_eq!(parse_bool("true"), Ok(true));
    assert_eq!(parse_bool("false"), Ok(false));
    assert_eq!(parse_bool("yes"), Ok(true));
    assert_eq!(parse_bool("off"), Ok(false));
    assert_eq!(
        parse_bool("maybe"),
        Err("expected true or false, got: maybe".to_owned())
    );
}
