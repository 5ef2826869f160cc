use deckox::agent::software::{
    is_installed_status, parse_candidate_version, parse_dnf_list, parse_dpkg_installed,
    parse_labeled_version, parse_space_pairs, parse_tab_pairs, parse_zypper_list_updates,
    validate_package_name, PackageManager,
};
use deckox::agent::software_manager::{
    mutation_steps, package_state, PackageAction, SoftwareManager,
};

fn test_manager(allowed: Vec<String>) -> Result<SoftwareManager, deckox::agent::error::AgentError> {
    SoftwareManager::new(allowed, Some(PackageManager::Apt))
}

#[test]
fn parses_dpkg_installed_packages_only() {
    let output = "docker-ce\t5:27.0.1-1\tinstall ok installed\n\
                  old-tool\t1.0\tdeinstall ok config-files\n\
                  git\t1:2.43.0\tinstall ok installed\n\
                  broken line\n";
    assert_eq!(
        parse_dpkg_installed(output),
        vec![
            ("docker-ce".to_owned(), "5:27.0.1-1".to_owned()),
            ("git".to_owned(), "1:2.43.0".to_owned()),
        ]
    );
}

#[test]
fn parses_rpm_pairs_and_skips_gpg_keys() {
    let output = "bash\t5.2.26-3.fc40\ngpg-pubkey\t105ef944-65ca83d1\nnginx\t1.24.0-1\n";
    assert_eq!(
        parse_tab_pairs(output),
        vec![
            ("bash".to_owned(), "5.2.26-3.fc40".to_owned()),
            ("nginx".to_owned(), "1.24.0-1".to_owned()),
        ]
    );
}

#[test]
fn parses_pacman_pairs() {
    assert_eq!(
        parse_space_pairs("base 3-2\nlinux 6.9.1.arch1-1\n\n"),
        vec![
            ("base".to_owned(), "3-2".to_owned()),
            ("linux".to_owned(), "6.9.1.arch1-1".to_owned()),
        ]
    );
}

#[test]
fn accepts_typical_package_names() {
    for name in ["docker", "docker.io", "python3.11", "lib-ssl_dev+", "a"] {
        assert!(validate_package_name(name).is_ok(), "{name} should be valid");
    }
}

#[test]
fn rejects_malformed_package_names() {
    for name in ["", "-docker", "has space", "semi;colon", "../etc/passwd"] {
        assert!(validate_package_name(name).is_err(), "{name} should be rejected");
    }
    let too_long = "a".repeat(101);
    assert!(validate_package_name(&too_long).is_err());
    assert!(validate_package_name(&"a".repeat(100)).is_ok());
}

#[test]
fn rejects_malformed_names_at_construction() {
    assert!(test_manager(vec!["docker".to_owned()]).is_ok());
    assert!(test_manager(vec!["; rm -rf /".to_owned()]).is_err());
}

#[test]
fn enforces_allowlist_by_exact_name() {
    let manager = test_manager(vec!["docker".to_owned()]).expect("allowlist is valid");
    assert!(manager.ensure_allowed("docker").is_ok());
    assert!(manager.ensure_allowed("nginx").is_err());
}

#[test]
fn without_a_package_manager_nothing_can_be_changed() {
    let manager = SoftwareManager::new(vec!["docker".to_owned()], None).expect("valid");
    assert!(manager.backend().is_err());
    assert!(manager.ensure_allowed("docker").is_err());
}

#[test]
fn the_allowlist_grows_and_shrinks_by_one_name() {
    let manager = test_manager(vec!["nginx".to_owned()]).expect("valid");
    assert_eq!(
        manager.allowlist_with("docker"),
        Some(vec!["nginx".to_owned(), "docker".to_owned()])
    );
    assert_eq!(manager.allowlist_with("nginx"), None);
    assert_eq!(manager.allowlist_without("nginx"), Some(vec![]));
    assert_eq!(manager.allowlist_without("docker"), None);
}

#[test]
fn installed_packages_are_sorted_and_marked_when_managed() {
    let manager = test_manager(vec!["git".to_owned()]).expect("valid");
    let listed = manager.installed_list(&vec![
        ("zsh".to_owned(), "5.9".to_owned()),
        ("git".to_owned(), "2.43".to_owned()),
    ]);
    assert_eq!(listed.len(), 2);
    assert_eq!(listed[0].name, "git");
    assert!(listed[0].managed);
    assert_eq!(listed[1].name, "zsh");
    assert!(!listed[1].managed);
}

#[test]
fn a_package_state_tells_whether_an_upgrade_is_pending() {
    let state = package_state("git".to_owned(), Some("1".to_owned()), Some("2".to_owned()));
    assert!(state.installed);
    assert!(state.upgradable);
    let state = package_state("git".to_owned(), Some("2".to_owned()), Some("2".to_owned()));
    assert!(!state.upgradable);
    let state = package_state("git".to_owned(), None, Some("2".to_owned()));
    assert!(!state.installed);
}

#[test]
fn apt_installs_without_prompting() {
    let steps = mutation_steps(PackageManager::Apt, PackageAction::Install, "git");
    assert!(!steps.is_empty());
    let last = steps.last().expect("a step");
    assert!(last.args.contains(&"git".to_owned()), "{:?}", last.args);
}

#[test]
fn recognizes_the_installed_status_and_nothing_else() {
    assert!(is_installed_status("install ok installed"));
    assert!(!is_installed_status("deinstall ok config-files"));
    assert!(!is_installed_status("unknown ok not-installed"));
}

#[test]
fn parses_the_apt_candidate_version_line() {
    let output =
        "docker.io:\n  Installed: (none)\n  Candidate: 20.10.24-0ubuntu1~20.04.1\n  Version table:\n";
    assert_eq!(
        parse_candidate_version(output).as_deref(),
        Some("20.10.24-0ubuntu1~20.04.1")
    );
}

#[test]
fn treats_a_none_apt_candidate_as_unavailable() {
    let output = "unknown-package:\n  Installed: (none)\n  Candidate: (none)\n";
    assert_eq!(parse_candidate_version(output), None);
}

#[test]
fn parses_dnf_list_with_an_upgrade_pending() {
    let output = "Installed Packages\n\
         git.x86_64                    2.39.3-1.el9                  @baseos\n\
         Available Packages\n\
         git.x86_64                    2.43.0-1.el9                  updates\n";
    let (installed, available) = parse_dnf_list(output);
    assert_eq!(installed.as_deref(), Some("2.39.3-1.el9"));
    assert_eq!(available.as_deref(), Some("2.43.0-1.el9"));
}

#[test]
fn parses_dnf_list_when_already_up_to_date() {
    let output = "Installed Packages\n\
         git.x86_64                    2.43.0-1.el9                  @baseos\n";
    let (installed, available) = parse_dnf_list(output);
    assert_eq!(installed.as_deref(), Some("2.43.0-1.el9"));
    assert_eq!(available, None);
}

#[test]
fn parses_dnf_list_when_not_installed() {
    let output = "Available Packages\n\
         docker-ce.x86_64               3:24.0.7-1.el9                docker-ce-stable\n";
    let (installed, available) = parse_dnf_list(output);
    assert_eq!(installed, None);
    assert_eq!(available.as_deref(), Some("3:24.0.7-1.el9"));
}

#[test]
fn parses_dnf_list_for_an_unknown_package_as_empty() {
    assert_eq!(parse_dnf_list(""), (None, None));
}

#[test]
fn parses_the_pacman_si_version_field() {
    let output = "Repository      : core\n\
         Name            : git\n\
         Version         : 2.43.0-1\n\
         Description     : the fast distributed version control system\n\
         Architecture    : x86_64\n";
    assert_eq!(parse_labeled_version(output, "Version").as_deref(), Some("2.43.0-1"));
}

#[test]
fn treats_a_none_pacman_candidate_as_unavailable() {
    let output = "Version         : (none)\n";
    assert_eq!(parse_labeled_version(output, "Version"), None);
}

#[test]
fn does_not_match_a_label_appearing_only_inside_a_value() {
    let output = "Summary         : Fast Version Control System\n";
    assert_eq!(parse_labeled_version(output, "Version"), None);
}

#[test]
fn parses_the_zypper_info_version_field() {
    let output = "Information for package git:\n\
         -----------------------------\n\
         Repository     : Main Repository\n\
         Name           : git\n\
         Version        : 2.43.0-1.2\n\
         Installed      : Yes\n\
         Status         : up-to-date\n";
    assert_eq!(parse_labeled_version(output, "Version").as_deref(), Some("2.43.0-1.2"));
}

#[test]
fn parses_zypper_list_updates_for_a_matching_package() {
    let output = "S | Repository          | Name | Current Version | Available Version | Arch\n\
         --+---------------------+------+------------------+--------------------+-------\n\
         v | Main Repository     | git  | 2.39.0-1.1       | 2.43.0-1.2         | x86_64\n";
    assert_eq!(parse_zypper_list_updates(output, "git").as_deref(), Some("2.43.0-1.2"));
}

#[test]
fn parses_zypper_list_updates_as_absent_when_package_is_not_listed() {
    let output = "S | Repository          | Name | Current Version | Available Version | Arch\n\
         --+---------------------+------+------------------+--------------------+-------\n";
    assert_eq!(parse_zypper_list_updates(output, "git"), None);
}
