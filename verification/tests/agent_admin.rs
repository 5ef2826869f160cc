use deckox::agent::admin_check::{account_hash, verifier_hash, HashSource, Verifier};
use deckox::agent::update::{join_path, launch_outcome, UpdateManager};

/// A published Argon2id test vector with small parameters: the password
/// "password" with the salt "somesalt", so the tests stay fast.
const HASH: &str = "$argon2id$v=19$m=256,t=2,p=1$c29tZXNhbHQ$nf65EOgLrQMR/uIPnA4rEsF5h7TKyQwu9U1bMCHGi/4";

const SECOND: u64 = 1_000_000_000;

fn verifier_with(hash: Option<&str>) -> Verifier {
    Verifier::load(
        "/var/lib/deckox/verifier".to_owned(),
        hash.map(str::to_owned),
        Some(1),
        None,
        None,
    )
}

#[test]
fn rejects_trigger_when_disabled() {
    let manager = UpdateManager::new(false, "/tmp");
    assert!(manager.check_trigger("v1.2.3", "#!/bin/sh\n", true).is_err());
}

#[test]
fn rejects_invalid_version() {
    let manager = UpdateManager::new(true, "/tmp");
    assert!(manager.check_trigger("not-a-version", "#!/bin/sh\n", true).is_err());
}

#[test]
fn rejects_empty_script() {
    let manager = UpdateManager::new(true, "/tmp");
    assert!(manager.check_trigger("v1.2.3", "", true).is_err());
    assert!(manager.check_trigger("v1.2.3", "#!/bin/sh\n", true).is_ok());
    assert!(manager.check_trigger("v1.2.3", "#!/bin/sh\n", false).is_err());
}

#[test]
fn the_installer_is_staged_and_launched_from_the_runtime_directory() {
    let manager = UpdateManager::new(true, "/run/deckox");
    assert_eq!(manager.script_path(), "/run/deckox/update.sh");
    assert_eq!(join_path("/run/deckox/", "update.sh"), "/run/deckox/update.sh");
    let arguments = manager.launch_arguments("v1.2.3");
    assert_eq!(arguments[3], "--setenv=DECKOX_VERSION=v1.2.3");
    assert_eq!(arguments.last().map(String::as_str), Some("/run/deckox/update.sh"));

    let accepted = launch_outcome("v1.2.3", true, "").expect("accepted");
    assert_eq!(accepted.command_id, "update-v1.2.3");
    let refused = launch_outcome("v1.2.3", false, "  unit exists \n").expect_err("refused");
    assert_eq!(refused.message, "unit exists");
    let refused = launch_outcome("v1.2.3", false, "").expect_err("refused");
    assert_eq!(refused.message, "update launch failed");
}

#[test]
fn accepts_the_right_password_and_rejects_others() {
    let mut verifier = verifier_with(Some(HASH));
    assert!(verifier.is_provisioned());
    assert_eq!(verifier.hash_source(), HashSource::File);
    assert!(verifier.verify("password", 10 * SECOND).is_ok());
    assert!(verifier.verify("wrong", 11 * SECOND).is_err());
}

#[test]
fn locks_after_repeated_failures_even_for_the_right_password() {
    let mut verifier = verifier_with(Some(HASH));
    for attempt in 0..5 {
        assert!(verifier.verify("guess", (20 + attempt) * SECOND).is_err());
    }
    assert!(verifier.locked_for(25 * SECOND).is_some());
    let error = verifier.verify("password", 26 * SECOND).expect_err("locked");
    assert!(error.message.contains("try again"), "{}", error.message);
}

#[test]
fn without_any_hash_it_refuses_instead_of_accepting() {
    let mut verifier = verifier_with(None);
    assert!(!verifier.is_provisioned());
    assert_eq!(verifier.hash_source(), HashSource::Missing);
    assert!(verifier.verify("anything", SECOND).is_err());
}

#[test]
fn an_existing_installation_is_provisioned_from_the_account_file() {
    let hash = account_hash("{...}", Some(HASH.to_owned())).expect("JSON account file");
    let mut verifier =
        Verifier::load("/var/lib/deckox/verifier".to_owned(), None, None, None, Some(hash));
    assert_eq!(verifier.hash_source(), HashSource::Account);
    assert!(verifier.verify("password", SECOND).is_ok());
    verifier.saved(Some(7));
    assert_eq!(verifier.hash_source(), HashSource::File);

    let legacy = account_hash(HASH, None).expect("bare hash format works");
    assert_eq!(legacy, HASH);
    assert_eq!(account_hash("not a hash", None), None);
}

#[test]
fn a_hash_from_the_environment_cannot_be_replaced() {
    let mut verifier = Verifier::load(
        "/var/lib/deckox/verifier".to_owned(),
        None,
        None,
        Some(HASH.to_owned()),
        None,
    );
    assert_eq!(verifier.hash_source(), HashSource::Environment);
    assert!(verifier
        .check_replacement("password", "new-password-1234", SECOND)
        .is_err());
    assert!(!verifier.needs_reload(Some(5)));
}

#[test]
fn replacing_needs_the_current_password() {
    let mut verifier = verifier_with(Some(HASH));
    assert!(verifier
        .check_replacement("wrong-current-1", "new-password-1234", SECOND)
        .is_err());
    assert!(verifier
        .check_replacement("password", "short", 2 * SECOND)
        .is_err(), "a weak new password is refused");
    assert!(verifier
        .check_replacement("password", "new-password-1234", 3 * SECOND)
        .is_ok());
}

#[test]
fn a_verifier_file_changed_on_disk_is_picked_up() {
    let mut verifier = verifier_with(Some("$argon2id$v=19$m=256,t=2,p=1$c29tZXNhbHQ$AAAA"));
    assert!(verifier.needs_reload(Some(2)));
    assert!(!verifier.needs_reload(Some(1)));
    verifier.reload(Some(2), &format!("{HASH}\n"));
    assert!(!verifier.needs_reload(Some(2)));
    assert!(verifier.verify("password", SECOND).is_ok(), "the new hash takes effect");
    assert_eq!(verifier_hash(&format!("  {HASH}\n")), Some(HASH.to_owned()));
    assert_eq!(verifier_hash("garbage"), None);
}

#[test]
fn a_replacement_hash_accepts_the_new_password() {
    let hash = Verifier::hash_replacement("new-password-1234").expect("hashed");
    assert!(hash.starts_with("$argon2id$"));
    let mut verifier = verifier_with(Some(&hash));
    assert!(verifier.verify("new-password-1234", SECOND).is_ok());
    assert!(verifier.verify("old-password-123", 2 * SECOND).is_err());
}

#[test]
fn replacing_needs_the_current_password_and_survives_a_restart() {
    let mut verifier = verifier_with(Some(HASH));
    assert!(verifier
        .check_replacement("wrong-current-1", "new-password-1234", SECOND)
        .is_err());
    verifier
        .check_replacement("password", "new-password-1234", 2 * SECOND)
        .expect("the current password is right");
    let hash = Verifier::hash_replacement("new-password-1234").expect("hashed");
    verifier.installed(hash.clone(), Some(9));
    assert!(verifier.verify("new-password-1234", 3 * SECOND).is_ok());
    assert!(verifier.verify("password", 4 * SECOND).is_err());

    let mut restarted = Verifier::load(
        "/var/lib/deckox/verifier".to_owned(),
        verifier_hash(&format!("{hash}\n")),
        Some(9),
        None,
        None,
    );
    assert!(restarted.verify("new-password-1234", 5 * SECOND).is_ok());
    assert!(
        verifier.check_replacement("new-password-1234", "short", 6 * SECOND).is_err(),
        "a weak new password is refused"
    );
}
