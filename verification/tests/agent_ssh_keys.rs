use deckox::agent::ssh_keys::{
    check_key_id, check_keys_file, check_ssh_directory, plan_ssh_directory, DirectoryStep, parse_public_key, resolve_user,
    valid_username, AuthorizedKeysDocument, PathFacts, SshKeyManager, END_MARKER, START_MARKER,
};

const ED25519_KEY: &str =
    "ssh-ed25519 AAAAC3NzaC1lZDI1NTE5AAAAIAAAAAAAAAAAAAAAAAAAAAAAAAAAAAAAAAAAAAAAAAAA laptop";

const PASSWD: &str = "root:x:0:0:root:/root:/bin/bash\n\
                      alice:x:1000:1000:Alice:/home/alice:/bin/bash\n";

#[test]
fn parses_key_and_calculates_fingerprint() {
    let key = parse_public_key(ED25519_KEY).expect("key should parse");
    assert_eq!(key.summary.key_type, "ssh-ed25519");
    assert_eq!(key.summary.comment.as_deref(), Some("laptop"));
    assert!(key.summary.fingerprint.starts_with("SHA256:"));
}

#[test]
fn the_fingerprint_and_id_are_hashes_of_the_key() {
    let key = parse_public_key(ED25519_KEY).expect("key should parse");
    assert_eq!(key.summary.fingerprint, "SHA256:kmYcvdi2GkPeWxB6XLjrZB8JHsy2Hm8luHMFp9GMvqk");
    assert_eq!(key.normalized, ED25519_KEY);
    assert_eq!(
        key.summary.id,
        "d0d241d9b88c9a116b8f5b339a1e687bfb10327bc38a39139f8a577ccd8d904d"
    );
}

#[test]
fn preserves_lines_outside_managed_block() {
    let input = format!("# existing\n{START_MARKER}\n{ED25519_KEY}\n{END_MARKER}\n# footer\n");
    let document = AuthorizedKeysDocument::parse(&input).expect("document should parse");
    assert_eq!(document.managed.len(), 1);
    assert_eq!(document.render(), input);
}

#[test]
fn rejects_authorized_keys_options_for_new_keys() {
    let input = format!("from=\"10.0.0.0/8\" {ED25519_KEY}");
    assert!(parse_public_key(&input).is_err());
}

#[test]
fn rejects_unsupported_key_types() {
    assert!(parse_public_key("ssh-dss AAAAB3NzaC1kc3MAAACBAP comment").is_err());
    assert!(parse_public_key("").is_err());
}

#[test]
fn a_key_is_added_once_and_removed_by_id() {
    let mut document =
        AuthorizedKeysDocument::parse("ssh-rsa AAAAB3NzaC1yc2E old-laptop\n").expect("parses");
    let key = parse_public_key(ED25519_KEY).expect("key");
    let added = SshKeyManager::add_to(&mut document, key.clone()).expect("added");
    assert!(SshKeyManager::add_to(&mut document, key).is_err(), "no duplicates");
    assert_eq!(document.managed.len(), 1);
    let rendered = document.render();
    assert!(rendered.contains(START_MARKER) && rendered.contains(END_MARKER), "{rendered}");

    let removed = SshKeyManager::remove_from(&mut document, &added.id).expect("removed");
    assert_eq!(removed, added);
    assert!(document.managed.is_empty());
    assert!(SshKeyManager::remove_from(&mut document, &added.id).is_err());
}

#[test]
fn the_last_key_is_never_removed() {
    let mut document = AuthorizedKeysDocument::empty();
    let key = parse_public_key(ED25519_KEY).expect("key");
    let added = SshKeyManager::add_to(&mut document, key).expect("added");
    assert!(SshKeyManager::remove_from(&mut document, &added.id).is_err());
    assert_eq!(document.managed.len(), 1);
}

#[test]
fn key_ids_are_sixty_four_hex_digits() {
    assert!(check_key_id("d0d241d9b88c9a116b8f5b339a1e687bfb10327bc38a39139f8a577ccd8d904d").is_ok());
    assert!(check_key_id("d0d2").is_err());
    assert!(check_key_id("../../etc/passwd").is_err());
}

#[test]
fn resolves_the_managed_user_from_passwd() {
    assert!(valid_username("alice"));
    assert!(!valid_username("../root"));
    let user = resolve_user("alice", PASSWD).expect("alice exists");
    assert_eq!(user.home, "/home/alice");
    assert_eq!(user.uid, 1000);
    assert_eq!(user.gid, 1000);
    assert!(resolve_user("bob", PASSWD).is_err());
}

#[test]
fn without_a_managed_user_the_feature_is_off() {
    let manager = SshKeyManager::new(None, PASSWD).expect("off");
    assert!(manager.target_user().is_err());
    let list = manager.list(AuthorizedKeysDocument::empty());
    assert!(!list.enabled);
    assert!(list.keys.is_empty());

    let manager = SshKeyManager::new(Some("alice"), PASSWD).expect("on");
    assert_eq!(manager.target_user().expect("alice").username, "alice");
    assert!(SshKeyManager::new(Some("bob"), PASSWD).is_err());
}

#[test]
fn the_ssh_directory_must_be_a_real_directory_of_the_user() {
    let dir = PathFacts { is_dir: true, is_file: false, is_symlink: false, uid: 1000, len: 0 };
    assert!(check_ssh_directory(dir, 1000).is_ok());
    assert!(check_ssh_directory(dir, 0).is_err());
    let link = PathFacts { is_symlink: true, ..dir };
    assert!(check_ssh_directory(link, 1000).is_err());

    let file = PathFacts { is_dir: false, is_file: true, is_symlink: false, uid: 1000, len: 10 };
    assert!(check_keys_file(file, 1000).is_ok());
    assert!(check_keys_file(file, 1001).is_err());
}

#[test]
fn writing_keys_secures_creates_or_refuses_the_ssh_directory() {
    let dir = PathFacts { is_dir: true, is_file: false, is_symlink: false, uid: 1000, len: 0 };
    assert_eq!(plan_ssh_directory(Some(dir), 1000).ok(), Some(DirectoryStep::Secure));
    assert_eq!(plan_ssh_directory(None, 1000).ok(), Some(DirectoryStep::Create));
    for facts in [
        PathFacts { uid: 0, ..dir },
        PathFacts { is_symlink: true, ..dir },
        PathFacts { is_dir: false, is_file: true, ..dir },
    ] {
        let error = plan_ssh_directory(Some(facts), 1000).err().expect("refused");
        assert_eq!(error.message, "refusing unsafe .ssh directory");
    }
}
