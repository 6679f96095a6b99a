use ravix::askpass::{CredentialCache, PromptKind, parse_askpass_prompt, quoted_host, strip_newline};

#[test]
fn a_password_prompt_is_classified_and_carries_its_host() {
    let prompt = parse_askpass_prompt("Password for 'https://CPSAA@dev.azure.com': ");
    assert_eq!(prompt.kind, PromptKind::Password);
    assert_eq!(prompt.host, "https://CPSAA@dev.azure.com");
}

#[test]
fn a_username_prompt_is_classified_and_carries_its_host() {
    let prompt = parse_askpass_prompt("Username for 'https://dev.azure.com': ");
    assert_eq!(prompt.kind, PromptKind::Username);
    assert_eq!(prompt.host, "https://dev.azure.com");
}

#[test]
fn a_prompt_without_a_quoted_host_still_classifies() {
    let prompt = parse_askpass_prompt("Password: ");
    assert_eq!(prompt.kind, PromptKind::Password);
    assert_eq!(prompt.host, "");
}

#[test]
fn an_unrecognised_prompt_defaults_to_a_masked_password() {
    let prompt = parse_askpass_prompt("Enter your token: ");
    assert_eq!(prompt.kind, PromptKind::Password);
}

#[test]
fn an_unseen_host_has_no_cached_credential() {
    let cache = CredentialCache::default();
    assert_eq!(
        cache.get("https://dev.azure.com", PromptKind::Password),
        None
    );
}

#[test]
fn a_stored_credential_is_returned_for_the_same_host_and_kind() {
    let mut cache = CredentialCache::default();
    cache.store(
        "https://dev.azure.com",
        PromptKind::Password,
        "s3cr3t".to_string(),
    );
    assert_eq!(
        cache.get("https://dev.azure.com", PromptKind::Password),
        Some("s3cr3t")
    );
}

#[test]
fn the_cache_key_separates_hosts_and_kinds() {
    let mut cache = CredentialCache::default();
    cache.store(
        "https://dev.azure.com",
        PromptKind::Password,
        "pass".to_string(),
    );
    cache.store("https://dev.azure.com", PromptKind::Username, "user".to_string());

    assert_eq!(
        cache.get("https://dev.azure.com", PromptKind::Username),
        Some("user")
    );
    assert_eq!(
        cache.get("https://dev.azure.com", PromptKind::Password),
        Some("pass")
    );
    assert_eq!(cache.get("https://github.com", PromptKind::Password), None);
}

#[test]
fn storing_again_replaces_the_earlier_answer() {
    let mut cache = CredentialCache::default();
    cache.store("h", PromptKind::Password, "old".to_string());
    cache.store("h", PromptKind::Password, "new".to_string());
    assert_eq!(cache.get("h", PromptKind::Password), Some("new"));
}

#[test]
fn an_unclosed_quote_gives_no_host() {
    assert_eq!(quoted_host("Password for 'https://x"), None);
    assert_eq!(quoted_host("a 'b' c 'd'"), Some("b".to_string()));
}

#[test]
fn line_endings_are_stripped_from_an_answer() {
    assert_eq!(strip_newline("hunter2\r\n"), "hunter2");
    assert_eq!(strip_newline("a\nb\n\n"), "a\nb");
    assert_eq!(strip_newline(""), "");
}
