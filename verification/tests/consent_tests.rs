use m8_nexus::consent::ConsentManager;
use m8_nexus::consent::ConsentPolicy;
use m8_nexus::consent::ConsentRequest;
use m8_nexus::consent::ConsentType;

#[test]
fn test_consent_flow() {
    let mut manager = ConsentManager::new(ConsentPolicy::AlwaysAsk);

    // Should not have consent initially
    assert!(!manager.check_consent("user1", ConsentType::Upload));

    // Grant consent
    manager.grant_consent(
        "user1",
        ConsentType::Upload,
        "Testing".to_string(),
        Some(60),
        vec![],
    );

    // Should now have consent
    assert!(manager.check_consent("user1", ConsentType::Upload));

    // Different operation should not have consent
    assert!(!manager.check_consent("user1", ConsentType::QuantumCompress));
}

#[test]
fn consent_expires_after_duration() {
    let mut manager = ConsentManager::new(ConsentPolicy::AlwaysAsk);
    manager.grant_consent_at("u", ConsentType::Upload, "p".to_string(), Some(10), vec![], 100);
    assert!(manager.check_consent_at("u", ConsentType::Upload, 105));
    assert!(!manager.check_consent_at("u", ConsentType::Upload, 110));
    assert!(!manager.check_consent_at("u", ConsentType::Upload, 200));
}

#[test]
fn consent_without_duration_never_expires() {
    let mut manager = ConsentManager::new(ConsentPolicy::AlwaysAsk);
    manager.grant_consent_at("u", ConsentType::MemoryStore, "p".to_string(), None, vec![], 0);
    assert!(manager.check_consent_at("u", ConsentType::MemoryStore, u64::MAX));
}

#[test]
fn revoked_consent_falls_back_to_policy() {
    let mut manager = ConsentManager::new(ConsentPolicy::AlwaysAsk);
    manager.grant_consent_at("u", ConsentType::Upload, "p".to_string(), None, vec![], 0);
    manager.revoke_consent("u", ConsentType::Upload);
    assert!(!manager.check_consent_at("u", ConsentType::Upload, 1));

    let mut open_manager = ConsentManager::new(ConsentPolicy::ImplicitAllow);
    open_manager.grant_consent_at("u", ConsentType::Upload, "p".to_string(), None, vec![], 0);
    open_manager.revoke_consent("u", ConsentType::Upload);
    assert!(open_manager.check_consent_at("u", ConsentType::Upload, 1));
}

#[test]
fn time_limited_policy_grants_implicitly() {
    let mut manager = ConsentManager::new(ConsentPolicy::TimeLimited(100));
    assert!(manager.check_consent_at("u", ConsentType::MemoryStore, 50));
    // The implicit grant was recorded and is visible while it lasts.
    let consents = manager.get_user_consents_at("u", 60);
    assert_eq!(consents.len(), 1);
    assert_eq!(consents[0].0, ConsentType::MemoryStore);
    assert!(consents[0].1.granted);
    assert_eq!(consents[0].1.timestamp, 50);
    assert_eq!(consents[0].1.duration, Some(100));
    // And it expires like any other.
    assert!(manager.get_user_consents_at("u", 151).is_empty());
}

#[test]
fn cleanup_drops_revoked_and_expired() {
    let mut manager = ConsentManager::new(ConsentPolicy::AlwaysAsk);
    manager.grant_consent_at("a", ConsentType::Upload, "p".to_string(), Some(10), vec![], 0);
    manager.grant_consent_at("b", ConsentType::Upload, "p".to_string(), None, vec![], 0);
    manager.grant_consent_at("c", ConsentType::Upload, "p".to_string(), None, vec![], 0);
    manager.revoke_consent("c", ConsentType::Upload);
    manager.cleanup_expired_at(20);
    assert!(manager.get_user_consents_at("a", 20).is_empty());
    assert_eq!(manager.get_user_consents_at("b", 20).len(), 1);
    assert!(manager.get_user_consents_at("c", 20).is_empty());
}

#[test]
fn user_consents_filters_by_user() {
    let mut manager = ConsentManager::new(ConsentPolicy::AlwaysAsk);
    manager.grant_consent_at("a", ConsentType::Upload, "one".to_string(), None, vec![], 0);
    manager.grant_consent_at("a", ConsentType::ShareContext, "two".to_string(), None, vec![], 0);
    manager.grant_consent_at("b", ConsentType::Upload, "three".to_string(), None, vec![], 0);
    let consents = manager.get_user_consents_at("a", 1);
    assert_eq!(consents.len(), 2);
    assert_eq!(consents[0].1.purpose, "one");
    assert_eq!(consents[1].1.purpose, "two");
}

#[test]
fn prompt_renders_every_field() {
    let req = ConsentRequest::new("alice".to_string(), ConsentType::Upload)
        .with_purpose("archive".to_string())
        .with_data_description("one markdown file".to_string())
        .with_retention(60)
        .with_sharing(vec!["team".to_string(), "audit".to_string()]);
    let prompt = req.to_prompt();
    assert_eq!(
        prompt,
        "Consent Request\n\nUser: alice\nOperation: Upload\nPurpose: archive\n\
         Data: one markdown file\nRetention: 60 seconds\nSharing: team, audit\n\n\
         Do you consent to this operation?"
    );
}

#[test]
fn prompt_defaults_for_empty_fields() {
    let req = ConsentRequest::new("bob".to_string(), ConsentType::ShareContext);
    let prompt = req.to_prompt();
    assert_eq!(
        prompt,
        "Consent Request\n\nUser: bob\nOperation: ShareContext\nPurpose: \n\
         Data: \nRetention: Indefinite\nSharing: No external sharing\n\n\
         Do you consent to this operation?"
    );
}
