use iloveu::session::{decode_token, SessionManager};

#[test]
fn repeated_logins_give_distinct_valid_tokens() {
    let mut sessions = SessionManager::new();
    let mut tokens = Vec::new();
    for _ in 0..20 {
        let t = sessions.new_session();
        assert!(sessions.validate_session(&t));
        assert!(!tokens.contains(&t), "two logins produced equal tokens");
        tokens.push(t);
    }
}

#[test]
fn an_unissued_token_does_not_validate() {
    let sessions = SessionManager::new();
    assert!(!sessions.validate_session(&[0u8; 32]));
}

#[test]
fn an_invalidated_token_fails_later_validation() {
    let mut sessions = SessionManager::new();
    let a = sessions.new_session();
    let b = sessions.new_session();
    assert!(sessions.invalidate_session(a));
    assert!(!sessions.validate_session(&a));
    assert!(sessions.validate_session(&b));
    // A second withdrawal finds nothing to remove.
    assert!(!sessions.invalidate_session(a));
}

#[test]
fn two_managers_issue_different_tokens() {
    // The salt is drawn per manager, so even the same counter value hashes
    // to different tokens across processes.
    let mut one = SessionManager::new();
    let mut two = SessionManager::new();
    assert_ne!(one.new_session(), two.new_session());
}

#[test]
fn decode_token_reads_url_safe_base64() {
    // 43 characters of 'A' are the unpadded URL-safe encoding of 32 zero bytes.
    let encoded = "A".repeat(43);
    assert_eq!(decode_token(&encoded), Some([0u8; 32]));
}

#[test]
fn decode_token_rejects_wrong_lengths_and_bad_text() {
    assert_eq!(decode_token("AAAA"), None); // decodes to 3 bytes, not 32
    assert_eq!(decode_token("not base64!!"), None);
    assert_eq!(decode_token(""), None);
}
