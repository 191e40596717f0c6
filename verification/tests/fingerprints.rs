use no_clone::fingerprint::{
    check_token, token_for, verify_token, FingerprintKey, VerificationStatus, KEY_ID_LENGTH,
    KEY_LENGTH, TOKEN_LENGTH,
};

fn key() -> FingerprintKey {
    FingerprintKey::from_parts(vec![7; KEY_LENGTH], vec![9; KEY_ID_LENGTH]).unwrap()
}

#[test]
fn tokens_are_deterministic_and_verify() {
    let key = key();
    let token = token_for(&key, "production", "token", b"value");
    assert!(matches!(
        verify_token(&key, "production", "token", b"value", &token).unwrap(),
        VerificationStatus::Match
    ));
    assert!(matches!(
        verify_token(&key, "production", "token", b"other", &token).unwrap(),
        VerificationStatus::Mismatch
    ));
}

#[test]
fn tokens_bind_profile_and_secret_name() {
    let key = key();
    let token = token_for(&key, "production", "token", b"value");
    assert!(matches!(
        verify_token(&key, "staging", "token", b"value", &token).unwrap(),
        VerificationStatus::Mismatch
    ));
    assert!(matches!(
        verify_token(&key, "production", "password", b"value", &token).unwrap(),
        VerificationStatus::Mismatch
    ));
}

#[test]
fn old_key_ids_are_stale() {
    let old_key = key();
    let token = token_for(&old_key, "production", "token", b"value");
    let new_key = FingerprintKey::from_parts(vec![8; KEY_LENGTH], vec![10; KEY_ID_LENGTH]).unwrap();
    assert!(matches!(
        verify_token(&new_key, "production", "token", b"value", &token).unwrap(),
        VerificationStatus::Stale
    ));
}

#[test]
fn arbitrary_bytes_are_supported() {
    let key = key();
    let value = [0, 1, 2, 255, b'\n'];
    let token = token_for(&key, "production", "binary", &value);
    assert!(token.is_ascii());
    assert_eq!(token.len(), 75);
    assert!(matches!(
        verify_token(&key, "production", "binary", &value, &token).unwrap(),
        VerificationStatus::Match
    ));
}

#[test]
fn malformed_tokens_are_rejected() {
    let key = key();
    for token in ["", "sha512:abc", "nc-fp-v1.a.b.c", "nc-fp-v1.abc.abc"] {
        assert!(verify_token(&key, "production", "token", b"value", token).is_err());
    }
}

#[test]
fn tokens_have_their_documented_form() {
    assert_eq!(
        token_for(&key(), "production", "token", b"value"),
        "nc-fp-v1.CQkJCQkJCQkJCQkJCQkJCQ.X_z_ameTl4MXpc-UgtvPXfKgv3iNK6uLMbuJrax8oh8"
    );
    assert_eq!(
        token_for(&key(), "", "", b""),
        "nc-fp-v1.CQkJCQkJCQkJCQkJCQkJCQ.0YRzLCakxTrrIjAvvZhEGXY-6soT1PtNK2H1Pg3jKCQ"
    );
    let counting: Vec<u8> = (0u8..32).collect();
    let falling: Vec<u8> = (0u8..16).map(|index| 0xff - index).collect();
    let other = FingerprintKey::from_parts(counting, falling).unwrap();
    assert_eq!(
        token_for(&other, "pröd", "tls.cert", &[0, 1, 2, 255, 10]),
        "nc-fp-v1.__79_Pv6-fj39vX08_Lx8A.V1G30DDAnrjKARNjxGFAl235JkW0YYEQI4be1yPIuHc"
    );
}

#[test]
fn names_and_values_do_not_run_into_each_other() {
    let key = key();
    let token = token_for(&key, "ab", "c", b"d");
    for (profile, secret, value) in [("a", "bc", "d"), ("ab", "", "cd"), ("abc", "", "d")] {
        assert_eq!(
            verify_token(&key, profile, secret, value.as_bytes(), &token).unwrap(),
            VerificationStatus::Mismatch
        );
    }
}

#[test]
fn a_trailing_newline_is_a_mismatch() {
    let key = key();
    let token = token_for(&key, "production", "token", b"value");
    assert_eq!(
        verify_token(&key, "production", "token", b"value\n", &token).unwrap(),
        VerificationStatus::Mismatch
    );
}

#[test]
fn a_stale_token_wins_over_a_matching_tag() {
    let new_key = FingerprintKey::from_parts(vec![7; KEY_LENGTH], vec![10; KEY_ID_LENGTH]).unwrap();
    let token = token_for(&key(), "production", "token", b"value");
    assert_eq!(
        verify_token(&new_key, "production", "token", b"value", &token).unwrap(),
        VerificationStatus::Stale
    );
}

#[test]
fn token_errors_say_what_is_wrong() {
    let good_id = "CQkJCQkJCQkJCQkJCQkJCQ";
    let good_tag = "X_z_ameTl4MXpc-UgtvPXfKgv3iNK6uLMbuJrax8oh8";
    let message = |token: &str| check_token(token).unwrap_err().message();
    assert_eq!(message("nc-fp-v1"), "invalid fingerprint token");
    assert_eq!(message("nc-fp-v1.a"), "invalid fingerprint token");
    assert_eq!(message("nc-fp-v2.a.b"), "invalid fingerprint token");
    assert_eq!(message(&format!("nc-fp-v1.{good_id}.{good_tag}.")), "invalid fingerprint token");
    assert_eq!(
        message(&format!("nc-fp-v1.!.{good_tag}")),
        "invalid fingerprint key id encoding: Invalid symbol 33, offset 0."
    );
    assert_eq!(
        message(&format!("nc-fp-v1.CQ.{good_tag}")),
        "invalid fingerprint key id length"
    );
    assert_eq!(
        message(&format!("nc-fp-v1.{good_id}.=")),
        "invalid fingerprint tag encoding: Invalid symbol 61, offset 0."
    );
    assert_eq!(
        message(&format!("nc-fp-v1.{good_id}.CQ")),
        "invalid fingerprint tag length"
    );
    assert!(check_token(&format!("nc-fp-v1.{good_id}.{good_tag}")).is_ok());
}

#[test]
fn padded_tokens_are_rejected() {
    let token = "nc-fp-v1.CQkJCQkJCQkJCQkJCQkJCQ==.X_z_ameTl4MXpc-UgtvPXfKgv3iNK6uLMbuJrax8oh8=";
    assert!(check_token(token).is_err());
}

#[test]
fn keys_are_checked_and_kept() {
    assert_eq!(
        FingerprintKey::from_parts(vec![1; 31], vec![2; 16]).unwrap_err().message(),
        "vault fingerprint key has an invalid length"
    );
    assert_eq!(
        FingerprintKey::from_parts(vec![1; 32], vec![2; 17]).unwrap_err().message(),
        "vault fingerprint key id has an invalid length"
    );
    let key = key();
    assert_eq!(key.key_bytes(), &[7; 32]);
    assert_eq!(key.key_id(), &[9; 16]);
}

#[test]
fn generated_keys_differ() {
    let first = FingerprintKey::generate();
    let second = FingerprintKey::generate();
    assert_eq!(first.key_bytes().len(), KEY_LENGTH);
    assert_ne!(first.key_bytes(), &[0; 32]);
    assert_ne!(first.key_bytes(), second.key_bytes());
    assert_ne!(first.key_id(), second.key_id());
}

#[test]
fn debug_output_hides_the_key() {
    let shown = format!("{:?}", key());
    assert!(!shown.contains("7, 7"));
    assert!(shown.contains("9, 9"));
}

#[test]
fn tokens_have_one_length() {
    for value in [&b""[..], b"value", &[0; 1000]] {
        assert_eq!(token_for(&key(), "production", "token", value).len(), TOKEN_LENGTH);
    }
    assert_eq!(
        check_token("nc-fp-v1.abd.abd").unwrap_err().message(),
        "invalid fingerprint key id encoding: Invalid last symbol 100, offset 2."
    );
    assert_eq!(
        check_token("nc-fp-v1.abc.abc").unwrap_err().message(),
        "invalid fingerprint key id length"
    );
}
