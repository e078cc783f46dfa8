use rand::distributions::Alphanumeric;
use rand::Rng;
use zero2prod::password::validate_new_password;
use zero2prod::subscription_token::SUBSCRIPTION_TOKEN_SIZE;
use zero2prod::{IdempotencyKey, Password, PasswordError, SubscriberEmail, SubscriptionToken};

#[test]
fn subscriber_email_empty_string_is_rejected() {
    let name = "".to_string();
    assert!(SubscriberEmail::parse(name).is_err());
}

#[test]
fn email_missing_at_symbol_is_rejected() {
    let name = "ursuladomain.com".to_string();
    assert!(SubscriberEmail::parse(name).is_err());
}

#[test]
fn email_missing_subject_is_rejected() {
    let name = "@domain.com".to_string();
    assert!(SubscriberEmail::parse(name).is_err());
}

#[test]
fn valid_email_is_parsed_and_kept() {
    let email = SubscriberEmail::parse("ursula_le_guin@gmail.com".to_string()).unwrap();
    assert_eq!(email.as_ref(), "ursula_le_guin@gmail.com");
}

#[test]
fn invalid_email_message_names_the_address() {
    let err = SubscriberEmail::parse("ursuladomain.com".to_string()).unwrap_err();
    assert_eq!(err, "ursuladomain.com is not a valid subscriber email");
}

#[test]
fn subscription_token_empty_string_is_rejected() {
    let token = "".to_string();
    assert!(SubscriptionToken::parse(token).is_err());
}

#[test]
fn non_alphanumeric_string_is_rejected() {
    let mut rng = rand::thread_rng();
    let non_alphanumeric_chars: Vec<char> = vec![
        '!', '@', '#', '$', '%', '^', '&', '*', '(', ')', '-', '_', '=', '+', '[', ']', '{', '}',
        '\\', '|', ';', ':', '\'', '"', ',', '<', '.', '>', '/', '?', '`', '~',
    ];
    let invalid_token: String = (0..SUBSCRIPTION_TOKEN_SIZE)
        .map(|_| non_alphanumeric_chars[rng.gen_range(0..non_alphanumeric_chars.len())])
        .collect();
    assert!(SubscriptionToken::parse(invalid_token).is_err());
}

#[test]
fn valid_token_is_parsed() {
    let valid_token: String = rand::thread_rng()
        .sample_iter(&Alphanumeric)
        .take(SUBSCRIPTION_TOKEN_SIZE)
        .map(char::from)
        .collect();
    assert!(SubscriptionToken::parse(valid_token).is_ok());
}

#[test]
fn token_errors_name_the_broken_rule() {
    let short = SubscriptionToken::parse("abc".to_string()).unwrap_err();
    assert_eq!(short, "abc is not a valid subscription token: incorrect size");
    let bad_chars = "abcdefghijklmnopqrstuvwx!".to_string();
    let err = SubscriptionToken::parse(bad_chars).unwrap_err();
    assert_eq!(err, "abcdefghijklmnopqrstuvwx! is not a valid subscription token: invalid characters");
    let both = SubscriptionToken::parse("a!".to_string()).unwrap_err();
    assert_eq!(both, "a! is not a valid subscription token");
}

#[test]
fn non_ascii_letters_count_as_alphanumeric_but_by_bytes() {
    // 'é' is alphabetic and takes two bytes: 23 ASCII letters and one 'é' make 25 bytes.
    let token = format!("{}é", "a".repeat(23));
    assert!(SubscriptionToken::parse(token).is_ok());
    let token = format!("{}é", "a".repeat(24));
    assert_eq!(
        SubscriptionToken::parse(token.clone()).unwrap_err(),
        format!("{} is not a valid subscription token: incorrect size", token)
    );
}

#[test]
fn generated_tokens_are_valid() {
    let a = SubscriptionToken::generate_subscription_token();
    let b = SubscriptionToken::generate_subscription_token();
    assert_eq!(a.as_ref().len(), SUBSCRIPTION_TOKEN_SIZE);
    assert!(a.as_ref().chars().all(|c| c.is_ascii_alphanumeric()));
    assert!(SubscriptionToken::parse(a.as_ref().to_string()).is_ok());
    assert_ne!(a.as_ref(), b.as_ref());
}

#[test]
fn password_length_bounds() {
    assert!(matches!(Password::parse("a".repeat(11)), Err(PasswordError::TooShort)));
    assert_eq!(Password::parse("a".repeat(12)).ok().unwrap().as_ref(), "a".repeat(12));
    assert!(Password::parse("a".repeat(128)).is_ok());
    assert!(matches!(Password::parse("a".repeat(129)), Err(PasswordError::TooLong)));
    assert!(matches!(Password::parse(String::new()), Err(PasswordError::TooShort)));
}

#[test]
fn password_length_counts_bytes() {
    // six two-byte characters make twelve bytes
    assert!(Password::parse("éééééé".to_string()).is_ok());
}

#[test]
fn new_password_fields_must_match() {
    let err = validate_new_password("a".repeat(12), &"b".repeat(12)).err().unwrap();
    assert_eq!(err, "You entered two different passwords - the field values must match.");
}

#[test]
fn new_password_must_be_at_least_12_characters() {
    let p = "a".repeat(11);
    let err = validate_new_password(p.clone(), &p).err().unwrap();
    assert_eq!(err, "The new password must be at least 12 characters long.");
}

#[test]
fn new_password_must_be_at_most_128_characters() {
    let p = "a".repeat(129);
    let err = validate_new_password(p.clone(), &p).err().unwrap();
    assert_eq!(err, "The new password must be at most 128 characters long.");
}

#[test]
fn new_password_of_12_characters_is_accepted() {
    let p = "a".repeat(12);
    assert_eq!(validate_new_password(p.clone(), &p).ok().unwrap().as_ref(), p);
}

#[test]
fn idempotency_key_rules() {
    assert_eq!(
        IdempotencyKey::parse(String::new()).err().unwrap(),
        "The idempotency key cannot be empty"
    );
    assert_eq!(
        IdempotencyKey::parse("k".repeat(50)).err().unwrap(),
        "The idempotency key must be shorter than 50 characters"
    );
    assert_eq!(IdempotencyKey::parse("k".repeat(49)).ok().unwrap().as_ref(), "k".repeat(49));
    assert_eq!(
        IdempotencyKey::parse("k 1".to_string()).err().unwrap(),
        "The idempotency key may only hold ASCII letters, digits, '-' and '_'"
    );
    let uuid_like = "67e55044-10b1-426f-9247-bb680e5fe0c8".to_string();
    assert!(IdempotencyKey::parse(uuid_like).is_ok());
}

#[test]
fn zeroized_password_is_empty() {
    let mut p = Password::parse("correct horse battery".to_string()).ok().unwrap();
    p.zeroize();
    assert_eq!(p.as_ref(), "");
}
