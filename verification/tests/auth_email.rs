use directory_audit::auth::{AuthConfig, AuthError, ConfigError, accept_token_response};
use directory_audit::email::{Email, EmailMessage, is_valid_email, reply_to_checks,
    sender_from_check, text_or_unknown};
use directory_audit::methods::{AuthMethod, is_software_oath, method_pairs,
    select_methods_to_delete};
use directory_audit::response::{classify_response, status_is_success};

const OATH: &str = "#microsoft.graph.softwareOathAuthenticationMethod";

#[test]
fn config_from_complete_environment() {
    let c = AuthConfig::from_values(
        Some("id".to_string()),
        Some("secret-value".to_string()),
        Some("tenant".to_string()),
    )
    .expect("all three values present");
    assert_eq!(c.client_id, "id");
    assert_eq!(c.client_secret, "secret-value");
    assert_eq!(c.tenant_id, "tenant");
}

#[test]
fn config_names_first_missing_value() {
    assert!(matches!(
        AuthConfig::from_values(None, Some("s".to_string()), Some("t".to_string())),
        Err(ConfigError::MissingClientId)
    ));
    assert!(matches!(
        AuthConfig::from_values(Some("i".to_string()), None, Some("t".to_string())),
        Err(ConfigError::MissingClientSecret)
    ));
    assert!(matches!(
        AuthConfig::from_values(Some("i".to_string()), Some("s".to_string()), None),
        Err(ConfigError::MissingTenantId)
    ));
    assert!(matches!(
        AuthConfig::from_values(None, None, None),
        Err(ConfigError::MissingClientId)
    ));
}

#[test]
fn token_acceptance() {
    let t = accept_token_response(200, Some("tok".to_string()), String::new())
        .expect("success status with a token");
    assert_eq!(t.as_str(), "tok");

    assert!(matches!(
        accept_token_response(200, Some(String::new()), String::new()),
        Err(AuthError::MissingToken)
    ));
    assert!(matches!(
        accept_token_response(200, None, "no field".to_string()),
        Err(AuthError::MissingToken)
    ));
    match accept_token_response(400, Some("tok".to_string()), "bad request".to_string()) {
        Err(AuthError::Http { status, body }) => {
            assert_eq!(status, 400);
            assert_eq!(body, "bad request");
        }
        _ => panic!("non-success status must surface the body"),
    }
}

#[test]
fn mutating_response_classification() {
    assert!(classify_response(200, String::new()).is_ok());
    assert!(classify_response(204, String::new()).is_ok());
    assert!(classify_response(299, String::new()).is_ok());
    let e = classify_response(403, "forbidden".to_string()).unwrap_err();
    assert_eq!(e.status, 403);
    assert_eq!(e.body, "forbidden");
    assert!(classify_response(199, String::new()).is_err());
    assert!(classify_response(300, String::new()).is_err());

    assert!(status_is_success(200));
    assert!(!status_is_success(301));
}

#[test]
fn email_validation_accepts_plain_addresses() {
    for ok in ["a@b.c", "user@example.com", "first.last@sub.domain.org", "a@b.c.d"] {
        assert!(is_valid_email(ok), "{ok} should be accepted");
    }
}

#[test]
fn email_validation_rejects_malformed_addresses() {
    for bad in [
        "",
        "plain",
        "no.at.sign",
        "@example.com",
        "a@@b.c",
        "two@at@b.c",
        "a@bc",
        "a@.c",
        "a@b.",
        "a b@c.d",
        "a@b.c d",
        "a@b\u{00a0}.c",
    ] {
        assert!(!is_valid_email(bad), "{bad:?} should be rejected");
    }
}

#[test]
fn email_parse_keeps_the_address() {
    let e = Email::parse("user@example.com".to_string()).expect("valid address");
    assert_eq!(e.as_str(), "user@example.com");
    let rejected = Email::parse("not-an-address".to_string()).unwrap_err();
    assert_eq!(rejected, "not-an-address");
}

#[test]
fn method_pairs_keep_complete_entries() {
    let raw = vec![
        (Some(OATH.to_string()), Some("m1".to_string())),
        (None, Some("m2".to_string())),
        (Some("#microsoft.graph.fido2AuthenticationMethod".to_string()), None),
        (Some("#microsoft.graph.phoneAuthenticationMethod".to_string()), Some("m4".to_string())),
    ];
    let methods = method_pairs(&raw);
    assert_eq!(methods.len(), 2);
    assert_eq!(methods[0].method_type, OATH);
    assert_eq!(methods[0].id, "m1");
    assert_eq!(methods[1].id, "m4");
}

#[test]
fn only_software_oath_methods_are_deleted() {
    assert!(is_software_oath(OATH));
    assert!(!is_software_oath("#microsoft.graph.phoneAuthenticationMethod"));

    let methods = vec![
        AuthMethod { method_type: OATH.to_string(), id: "m1".to_string() },
        AuthMethod {
            method_type: "#microsoft.graph.phoneAuthenticationMethod".to_string(),
            id: "m2".to_string(),
        },
        AuthMethod { method_type: OATH.to_string(), id: "m3".to_string() },
    ];
    let selected = select_methods_to_delete(&methods);
    let ids: Vec<&str> = selected.iter().map(|m| m.id.as_str()).collect();
    assert_eq!(ids, vec!["m1", "m3"]);
}

#[test]
fn reply_to_comparison_against_from() {
    let msg = EmailMessage {
        subject: Some("invoice".to_string()),
        reply_to: vec![
            Some("boss@corp.example".to_string()),
            Some("attacker@evil.example".to_string()),
            None,
        ],
        sender: Some("boss@corp.example".to_string()),
        from: Some("boss@corp.example".to_string()),
    };
    let checks = reply_to_checks(&msg);
    assert_eq!(checks.len(), 3);
    assert_eq!(checks[0], ("boss@corp.example".to_string(), true));
    assert_eq!(checks[1], ("attacker@evil.example".to_string(), false));
    assert_eq!(checks[2], ("Unknown".to_string(), false));
}

#[test]
fn sender_and_from_comparison() {
    let matching = EmailMessage {
        subject: None,
        reply_to: Vec::new(),
        sender: Some("a@b.c".to_string()),
        from: Some("a@b.c".to_string()),
    };
    assert_eq!(
        sender_from_check(&matching),
        ("a@b.c".to_string(), "a@b.c".to_string(), true)
    );

    let spoofed = EmailMessage {
        subject: None,
        reply_to: Vec::new(),
        sender: Some("mailer@relay.example".to_string()),
        from: Some("ceo@corp.example".to_string()),
    };
    let (sender, from, agrees) = sender_from_check(&spoofed);
    assert_eq!(sender, "mailer@relay.example");
    assert_eq!(from, "ceo@corp.example");
    assert!(!agrees);

    let absent = EmailMessage { subject: None, reply_to: Vec::new(), sender: None, from: None };
    // Both fall back to the placeholder, which therefore counts as agreement.
    assert_eq!(sender_from_check(&absent), ("Unknown".to_string(), "Unknown".to_string(), true));
    assert_eq!(text_or_unknown(&None), "Unknown");
}
