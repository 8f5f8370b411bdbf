use atomic_kb::provider_error::{truncate_utf8, ProviderError};

#[test]
fn display_texts_of_every_variant() {
    assert_eq!(
        ProviderError::Network("connection reset".to_string()).to_string(),
        "Network error: connection reset"
    );
    assert_eq!(
        ProviderError::Api { status: 503, message: "overloaded".to_string() }.to_string(),
        "API error (503): overloaded"
    );
    assert_eq!(
        ProviderError::RateLimited { retry_after_secs: Some(30) }.to_string(),
        "Rate limited, retry after 30 seconds"
    );
    assert_eq!(
        ProviderError::RateLimited { retry_after_secs: None }.to_string(),
        "Rate limited"
    );
    assert_eq!(
        ProviderError::ModelNotFound("gpt-x".to_string()).to_string(),
        "Model not found: gpt-x"
    );
    assert_eq!(
        ProviderError::Configuration("missing API key".to_string()).to_string(),
        "Configuration error: missing API key"
    );
    assert_eq!(
        ProviderError::CapabilityNotSupported("embeddings".to_string()).to_string(),
        "Capability not supported: embeddings"
    );
    assert_eq!(
        ProviderError::ParseError("bad json".to_string()).to_string(),
        "Parse error: bad json"
    );
    assert_eq!(ProviderError::NotInitialized.to_string(), "Provider not initialized");
}

#[test]
fn display_writes_zero_and_large_numbers() {
    assert_eq!(
        ProviderError::Api { status: 0, message: String::new() }.to_string(),
        "API error (0): "
    );
    assert_eq!(
        ProviderError::RateLimited { retry_after_secs: Some(u64::MAX) }.to_string(),
        format!("Rate limited, retry after {} seconds", u64::MAX)
    );
}

#[test]
fn only_bad_request_and_auth_errors_are_permanent() {
    for status in [400u16, 401] {
        let e = ProviderError::Api { status, message: String::new() };
        assert!(!e.is_retryable());
    }
    for status in [404u16, 413, 429, 500, 502, 503] {
        let e = ProviderError::Api { status, message: String::new() };
        assert!(e.is_retryable());
    }
    assert!(ProviderError::RateLimited { retry_after_secs: None }.is_retryable());
    assert!(ProviderError::Network("x".to_string()).is_retryable());
    assert!(!ProviderError::ModelNotFound("m".to_string()).is_retryable());
    assert!(!ProviderError::Configuration("c".to_string()).is_retryable());
    assert!(!ProviderError::CapabilityNotSupported("c".to_string()).is_retryable());
    assert!(!ProviderError::ParseError("p".to_string()).is_retryable());
    assert!(!ProviderError::NotInitialized.is_retryable());
}

#[test]
fn batch_reduction_only_for_api_400() {
    assert!(ProviderError::Api { status: 400, message: String::new() }.is_batch_reducible());
    assert!(!ProviderError::Api { status: 401, message: String::new() }.is_batch_reducible());
    assert!(!ProviderError::Api { status: 413, message: String::new() }.is_batch_reducible());
    assert!(!ProviderError::Network("x".to_string()).is_batch_reducible());
    // never both: a reducible error is not retryable
    let e = ProviderError::Api { status: 400, message: String::new() };
    assert!(e.is_batch_reducible() && !e.is_retryable());
}

#[test]
fn retry_delays() {
    assert_eq!(ProviderError::RateLimited { retry_after_secs: Some(7) }.retry_after(), Some(7));
    assert_eq!(ProviderError::RateLimited { retry_after_secs: None }.retry_after(), None);
    assert_eq!(ProviderError::Network("x".to_string()).retry_after(), Some(1));
    assert_eq!(ProviderError::Api { status: 500, message: String::new() }.retry_after(), None);
    assert_eq!(ProviderError::NotInitialized.retry_after(), None);
}

#[test]
fn json_error_becomes_parse_error_with_its_text() {
    let err = serde_json::from_str::<u32>("not json").unwrap_err();
    let text = err.to_string();
    let e: ProviderError = err.into();
    match e {
        ProviderError::ParseError(msg) => assert_eq!(msg, text),
        other => panic!("unexpected {:?}", other),
    }
}

#[test]
fn provider_error_converts_to_its_display_string() {
    let s: String = ProviderError::Configuration("no key".to_string()).into();
    assert_eq!(s, "Configuration error: no key");
}

#[test]
fn truncate_keeps_short_strings_whole() {
    assert_eq!(truncate_utf8("hello", 5), "hello");
    assert_eq!(truncate_utf8("hello", 100), "hello");
    assert_eq!(truncate_utf8("", 0), "");
}

#[test]
fn truncate_cuts_ascii_at_the_limit() {
    assert_eq!(truncate_utf8("hello world", 5), "hello");
    assert_eq!(truncate_utf8("hello", 0), "");
}

#[test]
fn truncate_never_splits_a_multibyte_char() {
    // "é" is two bytes; a limit inside it backs off to the boundary before it
    assert_eq!(truncate_utf8("aé", 2), "a");
    assert_eq!(truncate_utf8("aé", 3), "aé");
    // "€" is three bytes
    assert_eq!(truncate_utf8("€€", 4), "€");
    assert_eq!(truncate_utf8("€€", 2), "");
    // "😀" is four bytes
    assert_eq!(truncate_utf8("x😀y", 4), "x");
    assert_eq!(truncate_utf8("x😀y", 5), "x😀");
}

#[test]
fn a_suggested_delay_means_the_error_is_retryable() {
    let errors = vec![
        ProviderError::Network("x".to_string()),
        ProviderError::Api { status: 400, message: String::new() },
        ProviderError::Api { status: 503, message: String::new() },
        ProviderError::RateLimited { retry_after_secs: Some(2) },
        ProviderError::RateLimited { retry_after_secs: None },
        ProviderError::ModelNotFound("m".to_string()),
        ProviderError::NotInitialized,
    ];
    for e in errors {
        if e.retry_after().is_some() {
            assert!(e.is_retryable(), "{:?}", e);
        }
        if e.is_batch_reducible() {
            assert!(!e.is_retryable(), "{:?}", e);
        }
    }
}

#[test]
fn reqwest_error_becomes_network_error_with_its_text() {
    let err = reqwest::Client::new().get("not a url").build().unwrap_err();
    let text = err.to_string();
    let e: ProviderError = err.into();
    match e {
        ProviderError::Network(msg) => assert_eq!(msg, text),
        other => panic!("unexpected {:?}", other),
    }
}

#[test]
fn truncation_is_idempotent_and_monotone() {
    for s in ["", "abc", "aé€😀z", "€€€"] {
        for m in 0..12usize {
            let once = truncate_utf8(s, m);
            assert_eq!(truncate_utf8(once, m), once);
            for m2 in m..12usize {
                assert!(truncate_utf8(s, m2).starts_with(once));
            }
        }
    }
}
