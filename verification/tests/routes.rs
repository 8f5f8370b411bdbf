use atomic_kb::routes::{
    conversations_page, default_poll_interval, is_dimension_setting, models_after_fetch,
    models_fetch_error, models_first_step, openrouter_test_reply, parse_search_mode,
    rejection_text, search_plan, str_equals, unreachable_text, GetConversationsQuery,
    ModelsReply, ModelsStep, OpenRouterTestReply, SearchMode,
};

#[test]
fn feeds_poll_hourly_by_default() {
    assert_eq!(default_poll_interval(), 60);
}

#[test]
fn conversation_listing_defaults_to_fifty_from_the_start() {
    let q = GetConversationsQuery { filter_tag_id: None, limit: None, offset: None };
    assert_eq!(conversations_page(&q), (50, 0));
    let q = GetConversationsQuery { filter_tag_id: None, limit: Some(5), offset: Some(10) };
    assert_eq!(conversations_page(&q), (5, 10));
}

#[test]
fn search_modes_by_name() {
    assert_eq!(parse_search_mode("keyword"), Some(SearchMode::Keyword));
    assert_eq!(parse_search_mode("semantic"), Some(SearchMode::Semantic));
    assert_eq!(parse_search_mode("hybrid"), Some(SearchMode::Hybrid));
    assert_eq!(parse_search_mode("Hybrid"), None);
    assert_eq!(parse_search_mode(""), None);
    assert_eq!(parse_search_mode("keywords"), None);
}

#[test]
fn search_plan_defaults_limit_to_twenty() {
    assert_eq!(search_plan("semantic", None), Some((SearchMode::Semantic, 20)));
    assert_eq!(search_plan("keyword", Some(3)), Some((SearchMode::Keyword, 3)));
    assert_eq!(search_plan("fuzzy", Some(3)), None);
}

#[test]
fn dimension_settings_need_reembedding() {
    assert!(is_dimension_setting("provider"));
    assert!(is_dimension_setting("embedding_model"));
    assert!(is_dimension_setting("ollama_embedding_model"));
    assert!(!is_dimension_setting("tagging_model"));
    assert!(!is_dimension_setting("provider "));
    assert!(!is_dimension_setting(""));
}

#[test]
fn str_equals_compares_whole_strings() {
    assert!(str_equals("abc", "abc"));
    assert!(str_equals("", ""));
    assert!(!str_equals("abc", "abd"));
    assert!(!str_equals("ab", "abc"));
    assert!(str_equals("héllo", "héllo"));
}

#[test]
fn models_route_serves_fresh_cache_without_fetching() {
    assert_eq!(models_first_step(true, false), ModelsStep::ServeCache);
    assert_eq!(models_first_step(true, true), ModelsStep::Fetch);
    assert_eq!(models_first_step(false, true), ModelsStep::Fetch);
    assert_eq!(models_first_step(false, false), ModelsStep::Fetch);
}

#[test]
fn models_route_falls_back_to_stale_cache() {
    assert_eq!(models_after_fetch(true, true), ModelsReply::Fresh);
    assert_eq!(models_after_fetch(true, false), ModelsReply::Fresh);
    assert_eq!(models_after_fetch(false, true), ModelsReply::Cached);
    assert_eq!(models_after_fetch(false, false), ModelsReply::Unavailable);
    assert_eq!(models_fetch_error("timeout"), "Failed to fetch models: timeout");
}

#[test]
fn openrouter_test_success_on_2xx() {
    assert!(matches!(openrouter_test_reply(Ok((200, String::new()))), OpenRouterTestReply::Success));
    assert!(matches!(openrouter_test_reply(Ok((299, String::new()))), OpenRouterTestReply::Success));
}

#[test]
fn openrouter_test_rejection_names_the_status() {
    match openrouter_test_reply(Ok((401, "bad key".to_string()))) {
        OpenRouterTestReply::Rejected(t) => assert_eq!(t, "API error (401 Unauthorized): bad key"),
        other => panic!("unexpected {:?}", other),
    }
    match openrouter_test_reply(Ok((300, String::new()))) {
        OpenRouterTestReply::Rejected(t) => assert_eq!(t, "API error (300 Multiple Choices): "),
        other => panic!("unexpected {:?}", other),
    }
    match openrouter_test_reply(Ok((599, "x".to_string()))) {
        OpenRouterTestReply::Rejected(t) => {
            assert_eq!(t, "API error (599 <unknown status code>): x")
        }
        other => panic!("unexpected {:?}", other),
    }
}

#[test]
fn openrouter_test_network_failure() {
    match openrouter_test_reply(Err("dns failure".to_string())) {
        OpenRouterTestReply::Unreachable(t) => assert_eq!(t, "Network error: dns failure"),
        other => panic!("unexpected {:?}", other),
    }
    assert_eq!(rejection_text("500 Internal Server Error", "oops"), "API error (500 Internal Server Error): oops");
    assert_eq!(unreachable_text("refused"), "Network error: refused");
}
