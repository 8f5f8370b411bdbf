use atomic_kb::longmem::{
    abstention_split, bench_autotag_targets, bench_config_error_message, bench_core_settings,
    count_retrieved_evidence, distinct_evidence_count, effective_top_k, first_evidence_rank,
    instance_db_file_name, instances_to_run, openrouter_api_key, plan_session_atoms,
    render_session_atom, retrieved_session_ids, sanitize_path_component, session_label,
    session_source_url, BenchAiSetup, BenchConfigError, LongMemEvalInstance, LongMemEvalTurn,
    PipelineEvent, PipelineFailure, PipelineProgress,
};

fn s(x: &str) -> String {
    x.to_string()
}

fn strings(xs: &[&str]) -> Vec<String> {
    xs.iter().map(|x| x.to_string()).collect()
}

fn turn(role: &str, content: &str, has_answer: Option<bool>) -> LongMemEvalTurn {
    LongMemEvalTurn { role: s(role), content: s(content), has_answer }
}

fn instance(question_id: &str, sessions: Vec<Vec<LongMemEvalTurn>>) -> LongMemEvalInstance {
    LongMemEvalInstance {
        question_id: s(question_id),
        question_type: s("single-session-user"),
        question: s("Where did I park?"),
        question_date: Some(s("2023/05/30")),
        haystack_session_ids: strings(&["s1", "s2"]),
        haystack_dates: strings(&["2023/05/01"]),
        haystack_sessions: sessions,
        answer_session_ids: strings(&["s2"]),
    }
}

#[test]
fn abstention_questions_end_in_abs() {
    assert!(instance("q7_abs", vec![]).is_abstention());
    assert!(!instance("q7", vec![]).is_abstention());
    assert!(!instance("abs", vec![]).is_abstention());
    assert!(instance("_abs", vec![]).is_abstention());
}

#[test]
fn path_components_keep_only_safe_chars() {
    assert_eq!(sanitize_path_component("q-1_a/b c"), "q-1_a_b_c");
    assert_eq!(sanitize_path_component("é.."), "___");
    assert_eq!(sanitize_path_component(""), "");
    assert_eq!(instance_db_file_name("gpt4/q 1"), "gpt4_q_1.db");
}

#[test]
fn session_labels_fall_back_to_index() {
    let ids = strings(&["a", "b"]);
    assert_eq!(session_label(&ids, 1), "b");
    assert_eq!(session_label(&ids, 2), "session-2");
    assert_eq!(session_label(&ids, 17), "session-17");
    assert_eq!(session_source_url("q1", "s9"), "bench://longmemeval/q1/s9");
}

#[test]
fn session_atom_marks_evidence_and_trims_turns() {
    let inst = instance("q1", vec![]);
    let turns = vec![
        turn("user", "  I parked on level 3.\n", Some(true)),
        turn("assistant", "Noted.", None),
        turn("user", "ok", Some(false)),
    ];
    let content = render_session_atom(&inst, "s1", None, &turns);
    assert_eq!(
        content,
        "# LongMemEval Session s1\n\nQuestion ID: q1\nQuestion date: 2023/05/30\nSession date: unknown\n\n\
         Evidence turn: true\n\n## user\n\nI parked on level 3.\n\n\
         ## assistant\n\nNoted.\n\n\
         ## user\n\nok\n\n"
    );
}

#[test]
fn planned_sessions_skip_empty_ones() {
    let inst = instance(
        "q1",
        vec![vec![], vec![turn("user", "hi", None)], vec![turn("user", "third", None)]],
    );
    let plan = plan_session_atoms(&inst);
    assert_eq!(plan.len(), 2);
    assert_eq!(plan[0].session_id, "s2");
    assert_eq!(plan[0].session_date, None);
    assert_eq!(plan[0].source_url, "bench://longmemeval/q1/s2");
    assert_eq!(
        plan[0].content,
        render_session_atom(&inst, "s2", None, &[turn("user", "hi", None)])
    );
    assert_eq!(plan[1].session_id, "session-2");
    assert_eq!(plan[1].source_url, "bench://longmemeval/q1/session-2");

    let inst = instance("q2", vec![vec![turn("user", "x", None)]]);
    let plan = plan_session_atoms(&inst);
    assert_eq!(plan.len(), 1);
    assert_eq!(plan[0].session_id, "s1");
    assert_eq!(plan[0].session_date, Some(s("2023/05/01")));
}

#[test]
fn retrieved_sessions_follow_rank_and_skip_unknown_atoms() {
    let pairs = vec![(s("a1"), s("s1")), (s("a2"), s("s2")), (s("a3"), s("s1"))];
    let got = retrieved_session_ids(&strings(&["a3", "zz", "a2", "a1"]), &pairs);
    assert_eq!(got, strings(&["s1", "s2", "s1"]));
    // a later pair for the same atom wins
    let pairs = vec![(s("a1"), s("old")), (s("a1"), s("new"))];
    assert_eq!(retrieved_session_ids(&strings(&["a1"]), &pairs), strings(&["new"]));
}

#[test]
fn evidence_counts_and_first_rank() {
    let retrieved = strings(&["s4", "s2", "s9", "s2"]);
    let evidence = strings(&["s2", "s9"]);
    assert_eq!(count_retrieved_evidence(&retrieved, &evidence), 3);
    assert_eq!(first_evidence_rank(&retrieved, &evidence), Some(2));
    assert_eq!(first_evidence_rank(&retrieved, &strings(&["s7"])), None);
    assert_eq!(count_retrieved_evidence(&retrieved, &strings(&[])), 0);
    assert_eq!(first_evidence_rank(&strings(&[]), &evidence), None);
    // a rank exists exactly when some hit was counted
    assert_eq!(first_evidence_rank(&strings(&["s1"]), &strings(&["s1"])), Some(1));
}

#[test]
fn evidence_set_size_counts_each_session_once() {
    assert_eq!(distinct_evidence_count(&strings(&["s1", "s2", "s1", "s2", "s3"])), 3);
    assert_eq!(distinct_evidence_count(&strings(&[])), 0);
    assert_eq!(distinct_evidence_count(&strings(&["x"])), 1);
}

#[test]
fn run_sizes() {
    assert_eq!(effective_top_k(0), 1);
    assert_eq!(effective_top_k(5), 5);
    assert_eq!(instances_to_run(None, 10), 10);
    assert_eq!(instances_to_run(Some(3), 10), 3);
    assert_eq!(instances_to_run(Some(30), 10), 10);
    let insts = vec![instance("a_abs", vec![]), instance("b", vec![]), instance("c", vec![])];
    assert_eq!(abstention_split(&insts), (2, 1));
}

#[test]
fn pipeline_wait_finishes_after_both_stages() {
    let p = PipelineProgress::new();
    assert!(!p.is_finished());
    let p = p.step(PipelineEvent::EmbeddingComplete { atom_id: s("other") }, "a1").unwrap();
    assert_eq!(p, PipelineProgress::new());
    let p = p.step(PipelineEvent::EmbeddingComplete { atom_id: s("a1") }, "a1").unwrap();
    assert!(p.embedding_done && !p.tagging_done);
    let p = p.step(PipelineEvent::Other, "a1").unwrap();
    assert!(!p.is_finished());
    let p = p.step(PipelineEvent::TaggingSkipped { atom_id: s("a1") }, "a1").unwrap();
    assert!(p.is_finished());
}

#[test]
fn pipeline_failures_for_the_atom_end_the_wait() {
    let p = PipelineProgress::new();
    let ok = p.step(
        PipelineEvent::TaggingFailed { atom_id: s("x"), error: s("boom") },
        "a1",
    );
    assert!(ok.is_ok());
    match p.step(PipelineEvent::EmbeddingFailed { atom_id: s("a1"), error: s("boom") }, "a1") {
        Err(f) => {
            assert!(matches!(f, PipelineFailure::Embedding { .. }));
            assert_eq!(f.message(), "embedding failed for atom a1: boom");
        }
        Ok(_) => panic!("expected failure"),
    }
    match p.step(PipelineEvent::TaggingFailed { atom_id: s("a1"), error: s("bad") }, "a1") {
        Err(f) => assert_eq!(f.message(), "tagging failed for atom a1: bad"),
        Ok(_) => panic!("expected failure"),
    }
    let done = p.step(PipelineEvent::TaggingComplete { atom_id: s("a1") }, "a1").unwrap();
    assert!(done.tagging_done);
}

#[test]
fn openrouter_key_must_not_be_blank() {
    assert_eq!(openrouter_api_key(Some(s("sk-1"))), Some(s("sk-1")));
    assert_eq!(openrouter_api_key(Some(s("  \t"))), None);
    assert_eq!(openrouter_api_key(Some(s(""))), None);
    assert_eq!(openrouter_api_key(None), None);
}

#[test]
fn mock_setup_settings() {
    let setup = BenchAiSetup::Mock { base_url: s("http://127.0.0.1:9/v1") };
    let v = bench_core_settings(&setup).unwrap();
    let expected = vec![
        (s("provider"), s("openai_compat")),
        (s("openai_compat_base_url"), s("http://127.0.0.1:9/v1")),
        (s("openai_compat_api_key"), s("atomic-bench")),
        (s("openai_compat_embedding_model"), s("mock-embed")),
        (s("openai_compat_llm_model"), s("mock-llm")),
        (s("openai_compat_embedding_dimension"), s("1536")),
        (s("auto_tagging_enabled"), s("false")),
    ];
    assert_eq!(v, expected);
    assert!(bench_autotag_targets(&setup).is_empty());
}

#[test]
fn openrouter_setup_settings_and_errors() {
    let setup = BenchAiSetup::OpenRouter {
        api_key: s("k"),
        embedding_model: s("emb"),
        tagging_model: s("tag"),
        enable_auto_tagging: true,
    };
    let v = bench_core_settings(&setup).unwrap();
    assert_eq!(
        v,
        vec![
            (s("provider"), s("openrouter")),
            (s("openrouter_api_key"), s("k")),
            (s("embedding_model"), s("emb")),
            (s("tagging_model"), s("tag")),
            (s("auto_tagging_enabled"), s("true")),
        ]
    );
    assert_eq!(
        bench_autotag_targets(&setup),
        strings(&["Topics", "People", "Locations", "Organizations", "Events"])
    );

    let blank_embed = BenchAiSetup::OpenRouter {
        api_key: s("k"),
        embedding_model: s("  "),
        tagging_model: s(""),
        enable_auto_tagging: false,
    };
    assert_eq!(bench_core_settings(&blank_embed), Err(BenchConfigError::EmptyEmbeddingModel));
    let blank_tag = BenchAiSetup::OpenRouter {
        api_key: s("k"),
        embedding_model: s("e"),
        tagging_model: s(" "),
        enable_auto_tagging: false,
    };
    assert_eq!(bench_core_settings(&blank_tag), Err(BenchConfigError::EmptyTaggingModel));
    assert!(bench_autotag_targets(&blank_tag).is_empty());
    assert_eq!(
        bench_config_error_message(BenchConfigError::EmptyEmbeddingModel),
        "embedding model cannot be empty"
    );
    assert_eq!(
        bench_config_error_message(BenchConfigError::EmptyTaggingModel),
        "tagging model cannot be empty"
    );
}
