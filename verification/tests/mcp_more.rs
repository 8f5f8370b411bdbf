use atomic_kb::mcp::{database_not_found_message, delete_atom_response, selected_database, DbSelection};
use atomic_kb::mcp_types::DeleteAtomParams;
use atomic_kb::mcp::{ingest_url_plan, list_item_summaries, read_atom_page, IngestPlan};
use atomic_kb::mcp_types::ReadAtomParams;
use atomic_kb::models::{Atom, AtomSummary, AtomWithTags, Tag};

fn atom(id: &str, content: &str, snippet: &str, source_url: Option<&str>) -> Atom {
    Atom {
        id: id.to_string(),
        content: content.to_string(),
        title: "T".to_string(),
        snippet: snippet.to_string(),
        source_url: source_url.map(String::from),
        source: None,
        published_at: None,
        created_at: "c".to_string(),
        updated_at: "u".to_string(),
        embedding_status: "complete".to_string(),
        tagging_status: "complete".to_string(),
        embedding_error: None,
        tagging_error: None,
    }
}

fn tag(id: &str, name: &str) -> Tag {
    Tag {
        id: id.to_string(),
        name: name.to_string(),
        parent_id: None,
        created_at: "c".to_string(),
        is_autotag_target: false,
    }
}

#[test]
fn negative_read_limit_reads_no_lines() {
    let a = AtomWithTags { atom: atom("a1", "one\ntwo\nthree", "", None), tags: vec![] };
    for offset in [None, Some(0), Some(1)] {
        let p = read_atom_page(
            &a,
            &ReadAtomParams { atom_id: "a1".to_string(), limit: Some(-1), offset },
        );
        assert_eq!(p.returned_lines, 0);
        assert!(p.has_more);
        assert!(p.content.starts_with("\n\n(Atom content continues."));
    }
}

#[test]
fn listing_summaries_keep_the_stored_snippet() {
    let atoms = vec![
        AtomSummary {
            id: "a1".to_string(),
            title: "First".to_string(),
            snippet: "".to_string(),
            source_url: Some("https://x".to_string()),
            tags: vec![tag("t1", "rust"), tag("t2", "verus")],
            created_at: "c1".to_string(),
            updated_at: "u1".to_string(),
        },
        AtomSummary {
            id: "a2".to_string(),
            title: "Second".to_string(),
            snippet: "stored".to_string(),
            source_url: None,
            tags: vec![],
            created_at: "c2".to_string(),
            updated_at: "u2".to_string(),
        },
    ];
    let vs = list_item_summaries(&atoms);
    assert_eq!(vs.len(), 2);
    assert_eq!(vs[0].atom_id, "a1");
    assert_eq!(vs[0].snippet, "");
    assert_eq!(vs[0].source_url.as_deref(), Some("https://x"));
    assert_eq!(vs[0].tags.len(), 2);
    assert_eq!(vs[0].tags[1].name, "verus");
    assert_eq!(vs[1].snippet, "stored");
    assert_eq!(vs[1].created_at, "c2");
}

#[test]
fn stored_url_is_answered_without_fetching() {
    let stored = AtomWithTags {
        atom: atom("a9", "body", "snip", Some("https://example.com/p")),
        tags: vec![tag("t1", "web")],
    };
    match ingest_url_plan(Some(&stored)) {
        IngestPlan::Existing(r) => {
            assert!(r.was_existing);
            assert_eq!(r.content_length, None);
            assert_eq!(r.atom.atom_id, "a9");
            assert_eq!(r.atom.source_url.as_deref(), Some("https://example.com/p"));
        }
        IngestPlan::Fetch => panic!("a stored URL must not be fetched"),
    }
    assert!(matches!(ingest_url_plan(None), IngestPlan::Fetch));
}

#[test]
fn database_selection_and_delete_answer() {
    let sel = DbSelection(Some("work".to_string()));
    assert_eq!(selected_database(Some(&sel)), Some("work".to_string()));
    assert_eq!(selected_database(Some(&DbSelection(None))), None);
    assert_eq!(selected_database(None), None);
    assert_eq!(database_not_found_message("gone"), "Database not found: gone");
    let r = delete_atom_response(DeleteAtomParams { atom_id: "a7".to_string() });
    assert_eq!(r.atom_id, "a7");
    assert!(r.deleted);
}
