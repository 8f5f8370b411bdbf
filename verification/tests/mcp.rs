use atomic_kb::mcp::{
    atom_list_response, atom_response, atom_summary, effective_snippet, find_similar_limit,
    flatten_tags, ingest_url_response, keyword_hit_snippet, keyword_section_limit,
    list_atoms_listing, list_tags_min_count, neighborhood_depth, read_atom_page,
    related_tags_limit, semantic_search_limit, snippet_from, tag_refs,
};
use atomic_kb::mcp_types::{AtomSortField, ListAtomsParams, ReadAtomParams, SortDirection};
use atomic_kb::models::{Atom, AtomWithTags, Tag, TagWithCount};

fn make_atom(id: &str, title: &str, content: &str, snippet: &str) -> Atom {
    Atom {
        id: id.to_string(),
        content: content.to_string(),
        title: title.to_string(),
        snippet: snippet.to_string(),
        source_url: None,
        source: None,
        published_at: None,
        created_at: "2026-01-01T00:00:00Z".to_string(),
        updated_at: "2026-01-02T00:00:00Z".to_string(),
        embedding_status: "complete".to_string(),
        tagging_status: "complete".to_string(),
        embedding_error: None,
        tagging_error: None,
    }
}

fn make_tag(id: &str, name: &str, parent_id: Option<&str>) -> Tag {
    Tag {
        id: id.to_string(),
        name: name.to_string(),
        parent_id: parent_id.map(String::from),
        created_at: "2026-01-01T00:00:00Z".to_string(),
        is_autotag_target: false,
    }
}

#[test]
fn effective_snippet_uses_stored_snippet_when_present() {
    let atom = make_atom("a1", "Title", "full content here", "stored snippet");
    assert_eq!(effective_snippet(&atom), "stored snippet");
}

#[test]
fn effective_snippet_falls_back_to_content_prefix_when_empty() {
    let atom = make_atom("a1", "Title", "fallback content", "");
    assert_eq!(effective_snippet(&atom), "fallback content");
}

#[test]
fn effective_snippet_caps_at_200_chars_on_fallback() {
    let long = "x".repeat(500);
    let atom = make_atom("a1", "Title", &long, "");
    assert_eq!(effective_snippet(&atom).chars().count(), 200);
}

#[test]
fn snippet_from_counts_chars_not_bytes() {
    let s: String = "日".repeat(250);
    let snippet = snippet_from(&s);
    assert_eq!(snippet.chars().count(), 200);
}

#[test]
fn atom_summary_copies_id_title_timestamps_and_source() {
    let mut atom = make_atom("a1", "T", "C", "S");
    atom.source_url = Some("https://example.com/x".to_string());
    let with_tags = AtomWithTags {
        atom,
        tags: vec![make_tag("t1", "rust", None)],
    };
    let view = atom_summary(&with_tags);
    assert_eq!(view.atom_id, "a1");
    assert_eq!(view.title, "T");
    assert_eq!(view.snippet, "S");
    assert_eq!(view.source_url.as_deref(), Some("https://example.com/x"));
    assert_eq!(view.created_at, "2026-01-01T00:00:00Z");
    assert_eq!(view.updated_at, "2026-01-02T00:00:00Z");
    assert_eq!(view.tags.len(), 1);
    assert_eq!(view.tags[0].id, "t1");
    assert_eq!(view.tags[0].name, "rust");
}

#[test]
fn tag_refs_drops_parent_id_and_metadata() {
    let with_tags = AtomWithTags {
        atom: make_atom("a1", "T", "C", "S"),
        tags: vec![
            make_tag("t1", "rust", None),
            make_tag("t2", "async", Some("t1")),
        ],
    };
    let refs = tag_refs(&with_tags);
    assert_eq!(refs.len(), 2);
    assert_eq!(refs[0].id, "t1");
    assert_eq!(refs[0].name, "rust");
    assert_eq!(refs[1].id, "t2");
    assert_eq!(refs[1].name, "async");
}

#[test]
fn flatten_tags_walks_full_tree_in_dfs_order() {
    let tree = vec![TagWithCount {
        tag: make_tag("root", "Root", None),
        atom_count: 1,
        children_total: 4,
        children: vec![
            TagWithCount {
                tag: make_tag("c1", "Child1", Some("root")),
                atom_count: 2,
                children_total: 3,
                children: vec![TagWithCount {
                    tag: make_tag("g1", "Grand", Some("c1")),
                    atom_count: 3,
                    children_total: 3,
                    children: vec![],
                }],
            },
            TagWithCount {
                tag: make_tag("c2", "Child2", Some("root")),
                atom_count: 4,
                children_total: 4,
                children: vec![],
            },
        ],
    }];

    let mut out = Vec::new();
    flatten_tags(&tree, &mut out);
    let ids: Vec<&str> = out.iter().map(|t| t.tag_id.as_str()).collect();
    assert_eq!(ids, vec!["root", "c1", "g1", "c2"]);

    let g1 = &out[2];
    assert_eq!(g1.atom_count, 3);
    assert_eq!(g1.subtree_count, 3);
    let root = &out[0];
    assert_eq!(root.atom_count, 1);
    assert_eq!(root.subtree_count, 4);
    assert_eq!(root.parent_id, None);
    assert_eq!(g1.parent_id.as_deref(), Some("c1"));
}

// ---------------------------------------------------------------------------
// Further cases
// ---------------------------------------------------------------------------

fn page(content: &str, offset: Option<i32>, limit: Option<i32>) -> atomic_kb::mcp_types::AtomContent {
    let atom = AtomWithTags { atom: make_atom("a1", "T", content, "S"), tags: vec![] };
    read_atom_page(&atom, &ReadAtomParams { atom_id: "a1".to_string(), limit, offset })
}

#[test]
fn read_atom_page_returns_whole_short_atom() {
    let p = page("# Hello\n\nA test atom.", None, None);
    assert_eq!(p.content, "# Hello\n\nA test atom.");
    assert_eq!(p.total_lines, 3);
    assert_eq!(p.returned_lines, 3);
    assert_eq!(p.offset, 0);
    assert!(!p.has_more);
    assert_eq!(p.atom_id, "a1");
}

#[test]
fn read_atom_page_paginates_with_continuation_note() {
    let p = page("l0\nl1\nl2\nl3\nl4", Some(1), Some(2));
    assert_eq!(p.content, "l1\nl2\n\n(Atom content continues. Use offset 3 to read more lines.)");
    assert_eq!(p.total_lines, 5);
    assert_eq!(p.returned_lines, 2);
    assert_eq!(p.offset, 1);
    assert!(p.has_more);
    let next = page("l0\nl1\nl2\nl3\nl4", Some(3), Some(2));
    assert_eq!(next.content, "l3\nl4");
    assert!(!next.has_more);
}

#[test]
fn read_atom_page_clamps_offset_and_limit() {
    let content: String = (0..600).map(|i| format!("line{}\n", i)).collect();
    let p = page(&content, Some(-5), Some(10_000));
    assert_eq!(p.offset, 0);
    assert_eq!(p.returned_lines, 500);
    assert!(p.has_more);
    let past = page("a\nb", Some(10), None);
    assert_eq!(past.content, "");
    assert_eq!(past.returned_lines, 0);
    assert_eq!(past.offset, 10);
}

#[test]
fn tool_limits_apply_defaults_and_bounds() {
    assert_eq!(semantic_search_limit(None), 10);
    assert_eq!(semantic_search_limit(Some(80)), 50);
    assert_eq!(find_similar_limit(Some(0)), 1);
    assert_eq!(find_similar_limit(None), 10);
    assert_eq!(neighborhood_depth(Some(7)), 3);
    assert_eq!(neighborhood_depth(None), 1);
    assert_eq!(related_tags_limit(Some(-3)), 1);
    assert_eq!(keyword_section_limit(None), 5);
    assert_eq!(keyword_section_limit(Some(99)), 20);
    assert_eq!(list_tags_min_count(None), 1);
    assert_eq!(list_tags_min_count(Some(-2)), 0);
}

#[test]
fn list_atoms_listing_defaults() {
    let l = list_atoms_listing(ListAtomsParams {
        tag_id: None,
        limit: None,
        offset: Some(-4),
        sort_by: None,
        sort_order: None,
    });
    assert_eq!(l.limit, 50);
    assert_eq!(l.offset, 0);
    assert_eq!(l.sort_by, AtomSortField::Updated);
    assert_eq!(l.sort_order, SortDirection::Desc);
    let l = list_atoms_listing(ListAtomsParams {
        tag_id: Some("t".to_string()),
        limit: Some(500),
        offset: Some(3),
        sort_by: Some(AtomSortField::Title),
        sort_order: Some(SortDirection::Asc),
    });
    assert_eq!(l.limit, 200);
    assert_eq!(l.offset, 3);
    assert_eq!(l.tag_id.as_deref(), Some("t"));
    assert_eq!(l.sort_by, AtomSortField::Title);
}

#[test]
fn atom_list_has_more_when_atoms_remain() {
    let r = atom_list_response(vec![], 10, 5, 3);
    assert!(r.has_more);
    let r = atom_list_response(vec![], 3, 5, 3);
    assert!(!r.has_more);
}

#[test]
fn ingest_response_marks_dedup_path() {
    let atom = AtomWithTags { atom: make_atom("a1", "T", "C", ""), tags: vec![] };
    let existing = ingest_url_response(&atom, None);
    assert!(existing.was_existing);
    assert_eq!(existing.content_length, None);
    assert_eq!(existing.atom.snippet, "C");
    let fresh = ingest_url_response(&atom, Some(42));
    assert!(!fresh.was_existing);
    assert_eq!(fresh.content_length, Some(42));
}

#[test]
fn atom_response_lists_tag_names() {
    let atom = AtomWithTags {
        atom: make_atom("a1", "T", &"y".repeat(300), ""),
        tags: vec![make_tag("t1", "rust", None), make_tag("t2", "web", None)],
    };
    let r = atom_response(&atom);
    assert_eq!(r.tags, vec!["rust".to_string(), "web".to_string()]);
    assert_eq!(r.content_preview.chars().count(), 200);
    assert_eq!(r.embedding_status, "complete");
}

#[test]
fn keyword_snippet_prefers_match_snippet() {
    assert_eq!(keyword_hit_snippet(Some("hit".to_string()), "content"), "hit");
    assert_eq!(keyword_hit_snippet(None, "content"), "content");
}
