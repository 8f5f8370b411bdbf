//! The knowledge base records that the MCP tools shape into responses.

use vstd::prelude::*;

verus! {

/// A stored atom: a markdown note with its metadata.
#[derive(Debug)]
pub struct Atom {
    pub id: String,
    pub content: String,
    pub title: String,
    pub snippet: String,
    pub source_url: Option<String>,
    pub source: Option<String>,
    pub published_at: Option<String>,
    pub created_at: String,
    pub updated_at: String,
    pub embedding_status: String,
    pub tagging_status: String,
    pub embedding_error: Option<String>,
    pub tagging_error: Option<String>,
}

/// A tag of the tag tree.
#[derive(Debug)]
pub struct Tag {
    pub id: String,
    pub name: String,
    pub parent_id: Option<String>,
    pub created_at: String,
    pub is_autotag_target: bool,
}

/// An atom together with its tags.
#[derive(Debug)]
pub struct AtomWithTags {
    pub atom: Atom,
    pub tags: Vec<Tag>,
}

/// An atom as a listing page holds it: its stored snippet instead of its
/// content, with its tags.
#[derive(Debug)]
pub struct AtomSummary {
    pub id: String,
    pub title: String,
    pub snippet: String,
    pub source_url: Option<String>,
    pub tags: Vec<Tag>,
    pub created_at: String,
    pub updated_at: String,
}

/// A node of the tag tree with its atom counts: `atom_count` counts the
/// atoms of this tag, `children_total` those of its whole subtree.
#[derive(Debug)]
pub struct TagWithCount {
    pub tag: Tag,
    pub atom_count: i32,
    pub children_total: i32,
    pub children: Vec<TagWithCount>,
}

/// A copy of an optional string.
pub fn clone_opt_string(o: &Option<String>) -> (r: Option<String>)
    ensures
        r == *o,
{
    match o {
        Some(s) => Some(s.clone()),
        None => None,
    }
}

} // verus!
