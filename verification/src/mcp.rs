//! The decisions of the MCP tools: argument defaults and bounds, and the
//! shaping of knowledge base records into tool responses.

use vstd::prelude::*;
use crate::markdown::{join_line_range, join_lines, line_views, lines_of, split_lines};
use crate::mcp_types::{
    AtomContent, AtomListResponse, AtomResponse, AtomSortField, AtomSummaryView, DeleteAtomParams,
    DeleteAtomResponse,
    IngestUrlResponse, ListAtomsParams, ReadAtomParams, SortDirection, TagRef, TagSummaryView,
};
use crate::models::{clone_opt_string, Atom, AtomSummary, AtomWithTags, Tag, TagWithCount};
use crate::provider_error::{decimal, push_decimal};
use crate::text::{chars_of, push_str, string_from_chars};

verus! {

/// Characters kept in an atom snippet.
pub const ATOM_SNIPPET_CHARS: usize = 200;

/// The first `n` characters of `s` (all of `s` if shorter).
pub open spec fn prefix_chars(s: Seq<char>, n: nat) -> Seq<char> {
    if s.len() <= n {
        s
    } else {
        s.take(n as int)
    }
}

/// The first 200 characters of content (characters, not bytes).
pub fn snippet_from(content: &str) -> (s: String)
    ensures
        s@ == prefix_chars(content@, ATOM_SNIPPET_CHARS as nat),
{
    let chars = chars_of(content);
    if chars.len() <= ATOM_SNIPPET_CHARS {
        string_from_chars(chars.as_slice())
    } else {
        let r = string_from_chars(&chars.as_slice()[0..ATOM_SNIPPET_CHARS]);
        assert(r@ =~= content@.take(ATOM_SNIPPET_CHARS as int));
        r
    }
}

/// An atom's snippet: the stored one, or a content prefix where the stored
/// snippet is empty (atoms created before snippet generation ran).
pub open spec fn effective_snippet_of(atom: Atom) -> Seq<char> {
    if atom.snippet@.len() == 0 {
        prefix_chars(atom.content@, ATOM_SNIPPET_CHARS as nat)
    } else {
        atom.snippet@
    }
}

/// Snippet for an atom, falling back to a content prefix if the stored
/// snippet is empty.
pub fn effective_snippet(atom: &Atom) -> (s: String)
    ensures
        s@ == effective_snippet_of(*atom),
{
    if atom.snippet.as_str().is_empty() {
        snippet_from(atom.content.as_str())
    } else {
        atom.snippet.clone()
    }
}

/// The compact reference to a tag: its id and name.
pub open spec fn tag_ref_of(t: Tag) -> TagRef {
    TagRef { id: t.id, name: t.name }
}

fn refs_of_tags(tags: &Vec<Tag>) -> (refs: Vec<TagRef>)
    ensures
        refs@ == tags@.map_values(|t: Tag| tag_ref_of(t)),
{
    let mut refs: Vec<TagRef> = Vec::new();
    let mut i: usize = 0;
    while i < tags.len()
        invariant
            i <= tags.len(),
            refs@ == tags@.take(i as int).map_values(|t: Tag| tag_ref_of(t)),
        decreases tags.len() - i,
    {
        let t = &tags[i];
        refs.push(TagRef { id: t.id.clone(), name: t.name.clone() });
        i = i + 1;
        assert(refs@ =~= tags@.take(i as int).map_values(|t: Tag| tag_ref_of(t)));
    }
    assert(tags@.take(i as int) =~= tags@);
    refs
}

/// Compact references to an atom's tags, in order.
pub fn tag_refs(atom: &AtomWithTags) -> (refs: Vec<TagRef>)
    ensures
        refs@ == atom.tags@.map_values(|t: Tag| tag_ref_of(t)),
{
    refs_of_tags(&atom.tags)
}

/// `v` is the summary list_atoms gives for an atom of a listing page: its
/// fields copied, its stored snippet as it is, its tags as references.
pub open spec fn is_list_summary(v: AtomSummaryView, a: AtomSummary) -> bool {
    &&& v.atom_id == a.id
    &&& v.title == a.title
    &&& v.snippet == a.snippet
    &&& v.source_url == a.source_url
    &&& v.tags@ == a.tags@.map_values(|t: Tag| tag_ref_of(t))
    &&& v.created_at == a.created_at
    &&& v.updated_at == a.updated_at
}

/// The summary of one atom of a listing page.
pub fn list_item_summary(a: &AtomSummary) -> (v: AtomSummaryView)
    ensures
        is_list_summary(v, *a),
{
    AtomSummaryView {
        atom_id: a.id.clone(),
        title: a.title.clone(),
        snippet: a.snippet.clone(),
        source_url: clone_opt_string(&a.source_url),
        tags: refs_of_tags(&a.tags),
        created_at: a.created_at.clone(),
        updated_at: a.updated_at.clone(),
    }
}

/// The summaries of a listing page, in order.
pub fn list_item_summaries(atoms: &Vec<AtomSummary>) -> (vs: Vec<AtomSummaryView>)
    ensures
        vs@.len() == atoms@.len(),
        forall|i: int| 0 <= i < atoms@.len() ==> is_list_summary(#[trigger] vs@[i], atoms@[i]),
{
    let mut vs: Vec<AtomSummaryView> = Vec::new();
    let mut i: usize = 0;
    while i < atoms.len()
        invariant
            i <= atoms.len(),
            vs@.len() == i,
            forall|k: int| 0 <= k < i ==> is_list_summary(#[trigger] vs@[k], atoms@[k]),
        decreases atoms.len() - i,
    {
        vs.push(list_item_summary(&atoms[i]));
        i = i + 1;
    }
    vs
}

/// Compact summary of an atom used by the list and lookup tools: id, title,
/// effective snippet, source, tag references and timestamps.
pub fn atom_summary(atom: &AtomWithTags) -> (v: AtomSummaryView)
    ensures
        v.atom_id == atom.atom.id,
        v.title == atom.atom.title,
        v.snippet@ == effective_snippet_of(atom.atom),
        v.source_url == atom.atom.source_url,
        v.tags@ == atom.tags@.map_values(|t: Tag| tag_ref_of(t)),
        v.created_at == atom.atom.created_at,
        v.updated_at == atom.atom.updated_at,
{
    AtomSummaryView {
        atom_id: atom.atom.id.clone(),
        title: atom.atom.title.clone(),
        snippet: effective_snippet(&atom.atom),
        source_url: clone_opt_string(&atom.atom.source_url),
        tags: tag_refs(atom),
        created_at: atom.atom.created_at.clone(),
        updated_at: atom.atom.updated_at.clone(),
    }
}

/// The flat entry of a tag tree node: its tag's id, name and parent, its
/// own atom count and its subtree's.
pub open spec fn tag_summary_of(t: TagWithCount) -> TagSummaryView {
    TagSummaryView {
        tag_id: t.tag.id,
        name: t.tag.name,
        parent_id: t.tag.parent_id,
        atom_count: t.atom_count,
        subtree_count: t.children_total,
    }
}

/// The nodes of a forest of tags in depth-first pre-order.
pub open spec fn flatten_forest(ts: Seq<TagWithCount>) -> Seq<TagSummaryView>
    decreases ts,
{
    if ts.len() == 0 {
        Seq::empty()
    } else {
        flatten_forest(ts.drop_last()) + flatten_tree(ts.last())
    }
}

/// A tag node followed by the flattened forest of its children.
pub open spec fn flatten_tree(t: TagWithCount) -> Seq<TagSummaryView>
    decreases t,
{
    seq![tag_summary_of(t)] + flatten_forest(t.children@)
}

/// Appends the tag tree, flattened depth-first, to `out`; the hierarchy
/// stays visible through each entry's `parent_id`.
pub fn flatten_tags(tags: &[TagWithCount], out: &mut Vec<TagSummaryView>)
    ensures
        final(out)@ == old(out)@ + flatten_forest(tags@),
    decreases tags@,
{
    let ghost start = out@;
    let mut i: usize = 0;
    while i < tags.len()
        invariant
            i <= tags.len(),
            out@ == start + flatten_forest(tags@.take(i as int)),
        decreases tags.len() - i,
    {
        let t = &tags[i];
        let ghost before = out@;
        out.push(
            TagSummaryView {
                tag_id: t.tag.id.clone(),
                name: t.tag.name.clone(),
                parent_id: clone_opt_string(&t.tag.parent_id),
                atom_count: t.atom_count,
                subtree_count: t.children_total,
            },
        );
        if t.children.len() > 0 {
            let kids = t.children.as_slice();
            assert(kids@ == t.children@);
            flatten_tags(kids, out);
        } else {
            assert(t.children@ =~= Seq::<TagWithCount>::empty());
            assert(out@ =~= out@ + flatten_forest(t.children@));
        }
        assert(tags@.take(i + 1).drop_last() =~= tags@.take(i as int));
        assert(tags@.take(i + 1).last() == *t);
        assert(out@ == before.push(tag_summary_of(*t)) + flatten_forest(t.children@));
        assert(flatten_tree(*t) == seq![tag_summary_of(*t)] + flatten_forest(t.children@));
        assert(flatten_forest(tags@.take(i + 1)) == flatten_forest(tags@.take(i as int))
            + flatten_tree(*t));
        assert(out@ =~= start + flatten_forest(tags@.take(i + 1)));
        i = i + 1;
    }
    assert(tags@.take(i as int) =~= tags@);
}

/// The names of an atom's tags, in order.
pub open spec fn tag_names(tags: Seq<Tag>) -> Seq<String> {
    tags.map_values(|t: Tag| t.name)
}

/// Response to creating or updating an atom: its id, a 200-character
/// content preview, its tag names and its embedding status.
pub fn atom_response(result: &AtomWithTags) -> (r: AtomResponse)
    ensures
        r.atom_id == result.atom.id,
        r.content_preview@ == prefix_chars(result.atom.content@, ATOM_SNIPPET_CHARS as nat),
        r.tags@ == tag_names(result.tags@),
        r.embedding_status == result.atom.embedding_status,
{
    let mut names: Vec<String> = Vec::new();
    let mut i: usize = 0;
    while i < result.tags.len()
        invariant
            i <= result.tags.len(),
            names@ == tag_names(result.tags@.take(i as int)),
        decreases result.tags.len() - i,
    {
        names.push(result.tags[i].name.clone());
        i = i + 1;
        assert(names@ =~= tag_names(result.tags@.take(i as int)));
    }
    assert(result.tags@.take(i as int) =~= result.tags@);
    AtomResponse {
        atom_id: result.atom.id.clone(),
        content_preview: snippet_from(result.atom.content.as_str()),
        tags: names,
        embedding_status: result.atom.embedding_status.clone(),
    }
}

// ---------------------------------------------------------------------------
// read_atom pagination
// ---------------------------------------------------------------------------

/// Lines per page: the requested number (default 500), held within
/// `0..=500`; a negative limit reads no lines.
pub open spec fn page_limit(limit: Option<i32>) -> int {
    let l = match limit {
        Some(x) => x,
        None => 500i32,
    };
    if l < 0 {
        0
    } else if l < 500 {
        l as int
    } else {
        500
    }
}

/// First line of the page: the requested offset (default 0), at least 0.
pub open spec fn page_offset(offset: Option<i32>) -> int {
    let o = match offset {
        Some(x) => x,
        None => 0i32,
    };
    if o > 0 {
        o as int
    } else {
        0
    }
}

/// Index of the first line returned for a text of `n` lines.
pub open spec fn page_start(n: int, offset: Option<i32>) -> int {
    if page_offset(offset) < n {
        page_offset(offset)
    } else {
        n
    }
}

/// Index after the last line returned for a text of `n` lines.
pub open spec fn page_end(n: int, offset: Option<i32>, limit: Option<i32>) -> int {
    let e = page_start(n, offset) + page_limit(limit);
    if e < n {
        e
    } else {
        n
    }
}

/// The note that ends a page when more lines follow.
pub open spec fn continuation_note(end: nat) -> Seq<char> {
    "\n\n(Atom content continues. Use offset "@ + decimal(end) + " to read more lines.)"@
}

/// The text of a page: its lines joined, plus the continuation note when
/// lines remain.
pub open spec fn page_text(content: Seq<char>, offset: Option<i32>, limit: Option<i32>) -> Seq<
    char,
> {
    let ls = lines_of(content);
    let n = ls.len() as int;
    let start = page_start(n, offset);
    let end = page_end(n, offset, limit);
    let body = join_lines(ls.subrange(start, end));
    if end < n {
        body + continuation_note(end as nat)
    } else {
        body
    }
}

/// A page of an atom's content for read_atom: lines `start..end` where the
/// start is the offset (at least 0, at most the line count) and the page
/// holds at most the limit (at most 500 lines, default 500, none for a
/// negative limit).
pub fn read_atom_page(atom: &AtomWithTags, params: &ReadAtomParams) -> (r: AtomContent)
    ensures
        ({
            let ls = lines_of(atom.atom.content@);
            let n = ls.len() as int;
            let start = page_start(n, params.offset);
            let end = page_end(n, params.offset, params.limit);
            &&& r.atom_id == atom.atom.id
            &&& r.content@ == page_text(atom.atom.content@, params.offset, params.limit)
            &&& r.total_lines == n as i32
            &&& r.returned_lines == (end - start) as i32
            &&& 0 <= r.returned_lines <= 500
            &&& r.offset == page_offset(params.offset)
            &&& r.has_more == (end < n)
            &&& r.created_at == atom.atom.created_at
            &&& r.updated_at == atom.atom.updated_at
        }),
{
    let requested_limit = match params.limit {
        Some(x) => x,
        None => 500,
    };
    let limit: usize = if requested_limit < 0 {
        0
    } else if requested_limit < 500 {
        requested_limit as usize
    } else {
        500
    };
    let requested_offset = match params.offset {
        Some(x) => x,
        None => 0,
    };
    let offset: usize = if requested_offset > 0 {
        requested_offset as usize
    } else {
        0
    };
    let chars = chars_of(atom.atom.content.as_str());
    let lines = split_lines(&chars);
    let ghost ls = lines_of(atom.atom.content@);
    assert(line_views(lines@).len() == lines@.len());
    let n = lines.len();
    let start = if offset < n {
        offset
    } else {
        n
    };
    let end = if limit < n - start {
        start + limit
    } else {
        n
    };
    let has_more = end < n;
    let body = join_line_range(&lines, start, end);
    let mut content = string_from_chars(body.as_slice());
    if has_more {
        push_str(&mut content, "\n\n(Atom content continues. Use offset ");
        push_decimal(&mut content, end as u64);
        push_str(&mut content, " to read more lines.)");
        assert(content@ =~= join_lines(ls.subrange(start as int, end as int))
            + continuation_note(end as nat));
    }
    AtomContent {
        atom_id: atom.atom.id.clone(),
        content,
        total_lines: n as i32,
        returned_lines: (end - start) as i32,
        offset: offset as i32,
        has_more,
        created_at: atom.atom.created_at.clone(),
        updated_at: atom.atom.updated_at.clone(),
    }
}

// ---------------------------------------------------------------------------
// Tool argument defaults and bounds
// ---------------------------------------------------------------------------

/// `x` held within `lo..=hi` (`i32::clamp`).
pub open spec fn clamp(x: i32, lo: i32, hi: i32) -> i32 {
    if x < lo {
        lo
    } else if x > hi {
        hi
    } else {
        x
    }
}

fn clamp_i32(x: i32, lo: i32, hi: i32) -> (r: i32)
    requires
        lo <= hi,
    ensures
        r == clamp(x, lo, hi),
{
    if x < lo {
        lo
    } else if x > hi {
        hi
    } else {
        x
    }
}

/// Results of semantic_search: the requested limit (default 10), at most 50.
pub fn semantic_search_limit(limit: Option<i32>) -> (r: i32)
    ensures
        r == ({
            let l = match limit {
                Some(x) => x,
                None => 10i32,
            };
            if l < 50 {
                l
            } else {
                50i32
            }
        }),
{
    let l = match limit {
        Some(x) => x,
        None => 10,
    };
    if l < 50 {
        l
    } else {
        50
    }
}

/// The listing that list_atoms asks for.
#[derive(Debug)]
pub struct AtomListing {
    pub tag_id: Option<String>,
    pub limit: i32,
    pub offset: i32,
    pub sort_by: AtomSortField,
    pub sort_order: SortDirection,
}

/// The listing for list_atoms: limit 1..=200 (default 50), offset at least
/// 0 (default 0), sorted by update time, newest first, unless asked.
pub fn list_atoms_listing(params: ListAtomsParams) -> (r: AtomListing)
    ensures
        r.tag_id == params.tag_id,
        r.limit == clamp(
            match params.limit {
                Some(x) => x,
                None => 50i32,
            },
            1,
            200,
        ),
        r.offset == (match params.offset {
            Some(x) => if x > 0 {
                x
            } else {
                0i32
            },
            None => 0i32,
        }),
        r.sort_by == (match params.sort_by {
            Some(f) => f,
            None => AtomSortField::Updated,
        }),
        r.sort_order == (match params.sort_order {
            Some(d) => d,
            None => SortDirection::Desc,
        }),
{
    let limit = clamp_i32(
        match params.limit {
            Some(x) => x,
            None => 50,
        },
        1,
        200,
    );
    let offset = match params.offset {
        Some(x) => if x > 0 {
            x
        } else {
            0
        },
        None => 0,
    };
    let sort_by = match params.sort_by {
        Some(f) => f,
        None => AtomSortField::Updated,
    };
    let sort_order = match params.sort_order {
        Some(d) => d,
        None => SortDirection::Desc,
    };
    AtomListing { tag_id: params.tag_id, limit, offset, sort_by, sort_order }
}

/// Response of list_atoms for one page of summaries: `has_more` tells
/// whether atoms remain after this page.
pub fn atom_list_response(
    atoms: Vec<AtomSummaryView>,
    total_count: i32,
    limit: i32,
    offset: i32,
) -> (r: AtomListResponse)
    requires
        i32::MIN <= offset + (atoms.len() as i32) <= i32::MAX,
    ensures
        r.atoms == atoms,
        r.total_count == total_count,
        r.limit == limit,
        r.offset == offset,
        r.has_more == (offset + (atoms.len() as i32) < total_count),
{
    let returned = atoms.len() as i32;
    AtomListResponse {
        atoms,
        total_count,
        limit,
        offset,
        has_more: offset + returned < total_count,
    }
}

/// Smallest subtree size of the tags list_tags returns: the requested one
/// (default 1), at least 0.
pub fn list_tags_min_count(min_count: Option<i32>) -> (r: i32)
    ensures
        r == (match min_count {
            Some(x) => if x > 0 {
                x
            } else {
                0i32
            },
            None => 1i32,
        }),
{
    match min_count {
        Some(x) => if x > 0 {
            x
        } else {
            0
        },
        None => 1,
    }
}

/// Results of find_similar: the requested limit (default 10) within 1..=50.
pub fn find_similar_limit(limit: Option<i32>) -> (r: i32)
    ensures
        r == clamp(
            match limit {
                Some(x) => x,
                None => 10i32,
            },
            1,
            50,
        ),
{
    clamp_i32(
        match limit {
            Some(x) => x,
            None => 10,
        },
        1,
        50,
    )
}

/// Hops of get_atom_neighborhood: the requested depth (default 1) within
/// 1..=3.
pub fn neighborhood_depth(depth: Option<i32>) -> (r: i32)
    ensures
        r == clamp(
            match depth {
                Some(x) => x,
                None => 1i32,
            },
            1,
            3,
        ),
{
    clamp_i32(
        match depth {
            Some(x) => x,
            None => 1,
        },
        1,
        3,
    )
}

/// Results of get_related_tags: the requested limit (default 10) within
/// 1..=50.
pub fn related_tags_limit(limit: Option<i32>) -> (r: usize)
    ensures
        r == clamp(
            match limit {
                Some(x) => x,
                None => 10i32,
            },
            1,
            50,
        ),
{
    let l = clamp_i32(
        match limit {
            Some(x) => x,
            None => 10,
        },
        1,
        50,
    );
    l as usize
}

/// Hits per section of keyword_search: the requested limit (default 5)
/// within 1..=20.
pub fn keyword_section_limit(section_limit: Option<i32>) -> (r: i32)
    ensures
        r == clamp(
            match section_limit {
                Some(x) => x,
                None => 5i32,
            },
            1,
            20,
        ),
{
    clamp_i32(
        match section_limit {
            Some(x) => x,
            None => 5,
        },
        1,
        20,
    )
}

/// Snippet of an atom hit of keyword_search: the search's match snippet,
/// or the content's first 200 characters.
pub fn keyword_hit_snippet(match_snippet: Option<String>, content: &str) -> (s: String)
    ensures
        s@ == match match_snippet {
            Some(m) => m@,
            None => prefix_chars(content@, ATOM_SNIPPET_CHARS as nat),
        },
{
    match match_snippet {
        Some(m) => m,
        None => snippet_from(content),
    }
}

/// Response of ingest_url. `fresh_content_length` is the extracted
/// markdown size of a fresh ingest, `None` when the URL was already stored:
/// the response then reports the existing atom with `was_existing`.
pub fn ingest_url_response(atom: &AtomWithTags, fresh_content_length: Option<usize>) -> (r:
    IngestUrlResponse)
    ensures
        r.atom.atom_id == atom.atom.id,
        r.atom.snippet@ == effective_snippet_of(atom.atom),
        r.atom.source_url == atom.atom.source_url,
        r.atom.tags@ == atom.tags@.map_values(|t: Tag| tag_ref_of(t)),
        r.was_existing == (fresh_content_length is None),
        r.content_length == fresh_content_length,
{
    IngestUrlResponse {
        atom: atom_summary(atom),
        was_existing: fresh_content_length.is_none(),
        content_length: fresh_content_length,
    }
}

/// What ingest_url does once it has looked the URL up among stored atoms.
#[derive(Debug)]
pub enum IngestPlan {
    /// The URL is already stored: answer with that atom, fetch nothing.
    Existing(IngestUrlResponse),
    /// The URL is new: fetch and ingest it.
    Fetch,
}

/// The first decision of ingest_url: an atom already stored under the URL
/// is answered at once, as existing and with no content length; only a URL
/// with no stored atom is fetched.
pub fn ingest_url_plan(existing: Option<&AtomWithTags>) -> (r: IngestPlan)
    ensures
        match existing {
            Some(a) => r matches IngestPlan::Existing(resp) && resp.was_existing
                && resp.content_length is None && resp.atom.atom_id == a.atom.id
                && resp.atom.source_url == a.atom.source_url
                && resp.atom.snippet@ == effective_snippet_of(a.atom)
                && resp.atom.tags@ == a.tags@.map_values(|t: Tag| tag_ref_of(t)),
            None => r is Fetch,
        },
{
    match existing {
        Some(a) => IngestPlan::Existing(ingest_url_response(a, None)),
        None => IngestPlan::Fetch,
    }
}

/// The database a request selected with `?db=`, carried on the request.
#[derive(Debug, Clone)]
pub struct DbSelection(pub Option<String>);

/// The database a tool works on: the selected one where a selection names
/// one, else the active database (`None`).
pub fn selected_database(sel: Option<&DbSelection>) -> (r: Option<String>)
    ensures
        r == (match sel {
            Some(s) => s.0,
            None => None,
        }),
{
    match sel {
        Some(s) => clone_opt_string(&s.0),
        None => None,
    }
}

/// The error text when a selected database cannot be opened.
pub fn database_not_found_message(error: &str) -> (r: String)
    ensures
        r@ == "Database not found: "@ + error@,
{
    let mut r = String::new();
    push_str(&mut r, "Database not found: ");
    push_str(&mut r, error);
    r
}

/// The answer of delete_atom once the core has deleted the atom.
pub fn delete_atom_response(params: DeleteAtomParams) -> (r: DeleteAtomResponse)
    ensures
        r.atom_id == params.atom_id,
        r.deleted,
{
    DeleteAtomResponse { atom_id: params.atom_id, deleted: true }
}

} // verus!
