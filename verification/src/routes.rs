//! Request bodies of the HTTP API and the decisions its routes make before
//! handing a request to the core.

use vstd::prelude::*;
use crate::provider_error::decimal;
use crate::text::{chars_of, push_str};

verus! {

/// Body of a conversation creation.
#[derive(Debug)]
pub struct CreateConversationBody {
    /// Tag IDs to scope the conversation
    pub tag_ids: Vec<String>,
    /// Optional conversation title
    pub title: Option<String>,
}

/// Query of a conversation listing.
#[derive(Debug)]
pub struct GetConversationsQuery {
    /// Filter by tag ID
    pub filter_tag_id: Option<String>,
    /// Max results (default: 50)
    pub limit: Option<i32>,
    /// Offset for pagination
    pub offset: Option<i32>,
}

/// Body of a conversation update.
#[derive(Debug)]
pub struct UpdateConversationBody {
    /// Updated title
    pub title: Option<String>,
    /// Archive/unarchive
    pub is_archived: Option<bool>,
}

/// Body setting a conversation's tag scope.
#[derive(Debug)]
pub struct SetScopeBody {
    /// Tag IDs for the conversation scope
    pub tag_ids: Vec<String>,
}

/// Body adding a tag to a conversation's scope.
#[derive(Debug)]
pub struct AddTagBody {
    /// Tag ID to add to scope
    pub tag_id: String,
}

/// Body of a chat message.
#[derive(Debug)]
pub struct SendMessageBody {
    /// Message content
    pub content: String,
}

/// Body of a database creation.
#[derive(Debug)]
pub struct CreateDatabaseBody {
    /// Name for the new database
    pub name: String,
}

/// Body of a database rename.
#[derive(Debug)]
pub struct RenameDatabaseBody {
    /// New name for the database
    pub name: String,
}

/// Body of a feed creation.
#[derive(Debug)]
pub struct CreateFeedRequest {
    /// Feed URL (RSS/Atom)
    pub url: String,
    /// Poll interval in minutes (default: 60)
    pub poll_interval: i32,
    /// Tag IDs to assign to ingested items
    pub tag_ids: Vec<String>,
}

/// Body of a feed update.
#[derive(Debug)]
pub struct UpdateFeedRequest {
    /// Updated poll interval in minutes
    pub poll_interval: Option<i32>,
    /// Pause/unpause the feed
    pub is_paused: Option<bool>,
    /// Updated tag IDs
    pub tag_ids: Option<Vec<String>>,
}

/// Body of an Obsidian vault import.
#[derive(Debug)]
pub struct ImportObsidianRequest {
    pub vault_path: String,
    pub max_notes: Option<i32>,
}

/// Body of a setting change.
#[derive(Debug)]
pub struct SetSettingBody {
    pub value: String,
}

/// Body of an OpenRouter connection test.
#[derive(Debug)]
pub struct TestOpenRouterBody {
    pub api_key: String,
}

/// Poll interval of a feed created without one, in minutes.
pub fn default_poll_interval() -> (r: i32)
    ensures
        r == 60,
{
    60
}

/// Limit and offset of a conversation listing: 50 and 0 unless given.
pub fn conversations_page(query: &GetConversationsQuery) -> (r: (i32, i32))
    ensures
        r.0 == (match query.limit {
            Some(l) => l,
            None => 50i32,
        }),
        r.1 == (match query.offset {
            Some(o) => o,
            None => 0i32,
        }),
{
    let limit = match query.limit {
        Some(l) => l,
        None => 50,
    };
    let offset = match query.offset {
        Some(o) => o,
        None => 0,
    };
    (limit, offset)
}

/// Whether a string slice holds exactly the characters `t`.
pub fn str_equals(s: &str, t: &str) -> (r: bool)
    ensures
        r == (s@ == t@),
{
    let a = chars_of(s);
    let b = chars_of(t);
    if a.len() != b.len() {
        return false;
    }
    let mut i: usize = 0;
    while i < a.len()
        invariant
            a@ == s@,
            b@ == t@,
            a.len() == b.len(),
            i <= a.len(),
            forall|j: int| 0 <= j < i ==> a@[j] == b@[j],
        decreases a.len() - i,
    {
        if a[i] != b[i] {
            assert(a@[i as int] != b@[i as int]);
            return false;
        }
        i = i + 1;
    }
    assert(a@ =~= b@);
    true
}

/// How a search ranks its results.
#[derive(Debug, Clone, Copy, PartialEq, Eq, Structural)]
pub enum SearchMode {
    Keyword,
    Semantic,
    Hybrid,
}

/// The search mode a name stands for.
pub open spec fn parse_search_mode_spec(mode: Seq<char>) -> Option<SearchMode> {
    if mode == "keyword"@ {
        Some(SearchMode::Keyword)
    } else if mode == "semantic"@ {
        Some(SearchMode::Semantic)
    } else if mode == "hybrid"@ {
        Some(SearchMode::Hybrid)
    } else {
        None
    }
}

/// The search mode a request names: `"keyword"`, `"semantic"` or
/// `"hybrid"`; any other name is refused (`None`, a bad request).
pub fn parse_search_mode(mode: &str) -> (r: Option<SearchMode>)
    ensures
        r == parse_search_mode_spec(mode@),
{
    if str_equals(mode, "keyword") {
        Some(SearchMode::Keyword)
    } else if str_equals(mode, "semantic") {
        Some(SearchMode::Semantic)
    } else if str_equals(mode, "hybrid") {
        Some(SearchMode::Hybrid)
    } else {
        None
    }
}

/// A setting whose change alters the embedding dimension, so that stored
/// embeddings must be recomputed: the provider and the embedding models.
pub open spec fn affects_embedding_dimension(key: Seq<char>) -> bool {
    key == "provider"@ || key == "embedding_model"@ || key == "ollama_embedding_model"@
}

/// Whether changing this setting requires re-embedding.
pub fn is_dimension_setting(key: &str) -> (r: bool)
    ensures
        r == affects_embedding_dimension(key@),
{
    str_equals(key, "provider") || str_equals(key, "embedding_model") || str_equals(
        key,
        "ollama_embedding_model",
    )
}

/// What a search request asks for, once checked: its mode and how many
/// results (20 unless given). A mode other than `"keyword"`, `"semantic"`
/// or `"hybrid"` is refused (`None`, a bad request).
pub fn search_plan(mode: &str, limit: Option<i32>) -> (r: Option<(SearchMode, i32)>)
    ensures
        r == (match parse_search_mode_spec(mode@) {
            Some(m) => Some((
                m,
                match limit {
                    Some(l) => l,
                    None => 20i32,
                },
            )),
            None => None,
        }),
{
    match parse_search_mode(mode) {
        Some(m) => {
            let l = match limit {
                Some(l) => l,
                None => 20,
            };
            Some((m, l))
        },
        None => None,
    }
}

// ---------------------------------------------------------------------------
// Model list: a cache in the database, refreshed from OpenRouter
// ---------------------------------------------------------------------------

/// What the model list route does first.
#[derive(Debug, Clone, Copy, PartialEq, Eq, Structural)]
pub enum ModelsStep {
    /// Answer with the cached list.
    ServeCache,
    /// Fetch a fresh list.
    Fetch,
}

/// A cached list that is not stale is served as it is; with no cache (or
/// one that could not be read) or a stale one, a fresh list is fetched.
pub fn models_first_step(cached: bool, stale: bool) -> (r: ModelsStep)
    ensures
        r == (if cached && !stale {
            ModelsStep::ServeCache
        } else {
            ModelsStep::Fetch
        }),
{
    if cached && !stale {
        ModelsStep::ServeCache
    } else {
        ModelsStep::Fetch
    }
}

/// How the model list route answers after a fetch.
#[derive(Debug, Clone, Copy, PartialEq, Eq, Structural)]
pub enum ModelsReply {
    /// The fresh list (which is also saved as the new cache).
    Fresh,
    /// The stale cached list, since the fetch failed.
    Cached,
    /// Nothing to answer with: a bad gateway.
    Unavailable,
}

/// A successful fetch is answered with the fresh list; a failed one with
/// the stale cache where there is one, else with a bad gateway.
pub fn models_after_fetch(fetched: bool, cached: bool) -> (r: ModelsReply)
    ensures
        r == (if fetched {
            ModelsReply::Fresh
        } else if cached {
            ModelsReply::Cached
        } else {
            ModelsReply::Unavailable
        }),
{
    if fetched {
        ModelsReply::Fresh
    } else if cached {
        ModelsReply::Cached
    } else {
        ModelsReply::Unavailable
    }
}

/// The error text of a failed model fetch with no cache to fall back on.
pub fn models_fetch_error(error: &str) -> (r: String)
    ensures
        r@ == "Failed to fetch models: "@ + error@,
{
    let mut r = String::new();
    push_str(&mut r, "Failed to fetch models: ");
    push_str(&mut r, error);
    r
}

// ---------------------------------------------------------------------------
// OpenRouter connection test
// ---------------------------------------------------------------------------

/// The `Display` text of the HTTP status code `code`
/// (`reqwest::StatusCode`, that is `http::StatusCode`): the code, a space
/// and its canonical reason phrase.
pub uninterp spec fn status_code_text(code: u16) -> Seq<char>;

/// `reqwest::StatusCode::from_u16(code)` and its `Display` text
/// (`ToString::to_string`). Claimed: the result is `status_code_text(code)`,
/// which begins with the code in decimal and a space, as the `Display`
/// impl in `http`'s source writes `"{} {}"` with the number first.
/// `from_u16` accepts exactly the codes 100 to 999, hence the `requires`.
#[verifier::external_body]
fn status_text(code: u16) -> (r: String)
    requires
        100 <= code <= 999,
    ensures
        r@ == status_code_text(code),
        (decimal(code as nat) + " "@).is_prefix_of(r@),
{
    match reqwest::StatusCode::from_u16(code) {
        Ok(status) => status.to_string(),
        Err(_) => String::new(),
    }
}

/// How the connection test answers.
#[derive(Debug)]
pub enum OpenRouterTestReply {
    /// OpenRouter accepted the key.
    Success,
    /// OpenRouter answered with an error status (a bad request), with the
    /// error text.
    Rejected(String),
    /// OpenRouter could not be reached (a bad gateway), with the error text.
    Unreachable(String),
}

/// The error text of a rejected test: the status text and the body.
pub fn rejection_text(status_text: &str, body: &str) -> (r: String)
    ensures
        r@ == "API error ("@ + status_text@ + "): "@ + body@,
{
    let mut r = String::new();
    push_str(&mut r, "API error (");
    push_str(&mut r, status_text);
    push_str(&mut r, "): ");
    push_str(&mut r, body);
    r
}

/// The error text of a test that could not reach OpenRouter.
pub fn unreachable_text(error: &str) -> (r: String)
    ensures
        r@ == "Network error: "@ + error@,
{
    let mut r = String::new();
    push_str(&mut r, "Network error: ");
    push_str(&mut r, error);
    r
}

/// The answer to a connection test, from what the request gave: a response
/// with its status code and body, or the text of a network error. A status
/// in 200..=299 is a success.
pub fn openrouter_test_reply(outcome: Result<(u16, String), String>) -> (r: OpenRouterTestReply)
    requires
        outcome matches Ok((status, _)) ==> 100 <= status <= 999,
    ensures
        match outcome {
            Ok((status, body)) => if 200 <= status <= 299 {
                r is Success
            } else {
                r matches OpenRouterTestReply::Rejected(t) && t@ == "API error ("@
                    + status_code_text(status) + "): "@ + body@
            },
            Err(e) => r matches OpenRouterTestReply::Unreachable(t) && t@ == "Network error: "@
                + e@,
        },
{
    match outcome {
        Ok((status, body)) => {
            if 200 <= status && status <= 299 {
                OpenRouterTestReply::Success
            } else {
                let st = status_text(status);
                OpenRouterTestReply::Rejected(rejection_text(st.as_str(), body.as_str()))
            }
        },
        Err(e) => OpenRouterTestReply::Unreachable(unreachable_text(e.as_str())),
    }
}

} // verus!
