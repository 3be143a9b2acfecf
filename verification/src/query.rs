//! Search queries and the events of a streamed search.
use crate::text;
use crate::text::same_text;
use crate::text_map::TextMap;
use crate::types::DiscoveryRecord;
use vstd::prelude::*;

verus! {

/// A search query, as far as a feeder reads it: the free text, and the typed
/// filters such as `fileType:document`.
#[derive(Debug, Clone)]
pub struct GatewayQuery {
    pub raw_text: String,
    pub free_text: String,
    pub filters: TextMap<String>,
}

/// The contents of a [`GatewayQuery`].
pub struct GatewayQueryView {
    pub raw_text: Seq<char>,
    pub free_text: Seq<char>,
    pub filters: Map<Seq<char>, Seq<char>>,
}

impl View for GatewayQuery {
    type V = GatewayQueryView;

    open spec fn view(&self) -> GatewayQueryView {
        GatewayQueryView {
            raw_text: self.raw_text@,
            free_text: self.free_text@,
            filters: self.filters@,
        }
    }
}

/// The text that an upstream is asked for: the free text, or `*` where there
/// is none.
pub open spec fn text_or_star(free_text: Seq<char>) -> Seq<char> {
    if free_text.len() == 0 {
        "*"@
    } else {
        free_text
    }
}

/// A typed filter on `key` can match something that is served: it is absent,
/// or it asks for one of the `served` values.
pub open spec fn filter_allows(
    filters: Map<Seq<char>, Seq<char>>,
    key: Seq<char>,
    served: Seq<Seq<char>>,
) -> bool {
    filters.contains_key(key) ==> served.contains(filters[key])
}

/// A plugin that serves these file types and content kinds can match the query.
pub open spec fn accepts(
    query: GatewayQueryView,
    file_types: Seq<Seq<char>>,
    content_kinds: Seq<Seq<char>>,
) -> bool {
    &&& filter_allows(query.filters, "fileType"@, file_types)
    &&& filter_allows(query.filters, "contentKind"@, content_kinds)
}

impl GatewayQuery {
    /// A query for `text` without filters.
    pub fn from_free_text(text: &str) -> (res: GatewayQuery)
        ensures
            res@ == (GatewayQueryView { raw_text: text@, free_text: text@, filters: Map::empty() }),
    {
        GatewayQuery {
            raw_text: text.to_string(),
            free_text: text.to_string(),
            filters: TextMap::new(),
        }
    }

    /// The free text, or `*` where there is none.
    pub fn free_text_or_star(&self) -> (res: &str)
        ensures
            res@ == text_or_star(self@.free_text),
    {
        if self.free_text.as_str().is_empty() {
            "*"
        } else {
            self.free_text.as_str()
        }
    }
}

/// Whether `list` holds `wanted`.
fn holds_text(list: &Vec<String>, wanted: &str) -> (res: bool)
    ensures
        res == text::texts(list@).contains(wanted@),
        res <==> exists|i: int| 0 <= i < list@.len() && (#[trigger] list@[i])@ == wanted@,
{
    let mut i: usize = 0;
    while i < list.len()
        invariant
            i <= list@.len(),
            forall|k: int| 0 <= k < i ==> #[trigger] text::texts(list@)[k] != wanted@,
        decreases list@.len() - i,
    {
        if same_text(list[i].as_str(), wanted) {
            assert(text::texts(list@)[i as int] == wanted@);
            assert(list@[i as int]@ == wanted@);
            return true;
        }
        i = i + 1;
    }
    assert forall|k: int| 0 <= k < list@.len() implies (#[trigger] list@[k])@ != wanted@ by {
        assert(text::texts(list@)[k] != wanted@);
    }
    false
}

/// Whether a plugin that serves these file types and content kinds can match
/// the query at all; where it cannot, its upstream need not be asked.
pub fn query_accepts_plugin(
    query: &GatewayQuery,
    file_types: &Vec<String>,
    content_kinds: &Vec<String>,
) -> (res: bool)
    ensures
        res == accepts(query@, text::texts(file_types@), text::texts(content_kinds@)),
        res <==> (query@.filters.contains_key("fileType"@) ==> exists|i: int|
            0 <= i < file_types@.len() && (#[trigger] file_types@[i])@
                == query@.filters["fileType"@]) && (query@.filters.contains_key("contentKind"@)
            ==> exists|i: int|
            0 <= i < content_kinds@.len() && (#[trigger] content_kinds@[i])@
                == query@.filters["contentKind"@]),
{
    let file_type_fits = match query.filters.get("fileType") {
        Some(wanted) => holds_text(file_types, wanted.as_str()),
        None => true,
    };
    let content_kind_fits = match query.filters.get("contentKind") {
        Some(wanted) => holds_text(content_kinds, wanted.as_str()),
        None => true,
    };
    file_type_fits && content_kind_fits
}

/// A typed filter for a value that a plugin does not serve rules it out,
/// whatever else the query asks for.
pub proof fn law_unserved_filter_rules_out(
    query: GatewayQueryView,
    file_types: Seq<Seq<char>>,
    content_kinds: Seq<Seq<char>>,
)
    ensures
        query.filters.contains_key("fileType"@) && !file_types.contains(
            query.filters["fileType"@],
        ) ==> !accepts(query, file_types, content_kinds),
        query.filters.contains_key("contentKind"@) && !content_kinds.contains(
            query.filters["contentKind"@],
        ) ==> !accepts(query, file_types, content_kinds),
        !query.filters.contains_key("fileType"@) && !query.filters.contains_key("contentKind"@)
            ==> accepts(query, file_types, content_kinds),
{
}

// ------------------------------------------------------------- streamed searches
/// An error in the middle of a streamed search.
#[derive(Debug, Clone)]
pub enum GatewayWireError {
    NotFound,
    RateLimited { retry_after_s: u64 },
    Transient(String),
    Permanent(String),
    Internal(String),
}

/// One event of a streamed search.
#[derive(Debug, Clone)]
pub enum GatewaySearchEvent {
    /// A record was found.
    Base(DiscoveryRecord),
    /// Fields of a record found earlier change.
    EnrichPatch { record_id: String, set: TextMap<String>, remove: Vec<String> },
    /// The search is complete.
    Done,
    /// The search ends with an error.
    Error(GatewayWireError),
}

/// A complete search result as a stream: every record, then the end.
pub open spec fn replayed(records: Seq<DiscoveryRecord>) -> Seq<GatewaySearchEvent> {
    Seq::new(records.len(), |i: int| GatewaySearchEvent::Base(records[i])).push(
        GatewaySearchEvent::Done,
    )
}

/// Replays a complete search result as `Base* + Done`.
pub fn replay_events(records: Vec<DiscoveryRecord>) -> (res: Vec<GatewaySearchEvent>)
    ensures
        res@ == replayed(records@),
{
    let mut out: Vec<GatewaySearchEvent> = Vec::new();
    let ghost all = records@;
    for record in it: records.into_iter()
        invariant
            it.seq() == all,
            out@ == Seq::new(it.index() as nat, |i: int| GatewaySearchEvent::Base(all[i])),
    {
        out.push(GatewaySearchEvent::Base(record));
    }
    out.push(GatewaySearchEvent::Done);
    out
}

} // verus!
