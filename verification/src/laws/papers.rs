//! Laws of the two upstream plugins, as their callers see them: `call_ensures(f,
//! args, res)` holds of every result that `f` gives on `args`.
use crate::arxiv;
use crate::arxiv::{
    entries_of_tokens, entry_of_feed, normalize_whitespace, parse_arxiv_feed, records_of_feed,
    rewrite_host, strip_abs_prefix, ArxivEntry, ArxivPlugin,
};
use crate::common;
use crate::common::ComputeStep;
use crate::hash;
use crate::laws::basics;
use crate::laws::feeds;
use crate::laws::records;
use crate::laws::requests;
use crate::laws::texts;
use crate::pubmed;
use crate::pubmed::{
    decode_failure, has_pdf_magic, records_of_results, Article, EuropePmcResult,
    EuropePmcSearchResponse, PubmedPlugin,
};
use crate::query::GatewayQuery;
use crate::text;
use crate::types;
use crate::types::{DiscoveryRecord, GatewayError, HashOutcome, PluginHealth};
use crate::xml;
use crate::xml::{XmlError, XmlToken};
use vstd::prelude::*;
use vstd::utf8;

verus! {

// ------------------------------------------------------------------ arXiv feeds
/// An abstract's address gives the id in it; any other text is its own id.
pub proof fn law_strip_abs_prefix_gives_the_id(
    raw: &str,
    res: String,
    core: Seq<char>,
    id: Seq<char>,
)
    requires
        call_ensures(strip_abs_prefix, (raw,), res),
        texts::is_core(raw@, core),
    ensures
        feeds::shows_abstract(core, id) ==> res@ == id,
        (forall|other: Seq<char>| !feeds::shows_abstract(core, other)) ==> res@ == raw@,
{
    feeds::law_id_of_an_address(raw@, core, id);
}

/// Normalizing keeps exactly the words, in order, with single spaces between.
pub proof fn law_normalize_whitespace_keeps_the_words(raw: &str, res: String)
    requires
        call_ensures(normalize_whitespace, (raw,), res),
    ensures
        text::words(res@) == text::words(raw@),
        texts::single_spaced(res@),
{
    feeds::law_normalized_text(raw@);
}

/// A feed is read as the entries of its tokens, all of them, in order.
pub proof fn law_tokens_are_read_as_entries(
    tokens: &Vec<XmlToken>,
    all: Seq<xml::XmlTokenView>,
    res: Vec<ArxivEntry>,
)
    requires
        call_ensures(entries_of_tokens, (tokens,), res),
        all.len() == tokens@.len(),
        forall|i: int| 0 <= i < all.len() ==> #[trigger] all[i] == tokens@[i]@,
    ensures
        res@.len() == arxiv::feed_entries(all).len(),
        forall|i: int|
            0 <= i < res@.len() ==> (#[trigger] res@[i])@ == arxiv::feed_entries(all)[i],
{
    assert(xml::token_views(tokens@) =~= all);
    let views = arxiv::entry_views(res@);
    assert(views.len() == res@.len());
    assert forall|i: int| 0 <= i < res@.len() implies (#[trigger] res@[i])@
        == arxiv::feed_entries(all)[i] by {
        assert(views[i] == res@[i]@);
    }
}

/// Parsing a document gives the entries of its tokens, or the reader's message.
pub proof fn law_parse_gives_all_entries_or_the_message(
    xml: &[u8],
    res: Result<Vec<ArxivEntry>, XmlError>,
    tokens: Seq<xml::XmlTokenView>,
    message: Seq<char>,
)
    requires
        call_ensures(parse_arxiv_feed, (xml,), res),
    ensures
        xml::document(xml::xml_tokens(xml@)) == Ok::<Seq<xml::XmlTokenView>, Seq<char>>(tokens)
            ==> (res matches Ok(list) && list@.len() == arxiv::feed_entries(tokens).len()
            && forall|i: int|
            0 <= i < list@.len() ==> (#[trigger] list@[i])@ == arxiv::feed_entries(tokens)[i]),
        xml::document(xml::xml_tokens(xml@)) == Err::<Seq<xml::XmlTokenView>, Seq<char>>(message)
            ==> (res matches Err(e) && e.message@ == message),
{
    feeds::law_parse_gives_the_entries(tokens, message);
    if let Ok(list) = res {
        let views = arxiv::entry_views(list@);
        assert(views.len() == list@.len());
        assert forall|i: int| 0 <= i < list@.len() implies (#[trigger] list@[i])@ == views[i] by {}
    }
}

// ---------------------------------------------------------------- arXiv records
/// A record's field holds this value, and is absent where there is none.
pub open spec fn field_is(r: DiscoveryRecord, key: Seq<char>, value: Option<Seq<char>>) -> bool {
    match value {
        Some(v) => r.fields@.contains_key(key) && r.fields@[key] == v,
        None => !r.fields@.contains_key(key),
    }
}

/// A record's field lists these texts, all of them and in order, and is absent
/// where there are none.
pub open spec fn field_lists(r: DiscoveryRecord, key: Seq<char>, list: Seq<String>) -> bool {
    if list.len() == 0 {
        !r.fields@.contains_key(key)
    } else {
        r.fields@.contains_key(key) && records::lists(r.fields@[key], basics::texts_in(list))
    }
}

/// An entry's record holds each of its parts under the field of that name.
pub proof fn law_entry_becomes_its_record(entry: ArxivEntry, res: DiscoveryRecord)
    requires
        call_ensures(arxiv::into_discovery_record, (entry,), res),
    ensures
        res.upstream_id@ == "arxiv"@,
        res.record_id@ == entry.record_id@,
        field_is(res, "arxivid"@, Some(entry.record_id@)),
        field_is(res, "title"@, basics::text_in(entry.title)),
        field_is(res, "summary"@, basics::text_in(entry.summary)),
        field_is(res, "published"@, basics::text_in(entry.published)),
        field_is(res, "primaryCategory"@, basics::text_in(entry.primary_category)),
        field_lists(res, "author"@, entry.authors@),
        field_lists(res, "categories"@, entry.categories@),
        field_is(res, "fileType"@, Some("document"@)),
        field_is(res, "contentKind"@, Some("paper"@)),
        field_is(res, "format"@, Some("pdf"@)),
        field_is(res, "sourceUrl"@, Some("https://arxiv.org/abs/"@ + entry.record_id@)),
        field_is(res, "fileName"@, Some("arxiv-"@ + entry.record_id@ + ".pdf"@)),
        field_is(
            res,
            "year"@,
            match entry.published {
                Some(p) => if records::begins_with_a_year(p@) {
                    Some(seq![p@[0], p@[1], p@[2], p@[3]])
                } else {
                    None
                },
                None => None,
            },
        ),
{
    records::law_arxiv_fields_hold_their_sources(entry@, Seq::empty());
    records::law_arxiv_lists_are_complete(entry@);
    basics::lemma_texts_in(entry.authors@);
    basics::lemma_texts_in(entry.categories@);
}

/// The records of a search are those of the first entries, as many as asked for.
pub proof fn law_feed_gives_its_first_records(
    entries: Vec<ArxivEntry>,
    limit: usize,
    res: Result<Vec<DiscoveryRecord>, GatewayError>,
    i: int,
)
    requires
        call_ensures(records_of_feed, (Ok(entries), limit), res),
        0 <= i < entries@.len(),
        i < limit,
    ensures
        res matches Ok(found) && found@.len() == (if entries@.len() < limit {
            entries@.len()
        } else {
            limit as nat
        }) && found@[i]@ == arxiv::entry_record(entries@[i]@),
{
    let views = arxiv::entry_views(entries@);
    records::law_arxiv_search_takes_the_first(views, limit as nat, Seq::empty());
    let found = res->Ok_0;
    assert(types::record_views(found@)[i] == found@[i]@);
}

/// A feed that could not be read fails the search, and the lookup, with a
/// permanent error that tells why; a lookup in an empty feed finds nothing, and
/// else the first entry.
pub proof fn law_lookup_finds_the_first_entry(
    entries: Vec<ArxivEntry>,
    error: XmlError,
    limit: usize,
    record_id: &str,
    searched: Result<Vec<DiscoveryRecord>, GatewayError>,
    broken: Result<ArxivEntry, GatewayError>,
    found: Result<ArxivEntry, GatewayError>,
)
    requires
        call_ensures(records_of_feed, (Err(error), limit), searched),
        call_ensures(entry_of_feed, (Err(error), record_id), broken),
        call_ensures(entry_of_feed, (Ok(entries), record_id), found),
    ensures
        searched matches Err(GatewayError::Permanent(m)) && m@
            == "parse arxiv atom search response: "@ + error.message@,
        broken matches Err(GatewayError::Permanent(m)) && m@ == "parse arxiv atom for "@
            + record_id@ + ": "@ + error.message@,
        entries@.len() > 0 ==> (found matches Ok(entry) && entry@ == entries@[0]@),
        entries@.len() == 0 ==> found matches Err(GatewayError::NotFound),
{
    let views = arxiv::entry_views(entries@);
    assert(entries@.len() > 0 ==> views[0] == entries@[0]@);
}

// ------------------------------------------------------------ arXiv addresses
/// An address is moved to another host by its path.
pub proof fn law_rewrite_host_keeps_the_path(
    url: &str,
    new_base: &str,
    res: Option<String>,
    core: Seq<char>,
    scheme: Seq<char>,
    authority: Seq<char>,
    path: Seq<char>,
    host: Seq<char>,
)
    requires
        call_ensures(rewrite_host, (url, new_base), res),
        texts::is_core(url@, core),
        requests::is_host(new_base@, host),
    ensures
        requests::is_web_address(core, scheme, authority, path) && path.len() > 0
            ==> basics::text_in(res) == Some(host + path),
        requests::is_web_address(core, scheme, authority, path) && path.len() == 0 ==> res is None,
        requests::is_no_web_address(core) ==> res is None,
{
    requests::law_address_is_moved_by_its_path(
        url@,
        core,
        scheme,
        authority,
        path,
        new_base@,
        host,
    );
}

/// Searches and lookups go to the configured host, with the text, or the id, in
/// an encoding that can be undone.
pub proof fn law_arxiv_urls(
    plugin: &ArxivPlugin,
    host: Seq<char>,
    asked: &str,
    limit: usize,
    search: String,
    entry: String,
    encoded: Seq<char>,
)
    requires
        requests::is_host(plugin.base_url@, host),
        call_ensures(ArxivPlugin::search_url, (plugin, asked, limit), search),
        call_ensures(ArxivPlugin::entry_url, (plugin, asked), entry),
        encoded == common::url_encoded(asked@),
    ensures
        requests::percent_decoded(encoded) == utf8::encode_utf8(asked@),
        requests::is_made_of(
            search@,
            seq![
                host,
                "/api/query?search_query=all:"@,
                encoded,
                "&start=0&max_results="@,
                text::decimal(limit as nat),
            ],
        ),
        requests::is_made_of(entry@, seq![host, "/api/query?id_list="@, encoded]),
{
    requests::law_encoding_can_be_undone(asked@);
    requests::law_arxiv_search_address(plugin.base_url@, host, encoded, limit as nat);
    requests::law_arxiv_entry_address(plugin.base_url@, host, asked@);
    let head = host + "/api/query?id_list="@;
    assert(entry@ =~= head + encoded);
    requests::lemma_made_of_one(host);
    requests::lemma_made_of(host, seq![host], "/api/query?id_list="@);
    requests::lemma_made_of(head, seq![host].push("/api/query?id_list="@), encoded);
    assert(seq![host].push("/api/query?id_list="@).push(encoded) =~= seq![
        host,
        "/api/query?id_list="@,
        encoded,
    ]);
}

/// The PDF of an entry with a usable link is asked for by it on the configured
/// host: as it is where it has that host's scheme and authority, else by its
/// path.
pub proof fn law_arxiv_pdf_url_follows_the_link(
    plugin: &ArxivPlugin,
    host: Seq<char>,
    entry: &ArxivEntry,
    record_id: &str,
    res: String,
    link: String,
    core: Seq<char>,
    scheme: Seq<char>,
    authority: Seq<char>,
    path: Seq<char>,
    host_scheme: Seq<char>,
    host_authority: Seq<char>,
    host_path: Seq<char>,
)
    requires
        requests::is_host(plugin.base_url@, host),
        call_ensures(ArxivPlugin::pdf_url_for, (plugin, entry, record_id), res),
        entry.pdf_link == Some(link),
        texts::is_core(link@, core),
        requests::is_web_address(core, scheme, authority, path),
        path.len() > 0,
        requests::is_web_address(host, host_scheme, host_authority, host_path),
    ensures
        scheme + authority == host_scheme + host_authority ==> res@ == core,
        scheme + authority != host_scheme + host_authority ==> res@ == host + path,
{
    requests::law_pdf_link_is_followed_on_the_host(
        plugin.base_url@,
        host,
        entry@,
        record_id@,
        link@,
        core,
        scheme,
        authority,
        path,
        host_scheme,
        host_authority,
        host_path,
    );
}

/// The PDF of an entry without a link is asked for by its id.
pub proof fn law_arxiv_pdf_url_by_id(
    plugin: &ArxivPlugin,
    host: Seq<char>,
    entry: &ArxivEntry,
    record_id: &str,
    res: String,
)
    requires
        requests::is_host(plugin.base_url@, host),
        call_ensures(ArxivPlugin::pdf_url_for, (plugin, entry, record_id), res),
        entry.pdf_link is None,
    ensures
        requests::is_made_of(res@, seq![host, "/pdf/"@, record_id@, ".pdf"@]),
{
    requests::law_pdf_is_asked_for_by_id(
        plugin.base_url@,
        host,
        entry@,
        record_id@,
        Seq::empty(),
        Seq::empty(),
        Seq::empty(),
    );
}

/// Whatever the link and the host are, the PDF is asked for at the entry's PDF
/// address.
pub proof fn law_arxiv_pdf_url_in_any_case(
    plugin: &ArxivPlugin,
    entry: &ArxivEntry,
    record_id: &str,
    res: String,
)
    requires
        call_ensures(ArxivPlugin::pdf_url_for, (plugin, entry, record_id), res),
    ensures
        res@ == arxiv::pdf_address(plugin.base_url@, entry@, record_id@),
{
}

// --------------------------------------------------------------- arXiv searches
/// Both typed filters that the query has, if any, ask for a paper.
pub open spec fn can_match_papers(query: GatewayQuery) -> bool {
    &&& query.filters@.contains_key("fileType"@) ==> query.filters@["fileType"@] == "document"@
    &&& query.filters@.contains_key("contentKind"@) ==> query.filters@["contentKind"@] == "paper"@
}

/// The text that a query asks for.
pub open spec fn asked_text(query: GatewayQuery) -> Seq<char> {
    if query.free_text@.len() > 0 {
        query.free_text@
    } else {
        seq!['*']
    }
}

/// A search that can match papers is asked for at its address, and no other is.
pub proof fn law_arxiv_asks_what_can_match(
    plugin: &ArxivPlugin,
    query: &GatewayQuery,
    limit: usize,
    res: Option<String>,
)
    requires
        call_ensures(ArxivPlugin::handle_query, (plugin, query, limit), res),
    ensures
        res is Some <==> can_match_papers(*query),
        res matches Some(url) ==> url@ == arxiv::search_address(
            plugin.base_url@,
            common::url_encoded(asked_text(*query)),
            limit as nat,
        ),
{
    requests::law_free_text_is_asked_for(query.free_text@);
}

/// A search answers with the first records of the feed, in order, or with why
/// there is none.
pub proof fn law_arxiv_search_is_answered(
    plugin: &ArxivPlugin,
    body: Result<Vec<u8>, GatewayError>,
    limit: usize,
    res: Result<Vec<DiscoveryRecord>, GatewayError>,
    tokens: Seq<xml::XmlTokenView>,
    message: Seq<char>,
)
    requires
        call_ensures(ArxivPlugin::query_answered, (plugin, body, limit), res),
    ensures
        body matches Err(e) ==> (res matches Err(error) && error@ == e@),
        body matches Ok(bytes) ==> {
            let read = xml::document(xml::xml_tokens(bytes@));
            let entries = arxiv::feed_entries(tokens);
            &&& read == Ok::<Seq<xml::XmlTokenView>, Seq<char>>(tokens) ==> (res matches Ok(found)
                && found@.len() == (if entries.len() < limit {
                entries.len()
            } else {
                limit as nat
            }) && forall|i: int|
                0 <= i < found@.len() ==> (#[trigger] found@[i])@ == arxiv::entry_record(
                    entries[i],
                ))
            &&& read == Err::<Seq<xml::XmlTokenView>, Seq<char>>(message) ==> (res matches Err(
                GatewayError::Permanent(m),
            ) && m@ == "parse arxiv atom search response: "@ + message)
        },
{
    records::law_arxiv_search_takes_the_first(
        arxiv::feed_entries(tokens),
        limit as nat,
        message,
    );
    if let Ok(found) = res {
        let views = types::record_views(found@);
        assert(views.len() == found@.len());
        assert forall|i: int| 0 <= i < found@.len() implies (#[trigger] found@[i])@ == views[i] by {
        }
    }
}

// ------------------------------------------------------------------- resolutions
/// The step stores these bytes' hash and answers with one outcome: these bytes,
/// all of them, their hash, and this record.
pub open spec fn stores_the_file<E>(
    step: ComputeStep<E>,
    bytes: Seq<u8>,
    cid: Seq<char>,
    record: types::DiscoveryRecordView,
) -> bool {
    step matches ComputeStep::Store { hash, outcomes } && hash@ == cid && is_the_file(
        outcomes@,
        bytes,
        cid,
        record,
    )
}

/// One outcome: these bytes, all of them, this hash, and this record.
pub open spec fn is_the_file(
    outcomes: Seq<HashOutcome>,
    bytes: Seq<u8>,
    cid: Seq<char>,
    record: types::DiscoveryRecordView,
) -> bool {
    &&& outcomes.len() == 1
    &&& outcomes[0].hash.0@ == cid
    &&& outcomes[0].hash_kind is Sha2_256
    &&& outcomes[0].bytes matches Some(b) && b@ == bytes
    &&& outcomes[0].record matches Some(r) && r@ == record
    &&& outcomes[0].file_extension matches Some(x) && x@ == "pdf"@
}

/// The step is this error.
pub open spec fn is_failure<E>(step: ComputeStep<E>, error: types::GatewayErrorView) -> bool {
    step matches ComputeStep::Finished(Err(e)) && e@ == error
}

/// A resolution begins with the cache: without it nothing works, its error is
/// the error, a hash in it is the answer, and else the entry is looked up.
pub proof fn law_arxiv_resolution_begins_with_the_cache(
    plugin: &ArxivPlugin,
    record_id: &str,
    cached: Result<Option<String>, GatewayError>,
    res: ComputeStep<ArxivEntry>,
)
    requires
        call_ensures(ArxivPlugin::compute_outcomes, (plugin, record_id, cached), res),
    ensures
        !plugin.cache_open ==> is_failure(
            res,
            types::GatewayErrorView::Internal("arxiv"@ + ": configure() not yet called"@),
        ),
        plugin.cache_open ==> match cached {
            Err(e) => is_failure(res, e@),
            Ok(Some(hash)) => res matches ComputeStep::Finished(Ok(outcomes)) && outcomes@.len()
                == 1 && outcomes@[0].hash.0@ == hash@ && outcomes@[0].hash_kind is Sha2_256
                && outcomes@[0].bytes is None && outcomes@[0].record is None
                && outcomes@[0].file_extension is None,
            Ok(None) => res matches ComputeStep::FetchEntry { url } && url@
                == arxiv::entry_address(plugin.base_url@, common::url_encoded(record_id@)),
        },
{
    if let ComputeStep::Finished(Ok(outcomes)) = res {
        let views = types::outcome_views(outcomes@);
        assert(views.len() == outcomes@.len());
        assert(outcomes@.len() > 0 ==> views[0] == outcomes@[0]@);
    }
}

/// The lookup's first entry is the one whose PDF is asked for.
pub proof fn law_arxiv_lookup_leads_to_the_pdf(
    plugin: &ArxivPlugin,
    record_id: &str,
    body: Result<Vec<u8>, GatewayError>,
    res: ComputeStep<ArxivEntry>,
    tokens: Seq<xml::XmlTokenView>,
    message: Seq<char>,
)
    requires
        call_ensures(ArxivPlugin::entry_fetched, (plugin, record_id, body), res),
    ensures
        body matches Err(e) ==> is_failure(res, e@),
        body matches Ok(bytes) ==> {
            let read = xml::document(xml::xml_tokens(bytes@));
            let entries = arxiv::feed_entries(tokens);
            let has_tokens = read == Ok::<Seq<xml::XmlTokenView>, Seq<char>>(tokens);
            &&& has_tokens && entries.len() > 0 ==> (res matches ComputeStep::FetchPdf {
                url,
                entry,
            } && url@ == arxiv::pdf_address(plugin.base_url@, entries[0], record_id@) && entry@
                == entries[0])
            &&& has_tokens && entries.len() == 0 ==> is_failure(
                res,
                types::GatewayErrorView::NotFound,
            )
            &&& read == Err::<Seq<xml::XmlTokenView>, Seq<char>>(message) ==> is_failure(
                res,
                types::GatewayErrorView::Permanent(
                    "parse arxiv atom for "@ + record_id@ + ": "@ + message,
                ),
            )
        },
{
}

/// An entry that was found is the one whose PDF is asked for; an error is
/// passed on.
pub proof fn law_arxiv_found_entry_leads_to_the_pdf(
    plugin: &ArxivPlugin,
    record_id: &str,
    found: Result<ArxivEntry, GatewayError>,
    res: ComputeStep<ArxivEntry>,
)
    requires
        call_ensures(ArxivPlugin::entry_found, (plugin, record_id, found), res),
    ensures
        match found {
            Ok(entry) => res matches ComputeStep::FetchPdf { url, entry: kept } && kept@ == entry@
                && url@ == arxiv::pdf_address(plugin.base_url@, entry@, record_id@),
            Err(e) => is_failure(res, e@),
        },
{
}

/// The bytes that the PDF's address gave, however many, are the file: they are
/// stored and answered with their own hash and the entry's record.
pub proof fn law_arxiv_pdf_is_the_file(
    plugin: &ArxivPlugin,
    entry: ArxivEntry,
    body: Result<Vec<u8>, GatewayError>,
    res: ComputeStep<ArxivEntry>,
)
    requires
        call_ensures(ArxivPlugin::pdf_fetched, (plugin, entry, body), res),
    ensures
        match body {
            Ok(bytes) => stores_the_file(
                res,
                bytes@,
                hash::cid_text(hash::sha256_digest(bytes@)),
                arxiv::entry_record(entry@),
            ),
            Err(e) => is_failure(res, e@),
        },
{
    if let ComputeStep::Store { hash, outcomes } = res {
        let views = types::outcome_views(outcomes@);
        assert(views.len() == outcomes@.len());
        assert(outcomes@.len() > 0 ==> views[0] == outcomes@[0]@);
    }
}

/// A hashed PDF is stored and answered under that hash.
pub proof fn law_arxiv_hashed_pdf_is_the_file(
    plugin: &ArxivPlugin,
    entry: ArxivEntry,
    bytes: Vec<u8>,
    cid: String,
    res: ComputeStep<ArxivEntry>,
)
    requires
        call_ensures(ArxivPlugin::pdf_hashed, (plugin, entry, bytes, cid), res),
    ensures
        stores_the_file(res, bytes@, cid@, arxiv::entry_record(entry@)),
{
    if let ComputeStep::Store { hash, outcomes } = res {
        let views = types::outcome_views(outcomes@);
        assert(views.len() == outcomes@.len());
        assert(outcomes@.len() > 0 ==> views[0] == outcomes@[0]@);
    }
}

/// What an arXiv plugin is: which host it asks, what it serves, what it is
/// called, and when it is well.
pub proof fn law_arxiv_plugin(
    base: String,
    fresh: ArxivPlugin,
    other: ArxivPlugin,
    plugin: &ArxivPlugin,
    file_types: Vec<String>,
    content_kinds: Vec<String>,
    id: &'static str,
    health: PluginHealth,
)
    requires
        call_ensures(ArxivPlugin::new, (), fresh),
        call_ensures(ArxivPlugin::with_base_url, (base,), other),
        call_ensures(ArxivPlugin::served_file_types, (plugin,), file_types),
        call_ensures(ArxivPlugin::served_content_kinds, (plugin,), content_kinds),
        call_ensures(ArxivPlugin::upstream_id, (plugin,), id),
        call_ensures(ArxivPlugin::health, (plugin,), health),
    ensures
        fresh.base_url@ == "https://export.arxiv.org"@ && !fresh.cache_open,
        other.base_url@ == base@ && !other.cache_open,
        basics::texts_in(file_types@) == seq!["document"@],
        basics::texts_in(content_kinds@) == seq!["paper"@],
        id@ == "arxiv"@,
        plugin.cache_open ==> health is Healthy,
        !plugin.cache_open ==> (health matches PluginHealth::Degraded { reason } && reason@
            == "configure() not yet called"@),
{
    basics::lemma_texts_in(file_types@);
    basics::lemma_texts_in(content_kinds@);
}

// --------------------------------------------------------------- PubMed records
/// A result's record holds each of its parts under the field of that name.
pub proof fn law_result_becomes_its_record(
    r: EuropePmcResult,
    pmcid: String,
    res: DiscoveryRecord,
)
    requires
        call_ensures(pubmed::into_discovery_record, (r, pmcid), res),
    ensures
        res.upstream_id@ == "pubmed"@,
        res.record_id@ == pmcid@,
        field_is(res, "pubmedid"@, Some(pmcid@)),
        field_is(res, "title"@, basics::text_in(r.title)),
        field_is(res, "pmid"@, basics::text_in(r.pmid)),
        field_is(res, "doi"@, basics::text_in(r.doi)),
        field_is(res, "author"@, basics::text_in(r.author_string)),
        field_is(res, "journal"@, basics::text_in(r.journal_title)),
        field_is(res, "year"@, basics::text_in(r.pub_year)),
        field_is(res, "summary"@, basics::text_in(r.abstract_text)),
        field_is(res, "openAccess"@, basics::text_in(r.is_open_access)),
        field_is(res, "fileType"@, Some("document"@)),
        field_is(res, "contentKind"@, Some("paper"@)),
        field_is(res, "format"@, Some("pdf"@)),
        field_is(res, "sourceUrl"@, Some("https://europepmc.org/article/PMC/"@ + pmcid@)),
        field_is(res, "fileName"@, Some("pubmed-"@ + pmcid@ + ".pdf"@)),
{
    records::law_pubmed_fields_hold_their_sources(r@, pmcid@, Seq::empty());
}

/// The records of a search are the first of those of the results with a PMC id,
/// in order, as many as asked for.
pub proof fn law_results_give_their_first_records(
    results: Vec<EuropePmcResult>,
    views: Seq<pubmed::ResultView>,
    limit: usize,
    res: Vec<DiscoveryRecord>,
)
    requires
        call_ensures(records_of_results, (results, limit), res),
        views.len() == results@.len(),
        forall|i: int| 0 <= i < views.len() ==> #[trigger] views[i] == results@[i]@,
    ensures
        res@.len() == (if pubmed::full_text_records(views).len() < limit {
            pubmed::full_text_records(views).len()
        } else {
            limit as nat
        }),
        forall|i: int|
            0 <= i < res@.len() ==> (#[trigger] res@[i])@ == pubmed::full_text_records(views)[i],
{
    assert(pubmed::result_views(results@) =~= views);
    records::law_pubmed_search_takes_the_first(views, limit as nat);
    let found = types::record_views(res@);
    assert(found.len() == res@.len());
    assert forall|i: int| 0 <= i < res@.len() implies (#[trigger] res@[i])@
        == pubmed::full_text_records(views)[i] by {
        assert(found[i] == res@[i]@);
    }
}

/// An answer that cannot be decoded is a permanent error that tells why, and a
/// body is a PDF where it begins like one.
pub proof fn law_pubmed_bodies_are_checked(
    reason: &str,
    failure: GatewayError,
    bytes: &Vec<u8>,
    magic: bool,
)
    requires
        call_ensures(decode_failure, (reason,), failure),
        call_ensures(has_pdf_magic, (bytes,), magic),
    ensures
        failure matches GatewayError::Permanent(m) && m@ == "decode europe-pmc search response: "@
            + reason@,
        magic <==> records::begins_like_a_pdf(bytes@),
{
}

// ------------------------------------------------------ PubMed addresses, searches
/// Searches and lookups go to the search host, with the text, or the id, in an
/// encoding that can be undone; PDFs are asked for on the PDF host by id.
pub proof fn law_pubmed_urls(
    plugin: &PubmedPlugin,
    search_host: Seq<char>,
    pdf_host: Seq<char>,
    asked: &str,
    limit: usize,
    search: String,
    entry: String,
    pdf: String,
)
    requires
        requests::is_host(plugin.search_base@, search_host),
        requests::is_host(plugin.pdf_base@, pdf_host),
        call_ensures(PubmedPlugin::search_url, (plugin, asked, limit), search),
        call_ensures(PubmedPlugin::entry_url, (plugin, asked), entry),
        call_ensures(PubmedPlugin::pdf_url, (plugin, asked), pdf),
    ensures
        requests::is_made_of(
            search@,
            seq![
                search_host,
                "/search?query="@,
                common::url_encoded(asked@),
                "&format=json&pageSize="@,
                text::decimal(limit as nat),
                "&resultType=lite"@,
            ],
        ),
        requests::is_made_of(
            entry@,
            seq![
                search_host,
                "/search?query="@,
                common::url_encoded("PMCID:"@ + asked@),
                "&format=json&pageSize="@,
                text::decimal(1),
                "&resultType=lite"@,
            ],
        ),
        requests::is_made_of(pdf@, seq![pdf_host, "/articles/"@, asked@, "?pdf=render"@]),
        requests::percent_decoded(common::url_encoded(asked@)) == utf8::encode_utf8(asked@),
{
    requests::law_encoding_can_be_undone(asked@);
    requests::law_pubmed_search_address(
        plugin.search_base@,
        search_host,
        common::url_encoded(asked@),
        limit as nat,
    );
    requests::law_pubmed_search_address(
        plugin.search_base@,
        search_host,
        common::url_encoded("PMCID:"@ + asked@),
        1,
    );
    requests::law_pubmed_lookup_is_a_search_by_id(plugin.search_base@, asked@);
    requests::law_pubmed_pdf_address(plugin.pdf_base@, pdf_host, asked@);
}

/// A search that can match papers is asked for at its address, and no other is.
pub proof fn law_pubmed_asks_what_can_match(
    plugin: &PubmedPlugin,
    query: &GatewayQuery,
    limit: usize,
    res: Option<String>,
)
    requires
        call_ensures(PubmedPlugin::handle_query, (plugin, query, limit), res),
    ensures
        res is Some <==> can_match_papers(*query),
        res matches Some(url) ==> url@ == pubmed::search_address(
            plugin.search_base@,
            common::url_encoded(asked_text(*query)),
            limit as nat,
        ),
{
    requests::law_free_text_is_asked_for(query.free_text@);
}

/// A search answers with the first records of the results with a PMC id, in
/// order, or passes the error on.
pub proof fn law_pubmed_search_is_answered(
    plugin: &PubmedPlugin,
    response: Result<EuropePmcSearchResponse, GatewayError>,
    views: Seq<pubmed::ResultView>,
    limit: usize,
    res: Result<Vec<DiscoveryRecord>, GatewayError>,
)
    requires
        call_ensures(PubmedPlugin::query_answered, (plugin, response, limit), res),
        response matches Ok(r) ==> views.len() == r.result_list.result@.len() && forall|i: int|
            0 <= i < views.len() ==> #[trigger] views[i] == r.result_list.result@[i]@,
    ensures
        response matches Err(e) ==> (res matches Err(error) && error@ == e@),
        response is Ok ==> (res matches Ok(found) && found@.len() == (
        if pubmed::full_text_records(views).len() < limit {
            pubmed::full_text_records(views).len()
        } else {
            limit as nat
        }) && forall|i: int|
            0 <= i < found@.len() ==> (#[trigger] found@[i])@ == pubmed::full_text_records(
                views,
            )[i]),
{
    if let Ok(r) = response {
        assert(pubmed::result_views(r.result_list.result@) =~= views);
        records::law_pubmed_search_takes_the_first(views, limit as nat);
        let found = types::record_views(res->Ok_0@);
        assert(found.len() == res->Ok_0@.len());
        assert forall|i: int| 0 <= i < res->Ok_0@.len() implies (#[trigger] res->Ok_0@[i])@
            == pubmed::full_text_records(views)[i] by {
            assert(found[i] == res->Ok_0@[i]@);
        }
    }
}

/// A resolution begins with the cache: without it nothing works, its error is
/// the error, a hash in it is the answer, and else the article is looked up.
pub proof fn law_pubmed_resolution_begins_with_the_cache(
    plugin: &PubmedPlugin,
    record_id: &str,
    cached: Result<Option<String>, GatewayError>,
    res: ComputeStep<Article>,
)
    requires
        call_ensures(PubmedPlugin::compute_outcomes, (plugin, record_id, cached), res),
    ensures
        !plugin.cache_open ==> is_failure(
            res,
            types::GatewayErrorView::Internal("pubmed"@ + ": configure() not yet called"@),
        ),
        plugin.cache_open ==> match cached {
            Err(e) => is_failure(res, e@),
            Ok(Some(hash)) => res matches ComputeStep::Finished(Ok(outcomes)) && outcomes@.len()
                == 1 && outcomes@[0].hash.0@ == hash@ && outcomes@[0].hash_kind is Sha2_256
                && outcomes@[0].bytes is None && outcomes@[0].record is None
                && outcomes@[0].file_extension is None,
            Ok(None) => res matches ComputeStep::FetchEntry { url } && url@
                == pubmed::entry_address(plugin.search_base@, record_id@),
        },
{
    if let ComputeStep::Finished(Ok(outcomes)) = res {
        let views = types::outcome_views(outcomes@);
        assert(views.len() == outcomes@.len());
        assert(outcomes@.len() > 0 ==> views[0] == outcomes@[0]@);
    }
}

/// The lookup's first result, where it has a PMC id, is the one whose PDF is
/// asked for, under that id; without one nothing is found.
pub proof fn law_pubmed_lookup_leads_to_the_pdf(
    plugin: &PubmedPlugin,
    response: Result<EuropePmcSearchResponse, GatewayError>,
    res: ComputeStep<Article>,
)
    requires
        call_ensures(PubmedPlugin::entry_fetched, (plugin, response), res),
    ensures
        match response {
            Err(e) => is_failure(res, e@),
            Ok(r) => {
                let results = r.result_list.result@;
                &&& results.len() > 0 && results[0].pmcid is Some ==> (res matches
                    ComputeStep::FetchPdf { url, entry } && url@ == pubmed::pdf_address(
                    plugin.pdf_base@,
                    results[0].pmcid->0@,
                ) && entry.pmcid@ == results[0].pmcid->0@ && entry.result@ == results[0]@)
                &&& results.len() == 0 || results[0].pmcid is None ==> is_failure(
                    res,
                    types::GatewayErrorView::NotFound,
                )
            },
        },
{
    if let Ok(r) = response {
        let views = pubmed::result_views(r.result_list.result@);
        assert(views.len() == r.result_list.result@.len());
        assert(views.len() > 0 ==> views[0] == r.result_list.result@[0]@);
    }
}

/// A PDF that was fetched, however large, is the file: its bytes are stored and
/// answered with their own hash and the article's record. A body that is no PDF
/// is a permanent error that names the article.
pub proof fn law_pubmed_pdf_is_the_file(
    plugin: &PubmedPlugin,
    article: Article,
    body: Result<Vec<u8>, GatewayError>,
    res: ComputeStep<Article>,
)
    requires
        call_ensures(PubmedPlugin::pdf_fetched, (plugin, article, body), res),
    ensures
        match body {
            Ok(bytes) => {
                &&& records::begins_like_a_pdf(bytes@) ==> stores_the_file(
                    res,
                    bytes@,
                    hash::cid_text(hash::sha256_digest(bytes@)),
                    pubmed::result_record(article.result@, article.pmcid@),
                )
                &&& !records::begins_like_a_pdf(bytes@) ==> is_failure(
                    res,
                    types::GatewayErrorView::Permanent(
                        "europe-pmc returned non-PDF body for "@ + article.pmcid@
                            + " (article may have no rendered PDF)"@,
                    ),
                )
            },
            Err(e) => is_failure(res, e@),
        },
{
    if let ComputeStep::Store { hash, outcomes } = res {
        let views = types::outcome_views(outcomes@);
        assert(views.len() == outcomes@.len());
        assert(outcomes@.len() > 0 ==> views[0] == outcomes@[0]@);
    }
}

/// A hashed PDF is stored and answered under that hash.
pub proof fn law_pubmed_hashed_pdf_is_the_file(
    plugin: &PubmedPlugin,
    article: Article,
    bytes: Vec<u8>,
    cid: String,
    res: ComputeStep<Article>,
)
    requires
        call_ensures(PubmedPlugin::pdf_hashed, (plugin, article, bytes, cid), res),
    ensures
        stores_the_file(
            res,
            bytes@,
            cid@,
            pubmed::result_record(article.result@, article.pmcid@),
        ),
{
    if let ComputeStep::Store { hash, outcomes } = res {
        let views = types::outcome_views(outcomes@);
        assert(views.len() == outcomes@.len());
        assert(outcomes@.len() > 0 ==> views[0] == outcomes@[0]@);
    }
}

/// What a PubMed plugin is: which hosts it asks, what it serves, what it is
/// called, and when it is well.
pub proof fn law_pubmed_plugin(
    search_base: String,
    pdf_base: String,
    fresh: PubmedPlugin,
    one: PubmedPlugin,
    two: PubmedPlugin,
    plugin: &PubmedPlugin,
    file_types: Vec<String>,
    content_kinds: Vec<String>,
    id: &'static str,
    health: PluginHealth,
)
    requires
        call_ensures(PubmedPlugin::new, (), fresh),
        call_ensures(PubmedPlugin::with_base_url, (search_base,), one),
        call_ensures(PubmedPlugin::with_bases, (search_base, pdf_base), two),
        call_ensures(PubmedPlugin::served_file_types, (plugin,), file_types),
        call_ensures(PubmedPlugin::served_content_kinds, (plugin,), content_kinds),
        call_ensures(PubmedPlugin::upstream_id, (plugin,), id),
        call_ensures(PubmedPlugin::health, (plugin,), health),
    ensures
        fresh.search_base@ == "https://www.ebi.ac.uk/europepmc/webservices/rest"@,
        fresh.pdf_base@ == "https://europepmc.org"@ && !fresh.cache_open,
        one.search_base@ == search_base@ && one.pdf_base@ == search_base@ && !one.cache_open,
        two.search_base@ == search_base@ && two.pdf_base@ == pdf_base@ && !two.cache_open,
        basics::texts_in(file_types@) == seq!["document"@],
        basics::texts_in(content_kinds@) == seq!["paper"@],
        id@ == "pubmed"@,
        plugin.cache_open ==> health is Healthy,
        !plugin.cache_open ==> (health matches PluginHealth::Degraded { reason } && reason@
            == "configure() not yet called"@),
{
    basics::lemma_texts_in(file_types@);
    basics::lemma_texts_in(content_kinds@);
}

} // verus!
