//! What the contents of a value are: each part of it as it stands, nothing left
//! out; and which calls are allowed.
use crate::arxiv;
use crate::arxiv::{ArxivEntry, ArxivPlugin};
use crate::common;
use crate::common::ComputeStep;
use crate::config;
use crate::config::{
    ConfigDocument, ConfigField, ConfigSchema, ConfigValue, JsonContent,
};
use crate::hash::compute_ipfs_cid;
use crate::laws::basics;
use crate::listing;
use crate::pubmed;
use crate::pubmed::{Article, EuropePmcResult, EuropePmcSearchResponse, PubmedPlugin};
use crate::query::{query_accepts_plugin, GatewayQuery};
use crate::serve;
use crate::serve::{
    compute, ConfigSave, HostedPlugin, HttpReply, OutcomeDto, PluginHealthEntry, PluginManifest,
};
use crate::text::string_of;
use crate::text_map::TextMap;
use crate::types;
use crate::types::{DiscoveryRecord, GatewayError, HashOutcome};
use crate::xml;
use crate::xml::{RawAttribute, XmlToken};
use vstd::prelude::*;

verus! {

// ------------------------------------------------------------------- papers
/// The contents of an entry are all its parts.
pub proof fn law_entry_contents(e: ArxivEntry)
    ensures
        e@.record_id == e.record_id@,
        e@.title == basics::text_in(e.title),
        e@.summary == basics::text_in(e.summary),
        e@.published == basics::text_in(e.published),
        e@.authors == basics::texts_in(e.authors@),
        e@.categories == basics::texts_in(e.categories@),
        e@.primary_category == basics::text_in(e.primary_category),
        e@.pdf_link == basics::text_in(e.pdf_link),
{
    basics::lemma_texts_in(e.authors@);
    basics::lemma_texts_in(e.categories@);
}

/// The contents of a search result are all its parts.
pub proof fn law_result_contents(r: EuropePmcResult)
    ensures
        r@.pmid == basics::text_in(r.pmid),
        r@.pmcid == basics::text_in(r.pmcid),
        r@.doi == basics::text_in(r.doi),
        r@.title == basics::text_in(r.title),
        r@.author_string == basics::text_in(r.author_string),
        r@.journal_title == basics::text_in(r.journal_title),
        r@.pub_year == basics::text_in(r.pub_year),
        r@.abstract_text == basics::text_in(r.abstract_text),
        r@.is_open_access == basics::text_in(r.is_open_access),
{
}

/// The contents of an article, of a record and of a query are all their parts.
pub proof fn law_record_contents(a: Article, r: DiscoveryRecord, q: GatewayQuery)
    ensures
        a@.result == a.result@,
        a@.pmcid == a.pmcid@,
        r@.upstream_id == r.upstream_id@,
        r@.record_id == r.record_id@,
        r@.fields == r.fields@,
        q@.raw_text == q.raw_text@,
        q@.free_text == q.free_text@,
        q@.filters == q.filters@,
{
}

/// The contents of an outcome are all its parts.
pub proof fn law_outcome_contents(o: HashOutcome, w: OutcomeDto)
    ensures
        o@.hash == o.hash.0@,
        o@.hash_kind == o.hash_kind,
        o@.file_extension == basics::text_in(o.file_extension),
        o.record is Some <==> o@.record is Some,
        o.record is Some ==> o@.record->0 == o.record->0@,
        o.bytes is Some <==> o@.bytes is Some,
        o.bytes is Some ==> o@.bytes->0 == o.bytes->0@,
        w@.hash == w.hash@,
        w@.hash_kind == w.hash_kind,
        w@.file_extension == basics::text_in(w.file_extension),
        w.record is Some <==> w@.record is Some,
        w.record is Some ==> w@.record->0 == w.record->0@,
        w@.bytes_b64 == basics::text_in(w.bytes_b64),
{
}

/// The contents of an error are its kind and its message.
pub proof fn law_error_contents(e: GatewayError)
    ensures
        match e {
            GatewayError::NotFound => e@ is NotFound,
            GatewayError::RateLimited { retry_after_s } => e@
                == types::GatewayErrorView::RateLimited { retry_after_s },
            GatewayError::Transient(s) => e@ == types::GatewayErrorView::Transient(s@),
            GatewayError::Permanent(s) => e@ == types::GatewayErrorView::Permanent(s@),
            GatewayError::Internal(s) => e@ == types::GatewayErrorView::Internal(s@),
        },
{
}

/// The contents of a step are its kind and all its parts.
pub proof fn law_step_contents<E: View>(step: ComputeStep<E>)
    ensures
        match step {
            ComputeStep::FetchEntry { url } => step@ == common::ComputeStepView::<
                E::V,
            >::FetchEntry { url: url@ },
            ComputeStep::FetchPdf { url, entry } => step@ == (common::ComputeStepView::FetchPdf {
                url: url@,
                entry: entry@,
            }),
            ComputeStep::Store { hash, outcomes } => step@ == common::ComputeStepView::<
                E::V,
            >::Store { hash: hash@, outcomes: types::outcome_views(outcomes@) },
            ComputeStep::Finished(Ok(outcomes)) => step@ == common::ComputeStepView::<
                E::V,
            >::Finished(Ok(types::outcome_views(outcomes@))),
            ComputeStep::Finished(Err(e)) => step@ == common::ComputeStepView::<E::V>::Finished(
                Err(e@),
            ),
        },
{
}

/// The contents of a list are the contents of each of its items, in order.
pub proof fn law_list_contents(
    entries: Seq<ArxivEntry>,
    results: Seq<EuropePmcResult>,
    records: Seq<DiscoveryRecord>,
    outcomes: Seq<HashOutcome>,
    tokens: Seq<XmlToken>,
    attributes: Seq<RawAttribute>,
    members: Seq<(String, ConfigValue)>,
    i: int,
)
    requires
        0 <= i,
    ensures
        arxiv::entry_views(entries).len() == entries.len(),
        i < entries.len() ==> arxiv::entry_views(entries)[i] == entries[i]@,
        pubmed::result_views(results).len() == results.len(),
        i < results.len() ==> pubmed::result_views(results)[i] == results[i]@,
        types::record_views(records).len() == records.len(),
        i < records.len() ==> types::record_views(records)[i] == records[i]@,
        types::outcome_views(outcomes).len() == outcomes.len(),
        i < outcomes.len() ==> types::outcome_views(outcomes)[i] == outcomes[i]@,
        xml::token_views(tokens).len() == tokens.len(),
        i < tokens.len() ==> xml::token_views(tokens)[i] == tokens[i]@,
        xml::attribute_views(attributes).len() == attributes.len(),
        i < attributes.len() ==> match attributes[i] {
            Some((key, value)) => xml::attribute_views(attributes)[i] == Some((key@, value@)),
            None => xml::attribute_views(attributes)[i] is None,
        },
        config::member_views(members).len() == members.len(),
        i < members.len() ==> config::member_views(members)[i] == (members[i].0@, members[i].1@),
{
}

/// The contents of a list of any kind are the contents of each of its items.
pub proof fn law_any_list_contents<T: View>(list: Seq<T>, i: int)
    requires
        0 <= i < list.len(),
    ensures
        listing::views(list).len() == list.len(),
        listing::views(list)[i] == list[i]@,
{
}

/// The contents of a token are its kind and all its parts.
pub proof fn law_token_contents(t: XmlToken)
    ensures
        match t {
            XmlToken::Start { name } => t@ == (xml::XmlTokenView::Start { name: name@ }),
            XmlToken::Empty { name, attributes } => t@ == (xml::XmlTokenView::Empty {
                name: name@,
                attributes: xml::attribute_views(attributes@),
            }),
            XmlToken::Text { raw } => t@ == (xml::XmlTokenView::Text { raw: raw@ }),
            XmlToken::End { name } => t@ == (xml::XmlTokenView::End { name: name@ }),
            XmlToken::Other => t@ is Other,
        },
{
}

// ------------------------------------------------------------------- gateway
/// The contents of a hosted plugin are all its parts.
pub proof fn law_plugin_contents(p: HostedPlugin)
    ensures
        p@.key == p.key@,
        p@.id == p.id@,
        p@.served_file_types == basics::texts_in(p.served_file_types@),
        p@.served_content_kinds == basics::texts_in(p.served_content_kinds@),
        p@.config_schema == p.config_schema@,
        p@.config_values == p.config_values@,
{
    basics::lemma_texts_in(p.served_file_types@);
    basics::lemma_texts_in(p.served_content_kinds@);
}

/// The contents of what is answered are all its parts.
pub proof fn law_answer_contents(
    m: PluginManifest,
    h: PluginHealthEntry,
    reply: HttpReply,
    save: ConfigSave,
)
    ensures
        m@.id == m.id@,
        m@.served_file_types == basics::texts_in(m.served_file_types@),
        m@.served_content_kinds == basics::texts_in(m.served_content_kinds@),
        h@.id == h.id@,
        h@.health == h.health,
        reply@.status == reply.status,
        reply@.body == reply.body@,
        save@.directory == save.directory@,
        save@.temporary == save.temporary@,
        save@.path == save.path@,
        save@.values == save.values@,
{
    basics::lemma_texts_in(m.served_file_types@);
    basics::lemma_texts_in(m.served_content_kinds@);
}

/// The contents of a setting, a field, a schema and a document are all their
/// parts.
pub proof fn law_setting_contents(
    v: ConfigValue,
    f: ConfigField,
    schema: ConfigSchema,
    d: ConfigDocument,
    content: JsonContent,
    i: int,
)
    ensures
        v matches ConfigValue::Text(s) ==> v@ == config::ConfigValueView::Text(s@),
        v matches ConfigValue::Json(s) ==> v@ == config::ConfigValueView::Json(s@),
        f@.key == f.key@,
        f@.kind == f.kind,
        schema@.len() == schema.fields@.len(),
        0 <= i < schema.fields@.len() ==> schema@[i] == schema.fields@[i]@,
        d matches ConfigDocument::Object(values) ==> d@ == config::ConfigDocumentView::Object(
            values@,
        ),
        d matches ConfigDocument::Other(s) ==> d@ == config::ConfigDocumentView::Other(s@),
        content matches JsonContent::Object(list) ==> content@ == config::JsonContentView::Object(
            config::member_views(list@),
        ),
        content matches JsonContent::Other(s) ==> content@ == config::JsonContentView::Other(s@),
{
}

/// A copy is what it was made from.
pub proof fn law_copies_are_equal(
    v: &ConfigValue,
    v_copy: ConfigValue,
    schema: &ConfigSchema,
    schema_copy: ConfigSchema,
    d: &ConfigDocument,
    d_copy: ConfigDocument,
    h: &crate::types::Hash,
    shown: &str,
)
    requires
        call_ensures(ConfigValue::duplicate, (v,), v_copy),
        call_ensures(ConfigSchema::duplicate, (schema,), schema_copy),
        call_ensures(ConfigDocument::duplicate, (d,), d_copy),
        call_ensures(crate::types::Hash::as_str, (h,), shown),
    ensures
        v_copy@ == v@,
        schema_copy@ == schema@,
        d_copy@ == d@,
        shown@ == h.0@,
{
}

/// What is there before anything is set: an entry of which nothing is known, no
/// declared field, and plugins that ask the public hosts and have no cache yet.
pub proof fn law_defaults(
    e: ArxivEntry,
    schema: ConfigSchema,
    a: ArxivPlugin,
    p: PubmedPlugin,
)
    requires
        call_ensures(ArxivEntry::default, (), e),
        call_ensures(ConfigSchema::default, (), schema),
        call_ensures(ArxivPlugin::default, (), a),
        call_ensures(PubmedPlugin::default, (), p),
    ensures
        crate::laws::feeds::is_blank(e@),
        schema@.len() == 0,
        a.base_url@ == "https://export.arxiv.org"@ && !a.cache_open,
        p.search_base@ == "https://www.ebi.ac.uk/europepmc/webservices/rest"@,
        p.pdf_base@ == "https://europepmc.org"@ && !p.cache_open,
{
}

/// The entries of a map are its keys and values, each once, in ascending order.
pub proof fn law_map_entries<V: View>(m: &TextMap<V>, res: &Vec<(String, V)>, i: int)
    requires
        call_ensures(TextMap::<V>::entries, (m,), res),
    ensures
        0 <= i < res@.len() ==> m@.contains_key(res@[i].0@) && m@[res@[i].0@] == res@[i].1@,
        0 < i < res@.len() ==> crate::text::text_before(res@[i - 1].0@, res@[i].0@),
        forall|k: Seq<char>| #[trigger]
            m@.contains_key(k) ==> exists|j: int| 0 <= j < res@.len() && #[trigger] res@[j].0@ == k,
{
    if 0 <= i < res@.len() {
        crate::text_map::lemma_map_at(res@, i);
    }
}

/// A clone of a map of strings is the same map.
pub proof fn law_map_clone(m: &TextMap<String>, res: TextMap<String>)
    requires
        call_ensures(TextMap::<String>::clone, (m,), res),
    ensures
        res@ == m@,
{
    assert forall|k: Seq<char>| #[trigger] res@.contains_key(k) implies res@[k] == m@[k] by {
        assert(crate::text_map::clone_of::<String>(m@[k], res@[k]));
    }
    assert(res@ =~= m@);
}

// --------------------------------------------------------------- allowed calls
/// A PDF of any length that SHA-256 can count may be handed in.
pub proof fn law_any_pdf_may_be_handed_in(
    a: &ArxivPlugin,
    entry: ArxivEntry,
    p: &PubmedPlugin,
    article: Article,
    body: Result<Vec<u8>, GatewayError>,
    bytes: &[u8],
)
    requires
        body is Ok ==> body->Ok_0@.len() <= 0x1fff_ffff_ffff_ffff,
        bytes@.len() <= 0x1fff_ffff_ffff_ffff,
    ensures
        call_requires(ArxivPlugin::pdf_fetched, (a, entry, body)),
        call_requires(PubmedPlugin::pdf_fetched, (p, article, body)),
        call_requires(compute_ipfs_cid, (bytes,)),
{
}

/// Outcomes whose base64 texts fit into an allocation may be sent.
pub proof fn law_fitting_outcomes_may_be_sent(
    o: HashOutcome,
    answer: Result<Vec<HashOutcome>, GatewayError>,
    chars: &Vec<char>,
    from: usize,
    to: usize,
)
    requires
        o.bytes is Some ==> 4 * ((o.bytes->0@.len() + 2) / 3) <= isize::MAX,
        answer is Ok ==> forall|i: int|
            0 <= i < answer->Ok_0@.len() && (#[trigger] answer->Ok_0@[i]).bytes is Some ==> 4 * ((
            answer->Ok_0@[i].bytes->0@.len() + 2) / 3) <= isize::MAX,
        from <= to <= chars@.len(),
    ensures
        call_requires(OutcomeDto::from_outcome, (o,)),
        call_requires(compute, (answer,)),
        call_requires(string_of, (chars, from, to)),
{
    if let Ok(outcomes) = answer {
        assert forall|i: int| 0 <= i < outcomes@.len() implies serve::fits_the_wire(
            (#[trigger] outcomes@[i])@,
        ) by {
            if outcomes@[i].bytes is Some {
                assert(answer->Ok_0@[i].bytes is Some);
            }
        }
    }
}

/// Queries, answers and records of any kind may be handed in.
pub proof fn law_any_input_may_be_handed_in(
    a: &ArxivPlugin,
    p: &PubmedPlugin,
    query: &GatewayQuery,
    file_types: &Vec<String>,
    content_kinds: &Vec<String>,
    limit: usize,
    body: Result<Vec<u8>, GatewayError>,
    response: Result<EuropePmcSearchResponse, GatewayError>,
    record_id: &str,
    cached: Result<Option<String>, GatewayError>,
    entry: ArxivEntry,
    result: EuropePmcResult,
    pmcid: String,
    feed: &[u8],
)
    ensures
        call_requires(query_accepts_plugin, (query, file_types, content_kinds)),
        call_requires(ArxivPlugin::handle_query, (a, query, limit)),
        call_requires(PubmedPlugin::handle_query, (p, query, limit)),
        call_requires(ArxivPlugin::query_answered, (a, body, limit)),
        call_requires(PubmedPlugin::query_answered, (p, response, limit)),
        call_requires(ArxivPlugin::compute_outcomes, (a, record_id, cached)),
        call_requires(PubmedPlugin::compute_outcomes, (p, record_id, cached)),
        call_requires(ArxivPlugin::entry_fetched, (a, record_id, body)),
        call_requires(PubmedPlugin::entry_fetched, (p, response)),
        call_requires(arxiv::into_discovery_record, (entry,)),
        call_requires(pubmed::into_discovery_record, (result, pmcid)),
        call_requires(arxiv::parse_arxiv_feed, (feed,)),
{
}

} // verus!
