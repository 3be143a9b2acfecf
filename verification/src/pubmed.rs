//! PubMed Central through Europe PMC: its search results, and the records made
//! from those that have a full text.
use crate::common;
use crate::common::{begin_compute, single_outcome, urlencode, ComputeStep};
use crate::hash;
use crate::hash::{compute_ipfs_cid, SHA256_MAX_LEN};
use crate::query;
use crate::query::{query_accepts_plugin, GatewayQuery};
use crate::text;
use crate::text::{decimal_text, trim_end_char};
use crate::text_map::TextMap;
use crate::types;
use crate::types::{
    put_field, upstream_id_field, ConfigError, DiscoveryRecord, GatewayError, PluginHealth,
};
use vstd::prelude::*;

verus! {

// --------------------------------------------------------------- search results
/// One result of a Europe PMC search.
#[derive(Debug, Default)]
pub struct EuropePmcResult {
    /// The PubMed id; absent for preprints.
    pub pmid: Option<String>,
    /// The PMC id; present only where the article has a full text in the open
    /// access subset.
    pub pmcid: Option<String>,
    pub doi: Option<String>,
    pub title: Option<String>,
    /// The author list, separated by commas.
    pub author_string: Option<String>,
    pub journal_title: Option<String>,
    pub pub_year: Option<String>,
    pub abstract_text: Option<String>,
    pub is_open_access: Option<String>,
}

/// The contents of an [`EuropePmcResult`].
pub struct ResultView {
    pub pmid: Option<Seq<char>>,
    pub pmcid: Option<Seq<char>>,
    pub doi: Option<Seq<char>>,
    pub title: Option<Seq<char>>,
    pub author_string: Option<Seq<char>>,
    pub journal_title: Option<Seq<char>>,
    pub pub_year: Option<Seq<char>>,
    pub abstract_text: Option<Seq<char>>,
    pub is_open_access: Option<Seq<char>>,
}

impl View for EuropePmcResult {
    type V = ResultView;

    open spec fn view(&self) -> ResultView {
        ResultView {
            pmid: types::opt_text(self.pmid),
            pmcid: types::opt_text(self.pmcid),
            doi: types::opt_text(self.doi),
            title: types::opt_text(self.title),
            author_string: types::opt_text(self.author_string),
            journal_title: types::opt_text(self.journal_title),
            pub_year: types::opt_text(self.pub_year),
            abstract_text: types::opt_text(self.abstract_text),
            is_open_access: types::opt_text(self.is_open_access),
        }
    }
}

/// The contents of a list of results.
pub open spec fn result_views(list: Seq<EuropePmcResult>) -> Seq<ResultView> {
    Seq::new(list.len(), |i: int| list[i]@)
}

/// The results of a Europe PMC search.
#[derive(Debug, Default)]
pub struct EuropePmcResultList {
    pub result: Vec<EuropePmcResult>,
}

/// The answer to a Europe PMC search.
#[derive(Debug, Default)]
pub struct EuropePmcSearchResponse {
    pub result_list: EuropePmcResultList,
}

/// The contents of a search's answer, or of the error in its place.
pub open spec fn response_view(response: Result<EuropePmcSearchResponse, GatewayError>) -> Result<
    Seq<ResultView>,
    types::GatewayErrorView,
> {
    match response {
        Ok(r) => Ok(result_views(r.result_list.result@)),
        Err(e) => Err(e@),
    }
}

// ---------------------------------------------------------------------- records
/// The metadata fields of a Europe PMC record.
pub open spec fn result_fields(r: ResultView, pmcid: Seq<char>) -> Map<Seq<char>, Seq<char>> {
    let m = types::put(Map::empty(), "title"@, r.title);
    let m = m.insert("fileType"@, "document"@);
    let m = m.insert("contentKind"@, "paper"@);
    let m = m.insert("sourceUrl"@, "https://europepmc.org/article/PMC/"@ + pmcid);
    let m = m.insert("fileName"@, "pubmed-"@ + pmcid + ".pdf"@);
    let m = m.insert("pubmed"@ + "id"@, pmcid);
    let m = m.insert("format"@, "pdf"@);
    let m = types::put(m, "pmid"@, r.pmid);
    let m = types::put(m, "doi"@, r.doi);
    let m = types::put(m, "author"@, r.author_string);
    let m = types::put(m, "journal"@, r.journal_title);
    let m = types::put(m, "year"@, r.pub_year);
    let m = types::put(m, "summary"@, r.abstract_text);
    types::put(m, "openAccess"@, r.is_open_access)
}

/// The record made from a search result with the PMC id `pmcid`.
pub open spec fn result_record(r: ResultView, pmcid: Seq<char>) -> types::DiscoveryRecordView {
    types::DiscoveryRecordView {
        upstream_id: "pubmed"@,
        record_id: pmcid,
        fields: result_fields(r, pmcid),
    }
}

/// Converts a search result into a record. The PMC id stands both as the
/// record id and under the canonical field `pubmedid`.
pub fn into_discovery_record(r: EuropePmcResult, pmcid: String) -> (res: DiscoveryRecord)
    ensures
        res@ == result_record(r@, pmcid@),
{
    let mut fields: TextMap<String> = TextMap::new();
    let mut source_url = "https://europepmc.org/article/PMC/".to_string();
    source_url.push_str(pmcid.as_str());
    let mut file_name = "pubmed-".to_string();
    file_name.push_str(pmcid.as_str());
    file_name.push_str(".pdf");
    put_field(&mut fields, "title", r.title);
    fields.insert("fileType".to_string(), "document".to_string());
    fields.insert("contentKind".to_string(), "paper".to_string());
    fields.insert("sourceUrl".to_string(), source_url);
    fields.insert("fileName".to_string(), file_name);
    fields.insert(upstream_id_field("pubmed"), pmcid.clone());
    fields.insert("format".to_string(), "pdf".to_string());
    put_field(&mut fields, "pmid", r.pmid);
    put_field(&mut fields, "doi", r.doi);
    put_field(&mut fields, "author", r.author_string);
    put_field(&mut fields, "journal", r.journal_title);
    put_field(&mut fields, "year", r.pub_year);
    put_field(&mut fields, "summary", r.abstract_text);
    put_field(&mut fields, "openAccess", r.is_open_access);
    DiscoveryRecord { upstream_id: "pubmed".to_string(), record_id: pmcid, fields }
}

/// The records of those results that have a full text, in order.
pub open spec fn full_text_records(results: Seq<ResultView>) -> Seq<types::DiscoveryRecordView>
    decreases results.len(),
{
    if results.len() == 0 {
        Seq::empty()
    } else {
        let before = full_text_records(results.drop_last());
        match results.last().pmcid {
            Some(pmcid) => before.push(result_record(results.last(), pmcid)),
            None => before,
        }
    }
}

/// The answer to a search with these results: at most `limit` records, each
/// with a full text.
pub open spec fn search_records(results: Seq<ResultView>, limit: nat) -> Seq<
    types::DiscoveryRecordView,
> {
    let all = full_text_records(results);
    if all.len() <= limit {
        all
    } else {
        all.take(limit as int)
    }
}

/// Adding a result keeps the records of those before it.
proof fn lemma_records_grow(results: Seq<ResultView>, from: int, to: int)
    requires
        0 <= from <= to <= results.len(),
    ensures
        full_text_records(results.take(from)).is_prefix_of(full_text_records(results.take(to))),
    decreases to - from,
{
    if from < to {
        lemma_records_grow(results, from, to - 1);
        assert(results.take(to).drop_last() =~= results.take(to - 1));
        let a = full_text_records(results.take(from));
        let b = full_text_records(results.take(to - 1));
        let c = full_text_records(results.take(to));
        assert(c.subrange(0, a.len() as int) =~= b.subrange(0, a.len() as int));
    } else {
        let a = full_text_records(results.take(from));
        assert(a.subrange(0, a.len() as int) =~= a);
    }
}

/// The first `max_results` of the results with a full text, as records.
pub fn records_of_results(results: Vec<EuropePmcResult>, max_results: usize) -> (res: Vec<
    DiscoveryRecord,
>)
    ensures
        types::record_views(res@) == search_records(result_views(results@), max_results as nat),
{
    let ghost list = results@;
    let ghost all = result_views(list);
    let mut records: Vec<DiscoveryRecord> = Vec::new();
    assert(types::record_views(records@) =~= full_text_records(all.take(0)));
    for result in it: results.into_iter()
        invariant
            it.seq() == list,
            all == result_views(list),
            types::record_views(records@) == search_records(
                all.take(it.index()),
                max_results as nat,
            ),
    {
        let ghost n = it.index();
        let ghost next = all.take(n + 1);
        let ghost done = types::record_views(records@);
        assert(next.drop_last() =~= all.take(n));
        assert(next.last() == result@);
        if records.len() < max_results {
            if let Some(id) = &result.pmcid {
                let pmcid = id.clone();
                let record = into_discovery_record(result, pmcid);
                let ghost added = record@;
                records.push(record);
                assert(types::record_views(records@) =~= done.push(added));
            }
        } else {
            proof {
                lemma_records_grow(all, n, n + 1);
                let a = full_text_records(all.take(n));
                let b = full_text_records(next);
                assert(b.subrange(0, a.len() as int) == a);
                assert(done.len() == max_results);
                assert(search_records(next, max_results as nat) =~= done);
            }
        }
    }
    assert(all.take(all.len() as int) =~= all);
    records
}

// ----------------------------------------------------------------------- plugin
/// The Europe PMC REST API.
pub open spec fn default_search_base() -> Seq<char> {
    "https://www.ebi.ac.uk/europepmc/webservices/rest"@
}

/// The Europe PMC web host, which renders the PDFs.
pub open spec fn default_pdf_base() -> Seq<char> {
    "https://europepmc.org"@
}

/// The PubMed Central plugin: which hosts it asks, and whether its cache is
/// open.
#[derive(Debug)]
pub struct PubmedPlugin {
    pub search_base: String,
    pub pdf_base: String,
    pub cache_open: bool,
}

/// A search result with its PMC id, on the way to its file.
#[derive(Debug)]
pub struct Article {
    pub result: EuropePmcResult,
    pub pmcid: String,
}

/// The contents of an [`Article`].
pub struct ArticleView {
    pub result: ResultView,
    pub pmcid: Seq<char>,
}

impl View for Article {
    type V = ArticleView;

    open spec fn view(&self) -> ArticleView {
        ArticleView { result: self.result@, pmcid: self.pmcid@ }
    }
}

/// The address of a search for text that is already percent-encoded.
pub open spec fn search_address(base: Seq<char>, encoded: Seq<char>, max_results: nat) -> Seq<char> {
    text::without_trailing(base, '/') + "/search?query="@ + encoded + "&format=json&pageSize="@
        + text::decimal(max_results) + "&resultType=lite"@
}

/// The address of the lookup of one article by its PMC id.
pub open spec fn entry_address(base: Seq<char>, pmcid: Seq<char>) -> Seq<char> {
    search_address(base, common::url_encoded("PMCID:"@ + pmcid), 1)
}

/// The address of an article's rendered PDF.
pub open spec fn pdf_address(base: Seq<char>, pmcid: Seq<char>) -> Seq<char> {
    text::without_trailing(base, '/') + "/articles/"@ + pmcid + "?pdf=render"@
}

/// The bytes begin with the PDF magic `%PDF`.
pub open spec fn is_pdf(bytes: Seq<u8>) -> bool {
    bytes.len() >= 4 && bytes[0] == 0x25 && bytes[1] == 0x50 && bytes[2] == 0x44 && bytes[3] == 0x46
}

/// The error for a body that is no PDF.
pub open spec fn not_a_pdf(pmcid: Seq<char>) -> types::GatewayErrorView {
    types::GatewayErrorView::Permanent(
        "europe-pmc returned non-PDF body for "@ + pmcid
            + " (article may have no rendered PDF)"@,
    )
}

/// How the resolution goes on after the lookup: with the first result, where
/// it has a full text.
pub open spec fn after_lookup(
    pdf_base: Seq<char>,
    found: Result<Seq<ResultView>, types::GatewayErrorView>,
) -> common::ComputeStepView<ArticleView> {
    match found {
        Err(e) => common::ComputeStepView::Finished(Err(e)),
        Ok(results) => if results.len() > 0 && results[0].pmcid is Some {
            common::ComputeStepView::FetchPdf {
                url: pdf_address(pdf_base, results[0].pmcid->0),
                entry: ArticleView { result: results[0], pmcid: results[0].pmcid->0 },
            }
        } else {
            common::ComputeStepView::Finished(Err(types::GatewayErrorView::NotFound))
        },
    }
}

/// The error for a search answer that cannot be decoded.
pub fn decode_failure(reason: &str) -> (res: GatewayError)
    ensures
        res@ == types::GatewayErrorView::Permanent(
            "decode europe-pmc search response: "@ + reason@,
        ),
{
    let mut message = "decode europe-pmc search response: ".to_string();
    message.push_str(reason);
    GatewayError::Permanent(message)
}

/// Whether the bytes begin with the PDF magic `%PDF`.
pub fn has_pdf_magic(bytes: &Vec<u8>) -> (res: bool)
    ensures
        res == is_pdf(bytes@),
{
    bytes.len() >= 4 && bytes[0] == 0x25 && bytes[1] == 0x50 && bytes[2] == 0x44 && bytes[3] == 0x46
}

/// A PDF that was fetched and hashed: its hash is remembered, and the one
/// outcome carries it, the bytes and the article's record.
pub open spec fn resolved(
    article: ArticleView,
    bytes: Seq<u8>,
    hash: Seq<char>,
) -> common::ComputeStepView<ArticleView> {
    common::ComputeStepView::Store {
        hash,
        outcomes: seq![
            common::fresh_outcome(hash, bytes, result_record(article.result, article.pmcid)),
        ],
    }
}

/// What comes of the body that the PDF's address gave.
pub open spec fn after_pdf(
    article: ArticleView,
    body: Result<Seq<u8>, types::GatewayErrorView>,
) -> common::ComputeStepView<ArticleView> {
    match body {
        Ok(bytes) => if is_pdf(bytes) {
            resolved(article, bytes, hash::cid_text(hash::sha256_digest(bytes)))
        } else {
            common::ComputeStepView::Finished(Err(not_a_pdf(article.pmcid)))
        },
        Err(e) => common::ComputeStepView::Finished(Err(e)),
    }
}

impl Default for PubmedPlugin {
    fn default() -> (res: PubmedPlugin)
        ensures
            res.search_base@ == default_search_base(),
            res.pdf_base@ == default_pdf_base(),
            !res.cache_open,
    {
        PubmedPlugin::new()
    }
}

impl PubmedPlugin {
    /// A plugin that asks the public Europe PMC hosts.
    pub fn new() -> (res: PubmedPlugin)
        ensures
            res.search_base@ == default_search_base(),
            res.pdf_base@ == default_pdf_base(),
            !res.cache_open,
    {
        PubmedPlugin::with_bases(
            "https://www.ebi.ac.uk/europepmc/webservices/rest".to_string(),
            "https://europepmc.org".to_string(),
        )
    }

    /// A plugin that asks one host for both searches and PDFs.
    pub fn with_base_url(base: String) -> (res: PubmedPlugin)
        ensures
            res.search_base@ == base@,
            res.pdf_base@ == base@,
            !res.cache_open,
    {
        PubmedPlugin::with_bases(base.clone(), base)
    }

    /// A plugin with one host for searches and one for PDFs.
    pub fn with_bases(search_base: String, pdf_base: String) -> (res: PubmedPlugin)
        ensures
            res.search_base@ == search_base@,
            res.pdf_base@ == pdf_base@,
            !res.cache_open,
    {
        PubmedPlugin { search_base, pdf_base, cache_open: false }
    }

    /// The id under which the plugin is addressed.
    pub fn upstream_id(&self) -> (res: &'static str)
        ensures
            res@ == "pubmed"@,
    {
        "pubmed"
    }

    /// Takes note of whether the cache could be opened.
    pub fn configure(&mut self, opened: Result<(), ConfigError>) -> (res: Result<(), ConfigError>)
        ensures
            res == opened,
            final(self).search_base == old(self).search_base,
            final(self).pdf_base == old(self).pdf_base,
            final(self).cache_open == (opened is Ok || old(self).cache_open),
    {
        if opened.is_ok() {
            self.cache_open = true;
        }
        opened
    }

    /// Healthy once the cache is open.
    pub fn health(&self) -> (res: PluginHealth)
        ensures
            match res {
                PluginHealth::Healthy => self.cache_open,
                PluginHealth::Degraded { reason } => !self.cache_open && reason@
                    == "configure() not yet called"@,
            },
    {
        if self.cache_open {
            PluginHealth::Healthy
        } else {
            PluginHealth::Degraded { reason: "configure() not yet called".to_string() }
        }
    }

    /// The file types that the plugin serves.
    pub fn served_file_types(&self) -> (res: Vec<String>)
        ensures
            text::texts(res@) == seq!["document"@],
    {
        let mut res: Vec<String> = Vec::new();
        res.push("document".to_string());
        assert(text::texts(res@) =~= seq!["document"@]);
        res
    }

    /// The content kinds that the plugin serves.
    pub fn served_content_kinds(&self) -> (res: Vec<String>)
        ensures
            text::texts(res@) == seq!["paper"@],
    {
        let mut res: Vec<String> = Vec::new();
        res.push("paper".to_string());
        assert(text::texts(res@) =~= seq!["paper"@]);
        res
    }

    /// The address of a search.
    pub fn search_url(&self, query: &str, max_results: usize) -> (res: String)
        ensures
            res@ == search_address(
                self.search_base@,
                common::url_encoded(query@),
                max_results as nat,
            ),
    {
        let mut url = trim_end_char(self.search_base.as_str(), '/');
        url.push_str("/search?query=");
        url.push_str(urlencode(query).as_str());
        url.push_str("&format=json&pageSize=");
        url.push_str(decimal_text(max_results as u64).as_str());
        url.push_str("&resultType=lite");
        url
    }

    /// The address of the lookup of one article by its PMC id.
    pub fn entry_url(&self, pmcid: &str) -> (res: String)
        ensures
            res@ == entry_address(self.search_base@, pmcid@),
    {
        let mut query = "PMCID:".to_string();
        query.push_str(pmcid);
        self.search_url(query.as_str(), 1)
    }

    /// The address of an article's rendered PDF.
    pub fn pdf_url(&self, pmcid: &str) -> (res: String)
        ensures
            res@ == pdf_address(self.pdf_base@, pmcid@),
    {
        let mut url = trim_end_char(self.pdf_base.as_str(), '/');
        url.push_str("/articles/");
        url.push_str(pmcid);
        url.push_str("?pdf=render");
        url
    }

    /// Begins a search: the address to ask, or `None` where no paper can match
    /// the query and the answer is empty.
    pub fn handle_query(&self, query: &GatewayQuery, max_results: usize) -> (res: Option<String>)
        ensures
            types::opt_text(res) == if query::accepts(query@, seq!["document"@], seq!["paper"@]) {
                Some(
                    search_address(
                        self.search_base@,
                        common::url_encoded(query::text_or_star(query@.free_text)),
                        max_results as nat,
                    ),
                )
            } else {
                None
            },
            res is Some <==> (query@.filters.contains_key("fileType"@)
                ==> query@.filters["fileType"@] == "document"@) && (query@.filters.contains_key(
                "contentKind"@,
            ) ==> query@.filters["contentKind"@] == "paper"@),
    {
        assert(forall|s: Seq<char>| seq!["document"@].contains(s) <==> s == "document"@) by {
            assert(seq!["document"@][0] == "document"@);
        }
        assert(forall|s: Seq<char>| seq!["paper"@].contains(s) <==> s == "paper"@) by {
            assert(seq!["paper"@][0] == "paper"@);
        }
        if !query_accepts_plugin(query, &self.served_file_types(), &self.served_content_kinds()) {
            return None;
        }
        Some(self.search_url(query.free_text_or_star(), max_results))
    }

    /// Completes a search with the answer that its address gave.
    pub fn query_answered(
        &self,
        response: Result<EuropePmcSearchResponse, GatewayError>,
        max_results: usize,
    ) -> (res: Result<Vec<DiscoveryRecord>, GatewayError>)
        ensures
            types::answer_view(res) == match response_view(response) {
                Ok(results) => Ok(search_records(results, max_results as nat)),
                Err(e) => Err(e),
            },
    {
        match response {
            Ok(r) => Ok(records_of_results(r.result_list.result, max_results)),
            Err(e) => Err(e),
        }
    }

    /// Begins to resolve a record: the cache was asked and answered `cached`.
    pub fn compute_outcomes(
        &self,
        record_id: &str,
        cached: Result<Option<String>, GatewayError>,
    ) -> (res: ComputeStep<Article>)
        ensures
            res@ == common::compute_begin::<ArticleView>(
                "pubmed"@,
                self.cache_open,
                common::cached_view(cached),
                entry_address(self.search_base@, record_id@),
            ),
    {
        begin_compute("pubmed", self.cache_open, cached, self.entry_url(record_id))
    }

    /// Goes on with the answer that the lookup's address gave.
    pub fn entry_fetched(&self, response: Result<EuropePmcSearchResponse, GatewayError>) -> (res:
        ComputeStep<Article>)
        ensures
            res@ == after_lookup(self.pdf_base@, response_view(response)),
    {
        let mut results = match response {
            Ok(r) => r.result_list.result,
            Err(e) => {
                return ComputeStep::Finished(Err(e));
            },
        };
        if results.is_empty() {
            return ComputeStep::Finished(Err(GatewayError::NotFound));
        }
        let result = results.remove(0);
        let pmcid = match &result.pmcid {
            Some(id) => id.clone(),
            None => {
                return ComputeStep::Finished(Err(GatewayError::NotFound));
            },
        };
        ComputeStep::FetchPdf {
            url: self.pdf_url(pmcid.as_str()),
            entry: Article { result, pmcid },
        }
    }

    /// Goes on with the body that the PDF's address gave. Europe PMC answers
    /// some articles with a web page instead; anything but a PDF is refused.
    pub fn pdf_fetched(&self, article: Article, body: Result<Vec<u8>, GatewayError>) -> (res:
        ComputeStep<Article>)
        requires
            body matches Ok(bytes) ==> bytes@.len() <= SHA256_MAX_LEN,
        ensures
            res@ == after_pdf(article@, common::body_view(body)),
            res@ matches common::ComputeStepView::Store { hash, outcomes } ==> body is Ok
                && outcomes.len() == 1 && outcomes[0].bytes == Some(body->Ok_0@)
                && outcomes[0].hash == hash && hash == hash::cid_text(
                hash::sha256_digest(body->Ok_0@),
            ),
            body matches Ok(bytes) ==> (res@ is Store <==> is_pdf(bytes@)),
            body matches Err(e) ==> res@ == common::ComputeStepView::<ArticleView>::Finished(Err(e@)),
    {
        match body {
            Ok(bytes) => {
                if has_pdf_magic(&bytes) {
                    let hash = compute_ipfs_cid(bytes.as_slice());
                    self.pdf_hashed(article, bytes, hash)
                } else {
                    let mut message = "europe-pmc returned non-PDF body for ".to_string();
                    message.push_str(article.pmcid.as_str());
                    message.push_str(" (article may have no rendered PDF)");
                    ComputeStep::Finished(Err(GatewayError::Permanent(message)))
                }
            },
            Err(e) => ComputeStep::Finished(Err(e)),
        }
    }

    /// Completes the resolution: the PDF's hash is `hash`.
    pub fn pdf_hashed(&self, article: Article, bytes: Vec<u8>, hash: String) -> (res: ComputeStep<
        Article,
    >)
        ensures
            res@ == resolved(article@, bytes@, hash@),
            res@ matches common::ComputeStepView::Store { hash: stored, outcomes } && stored
                == hash@ && outcomes.len() == 1 && outcomes[0].bytes == Some(bytes@)
                && outcomes[0].hash == hash@,
    {
        let record = into_discovery_record(article.result, article.pmcid);
        let outcomes = single_outcome(hash.clone(), bytes, record);
        ComputeStep::Store { hash, outcomes }
    }
}

// ------------------------------------------------------------------------ laws
/// Every record carries the fields that typed filters rest on: what kind of
/// file it is, where it comes from, and its id under the canonical field.
pub proof fn law_record_has_the_required_fields(r: ResultView, pmcid: Seq<char>)
    ensures
        result_record(r, pmcid).upstream_id == "pubmed"@,
        result_record(r, pmcid).record_id == pmcid,
        types::has_field(result_record(r, pmcid), "fileType"@, "document"@),
        types::has_field(result_record(r, pmcid), "contentKind"@, "paper"@),
        types::has_field(result_record(r, pmcid), "format"@, "pdf"@),
        types::has_field(
            result_record(r, pmcid),
            "sourceUrl"@,
            "https://europepmc.org/article/PMC/"@ + pmcid,
        ),
        types::has_field(result_record(r, pmcid), "fileName"@, "pubmed-"@ + pmcid + ".pdf"@),
        types::has_field(
            result_record(r, pmcid),
            result_record(r, pmcid).upstream_id + "id"@,
            pmcid,
        ),
        r.title matches Some(title) ==> types::has_field(result_record(r, pmcid), "title"@, title),
        r.doi matches Some(doi) ==> types::has_field(result_record(r, pmcid), "doi"@, doi),
{
    reveal_strlit("title");
    reveal_strlit("fileType");
    reveal_strlit("contentKind");
    reveal_strlit("sourceUrl");
    reveal_strlit("fileName");
    reveal_strlit("pubmed");
    reveal_strlit("id");
    reveal_strlit("format");
    reveal_strlit("pmid");
    reveal_strlit("doi");
    reveal_strlit("author");
    reveal_strlit("journal");
    reveal_strlit("year");
    reveal_strlit("summary");
    reveal_strlit("openAccess");
    let own = "pubmed"@ + "id"@;
    assert(own.len() == 8 && own[0] == 'p');
    assert("fileType"@.len() == 8 && "fileName"@.len() == 8);
    assert("fileType"@[0] == 'f' && "fileType"@[4] == 'T');
    assert("fileName"@[0] == 'f' && "fileName"@[4] == 'N');
    assert("format"@.len() == 6 && "format"@[0] == 'f');
    assert("author"@.len() == 6 && "author"@[0] == 'a');
    assert("sourceUrl"@.len() == 9 && "contentKind"@.len() == 11 && "openAccess"@.len() == 10);
    assert("title"@.len() == 5 && "pmid"@.len() == 4 && "doi"@.len() == 3 && "year"@.len() == 4);
    assert("journal"@.len() == 7 && "summary"@.len() == 7);
}

/// A search returns no more records than asked for, and only articles with a
/// full text: each record stands for a result with that PMC id.
pub proof fn law_search_returns_full_texts(results: Seq<ResultView>, max_results: nat)
    ensures
        search_records(results, max_results).len() <= max_results,
        forall|i: int|
            0 <= i < search_records(results, max_results).len() ==> has_full_text(
                results,
                #[trigger] search_records(results, max_results)[i],
            ),
{
    lemma_full_texts(results);
    let all = full_text_records(results);
    let found = search_records(results, max_results);
    assert forall|i: int| 0 <= i < found.len() implies has_full_text(
        results,
        #[trigger] found[i],
    ) by {
        assert(found[i] == all[i]);
    }
}

/// The record stands for one of the results, which has a full text.
pub open spec fn has_full_text(
    results: Seq<ResultView>,
    record: types::DiscoveryRecordView,
) -> bool {
    exists|k: int|
        0 <= k < results.len() && (#[trigger] results[k]).pmcid == Some(record.record_id) && record
            == result_record(results[k], record.record_id)
}

proof fn lemma_full_texts(results: Seq<ResultView>)
    ensures
        forall|i: int|
            0 <= i < full_text_records(results).len() ==> has_full_text(
                results,
                #[trigger] full_text_records(results)[i],
            ),
    decreases results.len(),
{
    if results.len() > 0 {
        let before = results.drop_last();
        lemma_full_texts(before);
        let all = full_text_records(results);
        assert forall|i: int| 0 <= i < all.len() implies has_full_text(
            results,
            #[trigger] all[i],
        ) by {
            if i < full_text_records(before).len() {
                let record = full_text_records(before)[i];
                assert(all[i] == record);
                assert(has_full_text(before, record));
                let k = choose|k: int|
                    0 <= k < before.len() && (#[trigger] before[k]).pmcid == Some(record.record_id)
                        && record == result_record(before[k], record.record_id);
                assert(results[k] == before[k]);
            } else {
                assert(results[results.len() - 1] == results.last());
            }
        }
    }
}

/// Every article with a full text is found, where the limit allows.
pub proof fn law_search_omits_no_full_text(
    results: Seq<ResultView>,
    max_results: nat,
    k: int,
)
    requires
        0 <= k < results.len(),
        results[k].pmcid is Some,
        full_text_records(results).len() <= max_results,
    ensures
        search_records(results, max_results).contains(
            result_record(results[k], results[k].pmcid->0),
        ),
{
    lemma_kept(results, k);
}

proof fn lemma_kept(results: Seq<ResultView>, k: int)
    requires
        0 <= k < results.len(),
        results[k].pmcid is Some,
    ensures
        full_text_records(results).contains(result_record(results[k], results[k].pmcid->0)),
    decreases results.len(),
{
    let record = result_record(results[k], results[k].pmcid->0);
    let all = full_text_records(results);
    let before = full_text_records(results.drop_last());
    if k == results.len() - 1 {
        assert(all[all.len() - 1] == record);
    } else {
        assert(results.drop_last()[k] == results[k]);
        lemma_kept(results.drop_last(), k);
        let i = choose|i: int| 0 <= i < before.len() && before[i] == record;
        assert(all[i] == record);
    }
}

/// Nothing but a PDF is ever remembered or answered: any other body fails.
pub proof fn law_only_pdfs_are_accepted(article: ArticleView, bytes: Seq<u8>)
    ensures
        after_pdf(article, Ok(bytes)) is Store <==> is_pdf(bytes),
        !is_pdf(bytes) ==> after_pdf(article, Ok(bytes)) == common::ComputeStepView::<
            ArticleView,
        >::Finished(Err(not_a_pdf(article.pmcid))),
{
}

/// The resolution of a record, where `search` gives the results, or the error,
/// behind each search address, and `upstream` the body behind each other one.
pub open spec fn resolution(
    plugin: PubmedPlugin,
    record_id: Seq<char>,
    cached: Result<Option<Seq<char>>, types::GatewayErrorView>,
    search: spec_fn(Seq<char>) -> Result<Seq<ResultView>, types::GatewayErrorView>,
    upstream: spec_fn(Seq<char>) -> Result<Seq<u8>, types::GatewayErrorView>,
) -> common::Resolution {
    let lookup_url = entry_address(plugin.search_base@, record_id);
    match common::compute_begin::<ArticleView>("pubmed"@, plugin.cache_open, cached, lookup_url) {
        common::ComputeStepView::FetchEntry { url } => match after_lookup(
            plugin.pdf_base@,
            search(url),
        ) {
            common::ComputeStepView::FetchPdf { url, entry } => common::ended(
                after_pdf(entry, upstream(url)),
            ),
            step => common::ended(step),
        },
        step => common::ended(step),
    }
}

/// A resolution succeeds with one outcome or fails with an error, never with an
/// empty success, and it remembers only the hash of a PDF that it fetched. A
/// failed lookup is the answer; a hash that is cached is the answer without any
/// request.
pub proof fn law_resolution_is_sound(
    plugin: PubmedPlugin,
    record_id: Seq<char>,
    cached: Result<Option<Seq<char>>, types::GatewayErrorView>,
    search: spec_fn(Seq<char>) -> Result<Seq<ResultView>, types::GatewayErrorView>,
    upstream: spec_fn(Seq<char>) -> Result<Seq<u8>, types::GatewayErrorView>,
    error: types::GatewayErrorView,
    hash: Seq<char>,
)
    ensures
        common::sound_resolution(resolution(plugin, record_id, cached, search, upstream)),
        resolution(plugin, record_id, cached, search, upstream).remembered is Some ==> is_pdf(
            resolution(plugin, record_id, cached, search, upstream).answer->Ok_0[0].bytes->0,
        ),
        plugin.cache_open && cached == Ok::<Option<Seq<char>>, types::GatewayErrorView>(None)
            && search(entry_address(plugin.search_base@, record_id)) == Err::<
            Seq<ResultView>,
            types::GatewayErrorView,
        >(error) ==> resolution(plugin, record_id, cached, search, upstream)
            == (common::Resolution { answer: Err(error), remembered: None }),
        plugin.cache_open && cached == Ok::<Option<Seq<char>>, types::GatewayErrorView>(Some(hash))
            ==> resolution(plugin, record_id, cached, search, upstream) == (common::Resolution {
            answer: Ok(seq![common::remembered_outcome(hash)]),
            remembered: None,
        }),
{
}

/// A failed request fails the resolution with that very error.
pub proof fn law_failures_are_passed_on(
    pdf_base: Seq<char>,
    article: ArticleView,
    error: types::GatewayErrorView,
)
    ensures
        after_lookup(pdf_base, Err(error)) == common::ComputeStepView::<ArticleView>::Finished(
            Err(error),
        ),
        after_pdf(article, Err(error)) == common::ComputeStepView::<ArticleView>::Finished(
            Err(error),
        ),
{
}

/// A record that a search returned is looked up, and its PDF asked for, under
/// its own id.
pub proof fn law_record_id_is_used_verbatim(
    pdf_base: Seq<char>,
    r: ResultView,
    pmcid: Seq<char>,
)
    requires
        r.pmcid == Some(pmcid),
    ensures
        after_lookup(pdf_base, Ok(seq![r])) == (common::ComputeStepView::FetchPdf {
            url: text::without_trailing(pdf_base, '/') + "/articles/"@ + pmcid + "?pdf=render"@,
            entry: ArticleView { result: r, pmcid },
        }),
        result_record(r, pmcid).record_id == pmcid,
{
}

} // verus!
