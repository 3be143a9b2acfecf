//! The PubMed plugin: its search results, its records and its requests.
use paper_feeder::common::{map_status, ComputeStep};
use paper_feeder::hash::compute_ipfs_cid;
use paper_feeder::pubmed::{
    decode_failure, has_pdf_magic, into_discovery_record, records_of_results, EuropePmcResult,
    EuropePmcResultList, EuropePmcSearchResponse, PubmedPlugin,
};
use paper_feeder::query::GatewayQuery;
use paper_feeder::types::{ConfigError, GatewayError, HashKind, HashOutcome, PluginHealth};

const SAMPLE_SEARCH: &str = r#"{
      "hitCount": 2,
      "request": {},
      "resultList": {
        "result": [
          {
            "id": "12345678",
            "source": "MED",
            "pmid": "12345678",
            "pmcid": "PMC2868305",
            "doi": "10.1371/journal.pone.0010068",
            "title": "Discovery of a new species",
            "authorString": "Smith J, Doe J",
            "journalTitle": "PLoS One",
            "pubYear": "2010",
            "abstractText": "We describe a new species discovered in...",
            "isOpenAccess": "Y"
          },
          {
            "id": "98765432",
            "source": "MED",
            "pmid": "98765432",
            "title": "Closed-access paper",
            "authorString": "Other A",
            "journalTitle": "Some Journal",
            "pubYear": "2018",
            "isOpenAccess": "N"
          }
        ]
      }
    }"#;

const HOST: &str = "http://mirror.example";

/// Reads the fields of a search answer that the plugin uses.
fn read_response(json: &str) -> EuropePmcSearchResponse {
    let value: serde_json::Value = serde_json::from_str(json).expect("parse");
    let text = |v: &serde_json::Value, key: &str| v[key].as_str().map(str::to_string);
    let result = value["resultList"]["result"]
        .as_array()
        .expect("a list of results")
        .iter()
        .map(|v| EuropePmcResult {
            pmid: text(v, "pmid"),
            pmcid: text(v, "pmcid"),
            doi: text(v, "doi"),
            title: text(v, "title"),
            author_string: text(v, "authorString"),
            journal_title: text(v, "journalTitle"),
            pub_year: text(v, "pubYear"),
            abstract_text: text(v, "abstractText"),
            is_open_access: text(v, "isOpenAccess"),
        })
        .collect();
    EuropePmcSearchResponse {
        result_list: EuropePmcResultList { result },
    }
}

fn configured() -> PubmedPlugin {
    let mut plugin = PubmedPlugin::with_base_url(HOST.to_string());
    plugin.configure(Ok(())).expect("configure");
    plugin
}

/// Resolves a record, with `lookup` and `serve` in the place of the upstream.
/// Returns the answer and the hash that was remembered.
fn resolve(
    plugin: &PubmedPlugin,
    record_id: &str,
    cached: Option<&str>,
    lookup: fn(&str) -> Result<EuropePmcSearchResponse, GatewayError>,
    serve: fn(&str) -> Result<Vec<u8>, GatewayError>,
) -> (Result<Vec<HashOutcome>, GatewayError>, Option<String>) {
    let mut step = plugin.compute_outcomes(record_id, Ok(cached.map(str::to_string)));
    loop {
        step = match step {
            ComputeStep::FetchEntry { url } => plugin.entry_fetched(lookup(&url)),
            ComputeStep::FetchPdf { url, entry } => plugin.pdf_fetched(entry, serve(&url)),
            ComputeStep::Store { hash, outcomes } => return (Ok(outcomes), Some(hash)),
            ComputeStep::Finished(answer) => return (answer, None),
        };
    }
}

fn sample_lookup(url: &str) -> Result<EuropePmcSearchResponse, GatewayError> {
    assert_eq!(
        url,
        "http://mirror.example/search?query=PMCID%3APMC2868305&format=json&pageSize=1&resultType=lite"
    );
    Ok(read_response(SAMPLE_SEARCH))
}

fn no_pdf(url: &str) -> Result<Vec<u8>, GatewayError> {
    panic!("unexpected request: {url}")
}

#[test]
fn pubmed_into_discovery_record_emits_required_fields() {
    let body = read_response(SAMPLE_SEARCH);
    let r0 = body.result_list.result.into_iter().next().unwrap();
    let pmcid = r0.pmcid.clone().unwrap();
    let rec = into_discovery_record(r0, pmcid);
    assert_eq!(rec.upstream_id, "pubmed");
    assert_eq!(rec.record_id, "PMC2868305");
    assert_eq!(
        rec.fields.get("fileType").map(String::as_str),
        Some("document")
    );
    assert_eq!(
        rec.fields.get("contentKind").map(String::as_str),
        Some("paper")
    );
    assert_eq!(rec.fields.get("format").map(String::as_str), Some("pdf"));
    assert_eq!(
        rec.fields.get("sourceUrl").map(String::as_str),
        Some("https://europepmc.org/article/PMC/PMC2868305")
    );
    assert_eq!(
        rec.fields.get("fileName").map(String::as_str),
        Some("pubmed-PMC2868305.pdf")
    );
    assert_eq!(
        rec.fields.get("pubmedid").map(String::as_str),
        Some("PMC2868305")
    );
    assert_eq!(rec.fields.get("year").map(String::as_str), Some("2010"));
    assert_eq!(
        rec.fields.get("author").map(String::as_str),
        Some("Smith J, Doe J")
    );
    assert_eq!(
        rec.fields.get("journal").map(String::as_str),
        Some("PLoS One")
    );
    assert_eq!(
        rec.fields.get("doi").map(String::as_str),
        Some("10.1371/journal.pone.0010068")
    );
}

#[test]
fn handle_query_drops_non_oa_records() {
    let plugin = configured();
    let url = plugin
        .handle_query(&GatewayQuery::from_free_text("species"), 10)
        .expect("a paper search goes upstream");
    assert_eq!(
        url,
        "http://mirror.example/search?query=species&format=json&pageSize=10&resultType=lite"
    );
    let records = plugin
        .query_answered(Ok(read_response(SAMPLE_SEARCH)), 10)
        .expect("handle_query");
    assert_eq!(records.len(), 1);
    assert_eq!(records[0].record_id, "PMC2868305");
}

#[test]
fn pubmed_handle_query_truncates_to_max_results() {
    let mut results = String::new();
    for i in 0..5 {
        if i > 0 {
            results.push(',');
        }
        results.push_str(&format!(
            r#"{{ "pmcid": "PMC{i}", "title": "Paper {i}", "pubYear": "2020" }}"#,
            i = i + 100
        ));
    }
    let body = format!(r#"{{ "hitCount": 5, "resultList": {{ "result": [{results}] }} }}"#);
    let plugin = configured();
    let records = plugin
        .query_answered(Ok(read_response(&body)), 2)
        .expect("handle_query");
    assert_eq!(records.len(), 2);
    assert_eq!(records[0].record_id, "PMC100");
    assert_eq!(records[1].record_id, "PMC101");
}

#[test]
fn pubmed_compute_outcomes_fetches_pdf_and_caches() {
    fn serve(url: &str) -> Result<Vec<u8>, GatewayError> {
        assert_eq!(url, "http://mirror.example/articles/PMC2868305?pdf=render");
        Ok(b"%PDF-1.4 mock pubmed pdf\n".to_vec())
    }
    let pdf_bytes = b"%PDF-1.4 mock pubmed pdf\n".to_vec();
    let expected_cid = compute_ipfs_cid(&pdf_bytes);
    assert_eq!(
        expected_cid,
        "bafkreiev6rdcpssjpclkyqrbz4ymrnn6uv5aetym643gw3ix336mylom3a"
    );
    let plugin = configured();
    let (answer, stored) = resolve(&plugin, "PMC2868305", None, sample_lookup, serve);
    let mut outcomes = answer.expect("compute");
    assert_eq!(stored.as_deref(), Some(expected_cid.as_str()));
    assert_eq!(outcomes.len(), 1, "pubmed is single-outcome");
    let outcome = outcomes.remove(0);
    assert_eq!(outcome.hash.as_str(), expected_cid);
    assert_eq!(outcome.hash_kind, HashKind::Sha2_256);
    assert_eq!(outcome.bytes.as_deref(), Some(pdf_bytes.as_slice()));
    assert_eq!(outcome.file_extension.as_deref(), Some("pdf"));
    let rec = outcome.record.expect("record present on fresh compute");
    assert_eq!(rec.record_id, "PMC2868305");
    assert_eq!(
        rec.fields.get("doi").map(String::as_str),
        Some("10.1371/journal.pone.0010068")
    );
}

#[test]
fn pubmed_compute_outcomes_cache_hit_skips_http() {
    fn lookup(url: &str) -> Result<EuropePmcSearchResponse, GatewayError> {
        panic!("unexpected request: {url}")
    }
    let plugin = configured();
    let (answer, stored) = resolve(&plugin, "PMC2868305", Some("bafyCACHED"), lookup, no_pdf);
    let mut outcomes = answer.expect("cache hit");
    assert!(stored.is_none());
    assert_eq!(outcomes.len(), 1);
    let outcome = outcomes.remove(0);
    assert_eq!(outcome.hash.as_str(), "bafyCACHED");
    assert!(outcome.bytes.is_none());
    assert!(outcome.record.is_none());
}

#[test]
fn compute_outcomes_rejects_non_pdf_response() {
    fn serve(url: &str) -> Result<Vec<u8>, GatewayError> {
        assert_eq!(url, "http://mirror.example/articles/PMC2868305?pdf=render");
        Ok(b"<html>PDF not available</html>".to_vec())
    }
    let plugin = configured();
    let (answer, stored) = resolve(&plugin, "PMC2868305", None, sample_lookup, serve);
    let err = answer.expect_err("non-PDF");
    assert!(matches!(err, GatewayError::Permanent(_)), "got {err:?}");
    assert_eq!(
        err,
        GatewayError::Permanent(
            "europe-pmc returned non-PDF body for PMC2868305 (article may have no rendered PDF)"
                .to_string()
        )
    );
    assert!(stored.is_none());
}

#[test]
fn pubmed_upstream_404_maps_to_not_found() {
    fn lookup(_url: &str) -> Result<EuropePmcSearchResponse, GatewayError> {
        map_status(404, 60).map(|_| EuropePmcSearchResponse::default())
    }
    let plugin = configured();
    let (answer, _) = resolve(&plugin, "PMC-does-not-exist", None, lookup, no_pdf);
    let err = answer.expect_err("expected NotFound");
    assert!(matches!(err, GatewayError::NotFound), "got {err:?}");
}

#[test]
fn a_lookup_without_a_full_text_is_not_found() {
    fn empty(_url: &str) -> Result<EuropePmcSearchResponse, GatewayError> {
        Ok(EuropePmcSearchResponse::default())
    }
    fn closed(_url: &str) -> Result<EuropePmcSearchResponse, GatewayError> {
        let mut response = read_response(SAMPLE_SEARCH);
        response.result_list.result.remove(0);
        Ok(response)
    }
    let plugin = configured();
    let (answer, _) = resolve(&plugin, "PMC1", None, empty, no_pdf);
    assert_eq!(answer, Err(GatewayError::NotFound));
    let (answer, _) = resolve(&plugin, "PMC1", None, closed, no_pdf);
    assert_eq!(answer, Err(GatewayError::NotFound));
}

#[test]
fn an_answer_that_cannot_be_decoded_is_a_permanent_error() {
    let e = decode_failure("expected value at line 1");
    assert_eq!(
        e,
        GatewayError::Permanent(
            "decode europe-pmc search response: expected value at line 1".to_string()
        )
    );
    assert_eq!(configured().query_answered(Err(e.clone()), 5), Err(e));
}

#[test]
fn the_pdf_magic_is_four_bytes() {
    assert!(has_pdf_magic(&b"%PDF".to_vec()));
    assert!(has_pdf_magic(&b"%PDF-1.7 ...".to_vec()));
    assert!(!has_pdf_magic(&b"%PD".to_vec()));
    assert!(!has_pdf_magic(&b" %PDF".to_vec()));
    assert!(!has_pdf_magic(&Vec::new()));
}

#[test]
fn two_hosts_and_one_host() {
    let plugin = PubmedPlugin::new();
    assert_eq!(
        plugin.search_url("x", 1),
        "https://www.ebi.ac.uk/europepmc/webservices/rest/search?query=x&format=json&pageSize=1&resultType=lite"
    );
    assert_eq!(plugin.pdf_url("PMC7"), "https://europepmc.org/articles/PMC7?pdf=render");
    let both = PubmedPlugin::with_base_url("http://one/".to_string());
    assert_eq!(both.pdf_url("PMC7"), "http://one/articles/PMC7?pdf=render");
    let split = PubmedPlugin::with_bases("http://s".to_string(), "http://p".to_string());
    assert!(split.entry_url("PMC7").starts_with("http://s/search?query=PMCID%3APMC7&"));
    assert_eq!(split.pdf_url("PMC7"), "http://p/articles/PMC7?pdf=render");
    assert_eq!(PubmedPlugin::default().upstream_id(), "pubmed");
}

#[test]
fn an_unconfigured_pubmed_plugin_says_so() {
    let mut plugin = PubmedPlugin::new();
    assert_eq!(
        plugin.health(),
        PluginHealth::Degraded {
            reason: "configure() not yet called".to_string()
        }
    );
    match plugin.compute_outcomes("x", Ok(None)) {
        ComputeStep::Finished(Err(GatewayError::Internal(message))) => {
            assert_eq!(message, "pubmed: configure() not yet called")
        }
        other => panic!("got {other:?}"),
    }
    let refused = plugin.configure(Err(ConfigError::Other("no cache".to_string())));
    assert_eq!(refused, Err(ConfigError::Other("no cache".to_string())));
    assert!(!plugin.cache_open);
    plugin.configure(Ok(())).unwrap();
    assert_eq!(plugin.health(), PluginHealth::Healthy);
}

#[test]
fn a_filter_for_something_else_never_reaches_europe_pmc() {
    let plugin = configured();
    let mut query = GatewayQuery::from_free_text("test");
    query.filters.insert("contentKind".to_string(), "movie".to_string());
    assert_eq!(plugin.handle_query(&query, 10), None);
    assert_eq!(plugin.served_file_types(), vec!["document"]);
    assert_eq!(plugin.served_content_kinds(), vec!["paper"]);
}

#[test]
fn a_bare_result_has_the_fixed_fields_only() {
    let record = into_discovery_record(EuropePmcResult::default(), "PMC1".to_string());
    let keys: Vec<&str> = record.fields.entries().iter().map(|e| e.0.as_str()).collect();
    assert_eq!(
        keys,
        vec!["contentKind", "fileName", "fileType", "format", "pubmedid", "sourceUrl"]
    );
}

#[test]
fn the_limit_counts_full_texts_only() {
    let mut results = read_response(SAMPLE_SEARCH).result_list.result;
    results.reverse();
    let records = records_of_results(results, 1);
    assert_eq!(records.len(), 1);
    assert_eq!(records[0].record_id, "PMC2868305");
}
