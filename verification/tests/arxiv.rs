//! The arXiv plugin: its feed parser, its records and its requests.
use paper_feeder::arxiv::{
    entries_of_tokens, finish_field, into_discovery_record, normalize_whitespace,
    parse_arxiv_feed, records_of_feed, rewrite_host, strip_abs_prefix, ArxivEntry, ArxivPlugin,
    TextField,
};
use paper_feeder::common::{map_status, transport_failure, ComputeStep};
use paper_feeder::hash::compute_ipfs_cid;
use paper_feeder::query::GatewayQuery;
use paper_feeder::types::{
    ConfigError, GatewayError, HashKind, HashOutcome, PluginHealth,
};
use paper_feeder::xml::{local_name, XmlToken};

const SAMPLE_FEED: &str = r#"<?xml version="1.0" encoding="UTF-8"?>
<feed xmlns="http://www.w3.org/2005/Atom" xmlns:arxiv="http://arxiv.org/schemas/atom">
  <title>ArXiv Query: search_query=all:test</title>
  <updated>2026-01-01T00:00:00Z</updated>
  <entry>
    <id>http://arxiv.org/abs/2106.07447v1</id>
    <updated>2021-06-15T18:00:00Z</updated>
    <published>2021-06-14T17:46:43Z</published>
    <title>HuBERT: Self-Supervised Speech Representation Learning</title>
    <summary>We propose a self-supervised approach. The model learns from data.</summary>
    <author><name>Wei-Ning Hsu</name></author>
    <author><name>Benjamin Bolte</name></author>
    <arxiv:primary_category term="cs.CL" scheme="http://arxiv.org/schemas/atom"/>
    <category term="cs.CL" scheme="http://arxiv.org/schemas/atom"/>
    <category term="cs.SD" scheme="http://arxiv.org/schemas/atom"/>
    <link href="http://arxiv.org/abs/2106.07447v1" rel="alternate" type="text/html"/>
    <link title="pdf" href="http://arxiv.org/pdf/2106.07447v1.pdf" rel="related" type="application/pdf"/>
  </entry>
  <entry>
    <id>http://arxiv.org/abs/1706.03762v5</id>
    <title>Attention Is All You Need</title>
    <summary>The dominant sequence transduction models are based on RNNs.</summary>
    <author><name>Ashish Vaswani</name></author>
    <author><name>Noam Shazeer</name></author>
    <published>2017-06-12T17:57:34Z</published>
    <arxiv:primary_category term="cs.CL" scheme="http://arxiv.org/schemas/atom"/>
    <category term="cs.CL" scheme="http://arxiv.org/schemas/atom"/>
    <link href="http://arxiv.org/abs/1706.03762v5" rel="alternate" type="text/html"/>
    <link title="pdf" href="http://arxiv.org/pdf/1706.03762v5.pdf" rel="related" type="application/pdf"/>
  </entry>
</feed>"#;

const SINGLE_FEED: &str = r#"<?xml version="1.0" encoding="UTF-8"?>
<feed xmlns="http://www.w3.org/2005/Atom" xmlns:arxiv="http://arxiv.org/schemas/atom">
  <entry>
    <id>http://arxiv.org/abs/2106.07447v1</id>
    <title>HuBERT</title>
    <published>2021-06-14T17:46:43Z</published>
    <author><name>Author One</name></author>
    <arxiv:primary_category term="cs.CL" scheme="http://arxiv.org/schemas/atom"/>
    <category term="cs.CL" scheme="http://arxiv.org/schemas/atom"/>
    <link href="http://arxiv.org/abs/2106.07447v1" rel="alternate" type="text/html"/>
    <link title="pdf" href="http://arxiv.org/pdf/2106.07447v1.pdf" rel="related" type="application/pdf"/>
  </entry>
</feed>"#;

const HOST: &str = "http://mirror.example";

fn configured() -> ArxivPlugin {
    let mut plugin = ArxivPlugin::with_base_url(HOST.to_string());
    plugin.configure(Ok(())).expect("configure");
    plugin
}

/// Resolves a record, with `serve` in the place of the upstream. Returns the
/// answer and the hash that was remembered.
fn resolve(
    plugin: &ArxivPlugin,
    record_id: &str,
    cached: Option<&str>,
    serve: fn(&str) -> Result<Vec<u8>, GatewayError>,
) -> (Result<Vec<HashOutcome>, GatewayError>, Option<String>) {
    let mut step = plugin.compute_outcomes(record_id, Ok(cached.map(str::to_string)));
    loop {
        step = match step {
            ComputeStep::FetchEntry { url } => plugin.entry_fetched(record_id, serve(&url)),
            ComputeStep::FetchPdf { url, entry } => plugin.pdf_fetched(entry, serve(&url)),
            ComputeStep::Store { hash, outcomes } => return (Ok(outcomes), Some(hash)),
            ComputeStep::Finished(answer) => return (answer, None),
        };
    }
}

#[test]
fn parses_atom_feed_into_entries() {
    let entries = parse_arxiv_feed(SAMPLE_FEED.as_bytes()).expect("parse");
    assert_eq!(entries.len(), 2);

    let e0 = &entries[0];
    assert_eq!(e0.record_id, "2106.07447v1");
    assert_eq!(
        e0.title.as_deref(),
        Some("HuBERT: Self-Supervised Speech Representation Learning")
    );
    assert_eq!(e0.authors, vec!["Wei-Ning Hsu", "Benjamin Bolte"]);
    assert_eq!(e0.categories, vec!["cs.CL", "cs.SD"]);
    assert_eq!(e0.primary_category.as_deref(), Some("cs.CL"));
    assert_eq!(e0.published.as_deref(), Some("2021-06-14T17:46:43Z"));
    assert_eq!(
        e0.pdf_link.as_deref(),
        Some("http://arxiv.org/pdf/2106.07447v1.pdf")
    );

    let e1 = &entries[1];
    assert_eq!(e1.record_id, "1706.03762v5");
    assert_eq!(e1.authors, vec!["Ashish Vaswani", "Noam Shazeer"]);
}

#[test]
fn arxiv_into_discovery_record_emits_required_fields() {
    let entries = parse_arxiv_feed(SAMPLE_FEED.as_bytes()).expect("parse");
    let rec = into_discovery_record(entries.into_iter().next().unwrap());
    assert_eq!(rec.upstream_id, "arxiv");
    assert_eq!(rec.record_id, "2106.07447v1");
    assert_eq!(
        rec.fields.get("fileType").map(String::as_str),
        Some("document")
    );
    assert_eq!(
        rec.fields.get("contentKind").map(String::as_str),
        Some("paper")
    );
    assert_eq!(rec.fields.get("format").map(String::as_str), Some("pdf"));
    assert_eq!(
        rec.fields.get("sourceUrl").map(String::as_str),
        Some("https://arxiv.org/abs/2106.07447v1")
    );
    assert_eq!(
        rec.fields.get("fileName").map(String::as_str),
        Some("arxiv-2106.07447v1.pdf")
    );
    assert_eq!(
        rec.fields.get("arxivid").map(String::as_str),
        Some("2106.07447v1")
    );
    assert_eq!(rec.fields.get("year").map(String::as_str), Some("2021"));
    assert_eq!(
        rec.fields.get("author").map(String::as_str),
        Some("Wei-Ning Hsu, Benjamin Bolte")
    );
    assert_eq!(
        rec.fields.get("categories").map(String::as_str),
        Some("cs.CL, cs.SD")
    );
}

#[test]
fn strip_abs_prefix_accepts_both_schemes() {
    assert_eq!(
        strip_abs_prefix("http://arxiv.org/abs/2106.07447v1"),
        "2106.07447v1"
    );
    assert_eq!(
        strip_abs_prefix("https://arxiv.org/abs/2106.07447"),
        "2106.07447"
    );
    assert_eq!(strip_abs_prefix("https://export.arxiv.org/abs/foo"), "foo");
    assert_eq!(strip_abs_prefix("not-an-arxiv-url"), "not-an-arxiv-url");
}

#[test]
fn rewrite_host_swaps_authority() {
    assert_eq!(
        rewrite_host(
            "http://arxiv.org/pdf/2106.07447v1.pdf",
            "https://export.arxiv.org"
        ),
        Some("https://export.arxiv.org/pdf/2106.07447v1.pdf".to_string())
    );
    assert_eq!(rewrite_host("not-a-url", "https://example.com"), None);
}

#[test]
fn normalize_whitespace_collapses_runs() {
    assert_eq!(
        normalize_whitespace("  Hello\n  world\t!  "),
        "Hello world !"
    );
}

#[test]
fn handle_query_maps_atom_response_to_discovery_records() {
    let plugin = configured();
    let url = plugin
        .handle_query(&GatewayQuery::from_free_text("test"), 10)
        .expect("a paper search goes upstream");
    assert_eq!(
        url,
        "http://mirror.example/api/query?search_query=all:test&start=0&max_results=10"
    );
    let records = plugin
        .query_answered(Ok(SAMPLE_FEED.as_bytes().to_vec()), 10)
        .expect("handle_query");
    assert_eq!(records.len(), 2);
    assert_eq!(records[0].record_id, "2106.07447v1");
    assert_eq!(
        records[0].fields.get("arxivid").map(String::as_str),
        Some("2106.07447v1")
    );
}

#[test]
fn arxiv_handle_query_truncates_to_max_results() {
    let plugin = configured();
    let records = plugin
        .query_answered(Ok(SAMPLE_FEED.as_bytes().to_vec()), 1)
        .expect("handle_query");
    assert_eq!(records.len(), 1);
    let none = plugin
        .query_answered(Ok(SAMPLE_FEED.as_bytes().to_vec()), 0)
        .expect("handle_query");
    assert_eq!(none.len(), 0);
}

#[test]
fn arxiv_compute_outcomes_fetches_pdf_and_caches() {
    fn serve(url: &str) -> Result<Vec<u8>, GatewayError> {
        match url {
            "http://mirror.example/api/query?id_list=2106.07447v1" => {
                Ok(SINGLE_FEED.as_bytes().to_vec())
            }
            "http://mirror.example/pdf/2106.07447v1.pdf" => {
                Ok(b"%PDF-1.4 fake pdf body for hashing\n".to_vec())
            }
            other => panic!("unexpected request: {other}"),
        }
    }
    let pdf_bytes = b"%PDF-1.4 fake pdf body for hashing\n".to_vec();
    let expected_cid = compute_ipfs_cid(&pdf_bytes);
    assert_eq!(
        expected_cid,
        "bafkreidvh2zknq4s6o5uy4wdxwg4nx5bdwdmlrkkcuzknlos3a7in2ssjm"
    );
    let plugin = configured();
    let (answer, stored) = resolve(&plugin, "2106.07447v1", None, serve);
    let outcomes = answer.expect("compute");
    assert_eq!(stored.as_deref(), Some(expected_cid.as_str()));
    assert_eq!(outcomes.len(), 1, "arxiv is single-outcome");
    let outcome = &outcomes[0];
    assert_eq!(outcome.hash.as_str(), expected_cid);
    assert_eq!(outcome.hash_kind, HashKind::Sha2_256);
    assert_eq!(outcome.bytes.as_deref(), Some(pdf_bytes.as_slice()));
    assert_eq!(outcome.file_extension.as_deref(), Some("pdf"));
    let rec = outcome
        .record
        .as_ref()
        .expect("record present on fresh compute");
    assert_eq!(rec.record_id, "2106.07447v1");
    assert_eq!(
        rec.fields.get("primaryCategory").map(String::as_str),
        Some("cs.CL")
    );
}

#[test]
fn arxiv_compute_outcomes_cache_hit_skips_http() {
    fn serve(url: &str) -> Result<Vec<u8>, GatewayError> {
        panic!("unexpected request: {url}")
    }
    let plugin = configured();
    let (answer, stored) = resolve(&plugin, "2106.07447v1", Some("bafyCACHED"), serve);
    let outcomes = answer.expect("cache hit");
    assert!(stored.is_none());
    assert_eq!(outcomes.len(), 1);
    let outcome = &outcomes[0];
    assert_eq!(outcome.hash.as_str(), "bafyCACHED");
    assert!(outcome.bytes.is_none());
    assert!(outcome.record.is_none());
}

#[test]
fn arxiv_upstream_404_maps_to_not_found() {
    fn serve(_url: &str) -> Result<Vec<u8>, GatewayError> {
        map_status(404, 60).map(|_| Vec::new())
    }
    let plugin = configured();
    let (answer, _) = resolve(&plugin, "does-not-exist", None, serve);
    let err = answer.expect_err("expected NotFound (Err, not Ok(vec![]))");
    assert!(matches!(err, GatewayError::NotFound), "got {err:?}");
}

#[test]
fn a_feed_without_entries_is_not_found() {
    fn serve(_url: &str) -> Result<Vec<u8>, GatewayError> {
        Ok(b"<feed></feed>".to_vec())
    }
    let plugin = configured();
    let (answer, stored) = resolve(&plugin, "2106.07447v1", None, serve);
    assert_eq!(answer, Err(GatewayError::NotFound));
    assert!(stored.is_none());
}

#[test]
fn a_failed_pdf_download_is_an_error() {
    fn serve(url: &str) -> Result<Vec<u8>, GatewayError> {
        if url.contains("/api/query") {
            Ok(SINGLE_FEED.as_bytes().to_vec())
        } else {
            Err(transport_failure(url, "connection reset"))
        }
    }
    let plugin = configured();
    let (answer, stored) = resolve(&plugin, "2106.07447v1", None, serve);
    assert_eq!(
        answer,
        Err(GatewayError::Transient(
            "GET http://mirror.example/pdf/2106.07447v1.pdf: connection reset".to_string()
        ))
    );
    assert!(stored.is_none());
}

#[test]
fn a_broken_feed_is_a_permanent_error() {
    let plugin = configured();
    let broken = b"<feed><entry></feed>".to_vec();
    match plugin.query_answered(Ok(broken.clone()), 5) {
        Err(GatewayError::Permanent(message)) => {
            assert!(message.starts_with("parse arxiv atom search response: "));
            assert!(message.len() > "parse arxiv atom search response: ".len());
        }
        other => panic!("got {other:?}"),
    }
    match plugin.entry_fetched("1234.5678", Ok(broken)) {
        ComputeStep::Finished(Err(GatewayError::Permanent(message))) => {
            assert!(message.starts_with("parse arxiv atom for 1234.5678: "));
        }
        other => panic!("got {other:?}"),
    }
}

#[test]
fn an_unconfigured_arxiv_plugin_says_so() {
    let plugin = ArxivPlugin::new();
    assert_eq!(plugin.base_url, "https://export.arxiv.org");
    assert_eq!(
        plugin.health(),
        PluginHealth::Degraded {
            reason: "configure() not yet called".to_string()
        }
    );
    match plugin.compute_outcomes("x", Ok(None)) {
        ComputeStep::Finished(Err(GatewayError::Internal(message))) => {
            assert_eq!(message, "arxiv: configure() not yet called")
        }
        other => panic!("got {other:?}"),
    }
    assert_eq!(configured().health(), PluginHealth::Healthy);
    assert_eq!(ArxivPlugin::default().upstream_id(), "arxiv");
}

#[test]
fn a_cache_that_cannot_be_opened_leaves_arxiv_unconfigured() {
    let mut plugin = ArxivPlugin::new();
    let refused = plugin.configure(Err(ConfigError::Other("no cache".to_string())));
    assert_eq!(refused, Err(ConfigError::Other("no cache".to_string())));
    assert!(!plugin.cache_open);
}

#[test]
fn a_filter_for_something_else_never_reaches_arxiv() {
    let plugin = configured();
    let mut query = GatewayQuery::from_free_text("test");
    query.filters.insert("fileType".to_string(), "image".to_string());
    assert_eq!(plugin.handle_query(&query, 10), None);
    let mut query = GatewayQuery::from_free_text("test");
    query.filters.insert("contentKind".to_string(), "movie".to_string());
    assert_eq!(plugin.handle_query(&query, 10), None);
    let mut query = GatewayQuery::from_free_text("");
    query.filters.insert("fileType".to_string(), "document".to_string());
    query.filters.insert("contentKind".to_string(), "paper".to_string());
    assert_eq!(
        plugin.handle_query(&query, 3),
        Some(
            "http://mirror.example/api/query?search_query=all:%2A&start=0&max_results=3"
                .to_string()
        )
    );
    assert_eq!(plugin.served_file_types(), vec!["document"]);
    assert_eq!(plugin.served_content_kinds(), vec!["paper"]);
}

#[test]
fn addresses_of_a_base_with_trailing_slashes() {
    let plugin = ArxivPlugin::with_base_url("http://host//".to_string());
    assert_eq!(
        plugin.search_url("deep learning & more", 25),
        "http://host/api/query?search_query=all:deep%20learning%20%26%20more&start=0&max_results=25"
    );
    assert_eq!(
        plugin.entry_url("hep-th/9901001"),
        "http://host/api/query?id_list=hep-th%2F9901001"
    );
}

#[test]
fn pdf_address_prefers_the_link_and_falls_back_to_the_id() {
    let plugin = ArxivPlugin::with_base_url("https://export.arxiv.org/".to_string());
    let mut entry = ArxivEntry::default();
    assert_eq!(
        plugin.pdf_url_for(&entry, "2106.07447v1"),
        "https://export.arxiv.org/pdf/2106.07447v1.pdf"
    );
    entry.pdf_link = Some("http://arxiv.org/pdf/2106.07447v3".to_string());
    assert_eq!(
        plugin.pdf_url_for(&entry, "2106.07447v1"),
        "https://export.arxiv.org/pdf/2106.07447v3"
    );
    entry.pdf_link = Some("ftp://arxiv.org/pdf/x".to_string());
    assert_eq!(
        plugin.pdf_url_for(&entry, "2106.07447v1"),
        "https://export.arxiv.org/pdf/2106.07447v1.pdf"
    );
}

#[test]
fn a_pdf_link_on_the_configured_host_is_left_as_it_is() {
    let url = |base: &str, link: &str| {
        let entry = ArxivEntry {
            pdf_link: Some(link.to_string()),
            ..ArxivEntry::default()
        };
        ArxivPlugin::with_base_url(base.to_string()).pdf_url_for(&entry, "1v1")
    };
    assert_eq!(
        url("http://m.org/arxiv", "http://m.org/arxiv/pdf/1v1.pdf"),
        "http://m.org/arxiv/pdf/1v1.pdf"
    );
    assert_eq!(
        url("http://m.org/arxiv/", " http://m.org/other/1v1.pdf\n"),
        "http://m.org/other/1v1.pdf"
    );
    // Another scheme is another address.
    assert_eq!(
        url("https://m.org", "http://m.org/pdf/x.pdf"),
        "https://m.org/pdf/x.pdf"
    );
    // A link without a path is of no use, wherever it points.
    assert_eq!(url("http://m.org", "http://m.org"), "http://m.org/pdf/1v1.pdf");
    assert_eq!(url("https://m.org/a", "https://m.org/b/c"), "https://m.org/b/c");
    assert_eq!(
        url("http://m.org/arxiv", "http://arxiv.org/pdf/1v1.pdf"),
        "http://m.org/arxiv/pdf/1v1.pdf"
    );
    assert_eq!(
        url("http://m.org:8080", "http://m.org/pdf/1v1.pdf"),
        "http://m.org:8080/pdf/1v1.pdf"
    );
    assert_eq!(url("http://m.org", "http://arxiv.org"), "http://m.org/pdf/1v1.pdf");
}

#[test]
fn entries_are_read_one_by_one_whatever_stands_between_them() {
    let blocks = [
        "<entry><id>http://arxiv.org/abs/1</id><title>One</title><author><name>A</name></author></entry>",
        "<entry></entry>",
        "<entry><summary>Three</summary><x><title>in x</title></x><category term=\"c\"/></entry>",
        "<entry><id>http://arxiv.org/abs/1</id><title>One</title><author><name>A</name></author></entry>",
    ];
    let between = [
        "<title>Feed</title><id>f</id>",
        "",
        "<author><name>Nobody</name></author>",
        "<link title=\"pdf\" href=\"http://f/x\"/><category term=\"f\"/>stray text",
        "<published>2020</published>",
    ];
    let mut feed = format!("<feed>{}", between[0]);
    for (block, gap) in blocks.iter().zip(&between[1..]) {
        feed.push_str(block);
        feed.push_str(gap);
    }
    feed.push_str("</feed>");
    let all = parse_arxiv_feed(feed.as_bytes()).expect("parse");
    assert_eq!(all.len(), blocks.len());
    for (entry, block) in all.iter().zip(blocks) {
        let alone = parse_arxiv_feed(format!("<feed>{block}</feed>").as_bytes()).expect("parse");
        assert_eq!(alone.len(), 1);
        assert_eq!(format!("{entry:?}"), format!("{:?}", alone[0]));
    }
    assert_eq!(all[2].title.as_deref(), Some("in x"));
}

#[test]
fn rewriting_a_host_keeps_the_path() {
    assert_eq!(
        rewrite_host("  https://a.b/x/y?q=1#f ", "http://c//"),
        Some("http://c/x/y?q=1#f".to_string())
    );
    assert_eq!(rewrite_host("http://a.b", "http://c"), None);
    assert_eq!(rewrite_host("http:///x", "http://c"), Some("http://c/x".to_string()));
    let once = rewrite_host("http://a.b/x", "https://c").unwrap();
    assert_eq!(rewrite_host(&once, "https://c"), Some(once.clone()));
}

#[test]
fn abs_addresses_with_whitespace_around_them() {
    assert_eq!(strip_abs_prefix(" \n http://export.arxiv.org/abs/9901001 \t"), "9901001");
    assert_eq!(strip_abs_prefix("http://arxiv.org/abs/"), "");
    // Anything else comes back verbatim.
    assert_eq!(strip_abs_prefix("  spaced  "), "  spaced  ");
}

#[test]
fn normalizing_twice_changes_nothing() {
    for raw in ["", "   ", "a", " a\u{2003}b\u{a0}c\r\n", "one  two\tthree"] {
        let once = normalize_whitespace(raw);
        assert_eq!(normalize_whitespace(&once), once);
        assert_eq!(
            once.split_whitespace().collect::<Vec<_>>(),
            raw.split_whitespace().collect::<Vec<_>>()
        );
    }
}

#[test]
fn text_in_pieces_and_references_is_put_together() {
    let xml = "<feed><entry><id>x</id><title> Foo &amp; <b/> Bar &#65;\n baz </title>\
               <author><name> </name></author><author><name>A &lt;B&gt;</name></author>\
               </entry></feed>";
    let entries = parse_arxiv_feed(xml.as_bytes()).expect("parse");
    assert_eq!(entries.len(), 1);
    // The whitespace at the ends of a piece of text is left out.
    assert_eq!(entries[0].title.as_deref(), Some("Foo &Bar A baz"));
    assert_eq!(entries[0].authors, vec!["A <B>"]);
    assert_eq!(entries[0].record_id, "x");
}

#[test]
fn a_text_with_an_unknown_reference_is_left_out() {
    let xml = "<feed><entry><title>one &nosuch; two</title></entry></feed>";
    let entries = parse_arxiv_feed(xml.as_bytes()).expect("parse");
    assert_eq!(entries[0].title.as_deref(), Some(""));
}

#[test]
fn names_outside_of_authors_and_entries_do_not_count() {
    let xml = "<feed><title>Feed</title><author><name>Nobody</name></author>\
               <entry><name>Not an author</name><title>T</title></entry></feed>";
    let entries = parse_arxiv_feed(xml.as_bytes()).expect("parse");
    assert_eq!(entries.len(), 1);
    assert_eq!(entries[0].title.as_deref(), Some("T"));
    assert!(entries[0].authors.is_empty());
}

#[test]
fn one_entry_for_each_end_tag() {
    let end = || XmlToken::End { name: b"atom:entry".to_vec() };
    let start = || XmlToken::Start { name: b"entry".to_vec() };
    let tokens = vec![end(), start(), XmlToken::Other, end(), end()];
    assert_eq!(entries_of_tokens(&tokens).len(), 3);
    assert!(entries_of_tokens(&Vec::new()).is_empty());
}

#[test]
fn bytes_that_are_not_utf8_are_no_name_and_no_text() {
    assert_eq!(local_name(b"arxiv:primary_category"), "primary_category");
    assert_eq!(local_name(b"a:b:c"), "c");
    assert_eq!(local_name(b"entry"), "entry");
    assert_eq!(local_name(&[0xff, 0xfe]), "");
    let tokens = vec![
        XmlToken::Start { name: b"entry".to_vec() },
        XmlToken::Start { name: b"title".to_vec() },
        XmlToken::Text { raw: vec![0x61, 0xff] },
        XmlToken::Text { raw: b"b".to_vec() },
        XmlToken::End { name: b"title".to_vec() },
        XmlToken::Empty {
            name: b"link".to_vec(),
            attributes: vec![
                None,
                Some((b"x:title".to_vec(), b"pdf".to_vec())),
                Some((b"href".to_vec(), b"http://a/b".to_vec())),
            ],
        },
        XmlToken::End { name: b"entry".to_vec() },
    ];
    let entries = entries_of_tokens(&tokens);
    assert_eq!(entries[0].title.as_deref(), Some("b"));
    assert_eq!(entries[0].pdf_link.as_deref(), Some("http://a/b"));
}

#[test]
fn a_link_needs_its_title_and_its_address() {
    let xml = "<feed><entry><link title=\"doi\" href=\"http://d/x\"/><link title=\"pdf\"/>\
               <category scheme=\"s\"/></entry></feed>";
    let entries = parse_arxiv_feed(xml.as_bytes()).expect("parse");
    assert_eq!(entries[0].pdf_link, None);
    assert!(entries[0].categories.is_empty());
}

#[test]
fn a_year_is_four_digits() {
    let year = |published: &str| {
        let entry = ArxivEntry {
            published: Some(published.to_string()),
            ..ArxivEntry::default()
        };
        into_discovery_record(entry).fields.get("year").cloned()
    };
    assert_eq!(year("2021-06-14T17:46:43Z"), Some("2021".to_string()));
    assert_eq!(year("1999"), Some("1999".to_string()));
    assert_eq!(year("199"), None);
    assert_eq!(year("19x9-01"), None);
    assert_eq!(year("199\u{e9}"), None);
}

#[test]
fn a_bare_entry_has_the_fixed_fields_only() {
    let record = into_discovery_record(ArxivEntry::default());
    let keys: Vec<&str> = record.fields.entries().iter().map(|e| e.0.as_str()).collect();
    assert_eq!(
        keys,
        vec!["arxivid", "contentKind", "fileName", "fileType", "format", "sourceUrl"]
    );
}

#[test]
fn leaving_a_field_drops_its_text() {
    let mut field = TextField::Title;
    let mut buf = "collected".to_string();
    finish_field(&mut field, &mut buf);
    assert!(matches!(field, TextField::Outside));
    assert_eq!(buf, "");
}

#[test]
fn records_keep_the_order_of_the_feed() {
    let records = records_of_feed(parse_arxiv_feed(SAMPLE_FEED.as_bytes()), 10).unwrap();
    let ids: Vec<&str> = records.iter().map(|r| r.record_id.as_str()).collect();
    assert_eq!(ids, vec!["2106.07447v1", "1706.03762v5"]);
}

#[test]
fn a_cache_that_cannot_be_read_fails_the_resolution() {
    let plugin = configured();
    match plugin.compute_outcomes("x", Err(GatewayError::Internal("redb".to_string()))) {
        ComputeStep::Finished(Err(e)) => assert_eq!(e, GatewayError::Internal("redb".to_string())),
        other => panic!("got {other:?}"),
    }
}

#[test]
fn versions_are_looked_up_and_hashed_apart() {
    let plugin = configured();
    assert_ne!(plugin.entry_url("2106.07447v1"), plugin.entry_url("2106.07447v2"));
    assert_ne!(compute_ipfs_cid(b"%PDF v1"), compute_ipfs_cid(b"%PDF v2"));
    let bare = ArxivEntry::default();
    assert_eq!(
        plugin.pdf_url_for(&bare, "2106.07447v2"),
        "http://mirror.example/pdf/2106.07447v2.pdf"
    );
}

#[test]
fn a_second_resolution_gives_the_same_hash() {
    fn serve(url: &str) -> Result<Vec<u8>, GatewayError> {
        if url.contains("/api/query") {
            Ok(SINGLE_FEED.as_bytes().to_vec())
        } else {
            Ok(b"%PDF".to_vec())
        }
    }
    fn offline(url: &str) -> Result<Vec<u8>, GatewayError> {
        panic!("unexpected request: {url}")
    }
    let plugin = configured();
    let (first, stored) = resolve(&plugin, "2106.07447v1", None, serve);
    let (second, again) = resolve(&plugin, "2106.07447v1", stored.as_deref(), offline);
    assert_eq!(first.unwrap()[0].hash, second.unwrap()[0].hash);
    assert!(again.is_none());
}

#[test]
fn a_feed_with_prefixed_tags_reads_the_same() {
    let plain = "<feed><entry><id>http://arxiv.org/abs/1</id><title>T</title>\
                 <author><name>A</name></author><category term=\"c\"/></entry></feed>";
    let prefixed = plain
        .replace("<", "<a:")
        .replace("<a:/", "</a:");
    let x = parse_arxiv_feed(plain.as_bytes()).expect("parse");
    let y = parse_arxiv_feed(prefixed.as_bytes()).expect("parse");
    assert_eq!(x.len(), 1);
    assert_eq!(x[0].record_id, "1");
    assert_eq!(x[0].record_id, y[0].record_id);
    assert_eq!(x[0].title, y[0].title);
    assert_eq!(x[0].authors, y[0].authors);
    assert_eq!(x[0].categories, y[0].categories);
}
