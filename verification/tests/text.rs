//! The text rules that the parsers and records rest on.
use paper_feeder::common::{map_status, transport_failure, urlencode};
use paper_feeder::query::{query_accepts_plugin, GatewayQuery};
use paper_feeder::text::{
    decimal_text, is_whitespace, join, precedes, rest_after_last, same_text, split_at_char,
    split_words, strip_prefix, trim, trim_end_char,
};
use paper_feeder::text_map::TextMap;
use paper_feeder::types::{put_field, upstream_id_field, GatewayError};
use paper_feeder::xml::{collect_attrs, read_document, text_content, XmlToken};

#[test]
fn whitespace_is_what_unicode_says() {
    for code in 0..=0x10ffff_u32 {
        if let Some(c) = char::from_u32(code) {
            assert_eq!(is_whitespace(c), c.is_whitespace(), "U+{code:04X}");
        }
    }
}

#[test]
fn strings_are_handled_as_in_std() {
    for s in ["", " ", " a b ", "\u{a0}x\u{3000}", "a,b,,c", "//", "x//", "é:ß:日本", ":"] {
        assert_eq!(trim(s), s.trim());
        assert_eq!(trim_end_char(s, '/'), s.trim_end_matches('/'));
        assert_eq!(split_words(s), s.split_whitespace().collect::<Vec<_>>());
        assert_eq!(split_at_char(s, ','), s.split(',').collect::<Vec<_>>());
        assert_eq!(rest_after_last(s, ':'), s.rsplit(':').next().unwrap());
        assert_eq!(strip_prefix(s, "x/").as_deref(), s.strip_prefix("x/"));
        let parts: Vec<String> = s.split(',').map(str::to_string).collect();
        assert_eq!(join(&parts, ", "), parts.join(", "));
        for t in ["", "a", "é", " a b ", "日"] {
            assert_eq!(precedes(s, t), s < t, "{s:?} {t:?}");
            assert_eq!(same_text(s, t), s == t);
        }
    }
}

#[test]
fn numbers_are_written_in_decimal() {
    for n in [0, 7, 10, 99, 100, 1234567890, u64::MAX] {
        assert_eq!(decimal_text(n), n.to_string());
    }
}

#[test]
fn query_values_are_percent_encoded() {
    assert_eq!(urlencode("2106.07447v1"), "2106.07447v1");
    assert_eq!(urlencode("a b&c=d"), "a%20b%26c%3Dd");
    assert_eq!(urlencode("-._~"), "-._~");
    assert_eq!(urlencode("é/日%"), "%C3%A9%2F%E6%97%A5%25");
    assert_eq!(urlencode(""), "");
    assert_ne!(urlencode("%20"), urlencode(" "));
}

#[test]
fn upstream_statuses_map_to_errors() {
    assert_eq!(map_status(200, 0), Ok(()));
    assert_eq!(map_status(299, 0), Ok(()));
    assert_eq!(map_status(404, 0), Err(GatewayError::NotFound));
    assert_eq!(
        map_status(429, 17),
        Err(GatewayError::RateLimited { retry_after_s: 17 })
    );
    assert_eq!(
        map_status(503, 0),
        Err(GatewayError::Transient("upstream status 503".to_string()))
    );
    assert_eq!(
        map_status(403, 0),
        Err(GatewayError::Permanent("upstream status 403".to_string()))
    );
    assert_eq!(
        transport_failure("http://x/", "timed out"),
        GatewayError::Transient("GET http://x/: timed out".to_string())
    );
}

#[test]
fn a_text_map_is_ordered_and_keeps_the_last_value() {
    let mut map: TextMap<String> = TextMap::new();
    for (key, value) in [("b", "1"), ("a", "2"), ("c", "3"), ("b", "4")] {
        map.insert(key.to_string(), value.to_string());
    }
    let entries: Vec<(&str, &str)> = map
        .entries()
        .iter()
        .map(|(k, v)| (k.as_str(), v.as_str()))
        .collect();
    assert_eq!(entries, vec![("a", "2"), ("b", "4"), ("c", "3")]);
    assert_eq!(map.get("b").map(String::as_str), Some("4"));
    assert_eq!(map.get("d"), None);
    assert_eq!(map.clone(), map);
}

#[test]
fn optional_fields_are_put_where_there_is_a_value() {
    let mut fields: TextMap<String> = TextMap::new();
    put_field(&mut fields, "doi", None);
    put_field(&mut fields, "pmid", Some("1".to_string()));
    assert_eq!(fields.entries().len(), 1);
    assert_eq!(fields.get("pmid").map(String::as_str), Some("1"));
    assert_eq!(upstream_id_field("arxiv"), "arxivid");
}

#[test]
fn filters_rule_plugins_out() {
    let types = vec!["document".to_string()];
    let kinds = vec!["paper".to_string(), "book".to_string()];
    let mut query = GatewayQuery::from_free_text("x");
    assert!(query_accepts_plugin(&query, &types, &kinds));
    query.filters.insert("language".to_string(), "en".to_string());
    query.filters.insert("contentKind".to_string(), "book".to_string());
    assert!(query_accepts_plugin(&query, &types, &kinds));
    query.filters.insert("fileType".to_string(), "image".to_string());
    assert!(!query_accepts_plugin(&query, &types, &kinds));
    assert_eq!(query.free_text_or_star(), "x");
    assert_eq!(GatewayQuery::from_free_text("").free_text_or_star(), "*");
}

#[test]
fn a_document_is_read_token_by_token() {
    let tokens = read_document(b"<?xml version=\"1.0\"?><a> x &amp; y <b k=\"v\"/></a>").unwrap();
    assert_eq!(tokens.len(), 5);
    assert!(matches!(tokens[0], XmlToken::Other));
    assert!(matches!(&tokens[1], XmlToken::Start { name } if name == b"a"));
    assert!(matches!(&tokens[2], XmlToken::Text { raw } if raw == b"x &amp; y"));
    match &tokens[3] {
        XmlToken::Empty { name, attributes } => {
            assert_eq!(name, b"b");
            assert_eq!(
                collect_attrs(attributes).get("k").map(String::as_str),
                Some("v")
            );
        }
        other => panic!("got {other:?}"),
    }
    assert!(matches!(&tokens[4], XmlToken::End { name } if name == b"a"));
    assert_eq!(text_content(b"x &amp; y"), Some("x & y".to_string()));
    assert_eq!(text_content(b"&nosuch;"), None);
    assert_eq!(text_content(&[0xff]), None);
    assert!(read_document(b"<a></b>").is_err());
    assert!(read_document(b"").unwrap().is_empty());
}

#[test]
fn errors_are_put_in_words() {
    let s = || "why".to_string();
    assert_eq!(GatewayError::NotFound.message(), "not found");
    assert_eq!(
        GatewayError::RateLimited { retry_after_s: 7 }.message(),
        "rate limited; retry in 7s"
    );
    assert_eq!(GatewayError::Transient(s()).message(), "transient: why");
    assert_eq!(GatewayError::Permanent(s()).message(), "permanent: why");
    assert_eq!(GatewayError::Internal(s()).message(), "internal: why");
}
