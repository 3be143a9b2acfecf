//! The HTTP contract: what each request is answered.
use paper_feeder::config::{
    document_of, encode_settings, merge, parse_document, redact, ConfigDocument, ConfigField, ConfigSchema,
    ConfigValue, FieldKind, JsonContent,
};
use paper_feeder::hash;
use paper_feeder::query::{
    replay_events, GatewayQuery, GatewaySearchEvent, GatewayWireError,
};
use paper_feeder::scihub::scihub_mirrors;
use paper_feeder::serve::{
    blob, cache_dir, compute, config_saved, config_schema, config_values_get, config_values_put,
    fetch, gateway_error_response, health, manifest, plugin_configured, query, query_stream,
    query_target, replacement_line, sole_plugin, AppState, ConfigSaved, EventLine, EventStream,
    HashKindDto, HostedPlugin, HttpReply, OutcomeDto, PluginHealthEntry, QueryRequest, SaveOutcome,
    SetupOutcome,
};
use paper_feeder::text_map::TextMap;
use paper_feeder::types::{
    ConfigError, DiscoveryRecord, GatewayError, HashKind, HashOutcome, PluginHealth,
};

fn text(s: &str) -> ConfigValue {
    ConfigValue::Text(s.to_string())
}

fn json(s: &str) -> ConfigValue {
    ConfigValue::Json(s.to_string())
}

fn values(list: &[(&str, ConfigValue)]) -> TextMap<ConfigValue> {
    let mut map = TextMap::new();
    for (key, value) in list {
        map.insert(key.to_string(), value.clone());
    }
    map
}

fn document(list: &[(&str, ConfigValue)]) -> ConfigDocument {
    ConfigDocument::Object(values(list))
}

fn other(notation: &str) -> ConfigDocument {
    ConfigDocument::Other(notation.to_string())
}

fn schema(list: &[(&str, FieldKind)]) -> ConfigSchema {
    ConfigSchema {
        fields: list
            .iter()
            .map(|(key, kind)| ConfigField {
                key: key.to_string(),
                kind: *kind,
            })
            .collect(),
    }
}

fn hosted(id: &str) -> HostedPlugin {
    HostedPlugin {
        key: id.to_string(),
        id: id.to_string(),
        served_file_types: vec!["document".to_string()],
        served_content_kinds: vec![format!("kind-{id}")],
        config_schema: schema(&[(id, FieldKind::Plain), ("token", FieldKind::Secret)]),
        config_values: document(&[(id, text("running"))]),
    }
}

fn hosting(state_dir: &str, plugins: Vec<HostedPlugin>) -> AppState {
    let mut state = AppState::new("1.2.3".to_string(), state_dir.to_string());
    for plugin in plugins {
        state.host(plugin);
    }
    state
}

fn state(ids: &[&str]) -> AppState {
    hosting("/data/meta-feeder", ids.iter().map(|id| hosted(id)).collect())
}

fn reply(status: u16, body: &str) -> HttpReply {
    HttpReply {
        status,
        body: body.to_string(),
    }
}

fn record(id: &str) -> DiscoveryRecord {
    DiscoveryRecord {
        upstream_id: "stub".to_string(),
        record_id: id.to_string(),
        fields: TextMap::new(),
    }
}

fn outcome(bytes: Option<&[u8]>) -> HashOutcome {
    HashOutcome {
        hash: paper_feeder::types::Hash("bafy".to_string()),
        hash_kind: HashKind::Sha2_256,
        file_extension: Some("pdf".to_string()),
        record: Some(record("1")),
        bytes: bytes.map(|b| b.to_vec()),
    }
}

#[test]
fn query_stream_emits_ndjson_events_in_order() {
    let host = state(&["stub"]);
    let req = QueryRequest {
        upstream_id: "stub".to_string(),
        query: GatewayQuery::from_free_text("x"),
        max_results: 5,
    };
    let (plugin, limit) = query_target(&host, &req).expect("hosted");
    assert_eq!(plugin.id, "stub");
    assert_eq!(limit, 5);

    let encoded = [
        r#"{"Base":{"upstream_id":"stub","record_id":"1","fields":{}}}"#,
        r#"{"EnrichPatch":{"record_id":"1","set":{"title":"X"},"remove":[]}}"#,
        r#""Done""#,
    ];
    let mut stream = EventStream::new();
    let mut body: Vec<u8> = Vec::new();
    for json in encoded {
        match stream.event_line(Ok(json.as_bytes().to_vec())) {
            Some(EventLine::Line(line)) => body.extend(line),
            other => panic!("got {other:?}"),
        }
    }
    let body = String::from_utf8(body).expect("UTF-8");
    let events: Vec<serde_json::Value> = body
        .lines()
        .filter(|l| !l.trim().is_empty())
        .map(|l| serde_json::from_str(l).expect("each NDJSON line is an event"))
        .collect();
    assert_eq!(events.len(), 3, "body was: {body:?}");
    assert!(events[0].get("Base").is_some());
    assert!(events[1].get("EnrichPatch").is_some());
    assert_eq!(events[1]["EnrichPatch"]["set"]["title"], "X");
    assert_eq!(events[2], "Done");
    assert_eq!(body, format!("{}\n{}\n{}\n", encoded[0], encoded[1], encoded[2]));
}

#[test]
fn an_event_that_cannot_be_encoded_ends_the_stream() {
    let mut stream = EventStream::new();
    assert!(matches!(
        stream.event_line(Ok(b"1".to_vec())),
        Some(EventLine::Line(line)) if line == b"1\n"
    ));
    match stream.event_line(Err("key must be a string".to_string())) {
        Some(EventLine::Last(GatewaySearchEvent::Error(GatewayWireError::Internal(message)))) => {
            assert_eq!(message, "event serialize: key must be a string")
        }
        other => panic!("got {other:?}"),
    }
    assert!(stream.event_line(Ok(b"2".to_vec())).is_none());
    assert!(stream.event_line(Err("again".to_string())).is_none());
    assert_eq!(replacement_line(Some(b"{}".to_vec())), b"{}\n".to_vec());
    assert_eq!(replacement_line(None), b"\n".to_vec());
}

#[test]
fn a_stream_that_cannot_be_opened_is_an_error() {
    assert_eq!(query_stream(Ok("events")), Ok("events"));
    assert_eq!(
        query_stream::<u8>(Err(GatewayError::RateLimited { retry_after_s: 5 })),
        Err(reply(429, "rate limited; retry in 5s"))
    );
}

#[test]
fn a_search_result_replays_as_records_and_the_end() {
    let events = replay_events(vec![record("a"), record("b")]);
    assert_eq!(events.len(), 3);
    assert!(matches!(&events[0], GatewaySearchEvent::Base(r) if r.record_id == "a"));
    assert!(matches!(&events[1], GatewaySearchEvent::Base(r) if r.record_id == "b"));
    assert!(matches!(events[2], GatewaySearchEvent::Done));
    assert!(matches!(replay_events(vec![])[..], [GatewaySearchEvent::Done]));
}

#[test]
fn each_error_has_its_status() {
    assert_eq!(
        gateway_error_response(GatewayError::NotFound),
        reply(404, "not found")
    );
    assert_eq!(
        gateway_error_response(GatewayError::RateLimited { retry_after_s: 30 }),
        reply(429, "rate limited; retry in 30s")
    );
    assert_eq!(
        gateway_error_response(GatewayError::RateLimited {
            retry_after_s: u64::MAX
        }),
        reply(429, "rate limited; retry in 18446744073709551615s")
    );
    assert_eq!(
        gateway_error_response(GatewayError::Transient("later".to_string())),
        reply(502, "later")
    );
    assert_eq!(
        gateway_error_response(GatewayError::Permanent("never".to_string())),
        reply(422, "never")
    );
    assert_eq!(
        gateway_error_response(GatewayError::Internal("mine".to_string())),
        reply(500, "mine")
    );
}

#[test]
fn hash_kinds_go_over_the_wire_and_back() {
    for kind in [HashKind::Midhash256, HashKind::Sha2_256, HashKind::BtV1File] {
        assert_eq!(HashKind::from(HashKindDto::from(kind)), kind);
    }
    for kind in [
        HashKindDto::Midhash256,
        HashKindDto::Sha2_256,
        HashKindDto::BtV1File,
    ] {
        assert_eq!(HashKindDto::from(HashKind::from(kind)), kind);
    }
}

#[test]
fn bytes_travel_in_base64() {
    let cases: [(&[u8], &str); 6] = [
        (b"", ""),
        (b"f", "Zg=="),
        (b"fo", "Zm8="),
        (b"foo", "Zm9v"),
        (b"%PDF", "JVBERg=="),
        (&[0xfb, 0xff, 0xbf], "+/+/"),
    ];
    for (bytes, expected) in cases {
        let o = outcome(Some(bytes));
        assert!(OutcomeDto::fits(&o));
        let dto = OutcomeDto::from_outcome(o);
        assert_eq!(dto.bytes_b64.as_deref(), Some(expected));
        assert_eq!(dto.hash, "bafy");
        assert_eq!(dto.hash_kind, HashKindDto::Sha2_256);
        assert_eq!(dto.file_extension.as_deref(), Some("pdf"));
        assert_eq!(dto.record, Some(record("1")));
    }
    let dto = OutcomeDto::from_outcome(outcome(None));
    assert_eq!(dto.bytes_b64, None);
}

#[test]
fn every_outcome_is_answered() {
    let found = compute(Ok(vec![outcome(Some(b"a")), outcome(None)])).expect("outcomes");
    assert_eq!(found.outcomes.len(), 2);
    assert_eq!(found.outcomes[0].bytes_b64.as_deref(), Some("YQ=="));
    assert_eq!(found.outcomes[1].bytes_b64, None);
    assert_eq!(
        compute(Err(GatewayError::NotFound)).unwrap_err(),
        reply(404, "not found")
    );
}

#[test]
fn searches_are_answered_with_records_or_an_error() {
    let found = query(Ok(vec![record("a")])).expect("records");
    assert_eq!(found.records, vec![record("a")]);
    assert_eq!(
        query(Err(GatewayError::Transient("down".to_string()))).unwrap_err(),
        reply(502, "down")
    );
}

#[test]
fn files_that_are_not_there_are_not_found() {
    assert_eq!(fetch(Ok(Some(7))), Ok(7));
    assert_eq!(
        fetch::<u8>(Ok(None)),
        Err(reply(404, "no bytes for record"))
    );
    assert_eq!(
        fetch::<u8>(Err(GatewayError::Permanent("gone".to_string()))),
        Err(reply(422, "gone"))
    );
    assert_eq!(blob(Some("bytes")), Ok("bytes"));
    assert_eq!(blob::<u8>(None), Err(reply(404, "no such blob")));
}

#[test]
fn an_unknown_plugin_is_not_found() {
    let host = state(&["arxiv"]);
    assert_eq!(host.plugin("arxiv").unwrap().id, "arxiv");
    assert_eq!(
        host.plugin("pubmed").unwrap_err(),
        reply(404, "no feeder plugin for upstream_id 'pubmed'")
    );
    let req = QueryRequest {
        upstream_id: "".to_string(),
        query: GatewayQuery::from_free_text("x"),
        max_results: 5,
    };
    assert_eq!(
        query_target(&host, &req).unwrap_err(),
        reply(404, "no feeder plugin for upstream_id ''")
    );
}

#[test]
fn the_manifest_is_sorted_whatever_the_hosting_order() {
    let ids = |list: &[&str]| {
        let m = manifest(&state(list));
        assert_eq!(m.feeder_version, "1.2.3");
        m.plugins.iter().map(|p| p.id.clone()).collect::<Vec<_>>()
    };
    let sorted = vec!["arxiv", "pubmed", "scihub"];
    assert_eq!(ids(&["scihub", "arxiv", "pubmed"]), sorted);
    assert_eq!(ids(&["pubmed", "scihub", "arxiv"]), sorted);
    assert_eq!(ids(&["arxiv", "pubmed", "scihub"]), sorted);
    assert!(ids(&[]).is_empty());
    let m = manifest(&state(&["b", "a"]));
    assert_eq!(m.plugins[0].served_content_kinds, vec!["kind-a"]);
    assert_eq!(m.plugins[1].served_file_types, vec!["document"]);
}

#[test]
fn plugins_with_the_same_id_stay_in_order() {
    let keyed = |key: &str, id: &str, kind: &str| HostedPlugin {
        key: key.to_string(),
        served_content_kinds: vec![kind.to_string()],
        ..hosted(id)
    };
    let host = hosting(
        "/d",
        vec![
            keyed("1", "z", "last"),
            keyed("2", "a", "first"),
            keyed("3", "a", "second"),
        ],
    );
    let m = manifest(&host);
    assert_eq!(m.plugins[0].served_content_kinds, vec!["first"]);
    assert_eq!(m.plugins[1].served_content_kinds, vec!["second"]);
    assert_eq!(m.plugins[2].id, "z");
    assert_eq!(sole_plugin(&host).unwrap().served_content_kinds, vec!["first"]);
}

#[test]
fn a_key_is_hosted_once() {
    let mut host = state(&["a", "b"]);
    host.host(HostedPlugin {
        served_content_kinds: vec!["newer".to_string()],
        ..hosted("a")
    });
    let m = manifest(&host);
    assert_eq!(m.plugins.len(), 2);
    assert_eq!(m.plugins[0].served_content_kinds, vec!["newer"]);
    assert_eq!(host.plugin("a").unwrap().served_content_kinds, vec!["newer"]);
    assert_eq!(host.plugin("b").unwrap().id, "b");
}

#[test]
fn health_is_ok_iff_every_plugin_is_well() {
    let entry = |id: &str, health: PluginHealth| PluginHealthEntry {
        id: id.to_string(),
        health,
    };
    let sick = || PluginHealth::Degraded {
        reason: "configure() not yet called".to_string(),
    };
    let all_well = health(vec![
        entry("pubmed", PluginHealth::Healthy),
        entry("arxiv", PluginHealth::Healthy),
    ]);
    assert_eq!(all_well.status, "ok");
    assert_eq!(all_well.plugins[0].id, "arxiv");
    let one_sick = health(vec![
        entry("pubmed", PluginHealth::Healthy),
        entry("arxiv", sick()),
    ]);
    assert_eq!(one_sick.status, "degraded");
    assert_eq!(one_sick.plugins[0].health, sick());
    assert_eq!(one_sick.plugins[1].health, PluginHealth::Healthy);
    assert_eq!(health(vec![]).status, "ok");
}

#[test]
fn the_plugin_with_the_lowest_id_is_picked() {
    assert!(sole_plugin(&state(&[])).is_none());
    assert_eq!(sole_plugin(&state(&["b", "a", "c"])).unwrap().id, "a");
    assert_eq!(sole_plugin(&state(&["ab", "a"])).unwrap().id, "a");
}

#[test]
fn paths_are_joined_as_on_unix() {
    let at = |dir: &str, id: &str| {
        let host = hosting(dir, vec![]);
        let expected = std::path::Path::new(dir)
            .join("gateway")
            .join(id)
            .join("config.json");
        let path = host.config_path(id);
        assert_eq!(std::path::Path::new(&path), expected.as_path());
        assert_eq!(
            expected.parent().unwrap(),
            std::path::Path::new(&cache_dir(dir, id))
        );
        path
    };
    assert_eq!(
        at("/data/meta-feeder", "arxiv"),
        "/data/meta-feeder/gateway/arxiv/config.json"
    );
    assert_eq!(at("/data/", "arxiv"), "/data/gateway/arxiv/config.json");
    assert_eq!(at("", "arxiv"), "gateway/arxiv/config.json");
    assert_eq!(at("/data", "/elsewhere"), "/elsewhere/config.json");
    assert_eq!(at("/", "a/b"), "/gateway/a/b/config.json");
}

#[test]
fn the_persisted_configuration_comes_first() {
    let host = state(&["arxiv"]);
    let file = |s: &str| Some(s.as_bytes().to_vec());
    assert_eq!(
        host.effective_config("arxiv", file(r#"{"arxiv": "stored"}"#)),
        document(&[("arxiv", text("stored"))])
    );
    let running = || document(&[("arxiv", text("running"))]);
    assert_eq!(host.effective_config("arxiv", None), running());
    assert_eq!(host.effective_config("arxiv", file("{broken")), running());
    assert_eq!(host.effective_config("arxiv", file("")), running());
    // A file that holds no object is still the one in effect.
    assert_eq!(host.effective_config("arxiv", file("[1, 2]")), other("[1,2]"));
    assert_eq!(host.effective_config("arxiv", file("{}")), document(&[]));
    assert_eq!(host.effective_config("pubmed", None), document(&[]));
    assert_eq!(
        host.config_in_effect("arxiv", Some(other("7"))),
        other("7")
    );
    let odd = HostedPlugin {
        config_values: other("[]"),
        ..hosted("odd")
    };
    let host = hosting("/d", vec![odd]);
    assert_eq!(host.effective_config("odd", None), other("[]"));
}

#[test]
fn documents_are_read_from_json() {
    assert_eq!(
        parse_document(br#" {"b": "x", "a": 1.5, "c": [true, null], "b": "y", "n": null} "#),
        Some(document(&[
            ("a", json("1.5")),
            ("b", text("y")),
            ("c", json("[true,null]")),
            ("n", json("null")),
        ]))
    );
    for value in ["[]", "\"x\"", "1", "null", "true"] {
        assert_eq!(parse_document(value.as_bytes()), Some(other(value)));
    }
    for broken in ["", "{", "{} x", "nul", "{\"a\": }"] {
        assert_eq!(parse_document(broken.as_bytes()), None);
    }
    assert_eq!(parse_document(&[0xff]), None);
    assert_eq!(
        document_of(Some(JsonContent::Object(vec![
            ("k".to_string(), text("1")),
            ("k".to_string(), text("2")),
        ]))),
        Some(document(&[("k", text("2"))]))
    );
}

#[test]
fn written_settings_read_back() {
    let settings = || {
        values(&[
            ("", text("line\nbreak \"quoted\" \u{1F600} \\")),
            ("port", json("8080")),
            ("big", json("18446744073709551615")),
            ("on", json("true")),
            ("off", json("false")),
            ("none", json("null")),
            ("below", json("-1")),
            ("least", json("-9223372036854775808")),
            ("\u{e9}", text("")),
        ])
    };
    let bytes = encode_settings(&settings()).expect("written");
    assert_eq!(parse_document(&bytes), Some(ConfigDocument::Object(settings())));
    assert_eq!(
        encode_settings(&values(&[("b", text("x")), ("a", json("[1]"))])).unwrap(),
        b"{\n  \"a\": [\n    1\n  ],\n  \"b\": \"x\"\n}".to_vec()
    );
    // Any other value reads back as it does by itself.
    let alone = |notation: &str| {
        let bytes = encode_settings(&values(&[("", json(notation))])).expect("written");
        match parse_document(&bytes) {
            Some(ConfigDocument::Object(v)) => v.get("").cloned().expect("the member"),
            got => panic!("got {got:?}"),
        }
    };
    let mixed = values(&[
        ("list", json("[1, {\"k\": 2.50}]")),
        ("quoted", json("\"x\"")),
        ("real", json("1.5e3")),
        ("broken", json("no json")),
        ("plain", text("t")),
    ]);
    let bytes = encode_settings(&mixed).expect("written");
    assert_eq!(
        parse_document(&bytes),
        Some(document(&[
            ("list", alone("[1, {\"k\": 2.50}]")),
            ("quoted", alone("\"x\"")),
            ("real", alone("1.5e3")),
            ("broken", alone("no json")),
            ("plain", text("t")),
        ]))
    );
    assert_eq!(alone("[1, {\"k\": 2.50}]"), json("[1,{\"k\":2.5}]"));
    assert_eq!(alone("\"x\""), text("x"));
    assert_eq!(alone("no json"), json("null"));
    // The reserved name does no harm where another name comes before it.
    let guarded = || {
        values(&[
            ("$serde_json::private::RawValue", text("1")),
            ("#", text("first")),
        ])
    };
    let bytes = encode_settings(&guarded()).expect("written");
    assert_eq!(parse_document(&bytes), Some(ConfigDocument::Object(guarded())));
    assert_eq!(
        encode_settings(&values(&[("a", json("no json"))])).unwrap(),
        b"{\n  \"a\": null\n}".to_vec()
    );
}

#[test]
fn secrets_are_shown_only_as_flags() {
    let declared = schema(&[
        ("url", FieldKind::Plain),
        ("token", FieldKind::Secret),
        ("other", FieldKind::Secret),
        ("absent", FieldKind::Plain),
    ]);
    let stored = document(&[
        ("url", text("http://x")),
        ("token", text("hush")),
        ("other", text("")),
        ("undeclared", text("y")),
    ]);
    assert_eq!(
        redact(&stored, &declared),
        values(&[
            ("url", text("http://x")),
            ("token_set", json("true")),
            ("other_set", json("false")),
        ])
    );
    assert_eq!(
        redact(&other("[1]"), &declared),
        values(&[("token_set", json("false")), ("other_set", json("false"))])
    );
}

#[test]
fn blank_secrets_keep_their_stored_value() {
    let declared = schema(&[("url", FieldKind::Plain), ("token", FieldKind::Secret)]);
    let stored = document(&[("url", text("a")), ("token", text("hush")), ("old", json("1"))]);
    let incoming = document(&[("url", text("")), ("token", text("")), ("new", json("2"))]);
    let merged = merge(&stored, &incoming, &declared);
    assert_eq!(
        merged,
        values(&[("url", text("")), ("token", text("hush")), ("old", json("1"))])
    );
    // Saving the same again changes nothing.
    let again = merge(&ConfigDocument::Object(merged), &incoming, &declared);
    assert_eq!(again.get("token"), Some(&text("hush")));
    assert_eq!(again.entries().len(), 3);
    let replaced = merge(&stored, &document(&[("token", text("new"))]), &declared);
    assert_eq!(replaced.get("token"), Some(&text("new")));
    let kept = merge(&stored, &document(&[("token", json("null"))]), &declared);
    assert_eq!(kept.get("token"), Some(&text("hush")));
}

#[test]
fn the_configuration_plane_is_about_the_sole_plugin() {
    let host = state(&["pubmed", "arxiv"]);
    let declared = config_schema(&host);
    assert_eq!(declared.fields[0].key, "arxiv");
    assert_eq!(config_schema(&state(&[])).fields.len(), 0);
    assert_eq!(
        config_values_get(&host, None),
        values(&[("arxiv", text("running")), ("token_set", json("false"))])
    );
    assert_eq!(
        config_values_get(&host, Some(br#"{"token": "t"}"#.to_vec())),
        values(&[("token_set", json("true"))])
    );
    assert_eq!(config_values_get(&state(&[]), None), values(&[]));
}

#[test]
fn settings_are_saved_beside_the_cache() {
    let host = state(&["arxiv"]);
    let incoming = document(&[("arxiv", text("new")), ("token", text("hush"))]);
    let save = config_values_put(&host, None, &incoming).expect("to store");
    assert_eq!(save.path, "/data/meta-feeder/gateway/arxiv/config.json");
    assert_eq!(save.temporary, "/data/meta-feeder/gateway/arxiv/config.json.tmp");
    assert_eq!(save.directory, "/data/meta-feeder/gateway/arxiv");
    assert_eq!(save.directory, cache_dir("/data/meta-feeder", "arxiv"));
    assert_eq!(
        save.values,
        values(&[("arxiv", text("new")), ("token", text("hush"))])
    );
    // What was saved is in effect once it is read back.
    let file = save.encode().expect("written");
    assert_eq!(
        host.effective_config("arxiv", Some(file.clone())),
        ConfigDocument::Object(save.values)
    );
    let shown = config_values_get(&host, Some(file));
    assert_eq!(
        shown,
        values(&[("arxiv", text("new")), ("token_set", json("true"))])
    );
    assert_eq!(
        config_values_put(&state(&[]), None, &incoming).unwrap_err(),
        reply(404, "feeder hosts no plugin")
    );
}

#[test]
fn failures_to_save_are_told_apart() {
    assert_eq!(
        config_saved(SaveOutcome::Saved),
        Ok(ConfigSaved {
            saved: true,
            restart_required: true
        })
    );
    let e = || "denied".to_string();
    assert_eq!(
        config_saved(SaveOutcome::NoDirectory(e())),
        Err(reply(500, "mkdir: denied"))
    );
    assert_eq!(
        config_saved(SaveOutcome::NotEncoded(e())),
        Err(reply(500, "serialize: denied"))
    );
    assert_eq!(
        config_saved(SaveOutcome::NotWritten(e())),
        Err(reply(500, "write config: denied"))
    );
}

#[test]
fn a_plugin_that_lacks_a_setting_is_skipped() {
    let mut kept: TextMap<usize> = TextMap::new();
    let ok = || SetupOutcome::Configured(Ok(()));
    assert_eq!(plugin_configured(&mut kept, "/d", 0, "arxiv", ok()), Ok(()));
    let missing = SetupOutcome::Configured(Err(ConfigError::MissingConfig {
        plugin: "scihub".to_string(),
        what: "SCIHUB_MIRRORS".to_string(),
    }));
    assert_eq!(plugin_configured(&mut kept, "/d", 1, "scihub", missing), Ok(()));
    assert_eq!(plugin_configured(&mut kept, "/d", 2, "pubmed", ok()), Ok(()));
    assert_eq!(plugin_configured(&mut kept, "/d", 3, "arxiv", ok()), Ok(()));
    assert_eq!(kept.get("arxiv"), Some(&3));
    assert_eq!(kept.get("pubmed"), Some(&2));
    assert_eq!(kept.get("scihub"), None);
}

#[test]
fn other_setup_failures_stop_the_start() {
    let mut kept: TextMap<usize> = TextMap::new();
    assert_eq!(
        plugin_configured(
            &mut kept,
            "/d",
            0,
            "arxiv",
            SetupOutcome::NoDirectory("denied".to_string())
        ),
        Err("create cache dir /d/gateway/arxiv for arxiv: denied".to_string())
    );
    assert_eq!(
        plugin_configured(
            &mut kept,
            "/d",
            0,
            "arxiv",
            SetupOutcome::Configured(Err(ConfigError::Other("bad cache".to_string())))
        ),
        Err("bad cache".to_string())
    );
    assert!(kept.entries().is_empty());
}

#[test]
fn mirrors_are_listed_without_blanks() {
    assert_eq!(
        scihub_mirrors(" https://a.example , ,https://b.example,"),
        vec!["https://a.example", "https://b.example"]
    );
    assert!(scihub_mirrors("").is_empty());
    assert!(scihub_mirrors(" , ,\t").is_empty());
}

#[test]
fn content_identifiers_of_known_files() {
    assert_eq!(
        hash::compute_ipfs_cid(b""),
        "bafkreihdwdcefgh4dqkjv67uzcmw7ojee6xedzdetojuzjevtenxquvyku"
    );
    assert_eq!(
        hash::compute_ipfs_cid(b"abc"),
        "bafkreif2pall7dybz7vecqka3zo24irdwabwdi4wc55jznaq75q7eaavvu"
    );
    // A digest of zeros: the prefix, then nothing but `a`.
    assert_eq!(
        hash::cid_of_digest(&vec![0u8; 32]),
        format!("bafkreia{}", "a".repeat(51))
    );
}
