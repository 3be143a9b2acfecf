//! Laws of the feeder's answers, as their callers see them: `call_ensures(f, args,
//! res)` holds of every result that `f` gives on `args`.
use crate::config;
use crate::config::{
    document_of, encode_settings, merge, parse_document, redact, ConfigDocument, ConfigSchema,
    ConfigValue, JsonContent,
};
use crate::laws::basics;
use crate::laws::encodings;
use crate::laws::replies;
use crate::laws::requests;
use crate::laws::settings;
use crate::listing;
use crate::serve;
use crate::serve::{
    blob, cache_dir, compute, config_saved, config_schema, config_values_get, config_values_put,
    fetch, gateway_error_response, health, manifest, merged_config, query, query_stream,
    query_target, replacement_line, shown_config, sole_plugin, AppState, ComputeResponse,
    ConfigSave, ConfigSaved, EventStream, HealthResponse, HostedPlugin, HttpReply,
    ManifestResponse, OutcomeDto, PluginHealthEntry, PluginManifest, QueryRequest, QueryResponse,
    SaveOutcome,
};
use crate::text;
use crate::text_map::TextMap;
use crate::types;
use crate::types::{DiscoveryRecord, GatewayError, HashOutcome};
use vstd::prelude::*;

verus! {

// ------------------------------------------------------------------- the wire
/// The wire form of an outcome has each of its parts; decoding its base64 gives
/// back every byte.
pub proof fn law_outcome_goes_over_the_wire(o: HashOutcome, res: OutcomeDto, i: int)
    requires
        call_ensures(OutcomeDto::from_outcome, (o,), res),
    ensures
        res.hash@ == o.hash.0@,
        res.hash_kind is Midhash256 <==> o.hash_kind is Midhash256,
        res.hash_kind is Sha2_256 <==> o.hash_kind is Sha2_256,
        res.hash_kind is BtV1File <==> o.hash_kind is BtV1File,
        basics::text_in(res.file_extension) == basics::text_in(o.file_extension),
        o.record is Some <==> res.record is Some,
        o.record is Some ==> res.record->0@ == o.record->0@,
        o.bytes is Some <==> res.bytes_b64 is Some,
        o.bytes is Some ==> res.bytes_b64->0@.len() == 4 * ((o.bytes->0@.len() + 2) / 3),
        o.bytes is Some && 0 <= i < o.bytes->0@.len() ==> encodings::base64_byte(
            res.bytes_b64->0@,
            i,
        ) == o.bytes->0@[i],
{
    replies::law_outcome_is_sent_part_by_part(seq![o@], 0);
    replies::law_hash_kind_keeps_its_name(o.hash_kind);
    if o.bytes is Some && 0 <= i < o.bytes->0@.len() {
        encodings::law_base64_can_be_decoded(o.bytes->0@, i);
    }
}

/// An outcome fits if its base64 text does; without bytes it does.
pub proof fn law_outcome_fits(o: &HashOutcome, res: bool)
    requires
        call_ensures(OutcomeDto::fits, (o,), res),
    ensures
        o.bytes is None ==> res,
        o.bytes matches Some(bytes) ==> (res <==> 4 * ((bytes@.len() + 2) / 3) <= isize::MAX),
{
}

/// The reply tells this error.
pub open spec fn replies_with(reply: HttpReply, e: GatewayError) -> bool {
    match e {
        GatewayError::NotFound => reply.status == 404 && reply.body@ == "not found"@,
        GatewayError::RateLimited { retry_after_s } => reply.status == 429 && requests::is_made_of(
            reply.body@,
            seq!["rate limited; retry in "@, text::decimal(retry_after_s as nat), "s"@],
        ),
        GatewayError::Transient(s) => reply.status == 502 && reply.body@ == s@,
        GatewayError::Permanent(s) => reply.status == 422 && reply.body@ == s@,
        GatewayError::Internal(s) => reply.status == 500 && reply.body@ == s@,
    }
}

/// An error is answered with the status of its kind and with its message.
pub proof fn law_error_is_replied(e: GatewayError, res: HttpReply)
    requires
        call_ensures(gateway_error_response, (e,), res),
    ensures
        replies_with(res, e),
{
    replies::law_error_is_answered_by_its_kind(e@);
}

// ---------------------------------------------------------------------- plugins
/// A new feeder hosts nothing, and knows its version and its state directory.
pub proof fn law_new_feeder_hosts_nothing(version: String, state_dir: String, res: AppState)
    requires
        call_ensures(AppState::new, (version, state_dir), res),
    ensures
        res@.plugins.len() == 0,
        res@.version == version@,
        res@.state_dir == state_dir@,
{
}

/// A request reaches the plugin with the key that it names, and is told where
/// there is none; so does a search, with the number of records it asks for.
pub proof fn law_request_reaches_its_plugin(
    state: &AppState,
    upstream_id: &str,
    res: Result<&HostedPlugin, HttpReply>,
    req: &QueryRequest,
    target: Result<(&HostedPlugin, usize), HttpReply>,
    i: int,
)
    requires
        call_ensures(AppState::plugin, (state, upstream_id), res),
        call_ensures(query_target, (state, req), target),
        req.upstream_id@ == upstream_id@,
    ensures
        0 <= i < state@.plugins.len() && state@.plugins[i].key == upstream_id@ ==> (res matches Ok(
            plugin,
        ) && plugin@ == state@.plugins[i]) && (target matches Ok(t) && t.0@ == state@.plugins[i]
            && t.1 == req.max_results),
        (forall|j: int| 0 <= j < state@.plugins.len() ==> (#[trigger] state@.plugins[j]).key
            != upstream_id@) ==> (res matches Err(reply) && reply.status == 404
            && requests::is_made_of(
            reply.body@,
            seq!["no feeder plugin for upstream_id '"@, upstream_id@, "'"@],
        )) && (target matches Err(reply) && reply.status == 404),
{
    serve::law_requests_reach_their_plugin(state@.plugins, upstream_id@);
    replies::law_unknown_plugin_is_named(upstream_id@);
}

/// A plugin's directory and configuration file lie under the state directory.
pub proof fn law_plugin_paths(
    state: &AppState,
    state_dir: &str,
    id: &str,
    dir: String,
    file: String,
)
    requires
        call_ensures(cache_dir, (state_dir, id), dir),
        call_ensures(AppState::config_path, (state, id), file),
        state@.state_dir == state_dir@,
        state_dir@.len() > 0,
        state_dir@.last() != '/',
        id@.len() > 0,
        id@[0] != '/',
        id@.last() != '/',
    ensures
        requests::is_made_of(dir@, seq![state_dir@, "/gateway/"@, id@]),
        requests::is_made_of(file@, seq![state_dir@, "/gateway/"@, id@, "/config.json"@]),
{
    replies::law_plugin_files_lie_under_the_state(state_dir@, id@);
}

/// The plugin that the configuration is about is hosted, and none has a lower
/// id.
pub proof fn law_sole_plugin_is_the_lowest(
    state: &AppState,
    res: Option<&HostedPlugin>,
    j: int,
)
    requires
        call_ensures(sole_plugin, (state,), res),
        0 <= j < state@.plugins.len(),
    ensures
        res matches Some(p) && state@.plugins.contains(p@) && !text::text_before(
            state@.plugins[j].id,
            p@.id,
        ),
{
    replies::law_sole_plugin_has_the_lowest_id(state@.plugins);
}

/// The manifest gives the version, and of every hosted plugin once what it is
/// called and serves, in the order of the ids.
pub proof fn law_manifest_is_complete(state: &AppState, res: ManifestResponse, i: int)
    requires
        call_ensures(manifest, (state,), res),
        0 <= i < state@.plugins.len(),
    ensures
        res.feeder_version@ == state@.version,
        res.plugins@.len() == state@.plugins.len(),
        exists|j: int|
            0 <= j < res.plugins@.len() && (#[trigger] res.plugins@[j]).id@ == state@.plugins[i].id
                && basics::texts_in(res.plugins@[j].served_file_types@)
                == state@.plugins[i].served_file_types && basics::texts_in(
                res.plugins@[j].served_content_kinds@,
            ) == state@.plugins[i].served_content_kinds,
        forall|a: int, b: int|
            0 <= a < b < res.plugins@.len() ==> !text::text_before(
                (#[trigger] res.plugins@[b]).id@,
                (#[trigger] res.plugins@[a]).id@,
            ),
{
    let list = serve::manifests(state@.plugins);
    let out = listing::views(res.plugins@);
    replies::law_listing_keeps_every_entry::<PluginManifest>(list, out, Seq::empty());
    replies::law_manifest_shows_what_is_served(state@.plugins, i);
    list.to_multiset_ensures();
    out.to_multiset_ensures();
    assert(list.contains(list[i]));
    assert(list.to_multiset().count(list[i]) > 0);
    assert(out.contains(list[i]));
    let j = choose|j: int| 0 <= j < out.len() && out[j] == list[i];
    assert(out[j] == res.plugins@[j]@);
    basics::lemma_texts_in(res.plugins@[j].served_file_types@);
    basics::lemma_texts_in(res.plugins@[j].served_content_kinds@);
    assert(res.plugins@[j].id@ == state@.plugins[i].id);
    assert forall|a: int, b: int| 0 <= a < b < res.plugins@.len() implies !text::text_before(
        (#[trigger] res.plugins@[b]).id@,
        (#[trigger] res.plugins@[a]).id@,
    ) by {
        assert(out[a] == res.plugins@[a]@ && out[b] == res.plugins@[b]@);
    }
}

/// The health report has every plugin, in the order of the ids, and is `ok` where
/// all are healthy and `degraded` where one is not.
pub proof fn law_health_is_reported(entries: Vec<PluginHealthEntry>, res: HealthResponse)
    requires
        call_ensures(health, (entries,), res),
    ensures
        (forall|i: int| 0 <= i < entries@.len() ==> (#[trigger] entries@[i]).health is Healthy)
            ==> res.status@ == "ok"@,
        (exists|i: int| 0 <= i < entries@.len() && (#[trigger] entries@[i]).health is Degraded)
            ==> res.status@ == "degraded"@,
        res.plugins@.len() == entries@.len(),
        listing::views(res.plugins@).to_multiset() == listing::views(entries@).to_multiset(),
        forall|a: int, b: int|
            0 <= a < b < res.plugins@.len() ==> !text::text_before(
                (#[trigger] res.plugins@[b]).id@,
                (#[trigger] res.plugins@[a]).id@,
            ),
{
    let list = listing::views(entries@);
    let out = listing::views(res.plugins@);
    replies::law_listing_keeps_every_entry::<PluginHealthEntry>(list, out, Seq::empty());
    replies::law_status_tells_of_every_plugin(list);
    if forall|i: int| 0 <= i < entries@.len() ==> (#[trigger] entries@[i]).health is Healthy {
        assert forall|i: int| 0 <= i < list.len() implies (#[trigger] list[i]).health is Healthy by {
            assert(entries@[i].health is Healthy);
        }
    }
    if exists|i: int| 0 <= i < entries@.len() && (#[trigger] entries@[i]).health is Degraded {
        let i = choose|i: int|
            0 <= i < entries@.len() && (#[trigger] entries@[i]).health is Degraded;
        assert(list[i].health is Degraded);
    }
    assert forall|a: int, b: int| 0 <= a < b < res.plugins@.len() implies !text::text_before(
        (#[trigger] res.plugins@[b]).id@,
        (#[trigger] res.plugins@[a]).id@,
    ) by {
        assert(out[a] == res.plugins@[a]@ && out[b] == res.plugins@[b]@);
    }
}

// --------------------------------------------------------------------- answers
/// What a plugin found is the answer, all of it and in order; its error is
/// replied as such.
pub proof fn law_search_result_is_answered(
    answer: Result<Vec<DiscoveryRecord>, GatewayError>,
    res: Result<QueryResponse, HttpReply>,
)
    requires
        call_ensures(query, (answer,), res),
    ensures
        match answer {
            Ok(records) => res matches Ok(found) && found.records@.len() == records@.len()
                && forall|i: int|
                0 <= i < records@.len() ==> (#[trigger] found.records@[i])@ == records@[i]@,
            Err(e) => res matches Err(reply) && replies_with(reply, e),
        },
{
    match answer {
        Ok(records) => {
            let a = types::record_views(records@);
            let b = types::record_views(res->Ok_0.records@);
            assert(a.len() == records@.len() && b.len() == res->Ok_0.records@.len());
            assert forall|i: int| 0 <= i < records@.len() implies (
            #[trigger] res->Ok_0.records@[i])@ == records@[i]@ by {
                assert(a[i] == b[i]);
            }
        },
        Err(e) => {
            replies::law_error_is_answered_by_its_kind(e@);
        },
    }
}

/// The files that a record was resolved to are the answer, each in its wire form
/// and in order; an error is replied as such.
pub proof fn law_outcomes_are_answered(
    answer: Result<Vec<HashOutcome>, GatewayError>,
    res: Result<ComputeResponse, HttpReply>,
)
    requires
        call_ensures(compute, (answer,), res),
    ensures
        match answer {
            Ok(outcomes) => res matches Ok(found) && found.outcomes@.len() == outcomes@.len()
                && forall|i: int|
                0 <= i < outcomes@.len() ==> (#[trigger] found.outcomes@[i])@
                    == serve::outcome_to_wire(outcomes@[i]@),
            Err(e) => res matches Err(reply) && replies_with(reply, e),
        },
{
    match answer {
        Ok(outcomes) => {
            let a = types::outcome_views(outcomes@);
            let b = listing::views(res->Ok_0.outcomes@);
            assert(a.len() == outcomes@.len() && b.len() == res->Ok_0.outcomes@.len());
            assert forall|i: int| 0 <= i < outcomes@.len() implies (
            #[trigger] res->Ok_0.outcomes@[i])@ == serve::outcome_to_wire(outcomes@[i]@) by {
                assert(b[i] == serve::outcome_to_wire(a[i]));
            }
        },
        Err(e) => {
            replies::law_error_is_answered_by_its_kind(e@);
        },
    }
}

/// Bytes that there are, and a stream that was opened, are handed on as they
/// are; what there is not is a 404, and an error is replied as such.
pub proof fn law_bytes_are_handed_on<S>(
    found: Result<Option<S>, GatewayError>,
    stored: Option<S>,
    opened: Result<S, GatewayError>,
    fetched: Result<S, HttpReply>,
    blobbed: Result<S, HttpReply>,
    streamed: Result<S, HttpReply>,
)
    requires
        call_ensures(fetch::<S>, (found,), fetched),
        call_ensures(blob::<S>, (stored,), blobbed),
        call_ensures(query_stream::<S>, (opened,), streamed),
    ensures
        match found {
            Ok(Some(bytes)) => fetched matches Ok(b) && b == bytes,
            Ok(None) => fetched matches Err(reply) && reply.status == 404 && reply.body@
                == "no bytes for record"@,
            Err(e) => fetched matches Err(reply) && replies_with(reply, e),
        },
        match stored {
            Some(bytes) => blobbed matches Ok(b) && b == bytes,
            None => blobbed matches Err(reply) && reply.status == 404 && reply.body@
                == "no such blob"@,
        },
        match opened {
            Ok(events) => streamed matches Ok(s) && s == events,
            Err(e) => streamed matches Err(reply) && replies_with(reply, e),
        },
{
    if let Err(e) = found {
        replies::law_error_is_answered_by_its_kind(e@);
    }
    if let Err(e) = opened {
        replies::law_error_is_answered_by_its_kind(e@);
    }
}

/// A stream begins open, and a replacement's line is its JSON and a line feed.
pub proof fn law_stream_begins_open(
    stream: EventStream,
    encoded: Option<Vec<u8>>,
    line: Vec<u8>,
)
    requires
        call_ensures(EventStream::new, (), stream),
        call_ensures(replacement_line, (encoded,), line),
    ensures
        stream.open,
        encoded matches Some(json) ==> line@ == json@.push(10u8),
        encoded is None ==> line@ == seq![10u8],
{
}

// --------------------------------------------------------------- configuration
/// Reading a document gives its settings under their names, the last of a name;
/// anything but an object is kept as it is.
pub proof fn law_documents_are_read(
    list: Vec<(String, ConfigValue)>,
    notation: String,
    object: Option<ConfigDocument>,
    other: Option<ConfigDocument>,
    nothing: Option<ConfigDocument>,
    at: int,
)
    requires
        call_ensures(document_of, (Some(JsonContent::Object(list)),), object),
        call_ensures(document_of, (Some(JsonContent::Other(notation)),), other),
        call_ensures(document_of, (None,), nothing),
        0 <= at < list@.len(),
        forall|i: int| at < i < list@.len() ==> (#[trigger] list@[i]).0@ != list@[at].0@,
    ensures
        object matches Some(ConfigDocument::Object(values)) && values@.contains_key(
            list@[at].0@,
        ) && values@[list@[at].0@] == list@[at].1@,
        other matches Some(ConfigDocument::Other(s)) && s@ == notation@,
        nothing is None,
{
    let views = config::member_views(list@);
    assert(views[at] == (list@[at].0@, list@[at].1@));
    assert forall|i: int| at < i < views.len() implies (#[trigger] views[i]).0 != list@[at].0@ by {
        assert(list@[i].0@ != list@[at].0@);
    }
    settings::law_last_member_counts(views, at, list@[at].0@, list@[at].1@);
}

/// Bytes are read as the document that their JSON is.
pub proof fn law_bytes_are_read_as_documents(bytes: &[u8], res: Option<ConfigDocument>)
    requires
        call_ensures(parse_document, (bytes,), res),
    ensures
        res is Some <==> config::json_content(bytes@) is Some,
        res matches Some(d) ==> Some(d@) == config::document_with(config::json_content(bytes@)),
{
}

/// The settings of a document are those of the object that it is, if it is one.
pub proof fn law_document_gives_its_settings(
    values: TextMap<ConfigValue>,
    notation: String,
    of_object: TextMap<ConfigValue>,
    of_other: TextMap<ConfigValue>,
    key: Seq<char>,
)
    requires
        call_ensures(ConfigDocument::settings, (&ConfigDocument::Object(values),), of_object),
        call_ensures(ConfigDocument::settings, (&ConfigDocument::Other(notation),), of_other),
    ensures
        of_object@ == values@,
        !of_other@.contains_key(key),
{
}

/// What is shown of a document: each plain field's value, and of each secret only
/// whether it is set.
pub proof fn law_redact_shows_plain_fields_only(
    document: &ConfigDocument,
    values: TextMap<ConfigValue>,
    schema: &ConfigSchema,
    res: TextMap<ConfigValue>,
    i: int,
)
    requires
        call_ensures(redact, (document, schema), res),
        *document == ConfigDocument::Object(values),
        0 <= i < schema.fields@.len(),
        forall|j: int|
            i < j < schema.fields@.len() ==> settings::shown_name((#[trigger] schema.fields@[j])@)
                != settings::shown_name(schema.fields@[i]@),
    ensures
        ({
            let key = schema.fields@[i].key@;
            let says_something = values@.contains_key(key) && !settings::says_nothing(values@[key]);
            &&& schema.fields@[i].kind is Plain && values@.contains_key(key) ==> res@.contains_key(
                key,
            ) && res@[key] == values@[key]
            &&& schema.fields@[i].kind is Secret ==> res@.contains_key(key + "_set"@) && res@[key
                + "_set"@] == config::ConfigValueView::Json(
                if says_something {
                    "true"@
                } else {
                    "false"@
                },
            )
        }),
{
    assert(schema@[i] == schema.fields@[i]@);
    assert forall|j: int| i < j < schema@.len() implies settings::shown_name(#[trigger] schema@[j])
        != settings::shown_name(schema@[i]) by {
        assert(schema@[j] == schema.fields@[j]@);
        assert(settings::shown_name(schema.fields@[j]@) != settings::shown_name(
            schema.fields@[i]@,
        ));
    }
    settings::law_declared_fields_are_shown(values@, schema@, i);
}

/// Under a name that no field is shown under, nothing is shown.
pub proof fn law_redact_shows_nothing_else(
    document: &ConfigDocument,
    schema: &ConfigSchema,
    res: TextMap<ConfigValue>,
    name: Seq<char>,
)
    requires
        call_ensures(redact, (document, schema), res),
        forall|i: int|
            0 <= i < schema.fields@.len() ==> settings::shown_name((#[trigger] schema.fields@[i])@)
                != name,
    ensures
        !res@.contains_key(name),
{
    assert forall|i: int| 0 <= i < schema@.len() implies settings::shown_name(#[trigger] schema@[i])
        != name by {
        assert(schema@[i] == schema.fields@[i]@);
        assert(settings::shown_name(schema.fields@[i]@) != name);
    }
    settings::law_nothing_else_is_shown(config::settings_in(document@), schema@, name);
}

/// A field with this key takes what is submitted for it.
pub open spec fn is_taken(
    schema: ConfigSchema,
    incoming: Map<Seq<char>, config::ConfigValueView>,
    key: Seq<char>,
) -> bool {
    exists|i: int|
        0 <= i < schema.fields@.len() && (#[trigger] schema.fields@[i]).key@ == key
            && incoming.contains_key(key) && (schema.fields@[i].kind is Plain
            || !settings::says_nothing(incoming[key]))
}

/// What is stored: the submitted value where a declared field takes it, and
/// everything else as it was.
pub proof fn law_merge_stores_what_fields_take(
    base: TextMap<ConfigValue>,
    incoming: TextMap<ConfigValue>,
    schema: &ConfigSchema,
    res: TextMap<ConfigValue>,
    key: Seq<char>,
)
    requires
        call_ensures(
            merge,
            (&ConfigDocument::Object(base), &ConfigDocument::Object(incoming), schema),
            res,
        ),
    ensures
        is_taken(*schema, incoming@, key) ==> res@.contains_key(key) && res@[key] == incoming@[key],
        !is_taken(*schema, incoming@, key) ==> res@.contains_key(key) == base@.contains_key(key)
            && (base@.contains_key(key) ==> res@[key] == base@[key]),
{
    settings::law_submission_changes_what_fields_take(base@, incoming@, schema@, key);
    let taken = exists|i: int|
        0 <= i < schema@.len() && (#[trigger] schema@[i]).key == key && settings::takes(
            incoming@,
            schema@[i],
        );
    if is_taken(*schema, incoming@, key) {
        let i = choose|i: int|
            0 <= i < schema.fields@.len() && (#[trigger] schema.fields@[i]).key@ == key
                && incoming@.contains_key(key) && (schema.fields@[i].kind is Plain
                || !settings::says_nothing(incoming@[key]));
        assert(schema@[i].key == key && settings::takes(incoming@, schema@[i]));
    }
    if taken {
        let i = choose|i: int|
            0 <= i < schema@.len() && (#[trigger] schema@[i]).key == key && settings::takes(
                incoming@,
                schema@[i],
            );
        assert(schema.fields@[i].key@ == key);
    }
}

/// The configuration in effect is the file's document, where there is one, and
/// else what the plugin runs with.
pub proof fn law_effective_configuration(
    state: &AppState,
    upstream_id: &str,
    document: ConfigDocument,
    with_file: ConfigDocument,
    without: ConfigDocument,
    i: int,
)
    requires
        serve::distinct_keys(state@.plugins),
        call_ensures(AppState::config_in_effect, (state, upstream_id, Some(document)), with_file),
        call_ensures(AppState::config_in_effect, (state, upstream_id, None), without),
        0 <= i < state@.plugins.len(),
        state@.plugins[i].key == upstream_id@,
    ensures
        with_file == document,
        without@ == state@.plugins[i].config_values,
{
    serve::law_requests_reach_their_plugin(state@.plugins, upstream_id@);
    replies::law_file_goes_before_the_plugin(
        state@.plugins,
        upstream_id@,
        document@,
        state@.plugins[i],
        Seq::empty(),
    );
}

/// A configuration file that can be parsed is in effect; one that cannot, and
/// none, leave what the plugin runs with.
pub proof fn law_configuration_file_is_in_effect(
    state: &AppState,
    upstream_id: &str,
    file: Option<Vec<u8>>,
    res: ConfigDocument,
    i: int,
)
    requires
        serve::distinct_keys(state@.plugins),
        call_ensures(AppState::effective_config, (state, upstream_id, file), res),
        0 <= i < state@.plugins.len(),
        state@.plugins[i].key == upstream_id@,
    ensures
        file matches Some(bytes) && config::json_content(bytes@) is Some ==> Some(res@)
            == config::document_with(config::json_content(file->0@)),
        !(file matches Some(bytes) && config::json_content(bytes@) is Some) ==> res@
            == state@.plugins[i].config_values,
{
    serve::law_requests_reach_their_plugin(state@.plugins, upstream_id@);
}

/// The answers of the configuration plane are about the sole plugin, whether the
/// file's document or its bytes are at hand: its declared fields, what is shown
/// of its settings, and what is stored of a submission, and where.
pub proof fn law_configuration_plane(
    state: &AppState,
    p: serve::HostedPluginView,
    persisted: Option<ConfigDocument>,
    file: Option<Vec<u8>>,
    incoming: &ConfigDocument,
    schema: ConfigSchema,
    shown: TextMap<ConfigValue>,
    shown_of_file: TextMap<ConfigValue>,
    stored: Result<ConfigSave, HttpReply>,
    stored_to_file: Result<ConfigSave, HttpReply>,
)
    requires
        serve::sole(state@.plugins) == Some(p),
        call_ensures(config_schema, (state,), schema),
        call_ensures(shown_config, (state, persisted), shown),
        call_ensures(config_values_get, (state, file), shown_of_file),
        call_ensures(merged_config, (state, persisted, incoming), stored),
        call_ensures(config_values_put, (state, file, incoming), stored_to_file),
    ensures
        schema@ == p.config_schema,
        persisted matches Some(d) ==> shown@ == config::redacted(
            config::settings_in(d@),
            p.config_schema,
        ),
        persisted matches Some(d) ==> (stored matches Ok(save) && save.values@ == config::merged(
            config::settings_in(d@),
            config::settings_in(incoming@),
            p.config_schema,
        ) && save.path@ == serve::config_file(state@.state_dir, p.id) && save.directory@
            == serve::plugin_dir(state@.state_dir, p.id) && requests::is_made_of(
            save.temporary@,
            seq![save.path@, ".tmp"@],
        )),
        persisted is Some && file is Some && config::document_with(
            config::json_content(file->0@),
        ) == Some(persisted->0@) ==> shown_of_file@ == shown@ && (stored_to_file matches Ok(save)
            && save.values@ == stored->Ok_0.values@ && save.path@ == stored->Ok_0.path@
            && save.directory@ == stored->Ok_0.directory@ && save.temporary@
            == stored->Ok_0.temporary@),
{
    let document = config::document_view(persisted);
    replies::law_configuration_is_the_sole_plugins(
        state@.plugins,
        state@.state_dir,
        document,
        incoming@,
        p,
        Seq::empty(),
    );
    if let Some(d) = persisted {
        replies::law_file_goes_before_the_plugin(state@.plugins, p.id, d@, p, Seq::empty());
    }
}

/// Without a file, what is shown and what is stored rest on what the plugin runs
/// with; without a plugin nothing is shown or declared, and a submission is
/// refused.
pub proof fn law_configuration_plane_without_a_file(
    state: &AppState,
    p: serve::HostedPluginView,
    incoming: &ConfigDocument,
    schema: ConfigSchema,
    shown: TextMap<ConfigValue>,
    stored: Result<ConfigSave, HttpReply>,
    name: Seq<char>,
)
    requires
        call_ensures(config_schema, (state,), schema),
        call_ensures(config_values_get, (state, None), shown),
        call_ensures(config_values_put, (state, None, incoming), stored),
    ensures
        serve::sole(state@.plugins) == Some(p) && serve::hosted(state@.plugins, p.id) == Some(p)
            ==> shown@ == config::redacted(
            config::settings_in(p.config_values),
            p.config_schema,
        ) && (stored matches Ok(save) && save.values@ == config::merged(
            config::settings_in(p.config_values),
            config::settings_in(incoming@),
            p.config_schema,
        )),
        state@.plugins.len() == 0 ==> schema@.len() == 0 && !shown@.contains_key(name) && (
        stored matches Err(reply) && reply.status == 404 && reply.body@
            == "feeder hosts no plugin"@),
{
    replies::law_sole_plugin_has_the_lowest_id(state@.plugins);
    replies::law_configuration_is_the_sole_plugins(
        state@.plugins,
        state@.state_dir,
        None,
        incoming@,
        p,
        name,
    );
}

/// Settings that were stored are reported so; else the reply names the step that
/// failed and the reason.
pub proof fn law_save_is_reported(outcome: SaveOutcome, res: Result<ConfigSaved, HttpReply>)
    requires
        call_ensures(config_saved, (outcome,), res),
    ensures
        match outcome {
            SaveOutcome::Saved => res matches Ok(saved) && saved.saved && saved.restart_required,
            SaveOutcome::NoDirectory(e) => res matches Err(reply) && reply.status == 500
                && requests::is_made_of(reply.body@, seq!["mkdir: "@, e@]),
            SaveOutcome::NotEncoded(e) => res matches Err(reply) && reply.status == 500
                && requests::is_made_of(reply.body@, seq!["serialize: "@, e@]),
            SaveOutcome::NotWritten(e) => res matches Err(reply) && reply.status == 500
                && requests::is_made_of(reply.body@, seq!["write config: "@, e@]),
        },
{
    replies::law_save_failure_names_its_step(outcome);
}

/// Written settings are read back as those settings, where every value is in the
/// notation that a JSON writer uses and the first name is not the reserved one.
pub proof fn law_written_settings_read_back(
    values: TextMap<ConfigValue>,
    res: Result<Vec<u8>, String>,
    save: ConfigSave,
    encoded: Result<Vec<u8>, String>,
)
    requires
        call_ensures(encode_settings, (&values,), res),
        call_ensures(ConfigSave::encode, (&save,), encoded),
        save.values@ == values@,
        config::reads_as_object(values@),
        config::all_canonical(values@),
    ensures
        res matches Ok(bytes) ==> config::document_with(config::json_content(bytes@)) == Some(
            config::ConfigDocumentView::Object(values@),
        ),
        encoded matches Ok(bytes) ==> forall|plugins: Seq<serve::HostedPluginView>, key: Seq<char>|
            #[trigger]
            serve::effective(plugins, key, serve::file_document(Some(bytes@)))
                == config::ConfigDocumentView::Object(values@),
{
}

// ----------------------------------------------------------------- in any case
/// The document that may stand in a file.
pub open spec fn document_in(persisted: Option<ConfigDocument>) -> Option<
    config::ConfigDocumentView,
> {
    match persisted {
        Some(d) => Some(d@),
        None => None,
    }
}

/// The document that the bytes of a file make, if they make one.
pub open spec fn document_in_bytes(file: Option<Vec<u8>>) -> Option<config::ConfigDocumentView> {
    match file {
        Some(bytes) => config::document_with(config::json_content(bytes@)),
        None => None,
    }
}

/// Whatever the state directory and the id are, the paths are joined part by
/// part.
pub proof fn law_plugin_paths_in_any_case(
    state: &AppState,
    state_dir: &str,
    id: &str,
    dir: String,
    file: String,
)
    requires
        call_ensures(cache_dir, (state_dir, id), dir),
        call_ensures(AppState::config_path, (state, id), file),
    ensures
        dir@ == serve::path_join(serve::path_join(state_dir@, "gateway"@), id@),
        file@ == serve::path_join(
            serve::path_join(serve::path_join(state@.state_dir, "gateway"@), id@),
            "config.json"@,
        ),
{
    replies::law_plugin_files_are_nested(state_dir@, id@);
    replies::law_plugin_files_are_nested(state@.state_dir, id@);
}

/// Whatever a document is, what is shown of it and what is stored over it rest on
/// its settings alone.
pub proof fn law_documents_count_by_their_settings(
    document: &ConfigDocument,
    incoming: &ConfigDocument,
    schema: &ConfigSchema,
    shown: TextMap<ConfigValue>,
    stored: TextMap<ConfigValue>,
    settings: TextMap<ConfigValue>,
)
    requires
        call_ensures(redact, (document, schema), shown),
        call_ensures(merge, (document, incoming, schema), stored),
        call_ensures(ConfigDocument::settings, (document,), settings),
    ensures
        shown@ == config::redacted(settings@, schema@),
        stored@ == config::merged(settings@, config::settings_in(incoming@), schema@),
        document is Other ==> settings@ == Map::<Seq<char>, config::ConfigValueView>::empty(),
        document matches ConfigDocument::Object(values) ==> settings@ == values@,
{
    if let ConfigDocument::Other(s) = *document {
        assert(settings@ =~= Map::<Seq<char>, config::ConfigValueView>::empty());
    }
}

/// A name that no member has is not among the settings of an object.
pub proof fn law_absent_settings_are_absent(
    list: Vec<(String, ConfigValue)>,
    object: Option<ConfigDocument>,
    name: Seq<char>,
)
    requires
        call_ensures(document_of, (Some(JsonContent::Object(list)),), object),
        forall|i: int| 0 <= i < list@.len() ==> (#[trigger] list@[i]).0@ != name,
    ensures
        object matches Some(ConfigDocument::Object(values)) && !values@.contains_key(name),
{
    let views = config::member_views(list@);
    assert forall|i: int| 0 <= i < views.len() implies (#[trigger] views[i]).0 != name by {
        assert(list@[i].0@ != name);
    }
    settings::law_absent_member_is_absent(views, name);
}

/// Whichever plugins are hosted and whatever the file holds, the configuration in
/// effect, what is shown of it and what is stored over it are those of the sole
/// plugin.
pub proof fn law_configuration_plane_in_any_case(
    state: &AppState,
    upstream_id: &str,
    persisted: Option<ConfigDocument>,
    file: Option<Vec<u8>>,
    incoming: &ConfigDocument,
    in_effect: ConfigDocument,
    of_file: ConfigDocument,
    shown: TextMap<ConfigValue>,
    shown_of_file: TextMap<ConfigValue>,
    stored: Result<ConfigSave, HttpReply>,
    stored_to_file: Result<ConfigSave, HttpReply>,
)
    requires
        call_ensures(AppState::config_in_effect, (state, upstream_id, persisted), in_effect),
        call_ensures(AppState::effective_config, (state, upstream_id, file), of_file),
        call_ensures(shown_config, (state, persisted), shown),
        call_ensures(config_values_get, (state, file), shown_of_file),
        call_ensures(merged_config, (state, persisted, incoming), stored),
        call_ensures(config_values_put, (state, file, incoming), stored_to_file),
    ensures
        in_effect@ == serve::effective(state@.plugins, upstream_id@, document_in(persisted)),
        of_file@ == serve::effective(state@.plugins, upstream_id@, document_in_bytes(file)),
        shown@ == serve::shown_settings(state@.plugins, document_in(persisted)),
        shown_of_file@ == serve::shown_settings(state@.plugins, document_in_bytes(file)),
        match serve::settings_to_store(
            state@.plugins,
            state@.state_dir,
            document_in(persisted),
            incoming@,
        ) {
            Ok(save) => stored matches Ok(s) && s@ == save,
            Err(reply) => stored matches Err(r) && r@ == reply,
        },
        match serve::settings_to_store(
            state@.plugins,
            state@.state_dir,
            document_in_bytes(file),
            incoming@,
        ) {
            Ok(save) => stored_to_file matches Ok(s) && s@ == save,
            Err(reply) => stored_to_file matches Err(r) && r@ == reply,
        },
{
}

} // verus!
