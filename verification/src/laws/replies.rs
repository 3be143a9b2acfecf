//! Laws of the HTTP contract: which plugin a request reaches, and what it is
//! answered.
use crate::config;
use crate::encoding;
use crate::laws::requests;
use crate::laws::texts;
use crate::listing;
use crate::listing::Listed;
use crate::query::{GatewaySearchEvent, GatewayWireError};
use crate::scihub;
use crate::serve;
use crate::serve::{HashKindDto, SaveOutcome, SetupOutcome};
use crate::text;
use crate::types;
use crate::types::{ConfigError, HashKind};
use vstd::prelude::*;

verus! {

// ------------------------------------------------------------------- the wire
/// A hash kind has its own name on the wire.
pub proof fn law_hash_kind_keeps_its_name(k: HashKind)
    ensures
        serve::kind_to_wire(k) is Midhash256 <==> k is Midhash256,
        serve::kind_to_wire(k) is Sha2_256 <==> k is Sha2_256,
        serve::kind_to_wire(k) is BtV1File <==> k is BtV1File,
        serve::kind_from_wire(HashKindDto::Midhash256) is Midhash256,
        serve::kind_from_wire(HashKindDto::Sha2_256) is Sha2_256,
        serve::kind_from_wire(HashKindDto::BtV1File) is BtV1File,
{
}

/// A hash kind is converted to the one of the same name, both ways.
pub proof fn law_hash_kind_is_converted(
    k: HashKind,
    w: HashKindDto,
    to_wire: HashKindDto,
    from_wire: HashKind,
)
    requires
        call_ensures(<HashKindDto as From<HashKind>>::from, (k,), to_wire),
        call_ensures(<HashKind as From<HashKindDto>>::from, (w,), from_wire),
    ensures
        to_wire is Midhash256 <==> k is Midhash256,
        to_wire is Sha2_256 <==> k is Sha2_256,
        to_wire is BtV1File <==> k is BtV1File,
        from_wire is Midhash256 <==> w is Midhash256,
        from_wire is Sha2_256 <==> w is Sha2_256,
        from_wire is BtV1File <==> w is BtV1File,
{
}

/// Each part of an outcome goes over the wire as itself, the bytes in base64;
/// an outcome without bytes has none on the wire. Outcomes go in their order.
pub proof fn law_outcome_is_sent_part_by_part(
    outcomes: Seq<types::HashOutcomeView>,
    i: int,
)
    requires
        0 <= i < outcomes.len(),
    ensures
        serve::outcomes_to_wire(outcomes).len() == outcomes.len(),
        ({
            let o = outcomes[i];
            let w = serve::outcomes_to_wire(outcomes)[i];
            &&& w == serve::outcome_to_wire(o)
            &&& w.hash == o.hash
            &&& w.hash_kind == serve::kind_to_wire(o.hash_kind)
            &&& w.file_extension == o.file_extension
            &&& w.record == o.record
            &&& o.bytes matches Some(bytes) ==> w.bytes_b64 == Some(encoding::base64_text(bytes))
            &&& o.bytes is None ==> w.bytes_b64 is None
        }),
{
}

/// Each kind of error is answered with its own status, and with its message or
/// how long to wait.
pub proof fn law_error_is_answered_by_its_kind(e: types::GatewayErrorView)
    ensures
        match e {
            types::GatewayErrorView::NotFound => serve::error_reply(e).status == 404
                && serve::error_reply(e).body == "not found"@,
            types::GatewayErrorView::RateLimited { retry_after_s } => serve::error_reply(e).status
                == 429 && requests::is_made_of(
                serve::error_reply(e).body,
                seq!["rate limited; retry in "@, text::decimal(retry_after_s as nat), "s"@],
            ),
            types::GatewayErrorView::Transient(s) => serve::error_reply(e).status == 502
                && serve::error_reply(e).body == s,
            types::GatewayErrorView::Permanent(s) => serve::error_reply(e).status == 422
                && serve::error_reply(e).body == s,
            types::GatewayErrorView::Internal(s) => serve::error_reply(e).status == 500
                && serve::error_reply(e).body == s,
        },
{
    if let types::GatewayErrorView::RateLimited { retry_after_s } = e {
        requests::law_error_in_words(e);
    }
}

// -------------------------------------------------------------------- plugins
/// A plugin that is hosted is reached under its key, whatever was hosted before;
/// it takes the place of the one with that key, and every other plugin is
/// reached as before.
pub proof fn law_hosted_plugin_is_reached(
    plugins: Seq<serve::HostedPluginView>,
    p: serve::HostedPluginView,
    key: Seq<char>,
)
    requires
        serve::distinct_keys(plugins),
    ensures
        serve::distinct_keys(serve::with_plugin(plugins, p)),
        serve::hosted(serve::with_plugin(plugins, p), p.key) == Some(p),
        key != p.key ==> serve::hosted(serve::with_plugin(plugins, p), key) == serve::hosted(
            plugins,
            key,
        ),
        serve::with_plugin(plugins, p).len() == plugins.len() + if serve::hosted(
            plugins,
            p.key,
        ) is Some {
            0int
        } else {
            1
        },
{
    let after = serve::with_plugin(plugins, p);
    assert(serve::distinct_keys(after)) by {
        if !serve::has_plugin(plugins, p.key) {
            assert forall|i: int, j: int| 0 <= i < j < after.len() implies (#[trigger] after[i]).key
                != (#[trigger] after[j]).key by {
                assert(after[i] == plugins[i]);
                if j < plugins.len() {
                    assert(after[j] == plugins[j]);
                }
            }
        }
    }
    serve::law_requests_reach_their_plugin(plugins, p.key);
    serve::law_requests_reach_their_plugin(after, p.key);
    serve::law_requests_reach_their_plugin(plugins, key);
    serve::law_requests_reach_their_plugin(after, key);
    if serve::has_plugin(plugins, p.key) {
        let i = choose|i: int| 0 <= i < plugins.len() && (#[trigger] plugins[i]).key == p.key;
        assert(after[i] == p);
        assert(serve::hosted(plugins, p.key) == Some(plugins[i]));
    } else {
        assert(after[plugins.len() as int] == p);
        assert forall|i: int| 0 <= i < plugins.len() implies (#[trigger] plugins[i]).key
            != p.key by {}
    }
    if key != p.key {
        if serve::has_plugin(plugins, key) {
            let i = choose|i: int| 0 <= i < plugins.len() && (#[trigger] plugins[i]).key == key;
            assert(serve::hosted(plugins, key) == Some(plugins[i]));
            assert(after[i] == plugins[i]);
        } else {
            assert forall|i: int| 0 <= i < plugins.len() implies (#[trigger] plugins[i]).key
                != key by {}
            assert forall|i: int| 0 <= i < after.len() implies (#[trigger] after[i]).key != key by {
                if i < plugins.len() {
                    assert(plugins[i].key != key);
                }
            }
        }
    }
}

/// A request for a plugin that is not hosted is told so, by the name that it
/// asked for.
pub proof fn law_unknown_plugin_is_named(key: Seq<char>)
    ensures
        serve::unknown_plugin(key).status == 404,
        requests::is_made_of(
            serve::unknown_plugin(key).body,
            seq!["no feeder plugin for upstream_id '"@, key, "'"@],
        ),
{
    let head = "no feeder plugin for upstream_id '"@;
    requests::lemma_made_of_one(head);
    requests::lemma_made_of(head, seq![head], key);
    requests::lemma_made_of(head + key, seq![head].push(key), "'"@);
    assert(seq![head].push(key).push("'"@) =~= seq![head, key, "'"@]);
}

/// The plugin that the configuration is about is one of those hosted, none has a
/// lower id, and none before it has the same one; without plugins there is none.
pub proof fn law_sole_plugin_has_the_lowest_id(plugins: Seq<serve::HostedPluginView>)
    ensures
        plugins.len() == 0 ==> serve::sole(plugins) is None,
        plugins.len() > 0 ==> exists|i: int|
            0 <= i < plugins.len() && serve::sole(plugins) == Some(#[trigger] plugins[i]) && (
            forall|j: int|
                0 <= j < plugins.len() ==> !text::text_before(
                    (#[trigger] plugins[j]).id,
                    plugins[i].id,
                )) && (forall|j: int|
                0 <= j < i ==> (#[trigger] plugins[j]).id != plugins[i].id),
    decreases plugins.len(),
{
    if plugins.len() > 0 {
        let before = plugins.drop_last();
        let n = plugins.len() - 1;
        let last = plugins[n];
        law_sole_plugin_has_the_lowest_id(before);
        if before.len() == 0 {
            text::lemma_before_irreflexive(last.id);
            assert(serve::sole(plugins) == Some(plugins[0]));
        } else {
            let i = choose|i: int|
                0 <= i < before.len() && serve::sole(before) == Some(#[trigger] before[i]) && (
                forall|j: int|
                    0 <= j < before.len() ==> !text::text_before(
                        (#[trigger] before[j]).id,
                        before[i].id,
                    )) && (forall|j: int|
                    0 <= j < i ==> (#[trigger] before[j]).id != before[i].id);
            assert(plugins[i] == before[i]);
            let p = before[i];
            if text::text_before(last.id, p.id) {
                assert forall|j: int| 0 <= j < plugins.len() implies !text::text_before(
                    (#[trigger] plugins[j]).id,
                    last.id,
                ) by {
                    if j < n {
                        assert(before[j] == plugins[j]);
                        if text::text_before(plugins[j].id, last.id) {
                            text::lemma_before_transitive(plugins[j].id, last.id, p.id);
                        }
                    } else {
                        text::lemma_before_irreflexive(last.id);
                    }
                }
                assert forall|j: int| 0 <= j < n implies (#[trigger] plugins[j]).id != last.id by {
                    assert(before[j] == plugins[j]);
                }
                assert(serve::sole(plugins) == Some(plugins[n]));
            } else {
                assert forall|j: int| 0 <= j < plugins.len() implies !text::text_before(
                    (#[trigger] plugins[j]).id,
                    p.id,
                ) by {
                    if j < n {
                        assert(before[j] == plugins[j]);
                    }
                }
                assert forall|j: int| 0 <= j < i implies (#[trigger] plugins[j]).id != p.id by {
                    assert(before[j] == plugins[j]);
                }
                assert(serve::sole(plugins) == Some(plugins[i]));
            }
        }
    }
}

// ------------------------------------------------------------------- listings
proof fn lemma_count_by_id<T: Listed>(list: Seq<T::V>, x: T::V)
    ensures
        list.to_multiset().count(x) == listing::with_id::<T>(
            list,
            T::id_of(x),
        ).to_multiset().count(x),
    decreases list.len(),
{
    broadcast use vstd::seq_lib::group_to_multiset_ensures;

    if list.len() > 0 {
        let before = list.drop_last();
        let last = list.last();
        lemma_count_by_id::<T>(before, x);
        assert(before.push(last) =~= list);
        let kept = listing::with_id::<T>(before, T::id_of(x));
        assert(list.to_multiset() =~= before.to_multiset().insert(last));
        assert(kept.push(last).to_multiset() =~= kept.to_multiset().insert(last));
    }
}

proof fn lemma_with_id_is_a_filter<T: Listed>(list: Seq<T::V>, id: Seq<char>)
    ensures
        listing::with_id::<T>(list, id) == list.filter(|x: T::V| T::id_of(x) == id),
    decreases list.len(),
{
    reveal(Seq::filter);
    if list.len() == 0 {
        assert(listing::with_id::<T>(list, id) =~= list.filter(|x: T::V| T::id_of(x) == id));
    } else {
        lemma_with_id_is_a_filter::<T>(list.drop_last(), id);
    }
}

/// A listing by id has every entry as often as it was given, no entry stands
/// behind one with a greater id, and entries with the same id stay in their
/// order.
pub proof fn law_listing_keeps_every_entry<T: Listed>(
    list: Seq<T::V>,
    out: Seq<T::V>,
    id: Seq<char>,
)
    requires
        listing::listing_of::<T>(list, out),
    ensures
        out.len() == list.len(),
        out.to_multiset() == list.to_multiset(),
        forall|i: int, j: int|
            0 <= i < j < out.len() ==> !text::text_before(
                T::id_of(#[trigger] out[j]),
                T::id_of(#[trigger] out[i]),
            ),
        out.filter(|x: T::V| T::id_of(x) == id) == list.filter(|x: T::V| T::id_of(x) == id),
{
    broadcast use vstd::seq_lib::group_to_multiset_ensures;

    assert forall|x: T::V| #[trigger] out.to_multiset().count(x) == list.to_multiset().count(x) by {
        lemma_count_by_id::<T>(out, x);
        lemma_count_by_id::<T>(list, x);
        assert(listing::with_id::<T>(out, T::id_of(x)) == listing::with_id::<T>(
            list,
            T::id_of(x),
        ));
    }
    assert(out.to_multiset() =~= list.to_multiset());
    out.to_multiset_ensures();
    list.to_multiset_ensures();
    lemma_with_id_is_a_filter::<T>(out, id);
    lemma_with_id_is_a_filter::<T>(list, id);
    assert(listing::with_id::<T>(out, id) == listing::with_id::<T>(list, id));
}

/// The manifest shows of each hosted plugin its own id and what it serves.
pub proof fn law_manifest_shows_what_is_served(plugins: Seq<serve::HostedPluginView>, i: int)
    requires
        0 <= i < plugins.len(),
    ensures
        serve::manifests(plugins).len() == plugins.len(),
        serve::manifests(plugins)[i].id == plugins[i].id,
        serve::manifests(plugins)[i].served_file_types == plugins[i].served_file_types,
        serve::manifests(plugins)[i].served_content_kinds == plugins[i].served_content_kinds,
{
}

/// The status is `ok` where every plugin is healthy, however many there are, and
/// `degraded` where one is not.
pub proof fn law_status_tells_of_every_plugin(entries: Seq<serve::PluginHealthEntryView>)
    ensures
        (forall|i: int| 0 <= i < entries.len() ==> (#[trigger] entries[i]).health is Healthy)
            ==> serve::status_text(serve::all_healthy(entries)) == "ok"@,
        (exists|i: int|
            0 <= i < entries.len() && (#[trigger] entries[i]).health is Degraded)
            ==> serve::status_text(serve::all_healthy(entries)) == "degraded"@,
{
}

// ---------------------------------------------------------------------- paths
/// What joining puts behind a base: a separator where it does not end in one.
pub open spec fn separator_behind(base: Seq<char>) -> Seq<char> {
    if base.len() > 0 && base.last() != '/' {
        seq!['/']
    } else {
        Seq::empty()
    }
}

/// Joining paths puts the part behind the base, with one separator between them
/// where the base does not end in one; an absolute part stands alone.
pub proof fn law_paths_are_joined(base: Seq<char>, part: Seq<char>)
    ensures
        part.len() > 0 && part[0] == '/' ==> serve::path_join(base, part) == part,
        !(part.len() > 0 && part[0] == '/') ==> requests::is_made_of(
            serve::path_join(base, part),
            seq![base, separator_behind(base), part],
        ),
{
    if !(part.len() > 0 && part[0] == '/') {
        lemma_three_parts(base, separator_behind(base), part);
        assert(serve::path_join(base, part) =~= base + separator_behind(base) + part);
    }
}

proof fn lemma_three_parts(a: Seq<char>, b: Seq<char>, c: Seq<char>)
    ensures
        requests::is_made_of(a + b + c, seq![a, b, c]),
{
    lemma_two_parts(a, b);
    requests::lemma_made_of(a + b, seq![a, b], c);
    assert(seq![a, b].push(c) =~= seq![a, b, c]);
}

/// A plugin's directory and its configuration file lie under the state
/// directory: `<state>/gateway/<id>` and `config.json` in it.
pub proof fn law_plugin_files_lie_under_the_state(state_dir: Seq<char>, id: Seq<char>)
    requires
        state_dir.len() > 0,
        state_dir.last() != '/',
        id.len() > 0,
        id[0] != '/',
        id.last() != '/',
    ensures
        requests::is_made_of(
            serve::plugin_dir(state_dir, id),
            seq![state_dir, "/gateway/"@, id],
        ),
        requests::is_made_of(
            serve::config_file(state_dir, id),
            seq![state_dir, "/gateway/"@, id, "/config.json"@],
        ),
{
    reveal_strlit("gateway");
    reveal_strlit("/gateway/");
    reveal_strlit("config.json");
    reveal_strlit("/config.json");
    let root = serve::path_join(state_dir, "gateway"@);
    assert(root.last() == "gateway"@.last());
    assert("gateway"@.last() == 'y');
    assert(root.push('/') =~= state_dir + "/gateway/"@);
    let dir = serve::plugin_dir(state_dir, id);
    assert(dir =~= state_dir + "/gateway/"@ + id);
    assert(dir.last() == id.last());
    let file = serve::config_file(state_dir, id);
    assert(file =~= dir + "/config.json"@);
    requests::lemma_made_of_one(state_dir);
    requests::lemma_made_of(state_dir, seq![state_dir], "/gateway/"@);
    let p2 = seq![state_dir].push("/gateway/"@);
    requests::lemma_made_of(state_dir + "/gateway/"@, p2, id);
    assert(p2.push(id) =~= seq![state_dir, "/gateway/"@, id]);
    requests::lemma_made_of(dir, p2.push(id), "/config.json"@);
    assert(p2.push(id).push("/config.json"@) =~= seq![
        state_dir,
        "/gateway/"@,
        id,
        "/config.json"@,
    ]);
}

/// Whatever the state directory and the id are, the directory is the id's under
/// `gateway` under the state directory, and the file stands in the directory.
pub proof fn law_plugin_files_are_nested(state_dir: Seq<char>, id: Seq<char>)
    ensures
        serve::plugin_dir(state_dir, id) == serve::path_join(
            serve::path_join(state_dir, "gateway"@),
            id,
        ),
        serve::config_file(state_dir, id) == serve::path_join(
            serve::plugin_dir(state_dir, id),
            "config.json"@,
        ),
{
}

// -------------------------------------------------------------- configuration
/// The configuration in effect is the document in the file, where there is one,
/// whatever it is; else what the plugin runs with; and nothing without a plugin.
pub proof fn law_file_goes_before_the_plugin(
    plugins: Seq<serve::HostedPluginView>,
    key: Seq<char>,
    document: config::ConfigDocumentView,
    p: serve::HostedPluginView,
    name: Seq<char>,
)
    ensures
        serve::effective(plugins, key, Some(document)) == document,
        serve::hosted(plugins, key) == Some(p) ==> serve::effective(plugins, key, None)
            == p.config_values,
        serve::hosted(plugins, key) is None ==> !config::settings_in(
            serve::effective(plugins, key, None),
        ).contains_key(name),
        serve::file_document(None) is None,
{
}

/// The document in a file is what its JSON holds.
pub proof fn law_file_is_read_as_json(bytes: Seq<u8>)
    ensures
        serve::file_document(Some(bytes)) == config::document_with(config::json_content(bytes)),
{
}

/// What is shown, and what is stored of a submission, is about the plugin with
/// the lowest id: its declared fields and the settings in effect for it. The
/// settings go to its file, by way of a temporary one beside it. Without a
/// plugin nothing is shown, and a submission is refused.
pub proof fn law_configuration_is_the_sole_plugins(
    plugins: Seq<serve::HostedPluginView>,
    state_dir: Seq<char>,
    persisted: Option<config::ConfigDocumentView>,
    incoming: config::ConfigDocumentView,
    p: serve::HostedPluginView,
    name: Seq<char>,
)
    ensures
        serve::sole(plugins) == Some(p) ==> {
            let current = config::settings_in(serve::effective(plugins, p.id, persisted));
            let stored = serve::settings_to_store(plugins, state_dir, persisted, incoming);
            &&& serve::shown_settings(plugins, persisted) == config::redacted(
                current,
                p.config_schema,
            )
            &&& stored is Ok
            &&& stored->Ok_0.values == config::merged(
                current,
                config::settings_in(incoming),
                p.config_schema,
            )
            &&& stored->Ok_0.path == serve::config_file(state_dir, p.id)
            &&& stored->Ok_0.directory == serve::plugin_dir(state_dir, p.id)
            &&& requests::is_made_of(stored->Ok_0.temporary, seq![stored->Ok_0.path, ".tmp"@])
        },
        serve::sole(plugins) is None ==> {
            let stored = serve::settings_to_store(plugins, state_dir, persisted, incoming);
            &&& !serve::shown_settings(plugins, persisted).contains_key(name)
            &&& stored is Err
            &&& stored->Err_0.status == 404
            &&& stored->Err_0.body == "feeder hosts no plugin"@
        },
{
    if serve::sole(plugins) == Some(p) {
        let path = serve::config_file(state_dir, p.id);
        requests::lemma_made_of_one(path);
        requests::lemma_made_of(path, seq![path], ".tmp"@);
        assert(seq![path].push(".tmp"@) =~= seq![path, ".tmp"@]);
    }
}

/// Once submitted settings are stored, they are the ones in effect: what is shown
/// then is shown of the stored values.
pub proof fn law_stored_settings_take_effect(
    plugins: Seq<serve::HostedPluginView>,
    state_dir: Seq<char>,
    persisted: Option<config::ConfigDocumentView>,
    incoming: config::ConfigDocumentView,
    p: serve::HostedPluginView,
)
    requires
        serve::sole(plugins) == Some(p),
    ensures
        serve::settings_to_store(plugins, state_dir, persisted, incoming) matches Ok(save)
            && serve::shown_settings(
            plugins,
            Some(config::ConfigDocumentView::Object(save.values)),
        ) == config::redacted(save.values, p.config_schema),
{
}

/// A failure to store settings is told by the step that failed and its reason;
/// there is none where they were stored.
pub proof fn law_save_failure_names_its_step(outcome: SaveOutcome)
    ensures
        match outcome {
            SaveOutcome::Saved => serve::save_failure(outcome) is None,
            SaveOutcome::NoDirectory(e) => serve::save_failure(outcome) matches Some(m)
                && requests::is_made_of(m, seq!["mkdir: "@, e@]),
            SaveOutcome::NotEncoded(e) => serve::save_failure(outcome) matches Some(m)
                && requests::is_made_of(m, seq!["serialize: "@, e@]),
            SaveOutcome::NotWritten(e) => serve::save_failure(outcome) matches Some(m)
                && requests::is_made_of(m, seq!["write config: "@, e@]),
        },
{
    match outcome {
        SaveOutcome::Saved => {},
        SaveOutcome::NoDirectory(e) => {
            lemma_two_parts("mkdir: "@, e@);
        },
        SaveOutcome::NotEncoded(e) => {
            lemma_two_parts("serialize: "@, e@);
        },
        SaveOutcome::NotWritten(e) => {
            lemma_two_parts("write config: "@, e@);
        },
    }
}

proof fn lemma_two_parts(a: Seq<char>, b: Seq<char>)
    ensures
        requests::is_made_of(a + b, seq![a, b]),
{
    requests::lemma_made_of_one(a);
    requests::lemma_made_of(a, seq![a], b);
    assert(seq![a].push(b) =~= seq![a, b]);
}

// -------------------------------------------------------------------- streams
/// A body of lines is each line's contents and a line feed, one after the other.
pub proof fn law_lines_follow_each_other(a: Seq<Seq<u8>>, b: Seq<Seq<u8>>, line: Seq<u8>)
    ensures
        serve::ndjson(Seq::empty()).len() == 0,
        serve::ndjson(seq![line]) == line.push(10u8),
        serve::ndjson(a + b) == serve::ndjson(a) + serve::ndjson(b),
    decreases b.len(),
{
    assert(seq![line].drop_last() =~= Seq::<Seq<u8>>::empty());
    assert(serve::ndjson(seq![line].drop_last()) =~= Seq::empty());
    assert(serve::ndjson(seq![line]) =~= line.push(10u8));
    if b.len() == 0 {
        assert(a + b =~= a);
        assert(serve::ndjson(a + b) =~= serve::ndjson(a) + serve::ndjson(b));
    } else {
        law_lines_follow_each_other(a, b.drop_last(), line);
        assert((a + b).drop_last() =~= a + b.drop_last());
        assert((a + b).last() == b.last());
        assert(serve::ndjson(a + b) =~= serve::ndjson(a) + serve::ndjson(b));
    }
}

/// A body goes on exactly as long as every event could be encoded.
pub proof fn law_body_goes_on_until_a_failure(events: Seq<Result<Seq<u8>, Seq<u8>>>)
    ensures
        serve::sent(events).0 <==> forall|i: int|
            0 <= i < events.len() ==> (#[trigger] events[i]) is Ok,
    decreases events.len(),
{
    if events.len() > 0 {
        let before = events.drop_last();
        law_body_goes_on_until_a_failure(before);
        assert(events[events.len() - 1] == events.last());
        if forall|i: int| 0 <= i < before.len() ==> (#[trigger] before[i]) is Ok {
            assert forall|i: int| 0 <= i < events.len() - 1 implies (#[trigger] events[i]) is Ok by {
                assert(before[i] == events[i]);
            }
        } else {
            let i = choose|i: int| 0 <= i < before.len() && !((#[trigger] before[i]) is Ok);
            assert(!(events[i] is Ok));
        }
    }
}

/// The event that takes another's place is an internal error that gives the
/// reason.
pub proof fn law_encoding_failure_gives_the_reason(event: GatewaySearchEvent, reason: Seq<char>)
    requires
        serve::tells_encoding_failure(event, reason),
    ensures
        event matches GatewaySearchEvent::Error(GatewayWireError::Internal(m))
            && requests::is_made_of(m@, seq!["event serialize: "@, reason]),
{
    lemma_two_parts("event serialize: "@, reason);
}

// ---------------------------------------------------------------- starting up
/// Before any plugin is set up, none is kept; one that is set up is kept under
/// its id, in the place of an earlier one, and the others stay kept.
pub proof fn law_configured_plugin_is_kept(
    state_dir: Seq<char>,
    before: Seq<serve::SetupView>,
    next: serve::SetupView,
    kept: Map<Seq<char>, usize>,
    id: Seq<char>,
)
    requires
        serve::survivors(state_dir, before) == Ok::<Map<Seq<char>, usize>, Seq<char>>(kept),
        next.outcome matches SetupOutcome::Configured(Ok(_)),
    ensures
        !serve::survivors(state_dir, Seq::empty())->Ok_0.contains_key(id),
        serve::survivors(state_dir, Seq::empty()) is Ok,
        serve::survivors(state_dir, before.push(next)) matches Ok(after) && after.contains_key(
            next.id,
        ) && after[next.id] == next.index && (id != next.id ==> after.contains_key(id)
            == kept.contains_key(id) && (kept.contains_key(id) ==> after[id] == kept[id])),
{
    assert(before.push(next).drop_last() =~= before);
}

/// The first plugin that cannot be set up for another reason than a missing
/// setting stops the start, and its own message tells why, whatever comes after.
pub proof fn law_first_failure_is_told(
    state_dir: Seq<char>,
    before: Seq<serve::SetupView>,
    failed: serve::SetupView,
    after: Seq<serve::SetupView>,
)
    requires
        serve::survivors(state_dir, before) is Ok,
        failed.outcome matches SetupOutcome::NoDirectory(_) || failed.outcome matches
            SetupOutcome::Configured(Err(ConfigError::Other(_))),
    ensures
        match failed.outcome {
            SetupOutcome::NoDirectory(e) => serve::survivors(
                state_dir,
                before.push(failed) + after,
            ) matches Err(m) && requests::is_made_of(
                m,
                seq![
                    "create cache dir "@,
                    serve::plugin_dir(state_dir, failed.id),
                    " for "@,
                    failed.id,
                    ": "@,
                    e@,
                ],
            ),
            SetupOutcome::Configured(Err(ConfigError::Other(message))) => serve::survivors(
                state_dir,
                before.push(failed) + after,
            ) == Err::<Map<Seq<char>, usize>, Seq<char>>(message@),
            _ => true,
        },
    decreases after.len(),
{
    if after.len() == 0 {
        assert(before.push(failed) + after =~= before.push(failed));
        assert(before.push(failed).drop_last() =~= before);
        if let SetupOutcome::NoDirectory(e) = failed.outcome {
            let dir = serve::plugin_dir(state_dir, failed.id);
            let p1 = seq!["create cache dir "@];
            let p2 = p1.push(dir);
            let p3 = p2.push(" for "@);
            let p4 = p3.push(failed.id);
            let p5 = p4.push(": "@);
            let s2 = "create cache dir "@ + dir;
            let s3 = s2 + " for "@;
            let s4 = s3 + failed.id;
            let s5 = s4 + ": "@;
            requests::lemma_made_of_one("create cache dir "@);
            requests::lemma_made_of("create cache dir "@, p1, dir);
            requests::lemma_made_of(s2, p2, " for "@);
            requests::lemma_made_of(s3, p3, failed.id);
            requests::lemma_made_of(s4, p4, ": "@);
            requests::lemma_made_of(s5, p5, e@);
            assert(p5.push(e@) =~= seq![
                "create cache dir "@,
                dir,
                " for "@,
                failed.id,
                ": "@,
                e@,
            ]);
        }
    } else {
        law_first_failure_is_told(state_dir, before, failed, after.drop_last());
        assert((before.push(failed) + after).drop_last() =~= before.push(failed)
            + after.drop_last());
    }
}

// --------------------------------------------------------------------- mirrors
/// Each entry of the list of mirrors that is not blank is a mirror, without the
/// whitespace around it, in the order of the list; blank ones are none.
pub proof fn law_mirrors_are_listed(
    a: Seq<Seq<char>>,
    b: Seq<Seq<char>>,
    piece: Seq<char>,
    core: Seq<char>,
)
    requires
        texts::is_core(piece, core),
    ensures
        scihub::listed_mirrors(Seq::empty()).len() == 0,
        core.len() > 0 ==> scihub::listed_mirrors(seq![piece]) == seq![core],
        core.len() == 0 ==> scihub::listed_mirrors(seq![piece]).len() == 0,
        scihub::listed_mirrors(a + b) == scihub::listed_mirrors(a) + scihub::listed_mirrors(b),
    decreases b.len(),
{
    texts::law_trim(piece);
    texts::law_core_is_unique(piece, core, text::trimmed(piece));
    assert(seq![piece].drop_last() =~= Seq::<Seq<char>>::empty());
    assert(scihub::listed_mirrors(seq![piece].drop_last()) =~= Seq::empty());
    if core.len() > 0 {
        assert(scihub::listed_mirrors(seq![piece]) =~= seq![core]);
    }
    if b.len() == 0 {
        assert(a + b =~= a);
        assert(scihub::listed_mirrors(a + b) =~= scihub::listed_mirrors(a)
            + scihub::listed_mirrors(b));
    } else {
        law_mirrors_are_listed(a, b.drop_last(), piece, core);
        assert((a + b).drop_last() =~= a + b.drop_last());
        assert((a + b).last() == b.last());
        assert(scihub::listed_mirrors(a + b) =~= scihub::listed_mirrors(a)
            + scihub::listed_mirrors(b));
    }
}

} // verus!
