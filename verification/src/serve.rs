//! The feeder's HTTP contract: what each request is answered.
use crate::config;
use crate::config::{
    encode_settings, merge, parse_document, redact, ConfigDocument, ConfigSchema, ConfigValue,
};
use crate::encoding;
use crate::encoding::base64_encode;
use crate::listing;
use crate::listing::{sort_by_id, Listed};
use crate::query::{GatewayQuery, GatewaySearchEvent, GatewayWireError};
use crate::text;
use crate::text::{decimal_text, precedes, same_text};
use crate::text_map::TextMap;
use crate::types;
use crate::types::{
    ConfigError, DiscoveryRecord, GatewayError, HashKind, HashOutcome, PluginHealth,
};
use vstd::prelude::*;

verus! {

// -------------------------------------------------------------------- hash kinds
/// A [`HashKind`] as it goes over the wire.
#[derive(Debug, Clone, Copy, PartialEq, Eq, Structural)]
pub enum HashKindDto {
    Midhash256,
    Sha2_256,
    BtV1File,
}

/// The wire form of a hash kind.
pub open spec fn kind_to_wire(k: HashKind) -> HashKindDto {
    match k {
        HashKind::Midhash256 => HashKindDto::Midhash256,
        HashKind::Sha2_256 => HashKindDto::Sha2_256,
        HashKind::BtV1File => HashKindDto::BtV1File,
    }
}

/// The hash kind that a wire form stands for.
pub open spec fn kind_from_wire(k: HashKindDto) -> HashKind {
    match k {
        HashKindDto::Midhash256 => HashKind::Midhash256,
        HashKindDto::Sha2_256 => HashKind::Sha2_256,
        HashKindDto::BtV1File => HashKind::BtV1File,
    }
}

impl From<HashKind> for HashKindDto {
    fn from(k: HashKind) -> (res: HashKindDto) {
        match k {
            HashKind::Midhash256 => HashKindDto::Midhash256,
            HashKind::Sha2_256 => HashKindDto::Sha2_256,
            HashKind::BtV1File => HashKindDto::BtV1File,
        }
    }
}

impl vstd::std_specs::convert::FromSpecImpl<HashKind> for HashKindDto {
    open spec fn obeys_from_spec() -> bool {
        true
    }

    open spec fn from_spec(k: HashKind) -> HashKindDto {
        kind_to_wire(k)
    }
}

impl From<HashKindDto> for HashKind {
    fn from(k: HashKindDto) -> (res: HashKind) {
        match k {
            HashKindDto::Midhash256 => HashKind::Midhash256,
            HashKindDto::Sha2_256 => HashKind::Sha2_256,
            HashKindDto::BtV1File => HashKind::BtV1File,
        }
    }
}

impl vstd::std_specs::convert::FromSpecImpl<HashKindDto> for HashKind {
    open spec fn obeys_from_spec() -> bool {
        true
    }

    open spec fn from_spec(k: HashKindDto) -> HashKind {
        kind_from_wire(k)
    }
}

/// A hash kind and its wire form stand for each other, both ways.
pub proof fn law_hash_kind_round_trip(k: HashKind, w: HashKindDto)
    ensures
        kind_from_wire(kind_to_wire(k)) == k,
        kind_to_wire(kind_from_wire(w)) == w,
{
}

// ------------------------------------------------------------ requests and answers
/// What one plugin serves.
#[derive(Debug, Clone)]
pub struct PluginManifest {
    pub id: String,
    pub served_file_types: Vec<String>,
    pub served_content_kinds: Vec<String>,
}

/// The contents of a [`PluginManifest`].
pub struct PluginManifestView {
    pub id: Seq<char>,
    pub served_file_types: Seq<Seq<char>>,
    pub served_content_kinds: Seq<Seq<char>>,
}

impl View for PluginManifest {
    type V = PluginManifestView;

    open spec fn view(&self) -> PluginManifestView {
        PluginManifestView {
            id: self.id@,
            served_file_types: text::texts(self.served_file_types@),
            served_content_kinds: text::texts(self.served_content_kinds@),
        }
    }
}

impl Listed for PluginManifest {
    open spec fn id_of(contents: PluginManifestView) -> Seq<char> {
        contents.id
    }

    fn listed_id(&self) -> (res: &str) {
        self.id.as_str()
    }
}

/// The answer to `GET /manifest`.
#[derive(Debug, Clone)]
pub struct ManifestResponse {
    pub feeder_version: String,
    pub plugins: Vec<PluginManifest>,
}

/// How one plugin is doing.
#[derive(Debug, Clone)]
pub struct PluginHealthEntry {
    pub id: String,
    pub health: PluginHealth,
}

/// The contents of a [`PluginHealthEntry`].
pub struct PluginHealthEntryView {
    pub id: Seq<char>,
    pub health: PluginHealth,
}

impl View for PluginHealthEntry {
    type V = PluginHealthEntryView;

    open spec fn view(&self) -> PluginHealthEntryView {
        PluginHealthEntryView { id: self.id@, health: self.health }
    }
}

impl Listed for PluginHealthEntry {
    open spec fn id_of(contents: PluginHealthEntryView) -> Seq<char> {
        contents.id
    }

    fn listed_id(&self) -> (res: &str) {
        self.id.as_str()
    }
}

/// The answer to `GET /health`.
#[derive(Debug, Clone)]
pub struct HealthResponse {
    pub status: String,
    pub plugins: Vec<PluginHealthEntry>,
}

/// The body of `POST /query` and `POST /query_stream`.
#[derive(Debug, Clone)]
pub struct QueryRequest {
    pub upstream_id: String,
    pub query: GatewayQuery,
    pub max_results: u32,
}

/// The answer to `POST /query`.
#[derive(Debug, Clone)]
pub struct QueryResponse {
    pub records: Vec<DiscoveryRecord>,
}

/// The body of `POST /compute`.
#[derive(Debug, Clone)]
pub struct ComputeRequest {
    pub upstream_id: String,
    pub record_id: String,
}

/// One resolved file on the wire. The bytes travel in base64; an outcome
/// without bytes has none here either.
#[derive(Debug, Clone)]
pub struct OutcomeDto {
    pub hash: String,
    pub hash_kind: HashKindDto,
    pub file_extension: Option<String>,
    pub record: Option<DiscoveryRecord>,
    pub bytes_b64: Option<String>,
}

/// The contents of an [`OutcomeDto`].
pub struct OutcomeDtoView {
    pub hash: Seq<char>,
    pub hash_kind: HashKindDto,
    pub file_extension: Option<Seq<char>>,
    pub record: Option<types::DiscoveryRecordView>,
    pub bytes_b64: Option<Seq<char>>,
}

impl View for OutcomeDto {
    type V = OutcomeDtoView;

    open spec fn view(&self) -> OutcomeDtoView {
        OutcomeDtoView {
            hash: self.hash@,
            hash_kind: self.hash_kind,
            file_extension: types::opt_text(self.file_extension),
            record: match self.record {
                Some(r) => Some(r@),
                None => None,
            },
            bytes_b64: types::opt_text(self.bytes_b64),
        }
    }
}

/// The answer to `POST /compute`.
#[derive(Debug, Clone)]
pub struct ComputeResponse {
    pub outcomes: Vec<OutcomeDto>,
}

/// The wire form of an outcome.
pub open spec fn outcome_to_wire(o: types::HashOutcomeView) -> OutcomeDtoView {
    OutcomeDtoView {
        hash: o.hash,
        hash_kind: kind_to_wire(o.hash_kind),
        file_extension: o.file_extension,
        record: o.record,
        bytes_b64: match o.bytes {
            Some(bytes) => Some(encoding::base64_text(bytes)),
            None => None,
        },
    }
}

/// The bytes of an outcome, if it has any, fit into one string in base64.
pub open spec fn fits_the_wire(o: types::HashOutcomeView) -> bool {
    o.bytes matches Some(bytes) ==> encoding::base64_len(bytes.len()) <= isize::MAX
}

impl OutcomeDto {
    /// Whether the bytes of an outcome fit into one string in base64.
    pub fn fits(o: &HashOutcome) -> (res: bool)
        ensures
            res == fits_the_wire(o@),
    {
        match &o.bytes {
            Some(bytes) => {
                let n: usize = bytes.len();
                let groups: usize = if n % 3 == 0 {
                    n / 3
                } else {
                    n / 3 + 1
                };
                groups <= (isize::MAX / 4) as usize
            },
            None => true,
        }
    }

    /// The wire form of an outcome.
    pub fn from_outcome(o: HashOutcome) -> (res: OutcomeDto)
        requires
            fits_the_wire(o@),
        ensures
            res@ == outcome_to_wire(o@),
    {
        let bytes_b64 = match &o.bytes {
            Some(bytes) => Some(base64_encode(bytes.as_slice())),
            None => None,
        };
        OutcomeDto {
            hash: o.hash.0,
            hash_kind: HashKindDto::from(o.hash_kind),
            file_extension: o.file_extension,
            record: o.record,
            bytes_b64,
        }
    }
}

/// The wire form determines the outcome: nothing of it is lost on the way.
pub proof fn law_outcome_survives_the_wire(a: types::HashOutcomeView, b: types::HashOutcomeView)
    requires
        outcome_to_wire(a) == outcome_to_wire(b),
    ensures
        a == b,
{
    law_hash_kind_round_trip(a.hash_kind, kind_to_wire(a.hash_kind));
    law_hash_kind_round_trip(b.hash_kind, kind_to_wire(b.hash_kind));
    if a.bytes is Some && b.bytes is Some {
        encoding::law_base64_is_lossless(a.bytes->0, b.bytes->0);
    }
}

// ----------------------------------------------------------------- failed requests
/// An answer that is a status and a plain text.
#[derive(Debug, Clone, PartialEq)]
pub struct HttpReply {
    pub status: u16,
    pub body: String,
}

/// The contents of an [`HttpReply`].
pub struct HttpReplyView {
    pub status: u16,
    pub body: Seq<char>,
}

impl View for HttpReply {
    type V = HttpReplyView;

    open spec fn view(&self) -> HttpReplyView {
        HttpReplyView { status: self.status, body: self.body@ }
    }
}

/// What a failed request to a plugin is answered: each kind of error has a
/// status of its own.
pub open spec fn error_reply(e: types::GatewayErrorView) -> HttpReplyView {
    match e {
        types::GatewayErrorView::NotFound => HttpReplyView { status: 404, body: "not found"@ },
        types::GatewayErrorView::RateLimited { retry_after_s } => HttpReplyView {
            status: 429,
            body: "rate limited; retry in "@ + text::decimal(retry_after_s as nat) + "s"@,
        },
        types::GatewayErrorView::Transient(s) => HttpReplyView { status: 502, body: s },
        types::GatewayErrorView::Permanent(s) => HttpReplyView { status: 422, body: s },
        types::GatewayErrorView::Internal(s) => HttpReplyView { status: 500, body: s },
    }
}

/// Maps a plugin's error to a status and a message.
pub fn gateway_error_response(e: GatewayError) -> (res: HttpReply)
    ensures
        res@ == error_reply(e@),
{
    match e {
        GatewayError::NotFound => HttpReply { status: 404, body: "not found".to_string() },
        GatewayError::RateLimited { retry_after_s } => {
            let mut body = "rate limited; retry in ".to_string();
            body.push_str(decimal_text(retry_after_s).as_str());
            body.push_str("s");
            HttpReply { status: 429, body }
        },
        GatewayError::Transient(s) => HttpReply { status: 502, body: s },
        GatewayError::Permanent(s) => HttpReply { status: 422, body: s },
        GatewayError::Internal(s) => HttpReply { status: 500, body: s },
    }
}

/// The reply determines the error: the gateway can tell from status and body
/// which error the plugin reported.
pub proof fn law_reply_tells_the_error(a: types::GatewayErrorView, b: types::GatewayErrorView)
    requires
        error_reply(a) == error_reply(b),
    ensures
        a == b,
{
    if a is RateLimited && b is RateLimited {
        let head = "rate limited; retry in "@;
        let x = text::decimal(a->retry_after_s as nat);
        let y = text::decimal(b->retry_after_s as nat);
        let body = error_reply(a).body;
        assert(body == head + x + "s"@);
        assert(body == head + y + "s"@);
        assert(x.len() == y.len()) by {
            assert((head + x + "s"@).len() == head.len() + x.len() + "s"@.len());
            assert((head + y + "s"@).len() == head.len() + y.len() + "s"@.len());
        }
        assert forall|i: int| 0 <= i < x.len() implies x[i] == y[i] by {
            assert((head + x + "s"@)[head.len() + i] == x[i]);
            assert((head + y + "s"@)[head.len() + i] == y[i]);
        }
        assert(x =~= y);
        text::lemma_decimal_injective(a->retry_after_s as nat, b->retry_after_s as nat);
    }
}

/// No error is answered as a success.
pub proof fn law_an_error_is_no_success(e: types::GatewayErrorView)
    ensures
        400 <= error_reply(e).status < 600,
{
}

// ------------------------------------------------------------------------- paths
/// `base` and `part` as one path, as on Unix: an absolute `part` stands alone,
/// and a separator is added where `base` does not end in one.
pub open spec fn path_join(base: Seq<char>, part: Seq<char>) -> Seq<char> {
    if part.len() > 0 && part[0] == '/' {
        part
    } else if base.len() == 0 || base.last() == '/' {
        base + part
    } else {
        base.push('/') + part
    }
}

/// The directory that is the plugin's own.
pub open spec fn plugin_dir(state_dir: Seq<char>, id: Seq<char>) -> Seq<char> {
    path_join(path_join(state_dir, "gateway"@), id)
}

/// The file that holds the plugin's configuration.
pub open spec fn config_file(state_dir: Seq<char>, id: Seq<char>) -> Seq<char> {
    path_join(plugin_dir(state_dir, id), "config.json"@)
}

/// Joins two paths.
fn join_paths(base: &str, part: &str) -> (res: String)
    ensures
        res@ == path_join(base@, part@),
{
    let base_chars = text::chars_of(base);
    let part_chars = text::chars_of(part);
    if part_chars.len() > 0 && part_chars[0] == '/' {
        return part.to_string();
    }
    let mut out = base.to_string();
    if base_chars.len() > 0 && base_chars[base_chars.len() - 1] != '/' {
        out.push('/');
    }
    out.push_str(part);
    out
}

/// `state_dir/gateway/<id>`: the directory that is handed to the plugin with
/// this id, for its cache and its configuration.
pub fn cache_dir(state_dir: &str, id: &str) -> (res: String)
    ensures
        res@ == plugin_dir(state_dir@, id@),
{
    join_paths(join_paths(state_dir, "gateway").as_str(), id)
}

// ------------------------------------------------------------- the hosted plugins
/// A hosted plugin, as far as the answers depend on it.
#[derive(Debug)]
pub struct HostedPlugin {
    /// The name under which requests address it.
    pub key: String,
    /// Its own id.
    pub id: String,
    pub served_file_types: Vec<String>,
    pub served_content_kinds: Vec<String>,
    pub config_schema: ConfigSchema,
    /// The configuration that it runs with.
    pub config_values: ConfigDocument,
}

/// The contents of a [`HostedPlugin`].
pub struct HostedPluginView {
    pub key: Seq<char>,
    pub id: Seq<char>,
    pub served_file_types: Seq<Seq<char>>,
    pub served_content_kinds: Seq<Seq<char>>,
    pub config_schema: Seq<config::ConfigFieldView>,
    pub config_values: config::ConfigDocumentView,
}

impl View for HostedPlugin {
    type V = HostedPluginView;

    open spec fn view(&self) -> HostedPluginView {
        HostedPluginView {
            key: self.key@,
            id: self.id@,
            served_file_types: text::texts(self.served_file_types@),
            served_content_kinds: text::texts(self.served_content_kinds@),
            config_schema: self.config_schema@,
            config_values: self.config_values@,
        }
    }
}

impl Listed for HostedPlugin {
    open spec fn id_of(contents: HostedPluginView) -> Seq<char> {
        contents.id
    }

    fn listed_id(&self) -> (res: &str) {
        self.id.as_str()
    }
}

/// The plugins that a feeder hosts, in no particular order, its version, and
/// where its state is kept. No two plugins have the same key.
#[derive(Debug)]
pub struct AppState {
    plugins: Vec<HostedPlugin>,
    version: String,
    state_dir: String,
}

/// The contents of an [`AppState`].
pub struct AppStateView {
    pub plugins: Seq<HostedPluginView>,
    pub version: Seq<char>,
    pub state_dir: Seq<char>,
}

impl View for AppState {
    type V = AppStateView;

    closed spec fn view(&self) -> AppStateView {
        AppStateView {
            plugins: listing::views(self.plugins@),
            version: self.version@,
            state_dir: self.state_dir@,
        }
    }
}

/// No two plugins have the same key.
pub open spec fn distinct_keys(plugins: Seq<HostedPluginView>) -> bool {
    forall|i: int, j: int|
        0 <= i < j < plugins.len() ==> (#[trigger] plugins[i]).key != (#[trigger] plugins[j]).key
}

/// One of the plugins has this key.
pub open spec fn has_plugin(plugins: Seq<HostedPluginView>, key: Seq<char>) -> bool {
    exists|i: int| 0 <= i < plugins.len() && (#[trigger] plugins[i]).key == key
}

/// The plugins with `p` among them, in the place of the one with its key, if
/// there is one.
pub open spec fn with_plugin(plugins: Seq<HostedPluginView>, p: HostedPluginView) -> Seq<
    HostedPluginView,
> {
    if has_plugin(plugins, p.key) {
        Seq::new(
            plugins.len(),
            |i: int|
                if plugins[i].key == p.key {
                    p
                } else {
                    plugins[i]
                },
        )
    } else {
        plugins.push(p)
    }
}

/// The plugin that requests address by `key`.
pub open spec fn hosted(plugins: Seq<HostedPluginView>, key: Seq<char>) -> Option<HostedPluginView>
    decreases plugins.len(),
{
    if plugins.len() == 0 {
        None
    } else {
        match hosted(plugins.drop_last(), key) {
            Some(p) => Some(p),
            None => if plugins.last().key == key {
                Some(plugins.last())
            } else {
                None
            },
        }
    }
}

/// The answer to a request for a plugin that is not hosted.
pub open spec fn unknown_plugin(key: Seq<char>) -> HttpReplyView {
    HttpReplyView { status: 404, body: "no feeder plugin for upstream_id '"@ + key + "'"@ }
}

impl AppState {
    #[verifier::type_invariant]
    spec fn keys_are_distinct(&self) -> bool {
        distinct_keys(listing::views(self.plugins@))
    }

    /// A feeder that hosts no plugin yet.
    pub fn new(version: String, state_dir: String) -> (res: AppState)
        ensures
            res@ == (AppStateView {
                plugins: Seq::empty(),
                version: version@,
                state_dir: state_dir@,
            }),
    {
        let plugins: Vec<HostedPlugin> = Vec::new();
        assert(listing::views(plugins@) =~= Seq::empty());
        AppState { plugins, version, state_dir }
    }

    /// Hosts a plugin, in the place of the one with its key, if there is one.
    pub fn host(&mut self, plugin: HostedPlugin)
        ensures
            final(self)@ == (AppStateView {
                plugins: with_plugin(old(self)@.plugins, plugin@),
                ..old(self)@
            }),
            distinct_keys(final(self)@.plugins),
    {
        proof {
            use_type_invariant(&*self);
        }
        let ghost before = listing::views(self.plugins@);
        let ghost new = plugin@;
        let mut list: Vec<HostedPlugin> = Vec::new();
        std::mem::swap(&mut list, &mut self.plugins);
        let mut i: usize = 0;
        while i < list.len() && !same_text(list[i].key.as_str(), plugin.key.as_str())
            invariant
                before == listing::views(list@),
                new == plugin@,
                i <= list@.len(),
                forall|k: int| 0 <= k < i ==> (#[trigger] before[k]).key != new.key,
            decreases list@.len() - i,
        {
            assert(before[i as int] == list@[i as int]@);
            i = i + 1;
        }
        if i < list.len() {
            assert(before[i as int].key == new.key);
            list[i] = plugin;
        } else {
            list.push(plugin);
        }
        assert(listing::views(list@) =~= with_plugin(before, new));
        self.plugins = list;
    }

    /// The place of the plugin that requests address by `key`.
    fn place(&self, key: &str) -> (res: Option<usize>)
        ensures
            match res {
                Some(i) => i < self.plugins@.len() && hosted(listing::views(self.plugins@), key@)
                    == Some(self.plugins@[i as int]@),
                None => hosted(listing::views(self.plugins@), key@) is None,
            },
    {
        let ghost all = listing::views(self.plugins@);
        let mut found: Option<usize> = None;
        let mut i: usize = 0;
        while i < self.plugins.len()
            invariant
                all == listing::views(self.plugins@),
                i <= self.plugins@.len(),
                match found {
                    Some(j) => j < self.plugins@.len() && hosted(all.take(i as int), key@) == Some(
                        self.plugins@[j as int]@,
                    ),
                    None => hosted(all.take(i as int), key@) is None,
                },
            decreases self.plugins@.len() - i,
        {
            assert(all.take(i + 1).drop_last() =~= all.take(i as int));
            if found.is_none() && same_text(self.plugins[i].key.as_str(), key) {
                found = Some(i);
            }
            i = i + 1;
        }
        assert(all.take(i as int) =~= all);
        found
    }

    /// The hosted plugin that requests address by `upstream_id`.
    pub fn plugin(&self, upstream_id: &str) -> (res: Result<&HostedPlugin, HttpReply>)
        ensures
            match hosted(self@.plugins, upstream_id@) {
                Some(p) => res matches Ok(plugin) && plugin@ == p,
                None => res matches Err(reply) && reply@ == unknown_plugin(upstream_id@),
            },
            distinct_keys(self@.plugins),
    {
        proof {
            use_type_invariant(self);
        }
        match self.place(upstream_id) {
            Some(i) => Ok(&self.plugins[i]),
            None => {
                let mut body = "no feeder plugin for upstream_id '".to_string();
                body.push_str(upstream_id);
                body.push_str("'");
                Err(HttpReply { status: 404, body })
            },
        }
    }

    /// `state_dir/gateway/<id>/config.json`: the plugin's configuration file.
    pub fn config_path(&self, upstream_id: &str) -> (res: String)
        ensures
            res@ == config_file(self@.state_dir, upstream_id@),
    {
        join_paths(cache_dir(self.state_dir.as_str(), upstream_id).as_str(), "config.json")
    }

    /// The configuration in effect, where the configuration file holds
    /// `persisted`: that document as it is, or else what the plugin runs with.
    pub fn config_in_effect(&self, upstream_id: &str, persisted: Option<ConfigDocument>) -> (res:
        ConfigDocument)
        ensures
            res@ == effective(self@.plugins, upstream_id@, config::document_view(persisted)),
            persisted matches Some(document) ==> res == document,
    {
        match persisted {
            Some(document) => document,
            None => match self.place(upstream_id) {
                Some(i) => self.plugins[i].config_values.duplicate(),
                None => ConfigDocument::Object(TextMap::new()),
            },
        }
    }

    /// The configuration in effect: what the configuration file holds, if there
    /// is one that could be read, else what the plugin runs with. `file` is the
    /// contents of the plugin's configuration file, if it could be read.
    pub fn effective_config(&self, upstream_id: &str, file: Option<Vec<u8>>) -> (res:
        ConfigDocument)
        ensures
            res@ == effective(self@.plugins, upstream_id@, file_document(file_view(file))),
    {
        self.config_in_effect(upstream_id, read_config(file))
    }
}

/// The contents of a file, if it could be read.
pub open spec fn file_view(file: Option<Vec<u8>>) -> Option<Seq<u8>> {
    match file {
        Some(bytes) => Some(bytes@),
        None => None,
    }
}

/// The document in a configuration file, if there is one that can be parsed.
pub open spec fn file_document(file: Option<Seq<u8>>) -> Option<config::ConfigDocumentView> {
    match file {
        Some(bytes) => config::document_with(config::json_content(bytes)),
        None => None,
    }
}

/// The document in a configuration file, if there is one that can be parsed.
fn read_config(file: Option<Vec<u8>>) -> (res: Option<ConfigDocument>)
    ensures
        config::document_view(res) == file_document(file_view(file)),
{
    match file {
        Some(bytes) => parse_document(bytes.as_slice()),
        None => None,
    }
}

/// The configuration in effect: that of the configuration file, or else the one
/// that the plugin runs with.
pub open spec fn effective(
    plugins: Seq<HostedPluginView>,
    key: Seq<char>,
    persisted: Option<config::ConfigDocumentView>,
) -> config::ConfigDocumentView {
    match persisted {
        Some(document) => document,
        None => match hosted(plugins, key) {
            Some(p) => p.config_values,
            None => config::ConfigDocumentView::Object(Map::empty()),
        },
    }
}

/// The plugin with the lowest id; of several with that id, the first.
pub open spec fn sole(plugins: Seq<HostedPluginView>) -> Option<HostedPluginView>
    decreases plugins.len(),
{
    if plugins.len() == 0 {
        None
    } else {
        match sole(plugins.drop_last()) {
            None => Some(plugins.last()),
            Some(p) => if text::text_before(plugins.last().id, p.id) {
                Some(plugins.last())
            } else {
                Some(p)
            },
        }
    }
}

/// The plugin that the configuration plane is about. A feeder hosts one as a
/// rule; of several, the one with the lowest id is picked.
pub fn sole_plugin(state: &AppState) -> (res: Option<&HostedPlugin>)
    ensures
        match sole(state@.plugins) {
            Some(p) => res matches Some(plugin) && plugin@ == p,
            None => res is None,
        },
{
    let ghost all = listing::views(state.plugins@);
    if state.plugins.len() == 0 {
        return None;
    }
    let mut best: usize = 0;
    let mut i: usize = 1;
    assert(sole(all.take(1)) == Some(state.plugins@[0]@)) by {
        assert(all.take(1).drop_last().len() == 0);
        assert(sole(all.take(1).drop_last()) is None);
    }
    while i < state.plugins.len()
        invariant
            all == listing::views(state.plugins@),
            best < i <= state.plugins@.len(),
            sole(all.take(i as int)) == Some(state.plugins@[best as int]@),
        decreases state.plugins@.len() - i,
    {
        assert(all.take(i + 1).drop_last() =~= all.take(i as int));
        if precedes(state.plugins[i].id.as_str(), state.plugins[best].id.as_str()) {
            best = i;
        }
        i = i + 1;
    }
    assert(all.take(i as int) =~= all);
    Some(&state.plugins[best])
}

/// The plugin that is picked heads the list of plugins by id.
pub proof fn law_sole_plugin_heads_the_list(
    plugins: Seq<HostedPluginView>,
    list: Seq<HostedPluginView>,
)
    requires
        listing::listing_of::<HostedPlugin>(plugins, list),
        plugins.len() > 0,
    ensures
        list.len() > 0,
        sole(plugins) == Some(list[0]),
{
    lemma_sole(plugins);
    let p = sole(plugins)->0;
    listing::lemma_first_with_id::<HostedPlugin>(plugins, list, p);
}

/// The picked plugin is listed, no other has a lower id, and it is the first
/// with its id.
proof fn lemma_sole(plugins: Seq<HostedPluginView>)
    requires
        plugins.len() > 0,
    ensures
        sole(plugins) is Some,
        forall|i: int|
            0 <= i < plugins.len() ==> !text::text_before(
                (#[trigger] plugins[i]).id,
                sole(plugins)->0.id,
            ),
        listing::with_id::<HostedPlugin>(plugins, sole(plugins)->0.id).len() > 0,
        listing::with_id::<HostedPlugin>(plugins, sole(plugins)->0.id)[0] == sole(plugins)->0,
    decreases plugins.len(),
{
    let before = plugins.drop_last();
    let last = plugins.last();
    if before.len() == 0 {
        text::lemma_before_irreflexive(last.id);
        assert(listing::with_id::<HostedPlugin>(before, last.id) =~= Seq::empty());
    } else {
        lemma_sole(before);
        let p = sole(before)->0;
        if text::text_before(last.id, p.id) {
            assert forall|i: int| 0 <= i < plugins.len() implies !text::text_before(
                (#[trigger] plugins[i]).id,
                last.id,
            ) by {
                if i < before.len() {
                    assert(before[i] == plugins[i]);
                    if text::text_before(plugins[i].id, last.id) {
                        text::lemma_before_transitive(plugins[i].id, last.id, p.id);
                    }
                } else {
                    text::lemma_before_irreflexive(last.id);
                }
            }
            assert forall|i: int| 0 <= i < before.len() implies HostedPlugin::id_of(
                #[trigger] before[i],
            ) != last.id by {
                assert(!text::text_before(before[i].id, p.id));
            }
            listing::lemma_without_id::<HostedPlugin>(before, last.id);
        } else {
            assert forall|i: int| 0 <= i < plugins.len() implies !text::text_before(
                (#[trigger] plugins[i]).id,
                p.id,
            ) by {
                if i < before.len() {
                    assert(before[i] == plugins[i]);
                }
            }
        }
    }
}

/// The plugin that is picked is one of those hosted.
proof fn lemma_sole_is_hosted(plugins: Seq<HostedPluginView>)
    requires
        plugins.len() > 0,
    ensures
        sole(plugins) is Some,
        plugins.contains(sole(plugins)->0),
    decreases plugins.len(),
{
    let before = plugins.drop_last();
    assert(plugins[plugins.len() - 1] == plugins.last());
    if before.len() > 0 {
        lemma_sole_is_hosted(before);
        let i = choose|i: int| 0 <= i < before.len() && before[i] == sole(before)->0;
        assert(plugins[i] == before[i]);
    }
}

/// Where no two plugins share an id, which one is picked does not depend on the
/// order in which they are hosted.
pub proof fn law_sole_plugin_ignores_hosting_order(
    a: Seq<HostedPluginView>,
    b: Seq<HostedPluginView>,
)
    requires
        listing::distinct_ids::<HostedPlugin>(a),
        forall|p: HostedPluginView| #[trigger] a.contains(p) <==> b.contains(p),
    ensures
        sole(a) == sole(b),
{
    if a.len() == 0 {
        if b.len() > 0 {
            assert(b.contains(b[0]));
            assert(a.contains(b[0]));
        }
    } else {
        assert(a.contains(a[0]));
        assert(b.contains(a[0]));
        lemma_sole_is_hosted(a);
        lemma_sole_is_hosted(b);
        lemma_sole(a);
        lemma_sole(b);
        let p = sole(a)->0;
        let q = sole(b)->0;
        assert(b.contains(p));
        assert(a.contains(q));
        let i = choose|i: int| 0 <= i < a.len() && a[i] == p;
        let j = choose|j: int| 0 <= j < a.len() && a[j] == q;
        let k = choose|k: int| 0 <= k < b.len() && b[k] == p;
        assert(!text::text_before(a[j].id, p.id));
        assert(!text::text_before(b[k].id, q.id));
        text::lemma_before_total(p.id, q.id);
        assert(p.id == q.id);
        assert(HostedPlugin::id_of(a[i]) == HostedPlugin::id_of(a[j]));
    }
}

/// As no two plugins share a key, a request reaches the same plugin whatever the
/// order in which they are hosted: the one with that key, if there is one.
pub proof fn law_requests_reach_their_plugin(plugins: Seq<HostedPluginView>, key: Seq<char>)
    requires
        distinct_keys(plugins),
    ensures
        forall|i: int|
            0 <= i < plugins.len() && (#[trigger] plugins[i]).key == key ==> hosted(plugins, key)
                == Some(plugins[i]),
        (forall|i: int| 0 <= i < plugins.len() ==> (#[trigger] plugins[i]).key != key) ==> hosted(
            plugins,
            key,
        ) is None,
    decreases plugins.len(),
{
    if plugins.len() > 0 {
        let before = plugins.drop_last();
        assert forall|i: int, j: int| 0 <= i < j < before.len() implies (#[trigger] before[i]).key
            != (#[trigger] before[j]).key by {
            assert(before[i] == plugins[i] && before[j] == plugins[j]);
        }
        law_requests_reach_their_plugin(before, key);
        let last = plugins[plugins.len() - 1];
        assert forall|i: int|
            0 <= i < plugins.len() && (#[trigger] plugins[i]).key == key implies hosted(
            plugins,
            key,
        ) == Some(plugins[i]) by {
            if i < before.len() {
                assert(before[i] == plugins[i]);
            } else {
                assert forall|j: int| 0 <= j < before.len() implies (#[trigger] before[j]).key
                    != key by {
                    assert(before[j] == plugins[j]);
                    assert(plugins[j].key != last.key);
                }
            }
        }
        if forall|i: int| 0 <= i < plugins.len() ==> (#[trigger] plugins[i]).key != key {
            assert forall|j: int| 0 <= j < before.len() implies (#[trigger] before[j]).key
                != key by {
                assert(before[j] == plugins[j]);
            }
        }
    }
}

// ----------------------------------------------------------------- what is hosted
/// What a plugin shows of itself.
pub open spec fn manifest_of(p: HostedPluginView) -> PluginManifestView {
    PluginManifestView {
        id: p.id,
        served_file_types: p.served_file_types,
        served_content_kinds: p.served_content_kinds,
    }
}

/// What each plugin shows of itself.
pub open spec fn manifests(plugins: Seq<HostedPluginView>) -> Seq<PluginManifestView> {
    Seq::new(plugins.len(), |i: int| manifest_of(plugins[i]))
}

fn duplicate_texts(list: &Vec<String>) -> (res: Vec<String>)
    ensures
        text::texts(res@) == text::texts(list@),
{
    let mut out: Vec<String> = Vec::new();
    let mut i: usize = 0;
    while i < list.len()
        invariant
            i <= list@.len(),
            out@.len() == i,
            forall|k: int| 0 <= k < i ==> (#[trigger] out@[k])@ == list@[k]@,
        decreases list@.len() - i,
    {
        out.push(list[i].clone());
        i = i + 1;
    }
    assert(text::texts(out@) =~= text::texts(list@));
    out
}

/// `GET /manifest`: the hosted plugins and what they serve, by id.
pub fn manifest(state: &AppState) -> (res: ManifestResponse)
    ensures
        res.feeder_version@ == state@.version,
        listing::listing_of::<PluginManifest>(
            manifests(state@.plugins),
            listing::views(res.plugins@),
        ),
{
    let mut plugins: Vec<PluginManifest> = Vec::new();
    let mut i: usize = 0;
    while i < state.plugins.len()
        invariant
            i <= state.plugins@.len(),
            plugins@.len() == i,
            forall|k: int|
                0 <= k < i ==> (#[trigger] plugins@[k])@ == manifest_of(state.plugins@[k]@),
        decreases state.plugins@.len() - i,
    {
        let p = &state.plugins[i];
        plugins.push(
            PluginManifest {
                id: p.id.clone(),
                served_file_types: duplicate_texts(&p.served_file_types),
                served_content_kinds: duplicate_texts(&p.served_content_kinds),
            },
        );
        i = i + 1;
    }
    assert(listing::views(plugins@) =~= manifests(listing::views(state.plugins@)));
    ManifestResponse { feeder_version: state.version.clone(), plugins: sort_by_id(plugins) }
}

/// Where no two plugins share an id, the manifest does not depend on the order
/// in which the plugins are hosted.
pub proof fn law_manifest_ignores_hosting_order(
    a: Seq<HostedPluginView>,
    b: Seq<HostedPluginView>,
    manifest_a: Seq<PluginManifestView>,
    manifest_b: Seq<PluginManifestView>,
)
    requires
        listing::distinct_ids::<HostedPlugin>(a),
        listing::distinct_ids::<HostedPlugin>(b),
        forall|p: HostedPluginView| #[trigger] a.contains(p) <==> b.contains(p),
        listing::listing_of::<PluginManifest>(manifests(a), manifest_a),
        listing::listing_of::<PluginManifest>(manifests(b), manifest_b),
    ensures
        manifest_a == manifest_b,
{
    lemma_manifests_distinct(a);
    lemma_manifests_distinct(b);
    assert forall|m: PluginManifestView| #[trigger] manifests(a).contains(m) <==> manifests(
        b,
    ).contains(m) by {
        if manifests(a).contains(m) {
            lemma_manifest_carried(a, b, m);
        }
        if manifests(b).contains(m) {
            assert forall|p: HostedPluginView| #[trigger] b.contains(p) implies a.contains(p) by {
                assert(a.contains(p) <==> b.contains(p));
            }
            lemma_manifest_carried(b, a, m);
        }
    }
    listing::law_listing_ignores_order::<PluginManifest>(
        manifests(a),
        manifests(b),
        manifest_a,
        manifest_b,
    );
}

proof fn lemma_manifests_distinct(plugins: Seq<HostedPluginView>)
    requires
        listing::distinct_ids::<HostedPlugin>(plugins),
    ensures
        listing::distinct_ids::<PluginManifest>(manifests(plugins)),
{
    assert forall|i: int, j: int| 0 <= i < j < manifests(plugins).len() implies PluginManifest::id_of(
        #[trigger] manifests(plugins)[i],
    ) != PluginManifest::id_of(#[trigger] manifests(plugins)[j]) by {
        assert(HostedPlugin::id_of(plugins[i]) != HostedPlugin::id_of(plugins[j]));
    }
}

proof fn lemma_manifest_carried(
    from: Seq<HostedPluginView>,
    to: Seq<HostedPluginView>,
    m: PluginManifestView,
)
    requires
        forall|p: HostedPluginView| #[trigger] from.contains(p) ==> to.contains(p),
        manifests(from).contains(m),
    ensures
        manifests(to).contains(m),
{
    let i = choose|i: int| 0 <= i < manifests(from).len() && manifests(from)[i] == m;
    assert(from.contains(from[i]));
    let j = choose|j: int| 0 <= j < to.len() && to[j] == from[i];
    assert(manifests(to)[j] == m);
}

/// Every plugin is well.
pub open spec fn all_healthy(entries: Seq<PluginHealthEntryView>) -> bool {
    forall|i: int| 0 <= i < entries.len() ==> (#[trigger] entries[i]).health is Healthy
}

/// The overall status of a feeder.
pub open spec fn status_text(all_ok: bool) -> Seq<char> {
    if all_ok {
        "ok"@
    } else {
        "degraded"@
    }
}

/// `GET /health`: how each plugin is doing, by id, and whether all are well.
pub fn health(entries: Vec<PluginHealthEntry>) -> (res: HealthResponse)
    ensures
        res.status@ == status_text(all_healthy(listing::views(entries@))),
        listing::listing_of::<PluginHealthEntry>(
            listing::views(entries@),
            listing::views(res.plugins@),
        ),
{
    let mut all_ok = true;
    let mut i: usize = 0;
    while i < entries.len()
        invariant
            i <= entries@.len(),
            all_ok == (forall|k: int|
                0 <= k < i ==> (#[trigger] listing::views(entries@)[k]).health is Healthy),
        decreases entries@.len() - i,
    {
        assert(listing::views(entries@)[i as int] == entries@[i as int]@);
        match &entries[i].health {
            PluginHealth::Healthy => {},
            PluginHealth::Degraded { .. } => {
                all_ok = false;
            },
        }
        i = i + 1;
    }
    let status = if all_ok {
        "ok".to_string()
    } else {
        "degraded".to_string()
    };
    HealthResponse { status, plugins: sort_by_id(entries) }
}

/// The status is `ok` if and only if every hosted plugin is well.
pub proof fn law_ok_iff_all_are_well(entries: Seq<PluginHealthEntryView>)
    ensures
        status_text(all_healthy(entries)) == "ok"@ <==> all_healthy(entries),
{
    reveal_strlit("ok");
    reveal_strlit("degraded");
    assert("ok"@.len() != "degraded"@.len());
}

// ------------------------------------------------------------- searches and files
/// The plugin that a search is for, and how many records it may return.
pub fn query_target<'a>(state: &'a AppState, req: &QueryRequest) -> (res: Result<
    (&'a HostedPlugin, usize),
    HttpReply,
>)
    ensures
        match hosted(state@.plugins, req.upstream_id@) {
            Some(p) => res matches Ok(target) && target.0@ == p && target.1 == req.max_results,
            None => res matches Err(reply) && reply@ == unknown_plugin(req.upstream_id@),
        },
{
    match state.plugin(req.upstream_id.as_str()) {
        Ok(plugin) => Ok((plugin, req.max_results as usize)),
        Err(reply) => Err(reply),
    }
}

/// `POST /query`: the records that the plugin found, or its error.
pub fn query(answer: Result<Vec<DiscoveryRecord>, GatewayError>) -> (res: Result<
    QueryResponse,
    HttpReply,
>)
    ensures
        match types::answer_view(answer) {
            Ok(records) => res matches Ok(found) && types::record_views(found.records@) == records,
            Err(e) => res matches Err(reply) && reply@ == error_reply(e),
        },
{
    match answer {
        Ok(records) => Ok(QueryResponse { records }),
        Err(e) => Err(gateway_error_response(e)),
    }
}

/// The wire forms of a list of outcomes.
pub open spec fn outcomes_to_wire(outcomes: Seq<types::HashOutcomeView>) -> Seq<OutcomeDtoView> {
    Seq::new(outcomes.len(), |i: int| outcome_to_wire(outcomes[i]))
}

/// `POST /compute`: the files that the record was resolved to, or the error.
pub fn compute(answer: Result<Vec<HashOutcome>, GatewayError>) -> (res: Result<
    ComputeResponse,
    HttpReply,
>)
    requires
        answer matches Ok(outcomes) ==> forall|i: int|
            0 <= i < outcomes@.len() ==> fits_the_wire((#[trigger] outcomes@[i])@),
    ensures
        match answer {
            Ok(outcomes) => res matches Ok(found) && listing::views(found.outcomes@)
                == outcomes_to_wire(types::outcome_views(outcomes@)),
            Err(e) => res matches Err(reply) && reply@ == error_reply(e@),
        },
{
    let outcomes = match answer {
        Ok(outcomes) => outcomes,
        Err(e) => {
            return Err(gateway_error_response(e));
        },
    };
    let ghost all = outcomes@;
    let mut out: Vec<OutcomeDto> = Vec::new();
    for o in it: outcomes.into_iter()
        invariant
            it.seq() == all,
            forall|i: int| 0 <= i < all.len() ==> fits_the_wire((#[trigger] all[i])@),
            out@.len() == it.index(),
            forall|k: int|
                0 <= k < it.index() ==> (#[trigger] out@[k])@ == outcome_to_wire(all[k]@),
    {
        assert(fits_the_wire(all[it.index()]@));
        out.push(OutcomeDto::from_outcome(o));
    }
    assert(listing::views(out@) =~= outcomes_to_wire(types::outcome_views(all)));
    Ok(ComputeResponse { outcomes: out })
}

/// `GET /fetch/…`: the bytes that the plugin has for the record. `S` is the
/// form in which the bytes come.
pub fn fetch<S>(found: Result<Option<S>, GatewayError>) -> (res: Result<S, HttpReply>)
    ensures
        match found {
            Ok(Some(bytes)) => res == Ok::<S, HttpReply>(bytes),
            Ok(None) => res matches Err(reply) && reply@ == (HttpReplyView {
                status: 404,
                body: "no bytes for record"@,
            }),
            Err(e) => res matches Err(reply) && reply@ == error_reply(e@),
        },
{
    match found {
        Ok(Some(bytes)) => Ok(bytes),
        Ok(None) => Err(HttpReply { status: 404, body: "no bytes for record".to_string() }),
        Err(e) => Err(gateway_error_response(e)),
    }
}

/// `GET /blob/…`: the bytes that the plugin has under the content id. `S` is
/// the form in which the bytes come.
pub fn blob<S>(found: Option<S>) -> (res: Result<S, HttpReply>)
    ensures
        match found {
            Some(bytes) => res == Ok::<S, HttpReply>(bytes),
            None => res matches Err(reply) && reply@ == (HttpReplyView {
                status: 404,
                body: "no such blob"@,
            }),
        },
{
    match found {
        Some(bytes) => Ok(bytes),
        None => Err(HttpReply { status: 404, body: "no such blob".to_string() }),
    }
}

// ------------------------------------------------------------- streamed searches
/// The byte that ends a line.
pub const NEWLINE: u8 = 0x0a;

/// `POST /query_stream`, once the plugin was asked: the stream that it opened,
/// or its error. `S` is the form in which the events come.
pub fn query_stream<S>(opened: Result<S, GatewayError>) -> (res: Result<S, HttpReply>)
    ensures
        match opened {
            Ok(events) => res == Ok::<S, HttpReply>(events),
            Err(e) => res matches Err(reply) && reply@ == error_reply(e@),
        },
{
    match opened {
        Ok(events) => Ok(events),
        Err(e) => Err(gateway_error_response(e)),
    }
}

/// What is sent for one event of a streamed search.
#[derive(Debug)]
pub enum EventLine {
    /// This line.
    Line(Vec<u8>),
    /// The line of this event instead, and nothing after it.
    Last(GatewaySearchEvent),
}

/// The event that tells that another one could not be encoded.
pub open spec fn tells_encoding_failure(event: GatewaySearchEvent, reason: Seq<char>) -> bool {
    event matches GatewaySearchEvent::Error(GatewayWireError::Internal(message)) && message@
        == "event serialize: "@ + reason
}

/// The body of a streamed search while it is sent: whether it goes on.
#[derive(Debug)]
pub struct EventStream {
    pub open: bool,
}

impl EventStream {
    /// A body of which nothing was sent yet.
    pub fn new() -> (res: EventStream)
        ensures
            res.open,
    {
        EventStream { open: true }
    }

    /// What is sent for the next event, which was JSON-encoded with this result:
    /// its line. Where it could not be encoded, an error event takes its place
    /// and ends the body; nothing is sent after that.
    pub fn event_line(&mut self, encoded: Result<Vec<u8>, String>) -> (res: Option<EventLine>)
        ensures
            final(self).open == stays_open(old(self).open, encoded is Ok),
            old(self).open ==> match encoded {
                Ok(json) => res matches Some(EventLine::Line(line)) && line@ == json@.push(NEWLINE),
                Err(reason) => res matches Some(EventLine::Last(event)) && tells_encoding_failure(
                    event,
                    reason@,
                ),
            },
            !old(self).open ==> res is None,
    {
        if !self.open {
            return None;
        }
        match encoded {
            Ok(json) => {
                let mut line = json;
                line.push(NEWLINE);
                Some(EventLine::Line(line))
            },
            Err(reason) => {
                self.open = false;
                let mut message = "event serialize: ".to_string();
                message.push_str(reason.as_str());
                let event = GatewaySearchEvent::Error(GatewayWireError::Internal(message));
                Some(EventLine::Last(event))
            },
        }
    }
}

/// The line of an event that took the place of another: its JSON, or nothing
/// where even that could not be encoded.
pub fn replacement_line(encoded: Option<Vec<u8>>) -> (res: Vec<u8>)
    ensures
        res@ == match encoded {
            Some(json) => json@.push(NEWLINE),
            None => seq![NEWLINE],
        },
{
    let mut line = match encoded {
        Some(json) => json,
        None => Vec::new(),
    };
    line.push(NEWLINE);
    assert(encoded is None ==> line@ =~= seq![NEWLINE]);
    line
}

/// A body goes on after an event that could be encoded.
pub open spec fn stays_open(open: bool, encoded: bool) -> bool {
    open && encoded
}

/// What is sent of a streamed search: for each event its encoding (`Ok`), or the
/// encoding of the error event that takes its place (`Err`); whether the body
/// still goes on, and what was sent so far.
pub open spec fn sent(events: Seq<Result<Seq<u8>, Seq<u8>>>) -> (bool, Seq<u8>)
    decreases events.len(),
{
    if events.len() == 0 {
        (true, Seq::empty())
    } else {
        let (open, body) = sent(events.drop_last());
        let next = events.last();
        let payload = match next {
            Ok(json) => json,
            Err(json) => json,
        };
        (
            stays_open(open, next is Ok),
            if open {
                body + payload.push(NEWLINE)
            } else {
                body
            },
        )
    }
}

/// The whole body of a streamed search.
pub open spec fn stream_body(events: Seq<Result<Seq<u8>, Seq<u8>>>) -> Seq<u8> {
    sent(events).1
}

/// The body that lines with these contents make.
pub open spec fn ndjson(payloads: Seq<Seq<u8>>) -> Seq<u8>
    decreases payloads.len(),
{
    if payloads.len() == 0 {
        Seq::empty()
    } else {
        ndjson(payloads.drop_last()) + payloads.last().push(NEWLINE)
    }
}

/// One line per event: a reader who splits the body at its line ends gets back
/// the events' encodings, in order. (An encoding holds no line end.)
pub proof fn law_lines_tell_the_events(a: Seq<Seq<u8>>, b: Seq<Seq<u8>>)
    requires
        forall|i: int| 0 <= i < a.len() ==> !(#[trigger] a[i]).contains(NEWLINE),
        forall|i: int| 0 <= i < b.len() ==> !(#[trigger] b[i]).contains(NEWLINE),
        ndjson(a) == ndjson(b),
    ensures
        a == b,
    decreases a.len(),
{
    if a.len() == 0 || b.len() == 0 {
        assert(a.len() == 0 ==> ndjson(a).len() == 0);
        assert(b.len() == 0 ==> ndjson(b).len() == 0);
        assert(a.len() > 0 ==> ndjson(a).len() > 0);
        assert(b.len() > 0 ==> ndjson(b).len() > 0);
        assert(a =~= b);
    } else {
        let p = a.last();
        let q = b.last();
        let x = ndjson(a.drop_last());
        let y = ndjson(b.drop_last());
        assert(a[a.len() - 1] == p && b[b.len() - 1] == q);
        assert(ndjson(a) == x + p.push(NEWLINE));
        assert(ndjson(b) == y + q.push(NEWLINE));
        lemma_last_line(x, p, y, q, a.drop_last(), b.drop_last());
        assert forall|i: int| 0 <= i < a.drop_last().len() implies !(#[trigger] a.drop_last()[i])
            .contains(NEWLINE) by {
            assert(a.drop_last()[i] == a[i]);
        }
        assert forall|i: int| 0 <= i < b.drop_last().len() implies !(#[trigger] b.drop_last()[i])
            .contains(NEWLINE) by {
            assert(b.drop_last()[i] == b[i]);
        }
        law_lines_tell_the_events(a.drop_last(), b.drop_last());
        assert(a =~= a.drop_last().push(p));
        assert(b =~= b.drop_last().push(q));
    }
}

/// A streamed search is one line for each event up to the first that cannot be
/// encoded. The error event in its place is the last line, whatever comes after
/// it.
pub proof fn law_stream_ends_at_a_failure(
    encodings: Seq<Seq<u8>>,
    replacement: Seq<u8>,
    after: Seq<Result<Seq<u8>, Seq<u8>>>,
)
    ensures
        stream_body(all_encoded(encodings)) == ndjson(encodings),
        stream_body(all_encoded(encodings).push(Err(replacement)) + after) == ndjson(
            encodings.push(replacement),
        ),
{
    lemma_all_sent(encodings);
    let events = all_encoded(encodings).push(Err(replacement));
    assert(events.drop_last() =~= all_encoded(encodings));
    assert(encodings.push(replacement).drop_last() =~= encodings);
    lemma_nothing_after(events, after);
}

/// Events that could all be encoded.
pub open spec fn all_encoded(encodings: Seq<Seq<u8>>) -> Seq<Result<Seq<u8>, Seq<u8>>> {
    Seq::new(encodings.len(), |i: int| Ok::<Seq<u8>, Seq<u8>>(encodings[i]))
}

proof fn lemma_all_sent(encodings: Seq<Seq<u8>>)
    ensures
        sent(all_encoded(encodings)) == (true, ndjson(encodings)),
    decreases encodings.len(),
{
    if encodings.len() > 0 {
        lemma_all_sent(encodings.drop_last());
        assert(all_encoded(encodings).drop_last() =~= all_encoded(encodings.drop_last()));
    }
}

proof fn lemma_nothing_after(
    events: Seq<Result<Seq<u8>, Seq<u8>>>,
    after: Seq<Result<Seq<u8>, Seq<u8>>>,
)
    requires
        !sent(events).0,
    ensures
        sent(events + after) == sent(events),
    decreases after.len(),
{
    if after.len() == 0 {
        assert(events + after =~= events);
    } else {
        lemma_nothing_after(events, after.drop_last());
        assert((events + after).drop_last() =~= events + after.drop_last());
    }
}

/// A body's last line, and what stands before it, are determined.
proof fn lemma_last_line(
    x: Seq<u8>,
    p: Seq<u8>,
    y: Seq<u8>,
    q: Seq<u8>,
    before_x: Seq<Seq<u8>>,
    before_y: Seq<Seq<u8>>,
)
    requires
        x == ndjson(before_x),
        y == ndjson(before_y),
        !p.contains(NEWLINE),
        !q.contains(NEWLINE),
        x + p.push(NEWLINE) == y + q.push(NEWLINE),
    ensures
        x == y,
        p == q,
{
    let body = x + p.push(NEWLINE);
    let other = y + q.push(NEWLINE);
    assert(body.len() == x.len() + p.len() + 1);
    assert(other.len() == y.len() + q.len() + 1);
    if x.len() > y.len() {
        lemma_ends_in_newline(before_x);
        let at = x.len() - 1;
        assert(body[at] == NEWLINE);
        assert(other[at] == q[at - y.len()]);
        assert(q.contains(q[at - y.len()]));
    } else if y.len() > x.len() {
        lemma_ends_in_newline(before_y);
        let at = y.len() - 1;
        assert(other[at] == NEWLINE);
        assert(body[at] == p[at - x.len()]);
        assert(p.contains(p[at - x.len()]));
    }
    assert(x =~= y) by {
        assert forall|i: int| 0 <= i < x.len() implies x[i] == y[i] by {
            assert(body[i] == x[i]);
            assert(other[i] == y[i]);
        }
    }
    assert(p =~= q) by {
        assert forall|i: int| 0 <= i < p.len() implies p[i] == q[i] by {
            assert(body[x.len() + i] == p[i]);
            assert(other[y.len() + i] == q[i]);
        }
    }
}

proof fn lemma_ends_in_newline(payloads: Seq<Seq<u8>>)
    requires
        ndjson(payloads).len() > 0,
    ensures
        ndjson(payloads).last() == NEWLINE,
{
}

// ----------------------------------------------------------- the configuration plane
/// `GET /config/schema`: the fields that the plugin declares; none where no
/// plugin is hosted.
pub fn config_schema(state: &AppState) -> (res: ConfigSchema)
    ensures
        res@ == match sole(state@.plugins) {
            Some(p) => p.config_schema,
            None => Seq::empty(),
        },
{
    match sole_plugin(state) {
        Some(p) => p.config_schema.duplicate(),
        None => ConfigSchema::default(),
    }
}

/// What is shown of the settings in effect.
pub open spec fn shown_settings(
    plugins: Seq<HostedPluginView>,
    persisted: Option<config::ConfigDocumentView>,
) -> Map<Seq<char>, config::ConfigValueView> {
    match sole(plugins) {
        Some(p) => config::redacted(
            config::settings_in(effective(plugins, p.id, persisted)),
            p.config_schema,
        ),
        None => Map::empty(),
    }
}

/// The settings in effect, with secrets shown only as `<key>_set`, where the
/// plugin's configuration file holds `persisted`.
pub fn shown_config(state: &AppState, persisted: Option<ConfigDocument>) -> (res: TextMap<
    ConfigValue,
>)
    ensures
        res@ == shown_settings(state@.plugins, config::document_view(persisted)),
{
    match sole_plugin(state) {
        Some(p) => redact(&state.config_in_effect(p.id.as_str(), persisted), &p.config_schema),
        None => TextMap::new(),
    }
}

/// `GET /config/values`: the settings in effect, with secrets shown only as
/// `<key>_set`. `file` is the contents of the plugin's configuration file, if it
/// could be read.
pub fn config_values_get(state: &AppState, file: Option<Vec<u8>>) -> (res: TextMap<ConfigValue>)
    ensures
        res@ == shown_settings(state@.plugins, file_document(file_view(file))),
{
    shown_config(state, read_config(file))
}

/// How new settings are stored: `directory` is made, `values` are written to
/// `temporary`, and that is renamed to `path`.
#[derive(Debug)]
pub struct ConfigSave {
    pub directory: String,
    pub temporary: String,
    pub path: String,
    pub values: TextMap<ConfigValue>,
}

/// The contents of a [`ConfigSave`].
pub struct ConfigSaveView {
    pub directory: Seq<char>,
    pub temporary: Seq<char>,
    pub path: Seq<char>,
    pub values: Map<Seq<char>, config::ConfigValueView>,
}

impl View for ConfigSave {
    type V = ConfigSaveView;

    open spec fn view(&self) -> ConfigSaveView {
        ConfigSaveView {
            directory: self.directory@,
            temporary: self.temporary@,
            path: self.path@,
            values: self.values@,
        }
    }
}

/// What is stored of submitted settings, and where.
pub open spec fn settings_to_store(
    plugins: Seq<HostedPluginView>,
    state_dir: Seq<char>,
    persisted: Option<config::ConfigDocumentView>,
    incoming: config::ConfigDocumentView,
) -> Result<ConfigSaveView, HttpReplyView> {
    match sole(plugins) {
        Some(p) => Ok(
            ConfigSaveView {
                directory: plugin_dir(state_dir, p.id),
                temporary: config_file(state_dir, p.id) + ".tmp"@,
                path: config_file(state_dir, p.id),
                values: config::merged(
                    config::settings_in(effective(plugins, p.id, persisted)),
                    config::settings_in(incoming),
                    p.config_schema,
                ),
            },
        ),
        None => Err(HttpReplyView { status: 404, body: "feeder hosts no plugin"@ }),
    }
}

/// The contents of what is to be stored, or of the reply in its place.
pub open spec fn save_view(save: Result<ConfigSave, HttpReply>) -> Result<
    ConfigSaveView,
    HttpReplyView,
> {
    match save {
        Ok(to_store) => Ok(to_store@),
        Err(reply) => Err(reply@),
    }
}

/// The submitted settings, merged into those in effect, where the plugin's
/// configuration file holds `persisted`.
pub fn merged_config(
    state: &AppState,
    persisted: Option<ConfigDocument>,
    incoming: &ConfigDocument,
) -> (res: Result<ConfigSave, HttpReply>)
    ensures
        save_view(res) == settings_to_store(
            state@.plugins,
            state@.state_dir,
            config::document_view(persisted),
            incoming@,
        ),
{
    match sole_plugin(state) {
        Some(p) => {
            let base = state.config_in_effect(p.id.as_str(), persisted);
            let path = state.config_path(p.id.as_str());
            let mut temporary = path.clone();
            temporary.push_str(".tmp");
            Ok(
                ConfigSave {
                    directory: cache_dir(state.state_dir.as_str(), p.id.as_str()),
                    temporary,
                    path,
                    values: merge(&base, incoming, &p.config_schema),
                },
            )
        },
        None => Err(HttpReply { status: 404, body: "feeder hosts no plugin".to_string() }),
    }
}

/// `PUT /config/values`: the submitted settings, merged into those in effect.
/// `file` is the contents of the plugin's configuration file, if it could be
/// read.
pub fn config_values_put(
    state: &AppState,
    file: Option<Vec<u8>>,
    incoming: &ConfigDocument,
) -> (res: Result<ConfigSave, HttpReply>)
    ensures
        save_view(res) == settings_to_store(
            state@.plugins,
            state@.state_dir,
            file_document(file_view(file)),
            incoming@,
        ),
{
    merged_config(state, read_config(file), incoming)
}

/// How storing the settings went.
#[derive(Debug)]
pub enum SaveOutcome {
    Saved,
    /// The directory could not be made.
    NoDirectory(String),
    /// The settings could not be encoded.
    NotEncoded(String),
    /// The file could not be written or renamed.
    NotWritten(String),
}

/// The answer to settings that were stored. They take effect at a restart.
#[derive(Debug, Clone, Copy, PartialEq, Eq)]
pub struct ConfigSaved {
    pub saved: bool,
    pub restart_required: bool,
}

/// What went wrong in storing the settings, as the reply words it.
pub open spec fn save_failure(outcome: SaveOutcome) -> Option<Seq<char>> {
    match outcome {
        SaveOutcome::Saved => None,
        SaveOutcome::NoDirectory(e) => Some("mkdir: "@ + e@),
        SaveOutcome::NotEncoded(e) => Some("serialize: "@ + e@),
        SaveOutcome::NotWritten(e) => Some("write config: "@ + e@),
    }
}

/// The answer to `PUT /config/values` once the settings were stored, or not.
pub fn config_saved(outcome: SaveOutcome) -> (res: Result<ConfigSaved, HttpReply>)
    ensures
        match save_failure(outcome) {
            None => res == Ok::<ConfigSaved, HttpReply>(
                (ConfigSaved { saved: true, restart_required: true }),
            ),
            Some(message) => res matches Err(reply) && reply@ == (HttpReplyView {
                status: 500,
                body: message,
            }),
        },
{
    let (prefix, reason) = match outcome {
        SaveOutcome::Saved => {
            return Ok(ConfigSaved { saved: true, restart_required: true });
        },
        SaveOutcome::NoDirectory(e) => ("mkdir: ", e),
        SaveOutcome::NotEncoded(e) => ("serialize: ", e),
        SaveOutcome::NotWritten(e) => ("write config: ", e),
    };
    let mut body = prefix.to_string();
    body.push_str(reason.as_str());
    Err(HttpReply { status: 500, body })
}

impl ConfigSave {
    /// The text that is written to the configuration file. Once it is read back,
    /// the stored settings are the ones in effect, whatever the plugin runs with.
    pub fn encode(&self) -> (res: Result<Vec<u8>, String>)
        ensures
            exists|list: Seq<(Seq<char>, config::ConfigValueView)>| #[trigger]
                config::lists_settings(list, self@.values) && config::written_view(res)
                    == config::json_written(list),
            res matches Ok(bytes) ==> config::reads_as_object(self@.values) ==> forall|
                plugins: Seq<HostedPluginView>,
                key: Seq<char>,
            |
                config::settings_read_back(self@.values) matches Some(stored) ==> #[trigger]
                    effective(plugins, key, file_document(Some(bytes@))) == stored,
            res matches Ok(bytes) ==> config::reads_as_object(self@.values)
                && config::all_canonical(self@.values) ==> forall|
                plugins: Seq<HostedPluginView>,
                key: Seq<char>,
            | #[trigger]
                effective(plugins, key, file_document(Some(bytes@)))
                    == config::ConfigDocumentView::Object(self@.values),
    {
        encode_settings(&self.values)
    }
}

/// Settings are stored in the directory that the plugin is given at the next
/// start, in the file that is read for the settings in effect.
pub proof fn law_settings_are_saved_where_they_are_read(
    plugins: Seq<HostedPluginView>,
    state_dir: Seq<char>,
    persisted: Option<config::ConfigDocumentView>,
    incoming: config::ConfigDocumentView,
)
    requires
        plugins.len() > 0,
    ensures
        settings_to_store(plugins, state_dir, persisted, incoming) matches Ok(save) && {
            let id = sole(plugins)->0.id;
            &&& save.path == config_file(state_dir, id)
            &&& save.path == path_join(plugin_dir(state_dir, id), "config.json"@)
            &&& save.directory == plugin_dir(state_dir, id)
        },
{
    lemma_sole(plugins);
}

/// A file that cannot be parsed counts for as little as one that is not there.
pub proof fn law_broken_file_is_ignored(
    plugins: Seq<HostedPluginView>,
    key: Seq<char>,
    bytes: Seq<u8>,
)
    requires
        config::json_content(bytes) is None,
    ensures
        effective(plugins, key, file_document(Some(bytes))) == effective(
            plugins,
            key,
            file_document(None),
        ),
{
}

// -------------------------------------------------------------------- starting up
/// What came of setting up one plugin.
#[derive(Debug)]
pub enum SetupOutcome {
    /// Its directory could not be made.
    NoDirectory(String),
    /// It was handed its directory and answered this.
    Configured(Result<(), ConfigError>),
}

/// A plugin that the feeder was given, and what came of setting it up.
pub struct SetupView {
    pub id: Seq<char>,
    pub index: usize,
    pub outcome: SetupOutcome,
}

/// What stops the start, if anything does. A plugin that lacks a setting does
/// not.
pub open spec fn setup_failure(state_dir: Seq<char>, s: SetupView) -> Option<Seq<char>> {
    match s.outcome {
        SetupOutcome::NoDirectory(e) => Some(
            "create cache dir "@ + plugin_dir(state_dir, s.id) + " for "@ + s.id + ": "@ + e@,
        ),
        SetupOutcome::Configured(Err(ConfigError::Other(message))) => Some(message@),
        SetupOutcome::Configured(Err(ConfigError::MissingConfig { .. })) => None,
        SetupOutcome::Configured(Ok(_)) => None,
    }
}

/// The plugins kept so far, by id, after one more: it is kept if it is set up,
/// in place of an earlier one with its id.
pub open spec fn kept_after(kept: Map<Seq<char>, usize>, s: SetupView) -> Map<Seq<char>, usize> {
    if s.outcome matches SetupOutcome::Configured(Ok(_)) {
        kept.insert(s.id, s.index)
    } else {
        kept
    }
}

/// The plugins kept after setting up `setups` in order, or why the feeder did
/// not start.
pub open spec fn survivors(state_dir: Seq<char>, setups: Seq<SetupView>) -> Result<
    Map<Seq<char>, usize>,
    Seq<char>,
>
    decreases setups.len(),
{
    if setups.len() == 0 {
        Ok(Map::empty())
    } else {
        match survivors(state_dir, setups.drop_last()) {
            Err(message) => Err(message),
            Ok(kept) => match setup_failure(state_dir, setups.last()) {
                Some(message) => Err(message),
                None => Ok(kept_after(kept, setups.last())),
            },
        }
    }
}

/// Goes on after the plugin at `index`, whose id is `id`, was set up. `kept`
/// maps the id of each plugin that is kept to its index. An error stops the
/// start.
pub fn plugin_configured(
    kept: &mut TextMap<usize>,
    state_dir: &str,
    index: usize,
    id: &str,
    outcome: SetupOutcome,
) -> (res: Result<(), String>)
    ensures
        ({
            let setup = SetupView { id: id@, index, outcome };
            match setup_failure(state_dir@, setup) {
                Some(message) => res matches Err(m) && m@ == message && final(kept)@ == old(kept)@,
                None => res is Ok && final(kept)@ == kept_after(old(kept)@, setup),
            }
        }),
{
    match outcome {
        SetupOutcome::NoDirectory(e) => {
            let mut message = "create cache dir ".to_string();
            message.push_str(cache_dir(state_dir, id).as_str());
            message.push_str(" for ");
            message.push_str(id);
            message.push_str(": ");
            message.push_str(e.as_str());
            Err(message)
        },
        SetupOutcome::Configured(Ok(())) => {
            kept.insert(id.to_string(), index);
            Ok(())
        },
        SetupOutcome::Configured(Err(ConfigError::MissingConfig { .. })) => Ok(()),
        SetupOutcome::Configured(Err(ConfigError::Other(message))) => Err(message),
    }
}

/// A plugin that lacks a setting is left out, and the others are set up as if
/// it had not been given.
pub proof fn law_missing_config_skips_the_plugin(
    state_dir: Seq<char>,
    before: Seq<SetupView>,
    skipped: SetupView,
    after: Seq<SetupView>,
)
    requires
        skipped.outcome matches SetupOutcome::Configured(Err(ConfigError::MissingConfig { .. })),
    ensures
        survivors(state_dir, before.push(skipped) + after) == survivors(state_dir, before + after),
    decreases after.len(),
{
    if after.len() == 0 {
        assert(before.push(skipped) + after =~= before.push(skipped));
        assert(before + after =~= before);
        assert(before.push(skipped).drop_last() =~= before);
    } else {
        law_missing_config_skips_the_plugin(state_dir, before, skipped, after.drop_last());
        assert((before.push(skipped) + after).drop_last() =~= before.push(skipped)
            + after.drop_last());
        assert((before + after).drop_last() =~= before + after.drop_last());
        assert((before.push(skipped) + after).last() == after.last());
        assert((before + after).last() == after.last());
    }
}

/// A plugin that cannot be set up for another reason stops the start, whatever
/// comes after it.
pub proof fn law_other_failures_stop_the_start(
    state_dir: Seq<char>,
    before: Seq<SetupView>,
    failed: SetupView,
    after: Seq<SetupView>,
)
    requires
        setup_failure(state_dir, failed) is Some,
    ensures
        survivors(state_dir, before.push(failed) + after) is Err,
    decreases after.len(),
{
    if after.len() == 0 {
        assert(before.push(failed) + after =~= before.push(failed));
        assert(before.push(failed).drop_last() =~= before);
    } else {
        law_other_failures_stop_the_start(state_dir, before, failed, after.drop_last());
        assert((before.push(failed) + after).drop_last() =~= before.push(failed)
            + after.drop_last());
    }
}

} // verus!
