//! The records, errors and outcomes that feeders and the gateway exchange.
use crate::text;
use crate::text::decimal_text;
use crate::text_map::TextMap;
use vstd::prelude::*;

verus! {

/// The content of an optional string.
pub open spec fn opt_text(s: Option<String>) -> Option<Seq<char>> {
    match s {
        Some(t) => Some(t@),
        None => None,
    }
}

/// One record that a search found: which upstream it comes from, under which
/// id the upstream knows it, and its metadata fields.
#[derive(Debug, Clone, PartialEq)]
pub struct DiscoveryRecord {
    pub upstream_id: String,
    pub record_id: String,
    pub fields: TextMap<String>,
}

/// The contents of a [`DiscoveryRecord`].
pub struct DiscoveryRecordView {
    pub upstream_id: Seq<char>,
    pub record_id: Seq<char>,
    pub fields: Map<Seq<char>, Seq<char>>,
}

impl View for DiscoveryRecord {
    type V = DiscoveryRecordView;

    open spec fn view(&self) -> DiscoveryRecordView {
        DiscoveryRecordView {
            upstream_id: self.upstream_id@,
            record_id: self.record_id@,
            fields: self.fields@,
        }
    }
}

/// The contents of a list of records.
pub open spec fn record_views(list: Seq<DiscoveryRecord>) -> Seq<DiscoveryRecordView> {
    Seq::new(list.len(), |i: int| list[i]@)
}

/// The record has this value under this field.
pub open spec fn has_field(r: DiscoveryRecordView, key: Seq<char>, value: Seq<char>) -> bool {
    r.fields.contains_key(key) && r.fields[key] == value
}

/// `fields` with `value` under `key`, where there is a value.
pub open spec fn put(
    fields: Map<Seq<char>, Seq<char>>,
    key: Seq<char>,
    value: Option<Seq<char>>,
) -> Map<Seq<char>, Seq<char>> {
    match value {
        Some(v) => fields.insert(key, v),
        None => fields,
    }
}

/// Stores an optional value under `key`.
pub fn put_field(fields: &mut TextMap<String>, key: &str, value: Option<String>)
    ensures
        final(fields)@ == put(old(fields)@, key@, opt_text(value)),
{
    if let Some(v) = value {
        fields.insert(key.to_string(), v);
    }
}

/// The field under which a record of `upstream_id` carries its canonical id.
pub fn upstream_id_field(upstream_id: &str) -> (res: String)
    ensures
        res@ == upstream_id@ + "id"@,
{
    let mut res = upstream_id.to_string();
    res.push_str("id");
    res
}

// -------------------------------------------------------------------- outcomes
/// A content hash in its textual form.
#[derive(Debug, Clone, PartialEq, Eq)]
pub struct Hash(pub String);

impl Hash {
    /// The hash as text.
    pub fn as_str(&self) -> (res: &str)
        ensures
            res@ == self.0@,
    {
        self.0.as_str()
    }
}

/// How a content hash was computed.
#[derive(Debug, Clone, Copy, PartialEq, Eq, Structural)]
pub enum HashKind {
    Midhash256,
    Sha2_256,
    BtV1File,
}

/// One resolved file of a record. `bytes` and `record` are there where the
/// file was fetched; an outcome out of the cache carries neither.
#[derive(Debug, Clone, PartialEq)]
pub struct HashOutcome {
    pub hash: Hash,
    pub hash_kind: HashKind,
    pub file_extension: Option<String>,
    pub record: Option<DiscoveryRecord>,
    pub bytes: Option<Vec<u8>>,
}

/// The contents of a [`HashOutcome`].
pub struct HashOutcomeView {
    pub hash: Seq<char>,
    pub hash_kind: HashKind,
    pub file_extension: Option<Seq<char>>,
    pub record: Option<DiscoveryRecordView>,
    pub bytes: Option<Seq<u8>>,
}

impl View for HashOutcome {
    type V = HashOutcomeView;

    open spec fn view(&self) -> HashOutcomeView {
        HashOutcomeView {
            hash: self.hash.0@,
            hash_kind: self.hash_kind,
            file_extension: opt_text(self.file_extension),
            record: match self.record {
                Some(r) => Some(r@),
                None => None,
            },
            bytes: match self.bytes {
                Some(b) => Some(b@),
                None => None,
            },
        }
    }
}

/// The contents of a list of outcomes.
pub open spec fn outcome_views(list: Seq<HashOutcome>) -> Seq<HashOutcomeView> {
    Seq::new(list.len(), |i: int| list[i]@)
}

// ---------------------------------------------------------------------- errors
/// Why a request to an upstream failed.
#[derive(Debug, Clone, PartialEq, Eq)]
pub enum GatewayError {
    /// The upstream does not know the record.
    NotFound,
    /// The upstream asks to be left alone for a while.
    RateLimited { retry_after_s: u64 },
    /// The request may succeed later.
    Transient(String),
    /// The request will not succeed.
    Permanent(String),
    /// The feeder itself is at fault.
    Internal(String),
}

/// The contents of a [`GatewayError`].
pub enum GatewayErrorView {
    NotFound,
    RateLimited { retry_after_s: u64 },
    Transient(Seq<char>),
    Permanent(Seq<char>),
    Internal(Seq<char>),
}

impl View for GatewayError {
    type V = GatewayErrorView;

    open spec fn view(&self) -> GatewayErrorView {
        match *self {
            GatewayError::NotFound => GatewayErrorView::NotFound,
            GatewayError::RateLimited { retry_after_s } => GatewayErrorView::RateLimited {
                retry_after_s,
            },
            GatewayError::Transient(s) => GatewayErrorView::Transient(s@),
            GatewayError::Permanent(s) => GatewayErrorView::Permanent(s@),
            GatewayError::Internal(s) => GatewayErrorView::Internal(s@),
        }
    }
}

/// An error in words: its kind, and its message where it has one.
pub open spec fn error_text(e: GatewayErrorView) -> Seq<char> {
    match e {
        GatewayErrorView::NotFound => "not found"@,
        GatewayErrorView::RateLimited { retry_after_s } => "rate limited; retry in "@
            + text::decimal(retry_after_s as nat) + "s"@,
        GatewayErrorView::Transient(s) => "transient: "@ + s,
        GatewayErrorView::Permanent(s) => "permanent: "@ + s,
        GatewayErrorView::Internal(s) => "internal: "@ + s,
    }
}

impl GatewayError {
    /// The error in words.
    pub fn message(&self) -> (res: String)
        ensures
            res@ == error_text(self@),
    {
        let (kind, rest) = match self {
            GatewayError::NotFound => {
                return "not found".to_string();
            },
            GatewayError::RateLimited { retry_after_s } => {
                let mut res = "rate limited; retry in ".to_string();
                res.push_str(decimal_text(*retry_after_s).as_str());
                res.push_str("s");
                return res;
            },
            GatewayError::Transient(s) => ("transient: ", s),
            GatewayError::Permanent(s) => ("permanent: ", s),
            GatewayError::Internal(s) => ("internal: ", s),
        };
        let mut res = kind.to_string();
        res.push_str(rest.as_str());
        res
    }
}

/// The contents of a list of records, or of the error in its place.
pub open spec fn answer_view(answer: Result<Vec<DiscoveryRecord>, GatewayError>) -> Result<
    Seq<DiscoveryRecordView>,
    GatewayErrorView,
> {
    match answer {
        Ok(records) => Ok(record_views(records@)),
        Err(e) => Err(e@),
    }
}

/// Why a plugin could not be configured.
#[derive(Debug, Clone, PartialEq, Eq)]
pub enum ConfigError {
    /// A required setting was not supplied; the plugin is left out.
    MissingConfig { plugin: String, what: String },
    /// Anything else; the feeder does not start.
    Other(String),
}

/// How a plugin is doing.
#[derive(Debug, Clone, PartialEq, Eq)]
pub enum PluginHealth {
    Healthy,
    Degraded { reason: String },
}

} // verus!
