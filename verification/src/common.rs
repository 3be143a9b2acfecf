//! What the upstream plugins share: percent-encoding, the errors of a failed
//! request, and the steps of resolving a record to its file.
use crate::hash;
use crate::text;
use crate::text::decimal_text;
use crate::types;
use crate::types::{DiscoveryRecord, GatewayError, HashKind, HashOutcome};
use vstd::prelude::*;

verus! {

// ------------------------------------------------------------- percent-encoding
/// The bytes that stand for themselves in a query string: ASCII letters and
/// digits, and `-`, `.`, `_`, `~`.
pub open spec fn unreserved(b: u8) -> bool {
    ||| 0x61 <= b <= 0x7a
    ||| 0x41 <= b <= 0x5a
    ||| 0x30 <= b <= 0x39
    ||| b == 0x2d
    ||| b == 0x2e
    ||| b == 0x5f
    ||| b == 0x7e
}

/// The upper-case hexadecimal digit `d`.
pub open spec fn hex_char(d: int) -> char {
    if d < 10 {
        (0x30 + d) as u8 as char
    } else {
        (0x37 + d) as u8 as char
    }
}

/// One byte of a query-string value: itself, or `%` and two hexadecimal digits.
pub open spec fn encoded_byte(b: u8) -> Seq<char> {
    if unreserved(b) {
        seq![b as char]
    } else {
        seq!['%', hex_char(b as int / 16), hex_char(b as int % 16)]
    }
}

/// The percent-encoding of a list of bytes.
pub open spec fn percent_encoded(bytes: Seq<u8>) -> Seq<char>
    decreases bytes.len(),
{
    if bytes.len() == 0 {
        Seq::empty()
    } else {
        percent_encoded(bytes.drop_last()) + encoded_byte(bytes.last())
    }
}

/// The percent-encoding of a text's UTF-8 bytes.
pub open spec fn url_encoded(s: Seq<char>) -> Seq<char> {
    percent_encoded(vstd::utf8::encode_utf8(s))
}

fn is_unreserved(b: u8) -> (res: bool)
    ensures
        res == unreserved(b),
{
    (0x61 <= b && b <= 0x7a) || (0x41 <= b && b <= 0x5a) || (0x30 <= b && b <= 0x39) || b == 0x2d
        || b == 0x2e || b == 0x5f || b == 0x7e
}

fn hex_digit(d: u8) -> (res: char)
    requires
        d < 16,
    ensures
        res == hex_char(d as int),
{
    if d < 10 {
        (0x30 + d) as char
    } else {
        (0x37 + d) as char
    }
}

/// Percent-encodes a query-string value.
pub fn urlencode(s: &str) -> (res: String)
    ensures
        res@ == url_encoded(s@),
{
    let bytes = s.as_bytes();
    let mut out = String::new();
    let mut i: usize = 0;
    let ghost all = bytes@;
    while i < bytes.len()
        invariant
            all == bytes@,
            i <= bytes@.len(),
            out@ == percent_encoded(all.take(i as int)),
        decreases bytes@.len() - i,
    {
        let b: u8 = bytes[i];
        let ghost before = out@;
        assert(all.take(i + 1).drop_last() =~= all.take(i as int));
        if is_unreserved(b) {
            out.push(b as char);
        } else {
            out.push('%');
            out.push(hex_digit(b / 16));
            out.push(hex_digit(b % 16));
        }
        assert(out@ =~= before + encoded_byte(b));
        i = i + 1;
    }
    assert(all.take(i as int) =~= all);
    out
}

// -------------------------------------------------------------- failed requests
/// The error for a request that got no answer.
pub open spec fn no_answer(url: Seq<char>, reason: Seq<char>) -> types::GatewayErrorView {
    types::GatewayErrorView::Transient("GET "@ + url + ": "@ + reason)
}

/// The error for a request to `url` that failed before an answer came.
pub fn transport_failure(url: &str, reason: &str) -> (res: GatewayError)
    ensures
        res@ == no_answer(url@, reason@),
{
    let mut message = "GET ".to_string();
    message.push_str(url);
    message.push_str(": ");
    message.push_str(reason);
    GatewayError::Transient(message)
}

/// What an upstream's HTTP status means: `None` for success, else the error.
pub open spec fn status_error(status: u16, retry_after_s: u64) -> Option<types::GatewayErrorView> {
    let message = "upstream status "@ + text::decimal(status as nat);
    if 200 <= status < 300 {
        None
    } else if status == 404 {
        Some(types::GatewayErrorView::NotFound)
    } else if status == 429 {
        Some(types::GatewayErrorView::RateLimited { retry_after_s })
    } else if 500 <= status {
        Some(types::GatewayErrorView::Transient(message))
    } else {
        Some(types::GatewayErrorView::Permanent(message))
    }
}

/// Maps an upstream's HTTP status to an error. `retry_after_s` is how long to
/// wait after a 429.
pub fn map_status(status: u16, retry_after_s: u64) -> (res: Result<(), GatewayError>)
    ensures
        match status_error(status, retry_after_s) {
            Some(e) => res matches Err(error) && error@ == e,
            None => res is Ok,
        },
{
    if 200 <= status && status < 300 {
        return Ok(());
    }
    if status == 404 {
        return Err(GatewayError::NotFound);
    }
    if status == 429 {
        return Err(GatewayError::RateLimited { retry_after_s });
    }
    let mut message = "upstream status ".to_string();
    message.push_str(decimal_text(status as u64).as_str());
    if 500 <= status {
        Err(GatewayError::Transient(message))
    } else {
        Err(GatewayError::Permanent(message))
    }
}

// ------------------------------------------------------------ resolving a record
/// What comes next in resolving a record to its file. The first two steps ask
/// for a request whose answer is handed to the next function.
#[derive(Debug)]
pub enum ComputeStep<E> {
    /// Ask `url` for the record's metadata.
    FetchEntry { url: String },
    /// Ask `url` for the file of `entry`.
    FetchPdf { url: String, entry: E },
    /// Remember `hash` for the record, then answer with `outcomes`.
    Store { hash: String, outcomes: Vec<HashOutcome> },
    /// Answer with this.
    Finished(Result<Vec<HashOutcome>, GatewayError>),
}

/// The contents of a [`ComputeStep`].
pub enum ComputeStepView<E> {
    FetchEntry { url: Seq<char> },
    FetchPdf { url: Seq<char>, entry: E },
    Store { hash: Seq<char>, outcomes: Seq<types::HashOutcomeView> },
    Finished(Result<Seq<types::HashOutcomeView>, types::GatewayErrorView>),
}

impl<E: View> View for ComputeStep<E> {
    type V = ComputeStepView<E::V>;

    open spec fn view(&self) -> ComputeStepView<E::V> {
        match *self {
            ComputeStep::FetchEntry { url } => ComputeStepView::FetchEntry { url: url@ },
            ComputeStep::FetchPdf { url, entry } => ComputeStepView::FetchPdf {
                url: url@,
                entry: entry@,
            },
            ComputeStep::Store { hash, outcomes } => ComputeStepView::Store {
                hash: hash@,
                outcomes: types::outcome_views(outcomes@),
            },
            ComputeStep::Finished(Ok(outcomes)) => ComputeStepView::Finished(
                Ok(types::outcome_views(outcomes@)),
            ),
            ComputeStep::Finished(Err(e)) => ComputeStepView::Finished(Err(e@)),
        }
    }
}

/// The outcome for a file that was fetched and hashed.
pub open spec fn fresh_outcome(
    hash: Seq<char>,
    bytes: Seq<u8>,
    record: types::DiscoveryRecordView,
) -> types::HashOutcomeView {
    types::HashOutcomeView {
        hash,
        hash_kind: HashKind::Sha2_256,
        file_extension: Some("pdf"@),
        record: Some(record),
        bytes: Some(bytes),
    }
}

/// The outcome for a hash out of the cache: neither bytes nor record.
pub open spec fn remembered_outcome(hash: Seq<char>) -> types::HashOutcomeView {
    types::HashOutcomeView {
        hash,
        hash_kind: HashKind::Sha2_256,
        file_extension: None,
        record: None,
        bytes: None,
    }
}

/// The single outcome for a PDF that was fetched and hashed.
pub fn single_outcome(hash: String, bytes: Vec<u8>, record: DiscoveryRecord) -> (res: Vec<
    HashOutcome,
>)
    ensures
        types::outcome_views(res@) == seq![fresh_outcome(hash@, bytes@, record@)],
{
    let ghost expected = fresh_outcome(hash@, bytes@, record@);
    let outcome = HashOutcome {
        hash: types::Hash(hash),
        hash_kind: HashKind::Sha2_256,
        file_extension: Some("pdf".to_string()),
        record: Some(record),
        bytes: Some(bytes),
    };
    let mut out: Vec<HashOutcome> = Vec::new();
    out.push(outcome);
    assert(types::outcome_views(out@) =~= seq![expected]);
    out
}

/// The single outcome for a hash out of the cache.
pub fn cached_outcome(hash: String) -> (res: Vec<HashOutcome>)
    ensures
        types::outcome_views(res@) == seq![remembered_outcome(hash@)],
{
    let ghost expected = remembered_outcome(hash@);
    let mut out: Vec<HashOutcome> = Vec::new();
    out.push(
        HashOutcome {
            hash: types::Hash(hash),
            hash_kind: HashKind::Sha2_256,
            file_extension: None,
            record: None,
            bytes: None,
        },
    );
    assert(types::outcome_views(out@) =~= seq![expected]);
    out
}

/// The error of a plugin that is asked before its cache was opened.
pub open spec fn not_configured(upstream_id: Seq<char>) -> types::GatewayErrorView {
    types::GatewayErrorView::Internal(upstream_id + ": configure() not yet called"@)
}

/// How resolving a record begins. A plugin without its cache fails; so does a
/// cache that cannot be read; a hash that the cache holds is the answer; and
/// otherwise the record's metadata is asked for.
pub open spec fn compute_begin<E>(
    upstream_id: Seq<char>,
    cache_open: bool,
    cached: Result<Option<Seq<char>>, types::GatewayErrorView>,
    entry_url: Seq<char>,
) -> ComputeStepView<E> {
    if !cache_open {
        ComputeStepView::Finished(Err(not_configured(upstream_id)))
    } else {
        match cached {
            Err(e) => ComputeStepView::Finished(Err(e)),
            Ok(Some(hash)) => ComputeStepView::Finished(Ok(seq![remembered_outcome(hash)])),
            Ok(None) => ComputeStepView::FetchEntry { url: entry_url },
        }
    }
}

/// The contents of a cache lookup's result.
pub open spec fn cached_view(cached: Result<Option<String>, GatewayError>) -> Result<
    Option<Seq<char>>,
    types::GatewayErrorView,
> {
    match cached {
        Ok(hit) => Ok(types::opt_text(hit)),
        Err(e) => Err(e@),
    }
}

/// The contents of a fetched body.
pub open spec fn body_view(body: Result<Vec<u8>, GatewayError>) -> Result<
    Seq<u8>,
    types::GatewayErrorView,
> {
    match body {
        Ok(bytes) => Ok(bytes@),
        Err(e) => Err(e@),
    }
}

/// Begins to resolve a record: the cache was asked and answered `cached`.
pub fn begin_compute<E: View>(
    upstream_id: &str,
    cache_open: bool,
    cached: Result<Option<String>, GatewayError>,
    entry_url: String,
) -> (res: ComputeStep<E>)
    ensures
        res@ == compute_begin::<E::V>(upstream_id@, cache_open, cached_view(cached), entry_url@),
{
    if !cache_open {
        let mut message = upstream_id.to_string();
        message.push_str(": configure() not yet called");
        return ComputeStep::Finished(Err(GatewayError::Internal(message)));
    }
    match cached {
        Err(e) => ComputeStep::Finished(Err(e)),
        Ok(Some(hash)) => ComputeStep::Finished(Ok(cached_outcome(hash))),
        Ok(None) => ComputeStep::FetchEntry { url: entry_url },
    }
}

/// A resolution from beginning to end: the answer, and the hash that is
/// remembered for the record, if any.
pub struct Resolution {
    pub answer: Result<Seq<types::HashOutcomeView>, types::GatewayErrorView>,
    pub remembered: Option<Seq<char>>,
}

/// The resolution that ends with this step. (A request that is still to be made
/// does not end it.)
pub open spec fn ended<E>(step: ComputeStepView<E>) -> Resolution {
    match step {
        ComputeStepView::Store { hash, outcomes } => Resolution {
            answer: Ok(outcomes),
            remembered: Some(hash),
        },
        ComputeStepView::Finished(answer) => Resolution { answer, remembered: None },
        _ => Resolution { answer: Ok(Seq::empty()), remembered: None },
    }
}

/// What holds of every resolution: a failure is an error and leaves the cache as
/// it was; a success has exactly one outcome; and a hash is remembered only for
/// a file that was fetched, whose hash it is.
pub open spec fn sound_resolution(r: Resolution) -> bool {
    &&& r.answer is Err ==> r.remembered is None
    &&& r.answer matches Ok(outcomes) ==> outcomes.len() == 1
    &&& r.remembered matches Some(hash) ==> {
        &&& r.answer is Ok
        &&& r.answer->Ok_0[0].hash == hash
        &&& r.answer->Ok_0[0].bytes matches Some(bytes) && hash == hash::cid_text(
            hash::sha256_digest(bytes),
        )
        &&& r.answer->Ok_0[0].record is Some
    }
}

/// A hash that the cache holds is the answer; no request is made for it.
pub proof fn law_cache_hit_asks_nothing<E>(
    upstream_id: Seq<char>,
    hash: Seq<char>,
    entry_url: Seq<char>,
)
    ensures
        compute_begin::<E>(upstream_id, true, Ok(Some(hash)), entry_url)
            == ComputeStepView::<E>::Finished(Ok(seq![remembered_outcome(hash)])),
        remembered_outcome(hash).bytes is None,
        remembered_outcome(hash).record is None,
{
}

/// What the cache gives back is what was put there: the answer out of the cache
/// names the same hash, of the same kind, as the answer that was computed.
pub proof fn law_cached_answer_agrees<E>(
    upstream_id: Seq<char>,
    hash: Seq<char>,
    bytes: Seq<u8>,
    record: types::DiscoveryRecordView,
    entry_url: Seq<char>,
)
    ensures
        compute_begin::<E>(upstream_id, true, Ok(Some(hash)), entry_url) matches
            ComputeStepView::Finished(Ok(again)) && again.len() == 1 && again[0].hash
            == fresh_outcome(hash, bytes, record).hash && again[0].hash_kind == fresh_outcome(
            hash,
            bytes,
            record,
        ).hash_kind,
{
}

/// A status is taken for a success if and only if it is one.
pub proof fn law_only_success_is_success(status: u16, retry_after_s: u64)
    ensures
        status_error(status, retry_after_s) is None <==> 200 <= status < 300,
        status == 404 ==> status_error(status, retry_after_s) == Some(
            types::GatewayErrorView::NotFound,
        ),
{
}

/// The encoding of the first byte comes first.
pub proof fn lemma_encoded_front(bytes: Seq<u8>)
    requires
        bytes.len() > 0,
    ensures
        percent_encoded(bytes) == encoded_byte(bytes[0]) + percent_encoded(bytes.drop_first()),
    decreases bytes.len(),
{
    let rest = bytes.drop_first();
    if bytes.len() == 1 {
        assert(bytes.drop_last() =~= Seq::empty());
        assert(rest =~= Seq::empty());
        assert(percent_encoded(bytes) =~= encoded_byte(bytes[0]) + percent_encoded(rest));
    } else {
        lemma_encoded_front(bytes.drop_last());
        assert(bytes.drop_last().drop_first() =~= rest.drop_last());
        assert(bytes.last() == rest.last());
        assert(percent_encoded(bytes) =~= encoded_byte(bytes[0]) + percent_encoded(rest));
    }
}

proof fn lemma_hex_injective(a: u8, b: u8)
    requires
        hex_char(a as int / 16) == hex_char(b as int / 16),
        hex_char(a as int % 16) == hex_char(b as int % 16),
    ensures
        a == b,
{
    lemma_hex_digit_injective(a as int / 16, b as int / 16);
    lemma_hex_digit_injective(a as int % 16, b as int % 16);
}

proof fn lemma_hex_digit_injective(a: int, b: int)
    requires
        0 <= a < 16,
        0 <= b < 16,
        hex_char(a) == hex_char(b),
    ensures
        a == b,
{
}

proof fn lemma_percent_injective(a: Seq<u8>, b: Seq<u8>)
    requires
        percent_encoded(a) == percent_encoded(b),
    ensures
        a == b,
    decreases a.len(),
{
    if a.len() == 0 || b.len() == 0 {
        if a.len() > 0 {
            lemma_encoded_front(a);
            assert(percent_encoded(a).len() > 0);
        }
        if b.len() > 0 {
            lemma_encoded_front(b);
            assert(percent_encoded(b).len() > 0);
        }
        assert(a =~= b);
    } else {
        lemma_encoded_front(a);
        lemma_encoded_front(b);
        let x = encoded_byte(a[0]);
        let y = encoded_byte(b[0]);
        let s = x + percent_encoded(a.drop_first());
        let t = y + percent_encoded(b.drop_first());
        assert(s == t);
        assert(s[0] == x[0] && t[0] == y[0]);
        assert(x.len() == y.len());
        if x.len() == 3 {
            assert(s[1] == x[1] && t[1] == y[1] && s[2] == x[2] && t[2] == y[2]);
            lemma_hex_injective(a[0], b[0]);
        }
        assert(a[0] == b[0]);
        assert(s.skip(x.len() as int) =~= percent_encoded(a.drop_first()));
        assert(t.skip(y.len() as int) =~= percent_encoded(b.drop_first()));
        lemma_percent_injective(a.drop_first(), b.drop_first());
        assert(a =~= seq![a[0]] + a.drop_first());
        assert(b =~= seq![b[0]] + b.drop_first());
    }
}

/// Percent-encoding loses nothing: different texts have different encodings.
pub proof fn law_urlencode_is_lossless(a: Seq<char>, b: Seq<char>)
    requires
        url_encoded(a) == url_encoded(b),
    ensures
        a == b,
{
    lemma_percent_injective(vstd::utf8::encode_utf8(a), vstd::utf8::encode_utf8(b));
    vstd::utf8::encode_utf8_decode_utf8(a);
    vstd::utf8::encode_utf8_decode_utf8(b);
}

/// A character that may stand in a query string without changing its structure.
pub open spec fn query_safe(c: char) -> bool {
    c == '%' || (c as u32 <= 0x7f && unreserved(c as u8))
}

/// Nothing but letters, digits, `-`, `.`, `_`, `~` and `%` stands in an
/// encoding, so no value can end a parameter or begin another one.
pub proof fn law_urlencode_is_safe(s: Seq<char>)
    ensures
        forall|i: int| 0 <= i < url_encoded(s).len() ==> query_safe(#[trigger] url_encoded(s)[i]),
{
    lemma_percent_safe(vstd::utf8::encode_utf8(s));
}

proof fn lemma_percent_safe(bytes: Seq<u8>)
    ensures
        forall|i: int|
            0 <= i < percent_encoded(bytes).len() ==> query_safe(
                #[trigger] percent_encoded(bytes)[i],
            ),
    decreases bytes.len(),
{
    if bytes.len() > 0 {
        lemma_percent_safe(bytes.drop_last());
        let head = percent_encoded(bytes.drop_last());
        let tail = encoded_byte(bytes.last());
        assert forall|i: int| 0 <= i < percent_encoded(bytes).len() implies query_safe(
            #[trigger] percent_encoded(bytes)[i],
        ) by {
            if i < head.len() {
                assert(percent_encoded(bytes)[i] == head[i]);
            } else {
                assert(percent_encoded(bytes)[i] == tail[i - head.len()]);
            }
        }
    }
}

/// An ASCII character is the byte that encodes it.
proof fn lemma_ascii(c: char)
    requires
        c as u32 <= 0x7f,
    ensures
        (c as u32) as u8 == c as u8,
        (c as u8) as char == c,
{
}

/// Text that needs no encoding stays as it is.
pub proof fn law_urlencode_keeps_plain_ids(s: Seq<char>)
    requires
        forall|i: int|
            0 <= i < s.len() ==> (#[trigger] s[i]) as u32 <= 0x7f && unreserved(s[i] as u8),
    ensures
        url_encoded(s) == s,
    decreases s.len(),
{
    let bytes = vstd::utf8::encode_utf8(s);
    if s.len() == 0 {
        assert(percent_encoded(bytes) =~= s);
    } else {
        let rest = s.drop_first();
        assert forall|i: int| 0 <= i < rest.len() implies (#[trigger] rest[i]) as u32 <= 0x7f
            && unreserved(rest[i] as u8) by {
            assert(rest[i] == s[i + 1]);
        }
        law_urlencode_keeps_plain_ids(rest);
        let c = s[0] as u32;
        lemma_ascii(s[0]);
        assert(c <= 0x7f);
        assert(vstd::utf8::encode_scalar(c) =~= seq![c as u8]) by {
            assert(c <= 0x7f ==> (c & 0x7f) as u8 == c as u8) by (bit_vector);
        }
        assert(bytes =~= seq![c as u8] + vstd::utf8::encode_utf8(rest));
        assert(bytes[0] == c as u8);
        assert(bytes.drop_first() =~= vstd::utf8::encode_utf8(rest));
        lemma_encoded_front(bytes);
        assert(encoded_byte(c as u8) == seq![s[0]]);
        assert(seq![s[0]] + rest =~= s);
    }
}

} // verus!
