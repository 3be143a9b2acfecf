//! Laws of the operations on texts, names, queries and failed requests, as their
//! callers see them: `call_ensures(f, args, res)` holds of every result that `f`
//! gives on `args`.
use crate::common::{cached_outcome, map_status, single_outcome, transport_failure, urlencode};
use crate::hash;
use crate::hash::{cid_of_digest, compute_ipfs_cid};
use crate::laws::encodings;
use crate::laws::feeds;
use crate::laws::requests;
use crate::laws::texts;
use crate::listing;
use crate::listing::{sort_by_id, Listed};
use crate::query::{
    query_accepts_plugin, replay_events, GatewayQuery, GatewaySearchEvent,
};
use crate::scihub;
use crate::scihub::scihub_mirrors;
use crate::text;
use crate::text::{
    chars_of, decimal_text, find_char, has_prefix, is_whitespace, join, precedes, rest_after_last, same_text,
    split_at_char, split_words, string_of, strip_prefix, trim, trim_end_char,
};
use crate::text_map::TextMap;
use crate::types;
use crate::types::{upstream_id_field, DiscoveryRecord, GatewayError, HashOutcome};
use crate::xml;
use crate::xml::{collect_attrs, local_name, read_document, text_content, RawAttribute, XmlError, XmlToken};
use vstd::prelude::*;
use vstd::utf8;

verus! {

/// The text of an optional string.
pub open spec fn text_in(s: Option<String>) -> Option<Seq<char>> {
    match s {
        Some(t) => Some(t@),
        None => None,
    }
}

/// The texts of a list of strings.
pub open spec fn texts_in(list: Seq<String>) -> Seq<Seq<char>> {
    Seq::new(list.len(), |i: int| list[i]@)
}

/// The contents of a list of strings are its texts.
pub proof fn lemma_texts_in(list: Seq<String>)
    ensures
        text::texts(list) == texts_in(list),
{
    assert(text::texts(list) =~= texts_in(list));
}

// ------------------------------------------------------------------------ texts
/// A character is found to be whitespace where it is.
pub proof fn law_whitespace_is_found(c: char, res: bool)
    requires
        call_ensures(is_whitespace, (c,), res),
    ensures
        res <==> text::is_white_space(c),
{
}

/// Trimming a string takes away the whitespace at its ends, and nothing else.
pub proof fn law_trim_takes_blanks_away(s: &str, res: String)
    requires
        call_ensures(trim, (s,), res),
    ensures
        texts::is_core(s@, res@),
{
    texts::law_trim(s@);
}

/// A string without its trailing characters is what stands before them.
pub proof fn law_trim_end_char_takes_them_away(s: &str, c: char, res: String)
    requires
        call_ensures(trim_end_char, (s, c), res),
    ensures
        res@.len() <= s@.len(),
        res@ == s@.take(res@.len() as int),
        forall|i: int| res@.len() <= i < s@.len() ==> #[trigger] s@[i] == c,
        res@.len() > 0 ==> res@.last() != c,
{
    texts::law_without_trailing(s@, c);
}

/// The words of a text, joined by single spaces, are a single-spaced text of the
/// same words.
pub proof fn law_split_and_join(
    s: &str,
    words: Vec<String>,
    separator: &str,
    res: String,
)
    requires
        call_ensures(split_words, (s,), words),
        call_ensures(join, (&words, separator), res),
        separator@ == " "@,
    ensures
        texts_in(words@) == text::words(s@),
        text::words(res@) == text::words(s@),
        texts::single_spaced(res@),
{
    lemma_texts_in(words@);
    text::lemma_words(s@);
    text::lemma_words_of_joined(text::words(s@));
    texts::law_joined_words_are_single_spaced(text::words(s@));
}

/// Splitting at a character and joining by it gives the text back, and no part
/// holds the character.
pub proof fn law_split_at_char_can_be_undone(
    s: &str,
    c: char,
    parts: Vec<String>,
    separator: &str,
    res: String,
    i: int,
)
    requires
        call_ensures(split_at_char, (s, c), parts),
        call_ensures(join, (&parts, separator), res),
        separator@ == seq![c],
        0 <= i < parts@.len(),
    ensures
        res@ == s@,
        !parts@[i]@.contains(c),
{
    lemma_texts_in(parts@);
    texts::law_split(s@, c);
    assert(text::texts(parts@)[i] == parts@[i]@);
}

/// A prefix is found where the text begins with it, and what is left is the
/// rest.
pub proof fn law_prefix_is_stripped(
    s: &str,
    prefix: &str,
    rest: Seq<char>,
    found: bool,
    res: Option<String>,
)
    requires
        call_ensures(has_prefix, (s, prefix), found),
        call_ensures(strip_prefix, (s, prefix), res),
    ensures
        s@ == prefix@ + rest ==> found && text_in(res) == Some(rest),
        (forall|r: Seq<char>| s@ != prefix@ + r) ==> !found && res is None,
{
    if s@ == prefix@ + rest {
        assert(s@.subrange(0, prefix@.len() as int) =~= prefix@);
        assert(s@.skip(prefix@.len() as int) =~= rest);
    }
    if forall|r: Seq<char>| s@ != prefix@ + r {
        if prefix@.is_prefix_of(s@) {
            assert(s@.subrange(0, prefix@.len() as int) == prefix@);
            assert(s@ =~= prefix@ + s@.skip(prefix@.len() as int));
        }
    }
}

/// The first occurrence of a character is found, if there is one.
pub proof fn law_first_occurrence_is_found(chars: &Vec<char>, c: char, res: Option<usize>)
    requires
        call_ensures(find_char, (chars, c), res),
    ensures
        match res {
            Some(at) => at < chars@.len() && chars@[at as int] == c && forall|i: int|
                0 <= i < at ==> #[trigger] chars@[i] != c,
            None => !chars@.contains(c),
        },
{
    texts::law_first_occurrence(chars@, c);
    if res is None {
        assert forall|i: int| 0 <= i < chars@.len() implies chars@[i] != c by {}
    }
}

/// What follows the last occurrence of a character does not hold it, and an
/// occurrence stands right before it.
pub proof fn law_rest_after_last_is_free_of_it(s: &str, c: char, res: String)
    requires
        call_ensures(rest_after_last, (s, c), res),
    ensures
        res@.len() <= s@.len(),
        res@ == s@.skip(s@.len() - res@.len()),
        !res@.contains(c),
        res@.len() < s@.len() ==> s@[s@.len() - res@.len() - 1] == c,
{
    texts::law_after_the_last(s@, c);
}

/// Strings and characters stand for each other; two strings are the same where
/// their characters are, and one comes before another as in a dictionary.
pub proof fn law_strings_are_their_characters(
    a: &str,
    b: &str,
    chars: Vec<char>,
    from: usize,
    to: usize,
    part: String,
    same: bool,
    before: bool,
)
    requires
        call_ensures(chars_of, (a,), chars),
        from <= to <= chars@.len(),
        call_ensures(string_of, (&chars, from, to), part),
        call_ensures(same_text, (a, b), same),
        call_ensures(precedes, (a, b), before),
    ensures
        chars@ == a@,
        part@ == a@.subrange(from as int, to as int),
        same <==> a@ == b@,
        before <==> exists|n: int| texts::lesser_from(a@, b@, n),
{
    texts::law_dictionary_order(a@, b@);
}

/// A number is written in decimal digits that stand for it.
pub proof fn law_number_is_written_in_digits(n: u64, res: String)
    requires
        call_ensures(decimal_text, (n,), res),
    ensures
        res@.len() > 0,
        forall|i: int| 0 <= i < res@.len() ==> '0' <= #[trigger] res@[i] <= '9',
        texts::number_of(res@) == n,
        n > 0 ==> res@[0] != '0',
{
    texts::law_decimal(n as nat);
}

/// Percent-encoding can be undone, and nothing stands in it but characters that
/// stand for themselves, percent signs and hexadecimal digits.
pub proof fn law_urlencode_can_be_undone(s: &str, res: String, i: int)
    requires
        call_ensures(urlencode, (s,), res),
        0 <= i < res@.len(),
    ensures
        requests::percent_decoded(res@) == utf8::encode_utf8(s@),
        requests::stands_for_itself(res@[i]) || res@[i] == '%',
{
    requests::law_encoding_can_be_undone(s@);
    lemma_encoded_chars(utf8::encode_utf8(s@), i);
}

proof fn lemma_encoded_chars(bytes: Seq<u8>, i: int)
    requires
        0 <= i < crate::common::percent_encoded(bytes).len(),
    ensures
        requests::stands_for_itself(crate::common::percent_encoded(bytes)[i])
            || crate::common::percent_encoded(bytes)[i] == '%',
    decreases bytes.len(),
{
    let before = bytes.drop_last();
    let head = crate::common::percent_encoded(before);
    let last = crate::common::encoded_byte(bytes.last());
    if i < head.len() {
        lemma_encoded_chars(before, i);
    } else {
        assert(crate::common::percent_encoded(bytes)[i] == last[i - head.len()]);
    }
}

// -------------------------------------------------------------------- documents
/// A name is read without its namespace prefix, character data without an
/// ampersand as it stands.
pub proof fn law_names_and_contents_are_read(
    s: Seq<char>,
    raw: &[u8],
    name: String,
    content: Option<String>,
)
    requires
        raw@ == utf8::encode_utf8(s),
        call_ensures(local_name, (raw,), name),
        call_ensures(text_content, (raw,), content),
    ensures
        name@.len() <= s.len(),
        name@ == s.skip(s.len() - name@.len()),
        !name@.contains(':'),
        name@.len() < s.len() ==> s[s.len() - name@.len() - 1] == ':',
        !s.contains('&') ==> text_in(content) == Some(s),
        s.contains('&') ==> text_in(content) == xml::resolved_references(s),
{
    feeds::law_bytes_are_read_as_text(s, raw@);
    texts::law_after_the_last(s, ':');
}

/// What is not UTF-8 has no name and no content.
pub proof fn law_broken_bytes_say_nothing(raw: &[u8], name: String, content: Option<String>)
    requires
        !utf8::valid_utf8(raw@),
        call_ensures(local_name, (raw,), name),
        call_ensures(text_content, (raw,), content),
    ensures
        name@.len() == 0,
        content is None,
{
    feeds::law_bytes_are_read_as_text(Seq::empty(), raw@);
}

/// Under each name stands the value of the last attribute of that name that
/// could be read.
pub proof fn law_attributes_are_collected(
    attributes: &Vec<RawAttribute>,
    res: TextMap<String>,
    at: int,
    name: Seq<char>,
)
    requires
        call_ensures(collect_attrs, (attributes,), res),
        0 <= at < attributes@.len(),
        attributes@[at] matches Some((key, _)) && xml::local_part(key@) == name,
        forall|i: int|
            at < i < attributes@.len() ==> !(#[trigger] attributes@[i] matches Some((key, _))
                && xml::local_part(key@) == name),
    ensures
        res@.contains_key(name),
        attributes@[at] matches Some((_, value)) ==> res@[name] == xml::lenient_text(value@),
{
    let list = xml::attribute_views(attributes@);
    if let Some((key, value)) = attributes@[at] {
        assert(list[at] == Some((key@, value@)));
        assert forall|i: int| at < i < list.len() implies !feeds::is_named(
            #[trigger] list[i],
            name,
        ) by {
            assert(!(attributes@[i] matches Some((key, _)) && xml::local_part(key@) == name));
        }
        feeds::law_last_attribute_counts(list, name, at, key@, value@);
    }
}

/// A name that no attribute has is not among those collected.
pub proof fn law_absent_attributes_are_absent(
    attributes: &Vec<RawAttribute>,
    res: TextMap<String>,
    name: Seq<char>,
)
    requires
        call_ensures(collect_attrs, (attributes,), res),
        forall|i: int|
            0 <= i < attributes@.len() ==> !(#[trigger] attributes@[i] matches Some((key, _))
                && xml::local_part(key@) == name),
    ensures
        !res@.contains_key(name),
{
    let list = xml::attribute_views(attributes@);
    assert forall|i: int| 0 <= i < list.len() implies !feeds::is_named(#[trigger] list[i], name) by {
        assert(!(attributes@[i] matches Some((key, _)) && xml::local_part(key@) == name));
    }
    feeds::law_absent_attribute_is_absent(list, name);
}

/// A document is all its tokens, or its first error.
pub proof fn law_document_is_read_whole(
    xml: &[u8],
    res: Result<Vec<XmlToken>, XmlError>,
    at: int,
)
    requires
        call_ensures(read_document, (xml,), res),
        0 <= at <= xml::xml_tokens(xml@).len(),
        forall|i: int| 0 <= i < at ==> (#[trigger] xml::xml_tokens(xml@)[i]) is Ok,
        at < xml::xml_tokens(xml@).len() ==> xml::xml_tokens(xml@)[at] is Err,
    ensures
        at == xml::xml_tokens(xml@).len() ==> (res matches Ok(list) && list@.len() == at && forall|
            i: int,
        |
            0 <= i < at ==> (#[trigger] list@[i])@ == xml::xml_tokens(xml@)[i]->Ok_0),
        at < xml::xml_tokens(xml@).len() ==> (res matches Err(e) && e.message@ == xml::xml_tokens(
            xml@,
        )[at]->Err_0),
{
    feeds::law_document_is_all_or_the_first_error(xml::xml_tokens(xml@), at);
    if at == xml::xml_tokens(xml@).len() {
        let list = res->Ok_0;
        let views = xml::token_views(list@);
        assert forall|i: int| 0 <= i < at implies (#[trigger] list@[i])@ == xml::xml_tokens(
            xml@,
        )[i]->Ok_0 by {
            assert(views[i] == list@[i]@);
        }
    }
}

// ----------------------------------------------------------------------- hashes
/// The identifier of a digest holds it byte for byte, and that of a file is that
/// of its digest.
pub proof fn law_identifier_holds_the_digest(
    digest: &Vec<u8>,
    bytes: &[u8],
    res: String,
    of_file: String,
    i: int,
)
    requires
        0 <= i < digest@.len(),
        call_ensures(cid_of_digest, (digest,), res),
        call_ensures(compute_ipfs_cid, (bytes,), of_file),
    ensures
        digest@.len() == 32 ==> res@.len() == 59,
        res@[0] == 'b',
        encodings::base32_byte(res@.skip(1), 0) == 0x01,
        encodings::base32_byte(res@.skip(1), 1) == 0x55,
        encodings::base32_byte(res@.skip(1), 2) == 0x12,
        encodings::base32_byte(res@.skip(1), 3) == 0x20,
        encodings::base32_byte(res@.skip(1), 4 + i) == digest@[i],
        digest@ == hash::sha256_digest(bytes@) ==> of_file@ == res@,
{
    encodings::law_cid_can_be_decoded(digest@, i);
}

// ---------------------------------------------------------------------- queries
/// A query is accepted if and only if each of the two typed filters that it has
/// asks for a served value.
pub proof fn law_query_accepts_what_is_served(
    query: &GatewayQuery,
    file_types: &Vec<String>,
    content_kinds: &Vec<String>,
    res: bool,
)
    requires
        call_ensures(query_accepts_plugin, (query, file_types, content_kinds), res),
    ensures
        res <==> requests::asks_for_served(query.filters@, "fileType"@, texts_in(file_types@))
            && requests::asks_for_served(
            query.filters@,
            "contentKind"@,
            texts_in(content_kinds@),
        ),
{
    lemma_texts_in(file_types@);
    lemma_texts_in(content_kinds@);
    requests::law_query_is_accepted_iff_its_filters_are_served(
        query@,
        texts_in(file_types@),
        texts_in(content_kinds@),
    );
}

/// A query for a text has that text and no filters, and asks for it, or for a
/// star where it is empty.
pub proof fn law_query_asks_for_its_text(
    text: &str,
    query: GatewayQuery,
    asked: &str,
    key: Seq<char>,
)
    requires
        call_ensures(GatewayQuery::from_free_text, (text,), query),
        call_ensures(GatewayQuery::free_text_or_star, (&query,), asked),
    ensures
        query.raw_text@ == text@,
        query.free_text@ == text@,
        !query.filters@.contains_key(key),
        text@.len() > 0 ==> asked@ == text@,
        text@.len() == 0 ==> asked@ == seq!['*'],
{
    requests::law_free_text_is_asked_for(text@);
    assert(query@.filters == Map::<Seq<char>, Seq<char>>::empty());
}

/// The text that is asked for is the query's free text, whatever its filters.
pub proof fn law_free_text_of_any_query(query: &GatewayQuery, asked: &str)
    requires
        call_ensures(GatewayQuery::free_text_or_star, (query,), asked),
    ensures
        query.free_text@.len() > 0 ==> asked@ == query.free_text@,
        query.free_text@.len() == 0 ==> asked@ == seq!['*'],
{
    requests::law_free_text_is_asked_for(query.free_text@);
}

/// Replaying a result gives each record, in order, and then the end.
pub proof fn law_replay_gives_every_record(
    records: Vec<DiscoveryRecord>,
    res: Vec<GatewaySearchEvent>,
    i: int,
)
    requires
        call_ensures(replay_events, (records,), res),
        0 <= i < records@.len(),
    ensures
        res@.len() == records@.len() + 1,
        res@[i] == GatewaySearchEvent::Base(records@[i]),
        res@[records@.len() as int] is Done,
{
    requests::law_replay_tells_every_record(records@);
    assert(crate::query::replayed(records@)[i] matches GatewaySearchEvent::Base(r) && r
        == records@[i]);
}

// -------------------------------------------------------------- failed requests
/// A status is an error of its kind, or none.
pub proof fn law_status_is_mapped(status: u16, retry_after_s: u64, res: Result<(), GatewayError>)
    requires
        call_ensures(map_status, (status, retry_after_s), res),
    ensures
        res is Ok <==> 200 <= status <= 299,
        status == 404 ==> res matches Err(GatewayError::NotFound),
        status == 429 ==> (res matches Err(GatewayError::RateLimited { retry_after_s: s }) && s
            == retry_after_s),
        status >= 500 ==> (res matches Err(GatewayError::Transient(m)) && m@ == "upstream status "@
            + text::decimal(status as nat)),
        (status < 200 || 300 <= status < 500) && status != 404 && status != 429 ==> (res matches
            Err(GatewayError::Permanent(m)) && m@ == "upstream status "@ + text::decimal(
            status as nat,
        )),
{
    requests::law_status_tells_the_error(status, retry_after_s);
}

/// A request without an answer is an error that may pass and names the address
/// and the reason.
pub proof fn law_transport_failure_is_transient(url: &str, reason: &str, res: GatewayError)
    requires
        call_ensures(transport_failure, (url, reason), res),
    ensures
        res matches GatewayError::Transient(m) && requests::is_made_of(
            m@,
            seq!["GET "@, url@, ": "@, reason@],
        ),
{
    requests::law_missing_answer_is_transient(url@, reason@);
}

/// A fetched file is one outcome with its hash, its bytes and its record; a
/// cached one is one outcome with its hash alone.
pub proof fn law_outcomes_carry_what_they_are_given(
    hash: String,
    bytes: Vec<u8>,
    record: DiscoveryRecord,
    fresh: Vec<HashOutcome>,
    cached: Vec<HashOutcome>,
)
    requires
        call_ensures(single_outcome, (hash, bytes, record), fresh),
        call_ensures(cached_outcome, (hash,), cached),
    ensures
        fresh@.len() == 1,
        fresh@[0].hash.0@ == hash@,
        fresh@[0].hash_kind is Sha2_256,
        fresh@[0].bytes matches Some(b) && b@ == bytes@,
        fresh@[0].record matches Some(r) && r@ == record@,
        text_in(fresh@[0].file_extension) == Some("pdf"@),
        cached@.len() == 1,
        cached@[0].hash.0@ == hash@,
        cached@[0].hash_kind is Sha2_256,
        cached@[0].bytes is None,
        cached@[0].record is None,
        cached@[0].file_extension is None,
{
    let f = types::outcome_views(fresh@);
    let c = types::outcome_views(cached@);
    assert(f.len() == 1 && c.len() == 1);
    assert(f[0] == fresh@[0]@);
    assert(c[0] == cached@[0]@);
}

/// An error in words begins with its kind and gives its message.
pub proof fn law_message_tells_the_error(e: &GatewayError, res: String)
    requires
        call_ensures(GatewayError::message, (e,), res),
    ensures
        match *e {
            GatewayError::NotFound => res@ == "not found"@,
            GatewayError::RateLimited { retry_after_s } => requests::is_made_of(
                res@,
                seq!["rate limited; retry in "@, text::decimal(retry_after_s as nat), "s"@],
            ),
            GatewayError::Transient(s) => requests::is_made_of(res@, seq!["transient: "@, s@]),
            GatewayError::Permanent(s) => requests::is_made_of(res@, seq!["permanent: "@, s@]),
            GatewayError::Internal(s) => requests::is_made_of(res@, seq!["internal: "@, s@]),
        },
{
    requests::law_error_in_words(e@);
}

/// The field of an upstream's id is its name with `id` behind it.
pub proof fn law_id_field_is_named_after_the_upstream(upstream_id: &str, res: String)
    requires
        call_ensures(upstream_id_field, (upstream_id,), res),
    ensures
        requests::is_made_of(res@, seq![upstream_id@, "id"@]),
{
    requests::lemma_made_of_one(upstream_id@);
    requests::lemma_made_of(upstream_id@, seq![upstream_id@], "id"@);
    assert(seq![upstream_id@].push("id"@) =~= seq![upstream_id@, "id"@]);
}

// -------------------------------------------------------------- lists and mirrors
/// Sorting by id keeps every entry as often as it is there, and puts none behind
/// one with a greater id.
pub proof fn law_sorting_keeps_every_entry<T: Listed>(list: Vec<T>, res: Vec<T>)
    requires
        call_ensures(sort_by_id::<T>, (list,), res),
    ensures
        res@.len() == list@.len(),
        listing::views(res@).to_multiset() == listing::views(list@).to_multiset(),
        forall|i: int, j: int|
            0 <= i < j < res@.len() ==> !text::text_before(
                T::id_of((#[trigger] res@[j])@),
                T::id_of((#[trigger] res@[i])@),
            ),
{
    let a = listing::views(list@);
    let b = listing::views(res@);
    crate::laws::replies::law_listing_keeps_every_entry::<T>(a, b, Seq::empty());
    assert forall|i: int, j: int| 0 <= i < j < res@.len() implies !text::text_before(
        T::id_of((#[trigger] res@[j])@),
        T::id_of((#[trigger] res@[i])@),
    ) by {
        assert(b[i] == res@[i]@ && b[j] == res@[j]@);
    }
}

/// The mirrors are the parts between the commas that are not blank, in order and
/// without the whitespace around them.
pub proof fn law_mirrors_are_the_parts(raw: &str, res: Vec<String>)
    requires
        call_ensures(scihub_mirrors, (raw,), res),
    ensures
        texts_in(res@) == scihub::listed_mirrors(text::pieces(raw@, ',')),
        text::joined(text::pieces(raw@, ','), seq![',']) == raw@,
{
    lemma_texts_in(res@);
    texts::law_split(raw@, ',');
}

} // verus!
