//! Laws of the records: what each metadata field holds, which results of a
//! search become records, and what resolving a record gives.
use crate::arxiv;
use crate::common;
use crate::hash;
use crate::pubmed;
use crate::text;
use crate::types;
use crate::xml;
use vstd::prelude::*;

verus! {

// --------------------------------------------------------------- field contents
/// The record has this value under this field, and lacks the field where there
/// is no value.
pub open spec fn holds(
    r: types::DiscoveryRecordView,
    key: Seq<char>,
    value: Option<Seq<char>>,
) -> bool {
    match value {
        Some(v) => r.fields.contains_key(key) && r.fields[key] == v,
        None => !r.fields.contains_key(key),
    }
}

/// Where the part `i` of a list stands in a text that has all the parts, each
/// two characters behind the one before it.
pub open spec fn offset(list: Seq<Seq<char>>, i: int) -> int
    decreases i,
{
    if i <= 0 {
        0
    } else {
        offset(list, i - 1) + list[i - 1].len() + 2
    }
}

/// The part `i` of the list stands in the text at its offset.
pub open spec fn has_part(s: Seq<char>, list: Seq<Seq<char>>, i: int) -> bool {
    let at = offset(list, i);
    0 <= at <= at + list[i].len() <= s.len() && s.subrange(at, at + list[i].len()) == list[i]
}

/// A comma and a space stand right before the part `i` of the list.
pub open spec fn has_gap(s: Seq<char>, list: Seq<Seq<char>>, i: int) -> bool {
    let at = offset(list, i);
    2 <= at <= s.len() && s[at - 2] == ',' && s[at - 1] == ' '
}

/// The text is all the parts in order, with a comma and a space between
/// neighbours and nothing else.
pub open spec fn lists(s: Seq<char>, list: Seq<Seq<char>>) -> bool {
    &&& list.len() > 0
    &&& s.len() == offset(list, list.len() as int) - 2
    &&& forall|i: int| 0 <= i < list.len() ==> #[trigger] has_part(s, list, i)
    &&& forall|i: int| 0 < i < list.len() ==> #[trigger] has_gap(s, list, i)
}

proof fn lemma_offset(before: Seq<Seq<char>>, last: Seq<char>, i: int)
    requires
        i <= before.len(),
    ensures
        offset(before.push(last), i) == offset(before, i),
    decreases i,
{
    if i > 0 {
        lemma_offset(before, last, i - 1);
        assert(before.push(last)[i - 1] == before[i - 1]);
    }
}

/// What stands in a text stands in a longer one too.
proof fn lemma_parts_stay(
    head: Seq<char>,
    tail: Seq<char>,
    before: Seq<Seq<char>>,
    last: Seq<char>,
    i: int,
)
    requires
        0 <= i < before.len(),
    ensures
        has_part(head, before, i) ==> has_part(head + tail, before.push(last), i),
        has_gap(head, before, i) ==> has_gap(head + tail, before.push(last), i),
{
    lemma_offset(before, last, i);
    let at = offset(before, i);
    assert(before.push(last)[i] == before[i]);
    if has_part(head, before, i) {
        assert((head + tail).subrange(at, at + before[i].len()) =~= head.subrange(
            at,
            at + before[i].len(),
        ));
    }
}

/// One part more, behind a comma and a space.
proof fn lemma_lists_more(head: Seq<char>, before: Seq<Seq<char>>, last: Seq<char>)
    requires
        lists(head, before),
    ensures
        lists(head + (seq![',', ' '] + last), before.push(last)),
{
    let tail = seq![',', ' '] + last;
    let s = head + tail;
    let list = before.push(last);
    let n = before.len() as int;
    lemma_offset(before, last, n);
    let at = offset(list, n);
    assert(at == head.len() + 2);
    assert(list[n] == last);
    assert(offset(list, n + 1) == at + last.len() + 2);
    assert(has_part(s, list, n)) by {
        assert(s.subrange(at, at + last.len()) =~= last);
    }
    assert(has_gap(s, list, n)) by {
        assert(s[at - 2] == tail[0] && s[at - 1] == tail[1]);
    }
    assert forall|i: int| 0 <= i < list.len() implies #[trigger] has_part(s, list, i) by {
        if i < n {
            assert(has_part(head, before, i));
            lemma_parts_stay(head, tail, before, last, i);
        }
    }
    assert forall|i: int| 0 < i < list.len() implies #[trigger] has_gap(s, list, i) by {
        if i < n {
            assert(has_gap(head, before, i));
            lemma_parts_stay(head, tail, before, last, i);
        }
    }
}

proof fn lemma_joined_lists(list: Seq<Seq<char>>)
    requires
        list.len() > 0,
    ensures
        lists(text::joined(list, ", "@), list),
    decreases list.len(),
{
    let s = text::joined(list, ", "@);
    if list.len() == 1 {
        assert(offset(list, 0) == 0);
        assert(offset(list, 1) == list[0].len() + 2);
        assert(s.subrange(0, s.len() as int) =~= list[0]);
        assert(has_part(s, list, 0));
    } else {
        let before = list.drop_last();
        let head = text::joined(before, ", "@);
        lemma_joined_lists(before);
        lemma_lists_more(head, before, list.last());
        assert(before.push(list.last()) =~= list);
        assert(", "@ =~= seq![',', ' ']) by {
            reveal_strlit(", ");
        }
        assert(s =~= head + (seq![',', ' '] + list.last()));
    }
}

/// The text begins with four digits.
pub open spec fn begins_with_a_year(s: Seq<char>) -> bool {
    &&& s.len() >= 4
    &&& '0' <= s[0] <= '9'
    &&& '0' <= s[1] <= '9'
    &&& '0' <= s[2] <= '9'
    &&& '0' <= s[3] <= '9'
}

/// The fields that an arXiv record can have.
pub open spec fn is_arxiv_field(key: Seq<char>) -> bool {
    ||| key == "title"@
    ||| key == "fileType"@
    ||| key == "contentKind"@
    ||| key == "sourceUrl"@
    ||| key == "fileName"@
    ||| key == "arxivid"@
    ||| key == "format"@
    ||| key == "author"@
    ||| key == "categories"@
    ||| key == "primaryCategory"@
    ||| key == "published"@
    ||| key == "year"@
    ||| key == "summary"@
}

/// The names of the fields by their lengths and, where two are as long, by a
/// character.
proof fn lemma_field_names()
    ensures
        "arxiv"@ + "id"@ == "arxivid"@,
        "pubmed"@ + "id"@ == "pubmedid"@,
        "doi"@.len() == 3,
        "year"@.len() == 4 && "year"@[0] == 'y',
        "pmid"@.len() == 4 && "pmid"@[0] == 'p',
        "title"@.len() == 5,
        "format"@.len() == 6 && "format"@[0] == 'f',
        "author"@.len() == 6 && "author"@[0] == 'a',
        "arxivid"@.len() == 7 && "arxivid"@[0] == 'a',
        "summary"@.len() == 7 && "summary"@[0] == 's',
        "journal"@.len() == 7 && "journal"@[0] == 'j',
        "fileType"@.len() == 8 && "fileType"@[4] == 'T',
        "fileName"@.len() == 8 && "fileName"@[4] == 'N',
        "pubmedid"@.len() == 8 && "pubmedid"@[4] == 'e',
        "sourceUrl"@.len() == 9 && "sourceUrl"@[0] == 's',
        "published"@.len() == 9 && "published"@[0] == 'p',
        "categories"@.len() == 10,
        "openAccess"@.len() == 10,
        "contentKind"@.len() == 11,
        "primaryCategory"@.len() == 15,
{
    reveal_strlit("arxiv");
    reveal_strlit("pubmed");
    reveal_strlit("id");
    reveal_strlit("arxivid");
    reveal_strlit("pubmedid");
    reveal_strlit("doi");
    reveal_strlit("year");
    reveal_strlit("pmid");
    reveal_strlit("title");
    reveal_strlit("format");
    reveal_strlit("author");
    reveal_strlit("summary");
    reveal_strlit("journal");
    reveal_strlit("fileType");
    reveal_strlit("fileName");
    reveal_strlit("sourceUrl");
    reveal_strlit("published");
    reveal_strlit("categories");
    reveal_strlit("openAccess");
    reveal_strlit("contentKind");
    reveal_strlit("primaryCategory");
    assert("arxiv"@ + "id"@ =~= "arxivid"@);
    assert("pubmed"@ + "id"@ =~= "pubmedid"@);
}

/// Each field of an arXiv record holds what the entry has for it, and is absent
/// where the entry has nothing: the title, the summary, the timestamp and the
/// primary category as they are, and the year where the timestamp begins with
/// one. Nothing else is in the record.
pub proof fn law_arxiv_fields_hold_their_sources(e: arxiv::EntryView, key: Seq<char>)
    ensures
        holds(arxiv::entry_record(e), "title"@, e.title),
        holds(arxiv::entry_record(e), "summary"@, e.summary),
        holds(arxiv::entry_record(e), "published"@, e.published),
        holds(arxiv::entry_record(e), "primaryCategory"@, e.primary_category),
        holds(
            arxiv::entry_record(e),
            "year"@,
            if e.published is Some && begins_with_a_year(e.published->0) {
                Some(seq![e.published->0[0], e.published->0[1], e.published->0[2], e.published->0[3]])
            } else {
                None
            },
        ),
        holds(arxiv::entry_record(e), "fileType"@, Some("document"@)),
        holds(arxiv::entry_record(e), "contentKind"@, Some("paper"@)),
        holds(arxiv::entry_record(e), "format"@, Some("pdf"@)),
        holds(arxiv::entry_record(e), "arxivid"@, Some(e.record_id)),
        holds(arxiv::entry_record(e), "sourceUrl"@, Some("https://arxiv.org/abs/"@ + e.record_id)),
        holds(arxiv::entry_record(e), "fileName"@, Some("arxiv-"@ + e.record_id + ".pdf"@)),
        arxiv::entry_record(e).record_id == e.record_id,
        arxiv::entry_record(e).upstream_id == "arxiv"@,
        arxiv::entry_record(e).fields.contains_key(key) ==> is_arxiv_field(key),
{
    lemma_field_names();
    if let Some(p) = e.published {
        if begins_with_a_year(p) {
            assert(p.take(4) =~= seq![p[0], p[1], p[2], p[3]]);
        } else if p.len() >= 4 {
            let bad: int = if !('0' <= p[0] <= '9') {
                0
            } else if !('0' <= p[1] <= '9') {
                1
            } else if !('0' <= p[2] <= '9') {
                2
            } else {
                3
            };
            assert(!('0' <= p[bad] <= '9'));
            assert(arxiv::year_of(p) is None);
        }
    }
}

/// The authors of an entry, however many there are, all stand in the record's
/// `author` field, in order, with a comma and a space between neighbours; the
/// same holds of its categories. Where there are none the field is absent.
pub proof fn law_arxiv_lists_are_complete(e: arxiv::EntryView)
    ensures
        e.authors.len() > 0 ==> arxiv::entry_record(e).fields.contains_key("author"@) && lists(
            arxiv::entry_record(e).fields["author"@],
            e.authors,
        ),
        e.authors.len() == 0 ==> !arxiv::entry_record(e).fields.contains_key("author"@),
        e.categories.len() > 0 ==> arxiv::entry_record(e).fields.contains_key("categories"@)
            && lists(arxiv::entry_record(e).fields["categories"@], e.categories),
        e.categories.len() == 0 ==> !arxiv::entry_record(e).fields.contains_key("categories"@),
{
    lemma_field_names();
    if e.authors.len() > 0 {
        lemma_joined_lists(e.authors);
    }
    if e.categories.len() > 0 {
        lemma_joined_lists(e.categories);
    }
}

/// The fields that a PubMed record can have.
pub open spec fn is_pubmed_field(key: Seq<char>) -> bool {
    ||| key == "title"@
    ||| key == "fileType"@
    ||| key == "contentKind"@
    ||| key == "sourceUrl"@
    ||| key == "fileName"@
    ||| key == "pubmedid"@
    ||| key == "format"@
    ||| key == "pmid"@
    ||| key == "doi"@
    ||| key == "author"@
    ||| key == "journal"@
    ||| key == "year"@
    ||| key == "summary"@
    ||| key == "openAccess"@
}

/// Each field of a PubMed record holds what the search result has for it, and
/// is absent where the result has nothing. Nothing else is in the record.
pub proof fn law_pubmed_fields_hold_their_sources(
    r: pubmed::ResultView,
    pmcid: Seq<char>,
    key: Seq<char>,
)
    ensures
        holds(pubmed::result_record(r, pmcid), "title"@, r.title),
        holds(pubmed::result_record(r, pmcid), "pmid"@, r.pmid),
        holds(pubmed::result_record(r, pmcid), "doi"@, r.doi),
        holds(pubmed::result_record(r, pmcid), "author"@, r.author_string),
        holds(pubmed::result_record(r, pmcid), "journal"@, r.journal_title),
        holds(pubmed::result_record(r, pmcid), "year"@, r.pub_year),
        holds(pubmed::result_record(r, pmcid), "summary"@, r.abstract_text),
        holds(pubmed::result_record(r, pmcid), "openAccess"@, r.is_open_access),
        holds(pubmed::result_record(r, pmcid), "fileType"@, Some("document"@)),
        holds(pubmed::result_record(r, pmcid), "contentKind"@, Some("paper"@)),
        holds(pubmed::result_record(r, pmcid), "format"@, Some("pdf"@)),
        holds(pubmed::result_record(r, pmcid), "pubmedid"@, Some(pmcid)),
        holds(
            pubmed::result_record(r, pmcid),
            "sourceUrl"@,
            Some("https://europepmc.org/article/PMC/"@ + pmcid),
        ),
        holds(
            pubmed::result_record(r, pmcid),
            "fileName"@,
            Some("pubmed-"@ + pmcid + ".pdf"@),
        ),
        pubmed::result_record(r, pmcid).record_id == pmcid,
        pubmed::result_record(r, pmcid).upstream_id == "pubmed"@,
        pubmed::result_record(r, pmcid).fields.contains_key(key) ==> is_pubmed_field(key),
{
    lemma_field_names();
}

// --------------------------------------------------------------------- searches
/// An arXiv search answers with the first entries of the feed, in its order and
/// as many as were asked for, each as its record; a feed that cannot be read is
/// a permanent error that tells why.
pub proof fn law_arxiv_search_takes_the_first(
    entries: Seq<arxiv::EntryView>,
    limit: nat,
    message: Seq<char>,
)
    ensures
        arxiv::search_answer(Ok(entries), limit) matches Ok(records) && records.len() == (
        if entries.len() < limit {
            entries.len()
        } else {
            limit
        }) && forall|i: int|
            0 <= i < records.len() ==> #[trigger] records[i] == arxiv::entry_record(entries[i]),
        arxiv::search_answer(Err(message), limit) == Err::<
            Seq<types::DiscoveryRecordView>,
            types::GatewayErrorView,
        >(
            types::GatewayErrorView::Permanent("parse arxiv atom search response: "@ + message),
        ),
{
}

/// Of a PubMed search, the results with a PMC id become records, each its own,
/// and the others none; results one after the other give their records one
/// after the other.
pub proof fn law_pubmed_results_become_records_in_order(
    a: Seq<pubmed::ResultView>,
    b: Seq<pubmed::ResultView>,
    r: pubmed::ResultView,
)
    ensures
        pubmed::full_text_records(Seq::empty()).len() == 0,
        pubmed::full_text_records(seq![r]) == match r.pmcid {
            Some(pmcid) => seq![pubmed::result_record(r, pmcid)],
            None => Seq::empty(),
        },
        pubmed::full_text_records(a + b) == pubmed::full_text_records(a)
            + pubmed::full_text_records(b),
    decreases b.len(),
{
    assert(seq![r].drop_last() =~= Seq::empty());
    assert(pubmed::full_text_records(seq![r].drop_last()) =~= Seq::empty());
    if let Some(pmcid) = r.pmcid {
        assert(pubmed::full_text_records(seq![r]) =~= seq![pubmed::result_record(r, pmcid)]);
    }
    if b.len() == 0 {
        assert(a + b =~= a);
        assert(pubmed::full_text_records(a + b) =~= pubmed::full_text_records(a)
            + pubmed::full_text_records(b));
    } else {
        law_pubmed_results_become_records_in_order(a, b.drop_last(), r);
        assert((a + b).drop_last() =~= a + b.drop_last());
        assert((a + b).last() == b.last());
        assert(pubmed::full_text_records(a + b) =~= pubmed::full_text_records(a)
            + pubmed::full_text_records(b));
    }
}

/// A PubMed search answers with the first of those records, as many as were
/// asked for.
pub proof fn law_pubmed_search_takes_the_first(results: Seq<pubmed::ResultView>, limit: nat)
    ensures
        ({
            let all = pubmed::full_text_records(results);
            let found = pubmed::search_records(results, limit);
            &&& found.len() == if all.len() < limit {
                all.len()
            } else {
                limit
            }
            &&& forall|i: int| 0 <= i < found.len() ==> #[trigger] found[i] == all[i]
        }),
{
}

// ------------------------------------------------------------------- resolutions
/// The answer is one freshly fetched file: these bytes, all of them, their own
/// hash, and this record; and the hash is remembered.
pub open spec fn delivers(
    r: common::Resolution,
    bytes: Seq<u8>,
    record: types::DiscoveryRecordView,
) -> bool {
    &&& r.answer matches Ok(outcomes) && outcomes.len() == 1 && outcomes[0].bytes == Some(bytes)
        && outcomes[0].hash == hash::cid_text(hash::sha256_digest(bytes))
        && outcomes[0].hash_kind is Sha2_256 && outcomes[0].file_extension == Some("pdf"@)
        && outcomes[0].record == Some(record)
    &&& r.remembered == Some(hash::cid_text(hash::sha256_digest(bytes)))
}

/// The answer is this error, and nothing is remembered.
pub open spec fn fails_with(r: common::Resolution, error: types::GatewayErrorView) -> bool {
    &&& r.answer == Err::<Seq<types::HashOutcomeView>, types::GatewayErrorView>(error)
    &&& r.remembered is None
}

/// Where the lookup finds an entry and the entry's PDF address answers with
/// bytes, however many, the resolution delivers exactly those bytes, with their
/// hash and the entry's record.
pub proof fn law_arxiv_resolution_delivers_the_file(
    plugin: arxiv::ArxivPlugin,
    record_id: Seq<char>,
    upstream: spec_fn(Seq<char>) -> Result<Seq<u8>, types::GatewayErrorView>,
    feed: Seq<u8>,
    tokens: Seq<xml::XmlTokenView>,
    bytes: Seq<u8>,
)
    requires
        plugin.cache_open,
        upstream(arxiv::entry_address(plugin.base_url@, common::url_encoded(record_id))) == Ok::<
            Seq<u8>,
            types::GatewayErrorView,
        >(feed),
        xml::document(xml::xml_tokens(feed)) == Ok::<Seq<xml::XmlTokenView>, Seq<char>>(tokens),
        arxiv::feed_entries(tokens).len() > 0,
        upstream(
            arxiv::pdf_address(plugin.base_url@, arxiv::feed_entries(tokens)[0], record_id),
        ) == Ok::<Seq<u8>, types::GatewayErrorView>(bytes),
    ensures
        delivers(
            arxiv::resolution(plugin, record_id, Ok(None), upstream),
            bytes,
            arxiv::entry_record(arxiv::feed_entries(tokens)[0]),
        ),
{
}

/// Everything that goes wrong on the way is the answer, in the order in which it
/// can: a plugin without its cache, a cache that cannot be read, a lookup that
/// fails, a feed that cannot be read or has no entry, and a PDF that cannot be
/// fetched.
pub proof fn law_arxiv_resolution_fails_as_its_steps_do(
    plugin: arxiv::ArxivPlugin,
    record_id: Seq<char>,
    cached: Result<Option<Seq<char>>, types::GatewayErrorView>,
    upstream: spec_fn(Seq<char>) -> Result<Seq<u8>, types::GatewayErrorView>,
    error: types::GatewayErrorView,
    feed: Seq<u8>,
    tokens: Seq<xml::XmlTokenView>,
    message: Seq<char>,
)
    ensures
        ({
            let r = arxiv::resolution(plugin, record_id, cached, upstream);
            let none = Ok::<Option<Seq<char>>, types::GatewayErrorView>(None);
            let failed = Err::<Seq<u8>, types::GatewayErrorView>(error);
            let looked_up = upstream(
                arxiv::entry_address(plugin.base_url@, common::url_encoded(record_id)),
            );
            let found = looked_up == Ok::<Seq<u8>, types::GatewayErrorView>(feed);
            let read = xml::document(xml::xml_tokens(feed));
            let has_tokens = read == Ok::<Seq<xml::XmlTokenView>, Seq<char>>(tokens);
            let entries = arxiv::feed_entries(tokens);
            let pdf = upstream(arxiv::pdf_address(plugin.base_url@, entries[0], record_id));
            &&& !plugin.cache_open ==> fails_with(
                r,
                types::GatewayErrorView::Internal("arxiv"@ + ": configure() not yet called"@),
            )
            &&& plugin.cache_open && cached == Err::<
                Option<Seq<char>>,
                types::GatewayErrorView,
            >(error) ==> fails_with(r, error)
            &&& plugin.cache_open && cached == none && looked_up == failed ==> fails_with(r, error)
            &&& plugin.cache_open && cached == none && found && read == Err::<
                Seq<xml::XmlTokenView>,
                Seq<char>,
            >(message) ==> fails_with(
                r,
                types::GatewayErrorView::Permanent(
                    "parse arxiv atom for "@ + record_id + ": "@ + message,
                ),
            )
            &&& plugin.cache_open && cached == none && found && has_tokens && entries.len() == 0
                ==> fails_with(r, types::GatewayErrorView::NotFound)
            &&& plugin.cache_open && cached == none && found && has_tokens && entries.len() > 0
                && pdf == failed ==> fails_with(r, error)
        }),
{
}

/// A hash out of the cache is the whole answer: the same hash, with no bytes and
/// no record, and nothing more is remembered.
pub proof fn law_cached_hash_is_the_answer(
    arxiv_plugin: arxiv::ArxivPlugin,
    pubmed_plugin: pubmed::PubmedPlugin,
    record_id: Seq<char>,
    hash: Seq<char>,
    search: spec_fn(Seq<char>) -> Result<Seq<pubmed::ResultView>, types::GatewayErrorView>,
    upstream: spec_fn(Seq<char>) -> Result<Seq<u8>, types::GatewayErrorView>,
)
    ensures
        arxiv_plugin.cache_open ==> answers_from_cache(
            arxiv::resolution(arxiv_plugin, record_id, Ok(Some(hash)), upstream),
            hash,
        ),
        pubmed_plugin.cache_open ==> answers_from_cache(
            pubmed::resolution(pubmed_plugin, record_id, Ok(Some(hash)), search, upstream),
            hash,
        ),
{
}

/// The answer is one file that is known by its hash alone.
pub open spec fn answers_from_cache(r: common::Resolution, hash: Seq<char>) -> bool {
    &&& r.answer matches Ok(outcomes) && outcomes.len() == 1 && outcomes[0].hash == hash
        && outcomes[0].hash_kind is Sha2_256 && outcomes[0].file_extension is None
        && outcomes[0].bytes is None && outcomes[0].record is None
    &&& r.remembered is None
}

/// The bytes begin with the four characters `%PDF`.
pub open spec fn begins_like_a_pdf(bytes: Seq<u8>) -> bool {
    &&& bytes.len() >= 4
    &&& bytes[0] as char == '%'
    &&& bytes[1] as char == 'P'
    &&& bytes[2] as char == 'D'
    &&& bytes[3] as char == 'F'
}

proof fn lemma_pdf_magic(bytes: Seq<u8>)
    ensures
        pubmed::is_pdf(bytes) <==> begins_like_a_pdf(bytes),
{
}

/// Where the lookup finds an article with a full text and its PDF address
/// answers with a PDF, however large, the resolution delivers exactly those
/// bytes, with their hash and the article's record; a body that is no PDF is a
/// permanent error that names the article.
pub proof fn law_pubmed_resolution_delivers_the_file(
    plugin: pubmed::PubmedPlugin,
    record_id: Seq<char>,
    search: spec_fn(Seq<char>) -> Result<Seq<pubmed::ResultView>, types::GatewayErrorView>,
    upstream: spec_fn(Seq<char>) -> Result<Seq<u8>, types::GatewayErrorView>,
    results: Seq<pubmed::ResultView>,
    pmcid: Seq<char>,
    bytes: Seq<u8>,
)
    requires
        plugin.cache_open,
        search(pubmed::entry_address(plugin.search_base@, record_id)) == Ok::<
            Seq<pubmed::ResultView>,
            types::GatewayErrorView,
        >(results),
        results.len() > 0,
        results[0].pmcid == Some(pmcid),
        upstream(pubmed::pdf_address(plugin.pdf_base@, pmcid)) == Ok::<
            Seq<u8>,
            types::GatewayErrorView,
        >(bytes),
    ensures
        begins_like_a_pdf(bytes) ==> delivers(
            pubmed::resolution(plugin, record_id, Ok(None), search, upstream),
            bytes,
            pubmed::result_record(results[0], pmcid),
        ),
        !begins_like_a_pdf(bytes) ==> fails_with(
            pubmed::resolution(plugin, record_id, Ok(None), search, upstream),
            types::GatewayErrorView::Permanent(
                "europe-pmc returned non-PDF body for "@ + pmcid
                    + " (article may have no rendered PDF)"@,
            ),
        ),
{
    lemma_pdf_magic(bytes);
}

/// Everything that goes wrong on the way is the answer, in the order in which it
/// can: a plugin without its cache, a cache that cannot be read, a lookup that
/// fails or finds no article with a full text, and a PDF that cannot be fetched.
pub proof fn law_pubmed_resolution_fails_as_its_steps_do(
    plugin: pubmed::PubmedPlugin,
    record_id: Seq<char>,
    cached: Result<Option<Seq<char>>, types::GatewayErrorView>,
    search: spec_fn(Seq<char>) -> Result<Seq<pubmed::ResultView>, types::GatewayErrorView>,
    upstream: spec_fn(Seq<char>) -> Result<Seq<u8>, types::GatewayErrorView>,
    error: types::GatewayErrorView,
    results: Seq<pubmed::ResultView>,
)
    ensures
        ({
            let r = pubmed::resolution(plugin, record_id, cached, search, upstream);
            let none = Ok::<Option<Seq<char>>, types::GatewayErrorView>(None);
            let looked_up = search(pubmed::entry_address(plugin.search_base@, record_id));
            let found = looked_up == Ok::<Seq<pubmed::ResultView>, types::GatewayErrorView>(
                results,
            );
            let usable = results.len() > 0 && results[0].pmcid is Some;
            let pdf = upstream(pubmed::pdf_address(plugin.pdf_base@, results[0].pmcid->0));
            &&& !plugin.cache_open ==> fails_with(
                r,
                types::GatewayErrorView::Internal("pubmed"@ + ": configure() not yet called"@),
            )
            &&& plugin.cache_open && cached == Err::<
                Option<Seq<char>>,
                types::GatewayErrorView,
            >(error) ==> fails_with(r, error)
            &&& plugin.cache_open && cached == none && looked_up == Err::<
                Seq<pubmed::ResultView>,
                types::GatewayErrorView,
            >(error) ==> fails_with(r, error)
            &&& plugin.cache_open && cached == none && found && !usable ==> fails_with(
                r,
                types::GatewayErrorView::NotFound,
            )
            &&& plugin.cache_open && cached == none && found && usable && pdf == Err::<
                Seq<u8>,
                types::GatewayErrorView,
            >(error) ==> fails_with(r, error)
        }),
{
}

} // verus!
