//! Laws of the requests: which queries are asked upstream, at which addresses,
//! and what a failed request means.
use crate::arxiv;
use crate::common;
use crate::laws::texts;
use crate::pubmed;
use crate::query;
use crate::text;
use crate::types;
use crate::types::DiscoveryRecord;
use vstd::prelude::*;
use vstd::utf8;

verus! {

// --------------------------------------------------------------------- queries
/// The query asks for nothing under this filter but what is served.
pub open spec fn asks_for_served(
    filters: Map<Seq<char>, Seq<char>>,
    key: Seq<char>,
    served: Seq<Seq<char>>,
) -> bool {
    !filters.contains_key(key) || exists|i: int|
        0 <= i < served.len() && #[trigger] served[i] == filters[key]
}

/// A query is accepted if and only if each of the two typed filters that it has
/// asks for a served value; one that it does not have asks for nothing.
pub proof fn law_query_is_accepted_iff_its_filters_are_served(
    query: query::GatewayQueryView,
    file_types: Seq<Seq<char>>,
    content_kinds: Seq<Seq<char>>,
)
    ensures
        query::accepts(query, file_types, content_kinds) <==> asks_for_served(
            query.filters,
            "fileType"@,
            file_types,
        ) && asks_for_served(query.filters, "contentKind"@, content_kinds),
{
    if query.filters.contains_key("fileType"@) {
        let value = query.filters["fileType"@];
        assert(file_types.contains(value) <==> exists|i: int|
            0 <= i < file_types.len() && #[trigger] file_types[i] == value);
    }
    if query.filters.contains_key("contentKind"@) {
        let value = query.filters["contentKind"@];
        assert(content_kinds.contains(value) <==> exists|i: int|
            0 <= i < content_kinds.len() && #[trigger] content_kinds[i] == value);
    }
}

/// Taking a filter away never turns an accepted query into a refused one, and no
/// filter but the two typed ones decides; nor does the text.
pub proof fn law_fewer_filters_refuse_no_more(
    query: query::GatewayQueryView,
    other: query::GatewayQueryView,
    file_types: Seq<Seq<char>>,
    content_kinds: Seq<Seq<char>>,
    key: Seq<char>,
    value: Seq<char>,
)
    ensures
        query::accepts(query, file_types, content_kinds) ==> query::accepts(
            query::GatewayQueryView { filters: query.filters.remove(key), ..query },
            file_types,
            content_kinds,
        ),
        key != "fileType"@ && key != "contentKind"@ ==> query::accepts(
            query::GatewayQueryView { filters: query.filters.insert(key, value), ..query },
            file_types,
            content_kinds,
        ) == query::accepts(query, file_types, content_kinds),
        query.filters == other.filters ==> query::accepts(query, file_types, content_kinds)
            == query::accepts(other, file_types, content_kinds),
{
}

/// The text that an upstream is asked for is the free text, all of it, unless
/// there is none; then it is a single star.
pub proof fn law_free_text_is_asked_for(free_text: Seq<char>)
    ensures
        free_text.len() > 0 ==> query::text_or_star(free_text) == free_text,
        free_text.len() == 0 ==> query::text_or_star(free_text) == seq!['*'],
{
    reveal_strlit("*");
    assert("*"@ =~= seq!['*']);
}

/// A complete result is replayed record by record, in order, and then the end.
pub proof fn law_replay_tells_every_record(records: Seq<DiscoveryRecord>)
    ensures
        query::replayed(records).len() == records.len() + 1,
        forall|i: int|
            0 <= i < records.len() ==> (#[trigger] query::replayed(records)[i] matches
                query::GatewaySearchEvent::Base(r) && r == records[i]),
        query::replayed(records)[records.len() as int] is Done,
{
}

// ------------------------------------------------------------- percent-encoding
/// A character that stands for itself in an encoding.
pub open spec fn stands_for_itself(c: char) -> bool {
    ||| 'a' <= c <= 'z'
    ||| 'A' <= c <= 'Z'
    ||| '0' <= c <= '9'
    ||| c == '-'
    ||| c == '.'
    ||| c == '_'
    ||| c == '~'
}

/// The number that an upper-case hexadecimal digit stands for.
pub open spec fn hex_value(c: char) -> int {
    if '0' <= c <= '9' {
        c as int - '0' as int
    } else if 'A' <= c <= 'F' {
        c as int - 'A' as int + 10
    } else {
        -1
    }
}

/// The bytes that a percent-encoded text stands for.
pub open spec fn percent_decoded(s: Seq<char>) -> Seq<u8>
    decreases s.len(),
{
    if s.len() == 0 {
        Seq::empty()
    } else if s[0] == '%' && s.len() >= 3 {
        seq![(hex_value(s[1]) * 16 + hex_value(s[2])) as u8] + percent_decoded(s.skip(3))
    } else {
        seq![s[0] as u8] + percent_decoded(s.skip(1))
    }
}

/// A byte is encoded as the character it is, where that stands for itself, and
/// else as a percent sign and its two hexadecimal digits.
pub proof fn law_byte_is_encoded(b: u8)
    ensures
        stands_for_itself(b as char) ==> common::percent_encoded(seq![b]) == seq![b as char],
        !stands_for_itself(b as char) ==> {
            let e = common::percent_encoded(seq![b]);
            &&& e.len() == 3
            &&& e[0] == '%'
            &&& 0 <= hex_value(e[1])
            &&& 0 <= hex_value(e[2])
            &&& hex_value(e[1]) * 16 + hex_value(e[2]) == b
        },
{
    assert(seq![b].drop_last() =~= Seq::empty());
    assert(common::percent_encoded(seq![b].drop_last()) =~= Seq::empty());
    assert(common::percent_encoded(seq![b]) =~= common::encoded_byte(b));
}

/// Bytes one after the other are encoded one after the other.
pub proof fn law_encodings_follow_each_other(a: Seq<u8>, b: Seq<u8>)
    ensures
        common::percent_encoded(Seq::empty()).len() == 0,
        common::percent_encoded(a + b) == common::percent_encoded(a) + common::percent_encoded(b),
    decreases b.len(),
{
    if b.len() == 0 {
        assert(a + b =~= a);
        assert(common::percent_encoded(a + b) =~= common::percent_encoded(a)
            + common::percent_encoded(b));
    } else {
        law_encodings_follow_each_other(a, b.drop_last());
        assert((a + b).drop_last() =~= a + b.drop_last());
        assert((a + b).last() == b.last());
        assert(common::percent_encoded(a + b) =~= common::percent_encoded(a)
            + common::percent_encoded(b));
    }
}

/// Decoding an encoding gives the text's UTF-8 bytes again.
pub proof fn law_encoding_can_be_undone(s: Seq<char>)
    ensures
        percent_decoded(common::url_encoded(s)) == utf8::encode_utf8(s),
{
    lemma_decoded(utf8::encode_utf8(s));
}

proof fn lemma_decoded(bytes: Seq<u8>)
    ensures
        percent_decoded(common::percent_encoded(bytes)) == bytes,
    decreases bytes.len(),
{
    if bytes.len() == 0 {
        assert(percent_decoded(common::percent_encoded(bytes)) =~= bytes);
    } else {
        let rest = bytes.drop_first();
        let head = common::encoded_byte(bytes[0]);
        let s = common::percent_encoded(bytes);
        common::lemma_encoded_front(bytes);
        lemma_decoded(rest);
        law_byte_is_encoded(bytes[0]);
        assert(seq![bytes[0]].drop_last() =~= Seq::empty());
        assert(common::percent_encoded(seq![bytes[0]].drop_last()) =~= Seq::empty());
        assert(common::percent_encoded(seq![bytes[0]]) =~= head);
        assert(s.skip(head.len() as int) =~= common::percent_encoded(rest));
        assert(s[0] == head[0]);
        if head.len() == 3 {
            assert(s[1] == head[1] && s[2] == head[2]);
        }
        assert(seq![bytes[0]] + rest =~= bytes);
    }
}

// -------------------------------------------------------------------- addresses
/// `host` is what stands in `base` before the slashes at its end.
pub open spec fn is_host(base: Seq<char>, host: Seq<char>) -> bool {
    &&& host.len() <= base.len()
    &&& base.take(host.len() as int) == host
    &&& forall|i: int| host.len() <= i < base.len() ==> #[trigger] base[i] == '/'
    &&& host.len() > 0 ==> host.last() != '/'
}

proof fn lemma_host(base: Seq<char>, host: Seq<char>)
    requires
        is_host(base, host),
    ensures
        text::without_trailing(base, '/') == host,
{
    texts::law_without_trailing(base, '/');
    let t = text::without_trailing(base, '/');
    if t.len() < host.len() {
        assert(host.last() == base[host.len() - 1]);
    }
    if t.len() > host.len() {
        assert(t.last() == base[t.len() - 1]);
    }
}

/// The text is these parts, one after the other.
pub open spec fn is_made_of(s: Seq<char>, parts: Seq<Seq<char>>) -> bool
    decreases parts.len(),
{
    if parts.len() == 0 {
        s.len() == 0
    } else {
        &&& parts.last().len() <= s.len()
        &&& s.skip(s.len() - parts.last().len()) == parts.last()
        &&& is_made_of(s.take(s.len() - parts.last().len()), parts.drop_last())
    }
}

pub proof fn lemma_made_of(s: Seq<char>, parts: Seq<Seq<char>>, last: Seq<char>)
    requires
        is_made_of(s, parts),
    ensures
        is_made_of(s + last, parts.push(last)),
{
    let t = s + last;
    assert(t.skip(s.len() as int) =~= last);
    assert(t.take(s.len() as int) =~= s);
    assert(parts.push(last).drop_last() =~= parts);
}

pub proof fn lemma_made_of_one(s: Seq<char>)
    ensures
        is_made_of(s, seq![s]),
{
    assert(s.skip(0) =~= s);
    assert(s.take(0).len() == 0);
    assert(seq![s].drop_last() =~= Seq::<Seq<char>>::empty());
    assert(is_made_of(s.take(0), seq![s].drop_last()));
}

/// A search asks the configured host for the encoded text and for as many
/// results as wanted.
pub proof fn law_arxiv_search_address(
    base: Seq<char>,
    host: Seq<char>,
    encoded: Seq<char>,
    limit: nat,
)
    requires
        is_host(base, host),
    ensures
        is_made_of(
            arxiv::search_address(base, encoded, limit),
            seq![
                host,
                "/api/query?search_query=all:"@,
                encoded,
                "&start=0&max_results="@,
                text::decimal(limit),
            ],
        ),
{
    lemma_host(base, host);
    let p1 = seq![host];
    let p2 = p1.push("/api/query?search_query=all:"@);
    let p3 = p2.push(encoded);
    let p4 = p3.push("&start=0&max_results="@);
    let s2 = host + "/api/query?search_query=all:"@;
    let s3 = s2 + encoded;
    let s4 = s3 + "&start=0&max_results="@;
    lemma_made_of_one(host);
    lemma_made_of(host, p1, "/api/query?search_query=all:"@);
    lemma_made_of(s2, p2, encoded);
    lemma_made_of(s3, p3, "&start=0&max_results="@);
    lemma_made_of(s4, p4, text::decimal(limit));
    assert(p4.push(text::decimal(limit)) =~= seq![
        host,
        "/api/query?search_query=all:"@,
        encoded,
        "&start=0&max_results="@,
        text::decimal(limit),
    ]);
}

/// A lookup asks the configured host for the encoded id, and the id can be read
/// back out of the address.
pub proof fn law_arxiv_entry_address(base: Seq<char>, host: Seq<char>, record_id: Seq<char>)
    requires
        is_host(base, host),
    ensures
        ({
            let address = arxiv::entry_address(base, common::url_encoded(record_id));
            let head = host + "/api/query?id_list="@;
            &&& head.len() <= address.len()
            &&& address.take(head.len() as int) == head
            &&& percent_decoded(address.skip(head.len() as int)) == utf8::encode_utf8(record_id)
            &&& address.skip(head.len() as int) == common::url_encoded(record_id)
        }),
{
    lemma_host(base, host);
    let address = arxiv::entry_address(base, common::url_encoded(record_id));
    let head = host + "/api/query?id_list="@;
    assert(address.take(head.len() as int) =~= head);
    assert(address.skip(head.len() as int) =~= common::url_encoded(record_id));
    law_encoding_can_be_undone(record_id);
}

/// A search asks the configured host for the encoded text, as JSON, and for as
/// many results as wanted.
pub proof fn law_pubmed_search_address(
    base: Seq<char>,
    host: Seq<char>,
    encoded: Seq<char>,
    limit: nat,
)
    requires
        is_host(base, host),
    ensures
        is_made_of(
            pubmed::search_address(base, encoded, limit),
            seq![
                host,
                "/search?query="@,
                encoded,
                "&format=json&pageSize="@,
                text::decimal(limit),
                "&resultType=lite"@,
            ],
        ),
{
    lemma_host(base, host);
    let p1 = seq![host];
    let p2 = p1.push("/search?query="@);
    let p3 = p2.push(encoded);
    let p4 = p3.push("&format=json&pageSize="@);
    let p5 = p4.push(text::decimal(limit));
    let s2 = host + "/search?query="@;
    let s3 = s2 + encoded;
    let s4 = s3 + "&format=json&pageSize="@;
    let s5 = s4 + text::decimal(limit);
    lemma_made_of_one(host);
    lemma_made_of(host, p1, "/search?query="@);
    lemma_made_of(s2, p2, encoded);
    lemma_made_of(s3, p3, "&format=json&pageSize="@);
    lemma_made_of(s4, p4, text::decimal(limit));
    lemma_made_of(s5, p5, "&resultType=lite"@);
    assert(p5.push("&resultType=lite"@) =~= seq![
        host,
        "/search?query="@,
        encoded,
        "&format=json&pageSize="@,
        text::decimal(limit),
        "&resultType=lite"@,
    ]);
}

/// A lookup is a search for one result, by the PMC id.
pub proof fn law_pubmed_lookup_is_a_search_by_id(base: Seq<char>, pmcid: Seq<char>)
    ensures
        pubmed::entry_address(base, pmcid) == pubmed::search_address(
            base,
            common::url_encoded("PMCID:"@ + pmcid),
            1,
        ),
        percent_decoded(common::url_encoded("PMCID:"@ + pmcid)) == utf8::encode_utf8(
            "PMCID:"@ + pmcid,
        ),
{
    law_encoding_can_be_undone("PMCID:"@ + pmcid);
}

/// Different articles are looked up, and their PDFs asked for, at different
/// addresses.
pub proof fn law_articles_are_looked_up_apart(base: Seq<char>, a: Seq<char>, b: Seq<char>)
    requires
        pubmed::entry_address(base, a) == pubmed::entry_address(base, b)
            || pubmed::pdf_address(base, a) == pubmed::pdf_address(base, b),
    ensures
        a == b,
{
    let host = text::without_trailing(base, '/');
    if pubmed::entry_address(base, a) == pubmed::entry_address(base, b) {
        let head = host + "/search?query="@;
        let tail = "&format=json&pageSize="@ + text::decimal(1) + "&resultType=lite"@;
        let x = common::url_encoded("PMCID:"@ + a);
        let y = common::url_encoded("PMCID:"@ + b);
        let s = pubmed::entry_address(base, a);
        assert(s =~= head + x + tail);
        assert(s =~= head + y + tail);
        assert(x.len() == y.len());
        assert(s.subrange(head.len() as int, (head.len() + x.len()) as int) =~= x);
        assert(s.subrange(head.len() as int, (head.len() + y.len()) as int) =~= y);
        common::law_urlencode_is_lossless("PMCID:"@ + a, "PMCID:"@ + b);
        let full = "PMCID:"@ + a;
        assert(full.skip("PMCID:"@.len() as int) =~= a);
        assert(full.skip("PMCID:"@.len() as int) =~= b);
    } else {
        let head = host + "/articles/"@;
        let s = pubmed::pdf_address(base, a);
        assert(s =~= head + a + "?pdf=render"@);
        assert(s =~= head + b + "?pdf=render"@);
        assert(a.len() == b.len());
        assert(s.subrange(head.len() as int, (head.len() + a.len()) as int) =~= a);
        assert(s.subrange(head.len() as int, (head.len() + b.len()) as int) =~= b);
    }
}

/// An article's PDF is asked for under its PMC id, on the configured host.
pub proof fn law_pubmed_pdf_address(base: Seq<char>, host: Seq<char>, pmcid: Seq<char>)
    requires
        is_host(base, host),
    ensures
        is_made_of(
            pubmed::pdf_address(base, pmcid),
            seq![host, "/articles/"@, pmcid, "?pdf=render"@],
        ),
{
    lemma_host(base, host);
    let p1 = seq![host];
    let p2 = p1.push("/articles/"@);
    let p3 = p2.push(pmcid);
    lemma_made_of_one(host);
    lemma_made_of(host, p1, "/articles/"@);
    lemma_made_of(host + "/articles/"@, p2, pmcid);
    lemma_made_of(host + "/articles/"@ + pmcid, p3, "?pdf=render"@);
    assert(p3.push("?pdf=render"@) =~= seq![host, "/articles/"@, pmcid, "?pdf=render"@]);
}

// ----------------------------------------------------------------- web addresses
/// The address has this scheme, this authority and this path, which may be
/// missing.
pub open spec fn is_web_address(
    url: Seq<char>,
    scheme: Seq<char>,
    authority: Seq<char>,
    path: Seq<char>,
) -> bool {
    &&& scheme == "http://"@ || scheme == "https://"@
    &&& !authority.contains('/')
    &&& path.len() > 0 ==> path[0] == '/'
    &&& url == scheme + authority + path
}

/// The text has neither scheme.
pub open spec fn is_no_web_address(url: Seq<char>) -> bool {
    &&& forall|rest: Seq<char>| url != "http://"@ + rest
    &&& forall|rest: Seq<char>| url != "https://"@ + rest
}

/// A web address is taken apart into its origin, which is its scheme and its
/// authority, and its path.
pub proof fn law_web_address_is_taken_apart(
    url: Seq<char>,
    scheme: Seq<char>,
    authority: Seq<char>,
    path: Seq<char>,
)
    requires
        is_web_address(url, scheme, authority, path),
    ensures
        arxiv::origin(url) == Some(scheme + authority),
        arxiv::url_path(url) == if path.len() > 0 {
            Some(path)
        } else {
            None
        },
{
    reveal_strlit("http://");
    reveal_strlit("https://");
    let rest = authority + path;
    assert(url =~= scheme + rest);
    assert(url.subrange(0, scheme.len() as int) =~= scheme);
    assert(scheme.is_prefix_of(url));
    arxiv::lemma_prefix_chars("http://"@, url);
    arxiv::lemma_prefix_chars("https://"@, url);
    assert("http://"@[4] == ':' && "https://"@[4] == 's');
    assert(url[4] == scheme[4]);
    assert(url.skip(scheme.len() as int) =~= rest);
    assert(arxiv::without_scheme(url) == Some(rest));
    if path.len() > 0 {
        arxiv::lemma_before_first(authority, path, '/');
        assert(rest.skip(authority.len() as int) =~= path);
    } else {
        assert(rest =~= authority);
        texts::law_first_occurrence(rest, '/');
        let n = text::before_first(rest, '/');
        if n < rest.len() {
            assert(authority.contains(rest[n]));
        }
    }
    assert(url.take((scheme.len() + authority.len()) as int) =~= scheme + authority);
}

/// What is no web address has neither origin nor path.
pub proof fn law_other_text_has_no_origin(url: Seq<char>)
    requires
        is_no_web_address(url),
    ensures
        arxiv::origin(url) is None,
        arxiv::url_path(url) is None,
{
    if "http://"@.is_prefix_of(url) {
        assert(url.subrange(0, "http://"@.len() as int) == "http://"@);
        assert(url =~= "http://"@ + url.skip("http://"@.len() as int));
    }
    if "https://"@.is_prefix_of(url) {
        assert(url.subrange(0, "https://"@.len() as int) == "https://"@);
        assert(url =~= "https://"@ + url.skip("https://"@.len() as int));
    }
}

/// Moving an address to another host puts its path, all of it, behind that
/// host; whitespace around the address does not count, and what has no path
/// cannot be moved.
pub proof fn law_address_is_moved_by_its_path(
    url: Seq<char>,
    core: Seq<char>,
    scheme: Seq<char>,
    authority: Seq<char>,
    path: Seq<char>,
    base: Seq<char>,
    host: Seq<char>,
)
    requires
        texts::is_core(url, core),
        is_host(base, host),
    ensures
        is_web_address(core, scheme, authority, path) && path.len() > 0 ==> arxiv::rehosted(
            url,
            base,
        ) == Some(host + path),
        is_web_address(core, scheme, authority, path) && path.len() == 0 ==> arxiv::rehosted(
            url,
            base,
        ) is None,
        is_no_web_address(core) ==> arxiv::rehosted(url, base) is None,
{
    texts::law_trim(url);
    texts::law_core_is_unique(url, core, text::trimmed(url));
    lemma_host(base, host);
    if is_web_address(core, scheme, authority, path) {
        law_web_address_is_taken_apart(core, scheme, authority, path);
    }
    if is_no_web_address(core) {
        law_other_text_has_no_origin(core);
    }
}

/// An entry's PDF link with a path is asked for as it is where it has the
/// configured host's scheme and authority, and by its path on the configured
/// host where it has not.
pub proof fn law_pdf_link_is_followed_on_the_host(
    base: Seq<char>,
    host: Seq<char>,
    e: arxiv::EntryView,
    record_id: Seq<char>,
    link: Seq<char>,
    core: Seq<char>,
    scheme: Seq<char>,
    authority: Seq<char>,
    path: Seq<char>,
    host_scheme: Seq<char>,
    host_authority: Seq<char>,
    host_path: Seq<char>,
)
    requires
        is_host(base, host),
        e.pdf_link == Some(link),
        texts::is_core(link, core),
        is_web_address(core, scheme, authority, path),
        path.len() > 0,
    ensures
        is_web_address(host, host_scheme, host_authority, host_path) && scheme + authority
            == host_scheme + host_authority ==> arxiv::pdf_address(base, e, record_id) == core,
        is_web_address(host, host_scheme, host_authority, host_path) && scheme + authority
            != host_scheme + host_authority ==> arxiv::pdf_address(base, e, record_id) == host
            + path,
        is_no_web_address(host) ==> arxiv::pdf_address(base, e, record_id) == host + path,
{
    lemma_host(base, host);
    assert(host.take(host.len() as int) =~= host);
    law_address_is_moved_by_its_path(link, core, scheme, authority, path, host, host);
    law_web_address_is_taken_apart(core, scheme, authority, path);
    texts::law_trim(link);
    texts::law_core_is_unique(link, core, text::trimmed(link));
    if is_web_address(host, host_scheme, host_authority, host_path) {
        law_web_address_is_taken_apart(host, host_scheme, host_authority, host_path);
    }
    if is_no_web_address(host) {
        law_other_text_has_no_origin(host);
    }
}

/// Without a usable PDF link the PDF is asked for under the record id.
pub proof fn law_pdf_is_asked_for_by_id(
    base: Seq<char>,
    host: Seq<char>,
    e: arxiv::EntryView,
    record_id: Seq<char>,
    core: Seq<char>,
    scheme: Seq<char>,
    authority: Seq<char>,
)
    requires
        is_host(base, host),
        e.pdf_link is None || (texts::is_core(e.pdf_link->0, core) && (is_no_web_address(core)
            || is_web_address(core, scheme, authority, Seq::empty()))),
    ensures
        is_made_of(
            arxiv::pdf_address(base, e, record_id),
            seq![host, "/pdf/"@, record_id, ".pdf"@],
        ),
{
    lemma_host(base, host);
    assert(host.take(host.len() as int) =~= host);
    if let Some(link) = e.pdf_link {
        law_address_is_moved_by_its_path(
            link,
            core,
            scheme,
            authority,
            Seq::empty(),
            host,
            host,
        );
    }
    let p1 = seq![host];
    let p2 = p1.push("/pdf/"@);
    let p3 = p2.push(record_id);
    lemma_made_of_one(host);
    lemma_made_of(host, p1, "/pdf/"@);
    lemma_made_of(host + "/pdf/"@, p2, record_id);
    lemma_made_of(host + "/pdf/"@ + record_id, p3, ".pdf"@);
    assert(p3.push(".pdf"@) =~= seq![host, "/pdf/"@, record_id, ".pdf"@]);
}

// -------------------------------------------------------------- failed requests
/// What a status means: those of success are no error, a missing record and a
/// request to wait are told as such, the upstream's own failures may pass, and
/// every other status is final. The message names the status.
pub proof fn law_status_tells_the_error(status: u16, retry_after_s: u64)
    ensures
        200 <= status <= 299 ==> common::status_error(status, retry_after_s) is None,
        status == 404 ==> common::status_error(status, retry_after_s) == Some(
            types::GatewayErrorView::NotFound,
        ),
        status == 429 ==> common::status_error(status, retry_after_s) == Some(
            types::GatewayErrorView::RateLimited { retry_after_s },
        ),
        status >= 500 ==> common::status_error(status, retry_after_s) == Some(
            types::GatewayErrorView::Transient(
                "upstream status "@ + text::decimal(status as nat),
            ),
        ),
        (status < 200 || 300 <= status < 500) && status != 404 && status != 429
            ==> common::status_error(status, retry_after_s) == Some(
            types::GatewayErrorView::Permanent(
                "upstream status "@ + text::decimal(status as nat),
            ),
        ),
{
}

/// A request without an answer may be tried again; its error names the address
/// and the reason, and nothing of either is lost.
pub proof fn law_missing_answer_is_transient(url: Seq<char>, reason: Seq<char>)
    ensures
        common::no_answer(url, reason) matches types::GatewayErrorView::Transient(message)
            && is_made_of(message, seq!["GET "@, url, ": "@, reason]),
{
    let p1 = seq!["GET "@];
    let p2 = p1.push(url);
    let p3 = p2.push(": "@);
    lemma_made_of_one("GET "@);
    lemma_made_of("GET "@, p1, url);
    lemma_made_of("GET "@ + url, p2, ": "@);
    lemma_made_of("GET "@ + url + ": "@, p3, reason);
    assert(p3.push(reason) =~= seq!["GET "@, url, ": "@, reason]);
}

/// An error in words begins with its kind and ends with its own message, or with
/// how long to wait.
pub proof fn law_error_in_words(e: types::GatewayErrorView)
    ensures
        match e {
            types::GatewayErrorView::NotFound => types::error_text(e) == "not found"@,
            types::GatewayErrorView::RateLimited { retry_after_s } => is_made_of(
                types::error_text(e),
                seq!["rate limited; retry in "@, text::decimal(retry_after_s as nat), "s"@],
            ),
            types::GatewayErrorView::Transient(s) => is_made_of(
                types::error_text(e),
                seq!["transient: "@, s],
            ),
            types::GatewayErrorView::Permanent(s) => is_made_of(
                types::error_text(e),
                seq!["permanent: "@, s],
            ),
            types::GatewayErrorView::Internal(s) => is_made_of(
                types::error_text(e),
                seq!["internal: "@, s],
            ),
        },
{
    match e {
        types::GatewayErrorView::NotFound => {},
        types::GatewayErrorView::RateLimited { retry_after_s } => {
            let n = text::decimal(retry_after_s as nat);
            let p1 = seq!["rate limited; retry in "@];
            lemma_made_of_one("rate limited; retry in "@);
            lemma_made_of("rate limited; retry in "@, p1, n);
            lemma_made_of("rate limited; retry in "@ + n, p1.push(n), "s"@);
            assert(p1.push(n).push("s"@) =~= seq!["rate limited; retry in "@, n, "s"@]);
        },
        types::GatewayErrorView::Transient(s) => {
            lemma_made_of_one("transient: "@);
            lemma_made_of("transient: "@, seq!["transient: "@], s);
            assert(seq!["transient: "@].push(s) =~= seq!["transient: "@, s]);
        },
        types::GatewayErrorView::Permanent(s) => {
            lemma_made_of_one("permanent: "@);
            lemma_made_of("permanent: "@, seq!["permanent: "@], s);
            assert(seq!["permanent: "@].push(s) =~= seq!["permanent: "@, s]);
        },
        types::GatewayErrorView::Internal(s) => {
            lemma_made_of_one("internal: "@);
            lemma_made_of("internal: "@, seq!["internal: "@], s);
            assert(seq!["internal: "@].push(s) =~= seq!["internal: "@, s]);
        },
    }
}

} // verus!
