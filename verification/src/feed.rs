//! Well-formed arXiv feeds, token by token, and what the parser makes of them.
use crate::arxiv;
use crate::text;
use crate::xml;
use vstd::prelude::*;
use vstd::utf8;

verus! {

// ------------------------------------------------------------------ tags and text
/// An opening tag.
pub open spec fn open_tag(name: Seq<char>) -> xml::XmlTokenView {
    xml::XmlTokenView::Start { name: utf8::encode_utf8(name) }
}

/// A closing tag.
pub open spec fn close_tag(name: Seq<char>) -> xml::XmlTokenView {
    xml::XmlTokenView::End { name: utf8::encode_utf8(name) }
}

/// Character data without references.
pub open spec fn content(s: Seq<char>) -> xml::XmlTokenView {
    xml::XmlTokenView::Text { raw: utf8::encode_utf8(s) }
}

/// `name="value"`.
pub open spec fn attribute(name: Seq<char>, value: Seq<char>) -> Option<(Seq<u8>, Seq<u8>)> {
    Some((utf8::encode_utf8(name), utf8::encode_utf8(value)))
}

/// A self-closing tag.
pub open spec fn empty_tag(
    name: Seq<char>,
    attributes: Seq<Option<(Seq<u8>, Seq<u8>)>>,
) -> xml::XmlTokenView {
    xml::XmlTokenView::Empty { name: utf8::encode_utf8(name), attributes }
}

/// A tag's name stands for itself where it has no namespace prefix.
proof fn lemma_plain_name(name: Seq<char>)
    requires
        !name.contains(':'),
    ensures
        xml::local_part(utf8::encode_utf8(name)) == name,
{
    utf8::encode_utf8_valid_utf8(name);
    utf8::encode_utf8_decode_utf8(name);
    lemma_after_last_absent(name, ':');
}

proof fn lemma_after_last_absent(s: Seq<char>, c: char)
    requires
        !s.contains(c),
    ensures
        text::after_last(s, c) == s,
    decreases s.len(),
{
    if s.len() > 0 {
        assert(s.contains(s[s.len() - 1]));
        assert forall|i: int| 0 <= i < s.drop_last().len() implies s.drop_last()[i] != c by {
            assert(s.contains(s[i]));
        }
        lemma_after_last_absent(s.drop_last(), c);
        assert(s.drop_last().push(s.last()) =~= s);
    } else {
        assert(text::after_last(s, c) =~= s);
    }
}

proof fn lemma_after_last(head: Seq<char>, tail: Seq<char>, c: char)
    requires
        !tail.contains(c),
    ensures
        text::after_last(head.push(c) + tail, c) == tail,
    decreases tail.len(),
{
    let s = head.push(c) + tail;
    if tail.len() == 0 {
        assert(s =~= head.push(c));
        assert(tail =~= Seq::empty());
    } else {
        assert(tail.contains(tail[tail.len() - 1]));
        assert(s.drop_last() =~= head.push(c) + tail.drop_last());
        assert forall|i: int| 0 <= i < tail.drop_last().len() implies tail.drop_last()[i]
            != c by {
            assert(tail.contains(tail[i]));
        }
        lemma_after_last(head, tail.drop_last(), c);
        assert(tail.drop_last().push(tail.last()) =~= tail);
    }
}

/// A namespace prefix makes no difference: `prefix:name` is read as `name`.
pub proof fn law_namespace_prefix_is_ignored(prefix: Seq<char>, name: Seq<char>)
    requires
        !name.contains(':'),
    ensures
        xml::local_part(utf8::encode_utf8(prefix.push(':') + name)) == xml::local_part(
            utf8::encode_utf8(name),
        ),
        xml::local_part(utf8::encode_utf8(name)) == name,
{
    let full = prefix.push(':') + name;
    utf8::encode_utf8_valid_utf8(full);
    utf8::encode_utf8_decode_utf8(full);
    lemma_after_last(prefix, name, ':');
    lemma_plain_name(name);
}

/// The names of the tags and attributes that the parser looks for.
pub proof fn lemma_names()
    ensures
        xml::local_part(utf8::encode_utf8("entry"@)) == "entry"@,
        xml::local_part(utf8::encode_utf8("id"@)) == "id"@,
        xml::local_part(utf8::encode_utf8("title"@)) == "title"@,
        xml::local_part(utf8::encode_utf8("summary"@)) == "summary"@,
        xml::local_part(utf8::encode_utf8("published"@)) == "published"@,
        xml::local_part(utf8::encode_utf8("author"@)) == "author"@,
        xml::local_part(utf8::encode_utf8("name"@)) == "name"@,
        xml::local_part(utf8::encode_utf8("link"@)) == "link"@,
        xml::local_part(utf8::encode_utf8("category"@)) == "category"@,
        xml::local_part(utf8::encode_utf8("arxiv:primary_category"@)) == "primary_category"@,
        xml::local_part(utf8::encode_utf8("term"@)) == "term"@,
        xml::local_part(utf8::encode_utf8("href"@)) == "href"@,
{
    reveal_strlit("entry");
    reveal_strlit("id");
    reveal_strlit("title");
    reveal_strlit("summary");
    reveal_strlit("published");
    reveal_strlit("author");
    reveal_strlit("name");
    reveal_strlit("link");
    reveal_strlit("category");
    reveal_strlit("arxiv:primary_category");
    reveal_strlit("primary_category");
    reveal_strlit("arxiv");
    reveal_strlit("term");
    reveal_strlit("href");
    lemma_plain_name("entry"@);
    lemma_plain_name("id"@);
    lemma_plain_name("title"@);
    lemma_plain_name("summary"@);
    lemma_plain_name("published"@);
    lemma_plain_name("author"@);
    lemma_plain_name("name"@);
    lemma_plain_name("link"@);
    lemma_plain_name("category"@);
    lemma_plain_name("term"@);
    lemma_plain_name("href"@);
    law_namespace_prefix_is_ignored("arxiv"@, "primary_category"@);
    assert("arxiv"@.push(':') + "primary_category"@ =~= "arxiv:primary_category"@);
}

/// No two of the tags' names are the same.
pub proof fn lemma_names_differ()
    ensures
        "entry"@ != "id"@,
        "entry"@ != "title"@,
        "entry"@ != "summary"@,
        "entry"@ != "published"@,
        "entry"@ != "author"@,
        "entry"@ != "name"@,
        "id"@ != "title"@,
        "id"@ != "summary"@,
        "id"@ != "published"@,
        "id"@ != "author"@,
        "id"@ != "name"@,
        "title"@ != "summary"@,
        "title"@ != "published"@,
        "title"@ != "author"@,
        "title"@ != "name"@,
        "summary"@ != "published"@,
        "summary"@ != "author"@,
        "summary"@ != "name"@,
        "published"@ != "author"@,
        "published"@ != "name"@,
        "author"@ != "name"@,
        "link"@ != "category"@,
        "link"@ != "primary_category"@,
        "category"@ != "primary_category"@,
        "title"@ != "href"@,
{
    reveal_strlit("entry");
    reveal_strlit("id");
    reveal_strlit("title");
    reveal_strlit("summary");
    reveal_strlit("published");
    reveal_strlit("author");
    reveal_strlit("name");
    reveal_strlit("link");
    reveal_strlit("category");
    reveal_strlit("primary_category");
    reveal_strlit("href");
    assert("entry"@.len() == 5 && "id"@.len() == 2 && "title"@.len() == 5);
    assert("summary"@.len() == 7 && "published"@.len() == 9 && "author"@.len() == 6);
    assert("name"@.len() == 4 && "link"@.len() == 4 && "category"@.len() == 8);
    assert("primary_category"@.len() == 16 && "href"@.len() == 4);
    assert("entry"@[0] == 'e' && "title"@[0] == 't');
}

// ------------------------------------------------------------------------ entries
/// `<name>s</name>`.
pub open spec fn text_element(name: Seq<char>, s: Seq<char>) -> Seq<xml::XmlTokenView> {
    seq![open_tag(name), content(s), close_tag(name)]
}

/// `<name>s</name>`, where there is a text.
pub open spec fn optional_element(name: Seq<char>, s: Option<Seq<char>>) -> Seq<
    xml::XmlTokenView,
> {
    match s {
        Some(t) => text_element(name, t),
        None => Seq::empty(),
    }
}

/// `<author><name>…</name></author>` for each author.
pub open spec fn author_elements(authors: Seq<Seq<char>>) -> Seq<xml::XmlTokenView>
    decreases authors.len(),
{
    if authors.len() == 0 {
        Seq::empty()
    } else {
        author_elements(authors.drop_last()) + (seq![open_tag("author"@)] + text_element(
            "name"@,
            authors.last(),
        ) + seq![close_tag("author"@)])
    }
}

/// `<category term="…"/>` for each category.
pub open spec fn category_elements(categories: Seq<Seq<char>>) -> Seq<xml::XmlTokenView>
    decreases categories.len(),
{
    if categories.len() == 0 {
        Seq::empty()
    } else {
        category_elements(categories.drop_last()) + seq![
            empty_tag("category"@, seq![attribute("term"@, categories.last())]),
        ]
    }
}

/// `<arxiv:primary_category term="…"/>`, where there is one.
pub open spec fn primary_element(category: Option<Seq<char>>) -> Seq<xml::XmlTokenView> {
    match category {
        Some(term) => seq![empty_tag("arxiv:primary_category"@, seq![attribute("term"@, term)])],
        None => Seq::empty(),
    }
}

/// `<link title="pdf" href="…"/>`, where there is one.
pub open spec fn link_element(link: Option<Seq<char>>) -> Seq<xml::XmlTokenView> {
    match link {
        Some(href) => seq![
            empty_tag("link"@, seq![attribute("title"@, "pdf"@), attribute("href"@, href)]),
        ],
        None => Seq::empty(),
    }
}

/// An entry as arXiv writes it.
pub open spec fn entry_tokens(e: arxiv::EntryView) -> Seq<xml::XmlTokenView> {
    seq![open_tag("entry"@)] + text_element("id"@, "http://arxiv.org/abs/"@ + e.record_id)
        + optional_element("published"@, e.published) + optional_element("title"@, e.title)
        + optional_element("summary"@, e.summary) + author_elements(e.authors) + primary_element(
        e.primary_category,
    ) + category_elements(e.categories) + link_element(e.pdf_link) + seq![close_tag("entry"@)]
}

/// The entries of a feed, one after the other.
pub open spec fn feed_tokens(entries: Seq<arxiv::EntryView>) -> Seq<xml::XmlTokenView>
    decreases entries.len(),
{
    if entries.len() == 0 {
        Seq::empty()
    } else {
        feed_tokens(entries.drop_last()) + entry_tokens(entries.last())
    }
}

/// A text without references.
pub open spec fn plain(s: Seq<char>) -> bool {
    !s.contains('&')
}

/// An optional text is plain, and `clean` leaves it as it is.
pub open spec fn settled(s: Option<Seq<char>>, clean: spec_fn(Seq<char>) -> Seq<char>) -> bool {
    s matches Some(t) ==> plain(t) && clean(t) == t
}

/// An entry whose texts are as the parser leaves them: without references, and
/// without whitespace to spare.
pub open spec fn well_formed(e: arxiv::EntryView) -> bool {
    &&& plain(e.record_id)
    &&& e.record_id.len() > 0 ==> !text::is_white_space(e.record_id.last())
    &&& settled(e.published, |s: Seq<char>| text::trimmed(s))
    &&& settled(e.title, |s: Seq<char>| arxiv::normalized(s))
    &&& settled(e.summary, |s: Seq<char>| arxiv::normalized(s))
    &&& forall|i: int|
        0 <= i < e.authors.len() ==> {
            let author = #[trigger] e.authors[i];
            author.len() > 0 && plain(author) && text::trimmed(author) == author
        }
}

// ------------------------------------------------------- the parser on such entries
/// The parser between two fields of the entry `e`, behind the entries `done`.
spec fn within(done: Seq<arxiv::EntryView>, e: arxiv::EntryView) -> arxiv::FeedView {
    arxiv::FeedView {
        entries: done,
        in_entry: true,
        current: e,
        field: arxiv::TextField::Outside,
        in_author: false,
        in_author_name: false,
        text: Seq::empty(),
    }
}

/// The parser between two entries.
spec fn between(done: Seq<arxiv::EntryView>) -> arxiv::FeedView {
    arxiv::FeedView { entries: done, ..arxiv::feed_start() }
}

/// Reading on is reading the rest from where one stands.
pub proof fn lemma_run_on(s: arxiv::FeedView, a: Seq<xml::XmlTokenView>, b: Seq<xml::XmlTokenView>)
    ensures
        arxiv::feed_run(s, a + b) == arxiv::feed_run(arxiv::feed_run(s, a), b),
    decreases b.len(),
{
    if b.len() == 0 {
        assert(a + b =~= a);
    } else {
        lemma_run_on(s, a, b.drop_last());
        assert((a + b).drop_last() =~= a + b.drop_last());
    }
}

pub proof fn lemma_run_one(s: arxiv::FeedView, t: xml::XmlTokenView)
    ensures
        arxiv::feed_run(s, seq![t]) == arxiv::feed_step(s, t),
{
    assert(seq![t].drop_last() =~= Seq::empty());
    assert(arxiv::feed_run(s, seq![t].drop_last()) == s);
}

proof fn lemma_run_three(
    s: arxiv::FeedView,
    t: xml::XmlTokenView,
    u: xml::XmlTokenView,
    v: xml::XmlTokenView,
)
    ensures
        arxiv::feed_run(s, seq![t, u, v]) == arxiv::feed_step(
            arxiv::feed_step(arxiv::feed_step(s, t), u),
            v,
        ),
{
    assert(seq![t, u, v] =~= seq![t] + seq![u] + seq![v]);
    lemma_run_on(s, seq![t] + seq![u], seq![v]);
    lemma_run_on(s, seq![t], seq![u]);
    lemma_run_one(s, t);
    lemma_run_one(arxiv::feed_step(s, t), u);
    lemma_run_one(arxiv::feed_step(arxiv::feed_step(s, t), u), v);
}

/// Plain character data is read as it is.
pub proof fn lemma_content(s: Seq<char>)
    requires
        plain(s),
    ensures
        xml::character_data(utf8::encode_utf8(s)) == Some(s),
{
    utf8::encode_utf8_valid_utf8(s);
    utf8::encode_utf8_decode_utf8(s);
}

/// The state after an element that holds a text, just before its text is
/// cleaned up and put away.
proof fn lemma_field(
    s: arxiv::FeedView,
    name: Seq<char>,
    t: Seq<char>,
    field: arxiv::TextField,
)
    requires
        plain(t),
        s.in_entry,
        s.text.len() == 0,
        xml::local_part(utf8::encode_utf8(name)) == name,
        !(field is Outside),
        arxiv::after_start(s, name).field == field,
        arxiv::after_start(s, name).in_entry,
        arxiv::after_start(s, name).text == s.text,
    ensures
        arxiv::feed_run(s, text_element(name, t)) == arxiv::after_end(
            arxiv::FeedView { text: t, ..arxiv::after_start(s, name) },
            name,
        ),
{
    lemma_run_three(s, open_tag(name), content(t), close_tag(name));
    lemma_content(t);
    assert(s.text + t =~= t);
}

proof fn lemma_id(done: Seq<arxiv::EntryView>, e: arxiv::EntryView, id: Seq<char>)
    requires
        plain(id),
        id.len() > 0 ==> !text::is_white_space(id.last()),
    ensures
        arxiv::feed_run(within(done, e), text_element("id"@, "http://arxiv.org/abs/"@ + id))
            == within(done, arxiv::EntryView { record_id: id, ..e }),
{
    lemma_names();
    lemma_names_differ();
    reveal_strlit("http://arxiv.org/abs/");
    let p = "http://arxiv.org/abs/"@;
    let url = p + id;
    assert(!p.contains('&'));
    assert forall|i: int| 0 <= i < url.len() implies url[i] != '&' by {
        if i < p.len() {
            assert(url[i] == p[i]);
            assert(p.contains(p[i]));
        } else {
            assert(url[i] == id[i - p.len()]);
            assert(id.contains(id[i - p.len()]));
        }
    }
    assert(url[0] == 'h');
    assert(text::trimmed_start(url) == url);
    assert(!text::is_white_space(url.last())) by {
        if id.len() == 0 {
            assert(url.last() == '/');
        } else {
            assert(url.last() == id.last());
        }
    }
    assert(text::trimmed(url) == url);
    arxiv::law_abs_address_gives_the_id(url, 0, id);
    lemma_field(within(done, e), "id"@, url, arxiv::TextField::Id);
}

proof fn lemma_title(done: Seq<arxiv::EntryView>, e: arxiv::EntryView, s: Option<Seq<char>>)
    requires
        settled(s, |s: Seq<char>| arxiv::normalized(s)),
        e.title is None,
    ensures
        arxiv::feed_run(within(done, e), optional_element("title"@, s)) == within(
            done,
            arxiv::EntryView { title: s, ..e },
        ),
{
    lemma_names();
    lemma_names_differ();
    if let Some(t) = s {
        lemma_field(within(done, e), "title"@, t, arxiv::TextField::Title);
    }
}

proof fn lemma_summary(done: Seq<arxiv::EntryView>, e: arxiv::EntryView, s: Option<Seq<char>>)
    requires
        settled(s, |s: Seq<char>| arxiv::normalized(s)),
        e.summary is None,
    ensures
        arxiv::feed_run(within(done, e), optional_element("summary"@, s)) == within(
            done,
            arxiv::EntryView { summary: s, ..e },
        ),
{
    lemma_names();
    lemma_names_differ();
    if let Some(t) = s {
        lemma_field(within(done, e), "summary"@, t, arxiv::TextField::Summary);
    }
}

proof fn lemma_published(done: Seq<arxiv::EntryView>, e: arxiv::EntryView, s: Option<Seq<char>>)
    requires
        settled(s, |s: Seq<char>| text::trimmed(s)),
        e.published is None,
    ensures
        arxiv::feed_run(within(done, e), optional_element("published"@, s)) == within(
            done,
            arxiv::EntryView { published: s, ..e },
        ),
{
    lemma_names();
    lemma_names_differ();
    if let Some(t) = s {
        lemma_field(within(done, e), "published"@, t, arxiv::TextField::Published);
    }
}

proof fn lemma_author(done: Seq<arxiv::EntryView>, e: arxiv::EntryView, author: Seq<char>)
    requires
        author.len() > 0,
        plain(author),
        text::trimmed(author) == author,
    ensures
        arxiv::feed_run(
            within(done, e),
            seq![open_tag("author"@)] + text_element("name"@, author) + seq![close_tag("author"@)],
        ) == within(done, arxiv::EntryView { authors: e.authors.push(author), ..e }),
{
    lemma_names();
    lemma_names_differ();
    let s = within(done, e);
    let named = seq![open_tag("author"@)] + text_element("name"@, author);
    lemma_run_on(s, named, seq![close_tag("author"@)]);
    lemma_run_on(s, seq![open_tag("author"@)], text_element("name"@, author));
    lemma_run_one(s, open_tag("author"@));
    let inside = arxiv::FeedView { in_author: true, ..s };
    assert(arxiv::feed_step(s, open_tag("author"@)) == inside);
    lemma_field(inside, "name"@, author, arxiv::TextField::Author);
    lemma_run_one(arxiv::feed_run(s, named), close_tag("author"@));
}

proof fn lemma_authors(done: Seq<arxiv::EntryView>, e: arxiv::EntryView, authors: Seq<Seq<char>>)
    requires
        e.authors.len() == 0,
        forall|i: int|
            0 <= i < authors.len() ==> {
                let author = #[trigger] authors[i];
                author.len() > 0 && plain(author) && text::trimmed(author) == author
            },
    ensures
        arxiv::feed_run(within(done, e), author_elements(authors)) == within(
            done,
            arxiv::EntryView { authors, ..e },
        ),
    decreases authors.len(),
{
    if authors.len() == 0 {
        assert(e.authors =~= authors);
    } else {
        let before = authors.drop_last();
        assert forall|i: int| 0 <= i < before.len() implies ({
            let author = #[trigger] before[i];
            author.len() > 0 && plain(author) && text::trimmed(author) == author
        }) by {
            assert(before[i] == authors[i]);
        }
        lemma_authors(done, e, before);
        let last = authors[authors.len() - 1];
        let f = arxiv::EntryView { authors: before, ..e };
        lemma_author(done, f, last);
        lemma_run_on(
            within(done, e),
            author_elements(before),
            seq![open_tag("author"@)] + text_element("name"@, last) + seq![close_tag("author"@)],
        );
        assert(before.push(last) =~= authors);
    }
}

/// Attributes without namespace prefixes are found under their names.
pub proof fn lemma_one_attribute(name: Seq<char>, value: Seq<char>)
    requires
        xml::local_part(utf8::encode_utf8(name)) == name,
    ensures
        xml::attribute_map(seq![attribute(name, value)]).contains_key(name),
        xml::attribute_map(seq![attribute(name, value)])[name] == value,
{
    let list = seq![attribute(name, value)];
    assert(list.last() == attribute(name, value));
    utf8::encode_utf8_valid_utf8(value);
    utf8::encode_utf8_decode_utf8(value);
}

pub proof fn lemma_two_attributes(a: Seq<char>, x: Seq<char>, b: Seq<char>, y: Seq<char>)
    requires
        xml::local_part(utf8::encode_utf8(a)) == a,
        xml::local_part(utf8::encode_utf8(b)) == b,
        a != b,
    ensures
        ({
            let m = xml::attribute_map(seq![attribute(a, x), attribute(b, y)]);
            m.contains_key(a) && m[a] == x && m.contains_key(b) && m[b] == y
        }),
{
    let list = seq![attribute(a, x), attribute(b, y)];
    assert(list.last() == attribute(b, y));
    assert(list.drop_last() =~= seq![attribute(a, x)]);
    lemma_one_attribute(a, x);
    utf8::encode_utf8_valid_utf8(y);
    utf8::encode_utf8_decode_utf8(y);
}

proof fn lemma_categories(
    done: Seq<arxiv::EntryView>,
    e: arxiv::EntryView,
    categories: Seq<Seq<char>>,
)
    requires
        e.categories.len() == 0,
    ensures
        arxiv::feed_run(within(done, e), category_elements(categories)) == within(
            done,
            arxiv::EntryView { categories, ..e },
        ),
    decreases categories.len(),
{
    if categories.len() == 0 {
        assert(e.categories =~= categories);
    } else {
        let before = categories.drop_last();
        let last = categories.last();
        lemma_categories(done, e, before);
        let tag = empty_tag("category"@, seq![attribute("term"@, last)]);
        let s = within(done, arxiv::EntryView { categories: before, ..e });
        lemma_run_on(within(done, e), category_elements(before), seq![tag]);
        lemma_run_one(s, tag);
        lemma_names();
        lemma_names_differ();
        lemma_one_attribute("term"@, last);
        assert(before.push(last) =~= categories);
    }
}

proof fn lemma_primary(
    done: Seq<arxiv::EntryView>,
    e: arxiv::EntryView,
    category: Option<Seq<char>>,
)
    requires
        e.primary_category is None,
    ensures
        arxiv::feed_run(within(done, e), primary_element(category)) == within(
            done,
            arxiv::EntryView { primary_category: category, ..e },
        ),
{
    if let Some(term) = category {
        let tag = empty_tag("arxiv:primary_category"@, seq![attribute("term"@, term)]);
        lemma_run_one(within(done, e), tag);
        lemma_names();
        lemma_names_differ();
        lemma_one_attribute("term"@, term);
    }
}

proof fn lemma_link(done: Seq<arxiv::EntryView>, e: arxiv::EntryView, link: Option<Seq<char>>)
    requires
        e.pdf_link is None,
    ensures
        arxiv::feed_run(within(done, e), link_element(link)) == within(
            done,
            arxiv::EntryView { pdf_link: link, ..e },
        ),
{
    if let Some(href) = link {
        let tag = empty_tag(
            "link"@,
            seq![attribute("title"@, "pdf"@), attribute("href"@, href)],
        );
        lemma_run_one(within(done, e), tag);
        lemma_names();
        lemma_names_differ();
        lemma_two_attributes("title"@, "pdf"@, "href"@, href);
    }
}

/// One entry is read back as it is.
proof fn lemma_entry(done: Seq<arxiv::EntryView>, e: arxiv::EntryView)
    requires
        well_formed(e),
    ensures
        arxiv::feed_run(between(done), entry_tokens(e)) == between(done.push(e)),
{
    lemma_names();
    lemma_names_differ();
    let s = between(done);
    let t0 = seq![open_tag("entry"@)];
    let t1 = t0 + text_element("id"@, "http://arxiv.org/abs/"@ + e.record_id);
    let t2 = t1 + optional_element("published"@, e.published);
    let t3 = t2 + optional_element("title"@, e.title);
    let t4 = t3 + optional_element("summary"@, e.summary);
    let t5 = t4 + author_elements(e.authors);
    let t6 = t5 + primary_element(e.primary_category);
    let t7 = t6 + category_elements(e.categories);
    let t8 = t7 + link_element(e.pdf_link);
    let e0 = arxiv::blank_entry();
    let e1 = arxiv::EntryView { record_id: e.record_id, ..e0 };
    let e2 = arxiv::EntryView { published: e.published, ..e1 };
    let e3 = arxiv::EntryView { title: e.title, ..e2 };
    let e4 = arxiv::EntryView { summary: e.summary, ..e3 };
    let e5 = arxiv::EntryView { authors: e.authors, ..e4 };
    let e6 = arxiv::EntryView { primary_category: e.primary_category, ..e5 };
    let e7 = arxiv::EntryView { categories: e.categories, ..e6 };
    lemma_run_one(s, open_tag("entry"@));
    assert(arxiv::feed_run(s, t0) == within(done, e0));
    lemma_run_on(s, t0, text_element("id"@, "http://arxiv.org/abs/"@ + e.record_id));
    lemma_id(done, e0, e.record_id);
    lemma_run_on(s, t1, optional_element("published"@, e.published));
    lemma_published(done, e1, e.published);
    lemma_run_on(s, t2, optional_element("title"@, e.title));
    lemma_title(done, e2, e.title);
    lemma_run_on(s, t3, optional_element("summary"@, e.summary));
    lemma_summary(done, e3, e.summary);
    lemma_run_on(s, t4, author_elements(e.authors));
    lemma_authors(done, e4, e.authors);
    lemma_run_on(s, t5, primary_element(e.primary_category));
    lemma_primary(done, e5, e.primary_category);
    lemma_run_on(s, t6, category_elements(e.categories));
    lemma_categories(done, e6, e.categories);
    lemma_run_on(s, t7, link_element(e.pdf_link));
    lemma_link(done, e7, e.pdf_link);
    assert(arxiv::feed_run(s, t8) == within(done, e));
    lemma_run_on(s, t8, seq![close_tag("entry"@)]);
    lemma_run_one(within(done, e), close_tag("entry"@));
}

/// A feed of well-formed entries is read back as those entries: all of them, in
/// order, each with all of its fields.
pub proof fn law_feed_reads_back(entries: Seq<arxiv::EntryView>)
    requires
        forall|i: int| 0 <= i < entries.len() ==> well_formed(#[trigger] entries[i]),
    ensures
        arxiv::feed_entries(feed_tokens(entries)) == entries,
{
    lemma_feed(entries);
}

proof fn lemma_feed(entries: Seq<arxiv::EntryView>)
    requires
        forall|i: int| 0 <= i < entries.len() ==> well_formed(#[trigger] entries[i]),
    ensures
        arxiv::feed_run(arxiv::feed_start(), feed_tokens(entries)) == between(entries),
    decreases entries.len(),
{
    if entries.len() == 0 {
        assert(entries =~= Seq::empty());
    } else {
        let before = entries.drop_last();
        assert forall|i: int| 0 <= i < before.len() implies well_formed(#[trigger] before[i]) by {
            assert(before[i] == entries[i]);
        }
        lemma_feed(before);
        lemma_run_on(arxiv::feed_start(), feed_tokens(before), entry_tokens(entries.last()));
        assert(entries[entries.len() - 1] == entries.last());
        lemma_entry(before, entries.last());
        assert(before.push(entries.last()) =~= entries);
    }
}

// -------------------------------------------------------------- feeds of any shape
/// The number of `</entry>` tags.
pub open spec fn entry_ends(tokens: Seq<xml::XmlTokenView>) -> nat
    decreases tokens.len(),
{
    if tokens.len() == 0 {
        0
    } else {
        let before = entry_ends(tokens.drop_last());
        if tokens.last() matches xml::XmlTokenView::End { name } && xml::local_part(name)
            == "entry"@ {
            before + 1
        } else {
            before
        }
    }
}

/// Whatever a feed looks like, it gives one entry for each `</entry>`.
pub proof fn law_one_entry_per_end_tag(tokens: Seq<xml::XmlTokenView>)
    ensures
        arxiv::feed_entries(tokens).len() == entry_ends(tokens),
    decreases tokens.len(),
{
    lemma_names_differ();
    if tokens.len() > 0 {
        law_one_entry_per_end_tag(tokens.drop_last());
    }
}

/// A text that comes in pieces is read as if it had come in one.
pub proof fn law_split_text_accumulates(
    s: arxiv::FeedView,
    raw: Seq<u8>,
    more: Seq<u8>,
    a: Seq<char>,
    b: Seq<char>,
)
    requires
        s.in_entry,
        !(s.field is Outside),
        xml::character_data(raw) == Some(a),
        xml::character_data(more) == Some(b),
    ensures
        arxiv::feed_step(
            arxiv::feed_step(s, xml::XmlTokenView::Text { raw }),
            xml::XmlTokenView::Text { raw: more },
        ) == (arxiv::FeedView { text: s.text + (a + b), ..s }),
{
    assert(s.text + a + b =~= s.text + (a + b));
}

/// Outside of entries nothing is taken up but the opening and closing of one.
pub proof fn law_outside_of_entries_nothing_counts(s: arxiv::FeedView, token: xml::XmlTokenView)
    requires
        !s.in_entry,
        token matches xml::XmlTokenView::Start { name } ==> xml::local_part(name) != "entry"@,
        token matches xml::XmlTokenView::End { name } ==> xml::local_part(name) != "entry"@,
    ensures
        arxiv::feed_step(s, token) == s,
{
}

// ------------------------------------------------------- entries, each by itself
/// The token opens or closes an entry.
pub open spec fn is_entry_tag(token: xml::XmlTokenView) -> bool {
    match token {
        xml::XmlTokenView::Start { name } => xml::local_part(name) == "entry"@,
        xml::XmlTokenView::End { name } => xml::local_part(name) == "entry"@,
        _ => false,
    }
}

/// No token opens or closes an entry.
pub open spec fn without_entries(tokens: Seq<xml::XmlTokenView>) -> bool {
    forall|i: int| 0 <= i < tokens.len() ==> !is_entry_tag(#[trigger] tokens[i])
}

/// The elements that are open behind the tokens, outermost first; `None` where a
/// closing tag does not match.
pub open spec fn open_elements(tokens: Seq<xml::XmlTokenView>) -> Option<Seq<Seq<u8>>>
    decreases tokens.len(),
{
    if tokens.len() == 0 {
        Some(Seq::empty())
    } else {
        match open_elements(tokens.drop_last()) {
            None => None,
            Some(open) => match tokens.last() {
                xml::XmlTokenView::Start { name } => Some(open.push(name)),
                xml::XmlTokenView::End { name } => if open.len() > 0 && open.last() == name {
                    Some(open.drop_last())
                } else {
                    None
                },
                _ => Some(open),
            },
        }
    }
}

/// Every element that is opened is closed, in the right order.
pub open spec fn well_nested(tokens: Seq<xml::XmlTokenView>) -> bool {
    open_elements(tokens) == Some(Seq::<Seq<u8>>::empty())
}

/// One `<entry>…</entry>`, well nested, with no entry inside of it.
pub open spec fn is_entry_block(block: Seq<xml::XmlTokenView>) -> bool {
    &&& block.len() >= 2
    &&& block[0] is Start
    &&& is_entry_tag(block[0])
    &&& block.last() is End
    &&& is_entry_tag(block.last())
    &&& without_entries(block.subrange(1, block.len() - 1))
    &&& well_nested(block.subrange(1, block.len() - 1))
}

/// The blocks in order, with one gap before, between and after them.
pub open spec fn interleaved(
    blocks: Seq<Seq<xml::XmlTokenView>>,
    gaps: Seq<Seq<xml::XmlTokenView>>,
) -> Seq<xml::XmlTokenView>
    decreases blocks.len(),
{
    if blocks.len() == 0 {
        gaps[0]
    } else {
        interleaved(blocks.drop_last(), gaps.drop_last()) + blocks.last() + gaps.last()
    }
}

/// An element with this local name is open.
spec fn is_open(open: Seq<Seq<u8>>, name: Seq<char>) -> bool {
    exists|i: int| 0 <= i < open.len() && xml::local_part(#[trigger] open[i]) == name
}

/// The name of the element whose text goes into the field.
spec fn field_name(field: arxiv::TextField) -> Seq<char> {
    match field {
        arxiv::TextField::Outside => Seq::empty(),
        arxiv::TextField::Id => "id"@,
        arxiv::TextField::Title => "title"@,
        arxiv::TextField::Summary => "summary"@,
        arxiv::TextField::Published => "published"@,
        arxiv::TextField::Author => "name"@,
    }
}

/// Inside an entry the parser is inside of a field, an author or an author's name
/// only while an element of that name is open, and it has collected text only
/// inside of a field.
spec fn in_step(s: arxiv::FeedView, open: Seq<Seq<u8>>) -> bool {
    &&& s.in_entry
    &&& s.in_author ==> is_open(open, "author"@)
    &&& s.in_author_name ==> is_open(open, "name"@)
    &&& !(s.field is Outside) ==> is_open(open, field_name(s.field))
    &&& s.field is Author ==> s.in_author_name
    &&& s.text.len() > 0 ==> !(s.field is Outside)
}

proof fn lemma_open_push(open: Seq<Seq<u8>>, name: Seq<u8>)
    ensures
        is_open(open.push(name), xml::local_part(name)),
        forall|n: Seq<char>| #[trigger] is_open(open, n) ==> is_open(open.push(name), n),
{
    let more = open.push(name);
    assert(more[open.len() as int] == name);
    assert forall|n: Seq<char>| #[trigger] is_open(open, n) implies is_open(more, n) by {
        let i = choose|i: int| 0 <= i < open.len() && xml::local_part(#[trigger] open[i]) == n;
        assert(more[i] == open[i]);
    }
}

proof fn lemma_open_pop(open: Seq<Seq<u8>>)
    requires
        open.len() > 0,
    ensures
        forall|n: Seq<char>|
            #[trigger] is_open(open, n) && n != xml::local_part(open.last()) ==> is_open(
                open.drop_last(),
                n,
            ),
{
    let less = open.drop_last();
    assert forall|n: Seq<char>|
        #[trigger] is_open(open, n) && n != xml::local_part(open.last()) implies is_open(
        less,
        n,
    ) by {
        let i = choose|i: int| 0 <= i < open.len() && xml::local_part(#[trigger] open[i]) == n;
        assert(i < open.len() - 1);
        assert(less[i] == open[i]);
    }
}

/// Every token inside an entry keeps the parser in step with the elements that
/// are open.
proof fn lemma_in_step(s: arxiv::FeedView, tokens: Seq<xml::XmlTokenView>)
    requires
        in_step(s, Seq::empty()),
        without_entries(tokens),
        open_elements(tokens) is Some,
    ensures
        in_step(arxiv::feed_run(s, tokens), open_elements(tokens)->0),
    decreases tokens.len(),
{
    if tokens.len() > 0 {
        let before = tokens.drop_last();
        assert forall|i: int| 0 <= i < before.len() implies !is_entry_tag(#[trigger] before[i]) by {
            assert(before[i] == tokens[i]);
        }
        lemma_in_step(s, before);
        assert(!is_entry_tag(tokens[tokens.len() - 1]));
        let open = open_elements(before)->0;
        lemma_names_differ();
        match tokens.last() {
            xml::XmlTokenView::Start { name } => {
                lemma_open_push(open, name);
            },
            xml::XmlTokenView::End { name } => {
                lemma_open_pop(open);
            },
            _ => {},
        }
    }
}

/// The entry that a block is read as, behind the entries `done`.
proof fn lemma_block(done: Seq<arxiv::EntryView>, block: Seq<xml::XmlTokenView>)
    requires
        is_entry_block(block),
    ensures
        arxiv::feed_entries(block).len() == 1,
        arxiv::feed_run(between(done), block) == between(
            done.push(arxiv::feed_entries(block)[0]),
        ),
{
    let inner = block.subrange(1, block.len() - 1);
    let first = seq![block[0]];
    let last = seq![block.last()];
    assert(block =~= first + inner + last);
    lemma_inner(Seq::empty(), block);
    lemma_inner(done, block);
    lemma_entries_before(Seq::empty(), done, inner);
    let end = arxiv::feed_run(within(Seq::empty(), arxiv::blank_entry()), inner);
    let e = end.current;
    assert(Seq::<arxiv::EntryView>::empty().push(e) =~= seq![e]);
    assert(between(Seq::empty()) == arxiv::feed_start());
}

/// A block leaves the parser between two entries, with one entry more.
proof fn lemma_inner(done: Seq<arxiv::EntryView>, block: Seq<xml::XmlTokenView>)
    requires
        is_entry_block(block),
    ensures
        arxiv::feed_run(between(done), block) == between(
            done.push(
                arxiv::feed_run(
                    within(done, arxiv::blank_entry()),
                    block.subrange(1, block.len() - 1),
                ).current,
            ),
        ),
{
    let inner = block.subrange(1, block.len() - 1);
    let first = seq![block[0]];
    let last = seq![block.last()];
    let s = between(done);
    let start = within(done, arxiv::blank_entry());
    assert(block =~= first + inner + last);
    lemma_run_on(s, first + inner, last);
    lemma_run_on(s, first, inner);
    lemma_run_one(s, block[0]);
    assert(arxiv::feed_step(s, block[0]) == start);
    lemma_in_step(start, inner);
    let end = arxiv::feed_run(start, inner);
    assert(open_elements(inner)->0 == Seq::<Seq<u8>>::empty());
    lemma_no_new_entries(start, inner);
    assert(end.text =~= Seq::empty());
    assert(end == within(done, end.current));
    lemma_run_one(end, block.last());
    lemma_names_differ();
    assert(arxiv::feed_step(end, block.last()) == between(done.push(end.current)));
}

/// Without a closing tag of an entry no entry is completed.
proof fn lemma_no_new_entries(s: arxiv::FeedView, tokens: Seq<xml::XmlTokenView>)
    requires
        without_entries(tokens),
    ensures
        arxiv::feed_run(s, tokens).entries == s.entries,
    decreases tokens.len(),
{
    if tokens.len() > 0 {
        let before = tokens.drop_last();
        assert forall|i: int| 0 <= i < before.len() implies !is_entry_tag(#[trigger] before[i]) by {
            assert(before[i] == tokens[i]);
        }
        lemma_no_new_entries(s, before);
        assert(!is_entry_tag(tokens[tokens.len() - 1]));
    }
}

/// What is read inside an entry does not depend on the entries before it.
proof fn lemma_entries_before(
    a: Seq<arxiv::EntryView>,
    b: Seq<arxiv::EntryView>,
    tokens: Seq<xml::XmlTokenView>,
)
    requires
        without_entries(tokens),
    ensures
        arxiv::feed_run(within(a, arxiv::blank_entry()), tokens) == (arxiv::FeedView {
            entries: a,
            ..arxiv::feed_run(within(b, arxiv::blank_entry()), tokens)
        }),
    decreases tokens.len(),
{
    if tokens.len() > 0 {
        let before = tokens.drop_last();
        assert forall|i: int| 0 <= i < before.len() implies !is_entry_tag(#[trigger] before[i]) by {
            assert(before[i] == tokens[i]);
        }
        lemma_entries_before(a, b, before);
        assert(!is_entry_tag(tokens[tokens.len() - 1]));
    }
}

/// Tokens between entries leave the parser as it is.
proof fn lemma_gap(done: Seq<arxiv::EntryView>, gap: Seq<xml::XmlTokenView>)
    requires
        without_entries(gap),
    ensures
        arxiv::feed_run(between(done), gap) == between(done),
    decreases gap.len(),
{
    if gap.len() > 0 {
        let before = gap.drop_last();
        assert forall|i: int| 0 <= i < before.len() implies !is_entry_tag(#[trigger] before[i]) by {
            assert(before[i] == gap[i]);
        }
        lemma_gap(done, before);
        assert(!is_entry_tag(gap[gap.len() - 1]));
        law_outside_of_entries_nothing_counts(between(done), gap.last());
    }
}

/// The entries of the blocks, each read by itself.
pub open spec fn entries_of_blocks(blocks: Seq<Seq<xml::XmlTokenView>>) -> Seq<arxiv::EntryView> {
    Seq::new(blocks.len(), |i: int| arxiv::feed_entries(blocks[i])[0])
}

proof fn lemma_blocks(
    blocks: Seq<Seq<xml::XmlTokenView>>,
    gaps: Seq<Seq<xml::XmlTokenView>>,
)
    requires
        gaps.len() == blocks.len() + 1,
        forall|i: int| 0 <= i < blocks.len() ==> is_entry_block(#[trigger] blocks[i]),
        forall|i: int| 0 <= i < gaps.len() ==> without_entries(#[trigger] gaps[i]),
    ensures
        arxiv::feed_run(arxiv::feed_start(), interleaved(blocks, gaps)) == between(
            entries_of_blocks(blocks),
        ),
    decreases blocks.len(),
{
    assert(between(Seq::empty()) == arxiv::feed_start());
    if blocks.len() == 0 {
        assert(without_entries(gaps[0]));
        lemma_gap(Seq::empty(), gaps[0]);
        assert(entries_of_blocks(blocks) =~= Seq::empty());
    } else {
        let b = blocks.drop_last();
        let g = gaps.drop_last();
        assert forall|i: int| 0 <= i < b.len() implies is_entry_block(#[trigger] b[i]) by {
            assert(b[i] == blocks[i]);
        }
        assert forall|i: int| 0 <= i < g.len() implies without_entries(#[trigger] g[i]) by {
            assert(g[i] == gaps[i]);
        }
        lemma_blocks(b, g);
        let block = blocks[blocks.len() - 1];
        let gap = gaps[gaps.len() - 1];
        let done = entries_of_blocks(b);
        let start = arxiv::feed_start();
        assert(is_entry_block(block));
        assert(without_entries(gap));
        lemma_run_on(start, interleaved(b, g) + block, gap);
        lemma_run_on(start, interleaved(b, g), block);
        lemma_block(done, block);
        let all = done.push(arxiv::feed_entries(block)[0]);
        lemma_gap(all, gap);
        assert(all =~= entries_of_blocks(blocks));
    }
}

/// The entries of a feed are read one by one: a feed gives one entry for each of
/// its `<entry>` blocks, in order, and each is what its block gives in a feed of
/// its own. Whatever else stands before, between and after the entries has no
/// effect. `opening` and `closing` stand for what encloses a feed.
pub proof fn law_entries_are_read_one_by_one(
    blocks: Seq<Seq<xml::XmlTokenView>>,
    gaps: Seq<Seq<xml::XmlTokenView>>,
    opening: Seq<xml::XmlTokenView>,
    closing: Seq<xml::XmlTokenView>,
)
    requires
        gaps.len() == blocks.len() + 1,
        forall|i: int| 0 <= i < blocks.len() ==> is_entry_block(#[trigger] blocks[i]),
        forall|i: int| 0 <= i < gaps.len() ==> without_entries(#[trigger] gaps[i]),
        without_entries(opening),
        without_entries(closing),
    ensures
        arxiv::feed_entries(interleaved(blocks, gaps)).len() == blocks.len(),
        forall|i: int|
            0 <= i < blocks.len() ==> arxiv::feed_entries(
                opening + #[trigger] blocks[i] + closing,
            ) == seq![arxiv::feed_entries(interleaved(blocks, gaps))[i]],
{
    lemma_blocks(blocks, gaps);
    assert forall|i: int| 0 <= i < blocks.len() implies arxiv::feed_entries(
        opening + #[trigger] blocks[i] + closing,
    ) == seq![arxiv::feed_entries(interleaved(blocks, gaps))[i]] by {
        let one = seq![blocks[i]];
        let around = seq![opening, closing];
        assert(one.drop_last() =~= Seq::empty());
        assert(around.drop_last() =~= seq![opening]);
        assert(interleaved(one.drop_last(), around.drop_last()) == opening);
        assert(interleaved(one, around) == opening + blocks[i] + closing);
        lemma_blocks(one, around);
        assert(entries_of_blocks(one) =~= seq![arxiv::feed_entries(blocks[i])[0]]);
    }
}

/// The same of documents: where `xml` is read as a feed of these blocks, and each
/// of `singles` as a feed of one of them, parsing `xml` gives one entry for each
/// block, in order, and each is the one that parsing its own document gives.
pub proof fn law_documents_are_parsed_entry_by_entry(
    xml: Seq<u8>,
    singles: Seq<Seq<u8>>,
    blocks: Seq<Seq<xml::XmlTokenView>>,
    gaps: Seq<Seq<xml::XmlTokenView>>,
    opening: Seq<xml::XmlTokenView>,
    closing: Seq<xml::XmlTokenView>,
)
    requires
        gaps.len() == blocks.len() + 1,
        singles.len() == blocks.len(),
        forall|i: int| 0 <= i < blocks.len() ==> is_entry_block(#[trigger] blocks[i]),
        forall|i: int| 0 <= i < gaps.len() ==> without_entries(#[trigger] gaps[i]),
        without_entries(opening),
        without_entries(closing),
        xml::document(xml::xml_tokens(xml)) == Ok::<Seq<xml::XmlTokenView>, Seq<char>>(
            interleaved(blocks, gaps),
        ),
        forall|i: int|
            0 <= i < blocks.len() ==> xml::document(xml::xml_tokens(singles[i])) == Ok::<
                Seq<xml::XmlTokenView>,
                Seq<char>,
            >(opening + #[trigger] blocks[i] + closing),
    ensures
        arxiv::parsed_feed(xml::document(xml::xml_tokens(xml))) matches Ok(entries) && {
            &&& entries.len() == blocks.len()
            &&& forall|i: int|
                0 <= i < blocks.len() ==> arxiv::parsed_feed(
                    xml::document(xml::xml_tokens(#[trigger] singles[i])),
                ) == Ok::<Seq<arxiv::EntryView>, Seq<char>>(seq![entries[i]])
        },
{
    law_entries_are_read_one_by_one(blocks, gaps, opening, closing);
    assert forall|i: int| 0 <= i < blocks.len() implies arxiv::parsed_feed(
        xml::document(xml::xml_tokens(#[trigger] singles[i])),
    ) == Ok::<Seq<arxiv::EntryView>, Seq<char>>(
        seq![arxiv::feed_entries(interleaved(blocks, gaps))[i]],
    ) by {
        assert(arxiv::feed_entries(opening + blocks[i] + closing) == seq![
            arxiv::feed_entries(interleaved(blocks, gaps))[i],
        ]);
    }
}

} // verus!
