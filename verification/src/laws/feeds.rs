//! Laws of reading an arXiv feed: what each element adds to an entry, whatever
//! its text, and what has no effect.
use crate::arxiv;
use crate::feed;
use crate::laws::texts;
use crate::text;
use crate::xml;
use vstd::prelude::*;
use vstd::utf8;

verus! {

// ---------------------------------------------------------------- clean-up
/// Normalizing keeps the words of a text, in order, and parts them by single
/// spaces.
pub proof fn law_normalized_text(raw: Seq<char>)
    ensures
        text::words(arxiv::normalized(raw)) == text::words(raw),
        texts::single_spaced(arxiv::normalized(raw)),
{
    arxiv::law_normalizing_keeps_the_words(raw);
    text::lemma_words(raw);
    texts::law_joined_words_are_single_spaced(text::words(raw));
}

/// The text is an address under which arXiv shows the abstract with this id.
pub open spec fn shows_abstract(address: Seq<char>, id: Seq<char>) -> bool {
    ||| address == "http://arxiv.org/abs/"@ + id
    ||| address == "https://arxiv.org/abs/"@ + id
    ||| address == "http://export.arxiv.org/abs/"@ + id
    ||| address == "https://export.arxiv.org/abs/"@ + id
}

/// An abstract's address, whatever whitespace stands around it, gives the id in
/// it, all of it; any other text is its own id, as it stands.
pub proof fn law_id_of_an_address(raw: Seq<char>, core: Seq<char>, id: Seq<char>)
    requires
        texts::is_core(raw, core),
    ensures
        shows_abstract(core, id) ==> arxiv::abs_id(raw) == id,
        (forall|other: Seq<char>| !shows_abstract(core, other)) ==> arxiv::abs_id(raw) == raw,
{
    texts::law_trim(raw);
    texts::law_core_is_unique(raw, core, text::trimmed(raw));
    let p = arxiv::abs_prefixes();
    if core == "http://arxiv.org/abs/"@ + id {
        arxiv::law_abs_address_gives_the_id(raw, 0, id);
    }
    if core == "https://arxiv.org/abs/"@ + id {
        arxiv::law_abs_address_gives_the_id(raw, 1, id);
    }
    if core == "http://export.arxiv.org/abs/"@ + id {
        arxiv::law_abs_address_gives_the_id(raw, 2, id);
    }
    if core == "https://export.arxiv.org/abs/"@ + id {
        arxiv::law_abs_address_gives_the_id(raw, 3, id);
    }
    if forall|other: Seq<char>| !shows_abstract(core, other) {
        assert forall|i: int| 0 <= i < p.len() implies !(#[trigger] p[i]).is_prefix_of(core) by {
            if p[i].is_prefix_of(core) {
                let rest = core.skip(p[i].len() as int);
                assert(core.subrange(0, p[i].len() as int) =~= p[i]);
                assert(core =~= p[i] + rest);
                assert(shows_abstract(core, rest));
            }
        }
        arxiv::law_other_text_is_its_own_id(raw);
    }
}

// ---------------------------------------------------------------- elements
/// The character data of a run of text tokens; one that cannot be decoded or
/// unescaped adds nothing.
pub open spec fn told(raws: Seq<Seq<u8>>) -> Seq<char>
    decreases raws.len(),
{
    if raws.len() == 0 {
        Seq::empty()
    } else {
        match xml::character_data(raws.last()) {
            Some(t) => told(raws.drop_last()) + t,
            None => told(raws.drop_last()),
        }
    }
}

/// A run of text tokens.
pub open spec fn text_tokens(raws: Seq<Seq<u8>>) -> Seq<xml::XmlTokenView> {
    Seq::new(raws.len(), |i: int| xml::XmlTokenView::Text { raw: raws[i] })
}

/// `<name>`, the text in any number of pieces, `</name>`.
pub open spec fn element(name: Seq<u8>, raws: Seq<Seq<u8>>) -> Seq<xml::XmlTokenView> {
    seq![xml::XmlTokenView::Start { name }] + text_tokens(raws) + seq![
        xml::XmlTokenView::End { name },
    ]
}

/// `<author><name>`, the text in any number of pieces, `</name></author>`.
pub open spec fn author_element(author: Seq<u8>, name: Seq<u8>, raws: Seq<Seq<u8>>) -> Seq<
    xml::XmlTokenView,
> {
    seq![xml::XmlTokenView::Start { name: author }] + element(name, raws) + seq![
        xml::XmlTokenView::End { name: author },
    ]
}

proof fn lemma_texts_inside(s: arxiv::FeedView, raws: Seq<Seq<u8>>)
    requires
        s.in_entry,
        !(s.field is Outside),
    ensures
        arxiv::feed_run(s, text_tokens(raws)) == (arxiv::FeedView {
            text: s.text + told(raws),
            ..s
        }),
    decreases raws.len(),
{
    let all = text_tokens(raws);
    if raws.len() == 0 {
        assert(s.text + told(raws) =~= s.text);
    } else {
        let before = raws.drop_last();
        lemma_texts_inside(s, before);
        assert(all.drop_last() =~= text_tokens(before));
        assert(all.last() == (xml::XmlTokenView::Text { raw: raws.last() }));
        if let Some(t) = xml::character_data(raws.last()) {
            assert(s.text + told(before) + t =~= s.text + (told(before) + t));
        }
    }
}

proof fn lemma_texts_outside(s: arxiv::FeedView, raws: Seq<Seq<u8>>)
    requires
        s.field is Outside,
    ensures
        arxiv::feed_run(s, text_tokens(raws)) == s,
    decreases raws.len(),
{
    let all = text_tokens(raws);
    if raws.len() > 0 {
        let before = raws.drop_last();
        lemma_texts_outside(s, before);
        assert(all.drop_last() =~= text_tokens(before));
    }
}

proof fn lemma_run_element(s: arxiv::FeedView, name: Seq<u8>, raws: Seq<Seq<u8>>)
    ensures
        ({
            let opened = arxiv::after_start(s, xml::local_part(name));
            arxiv::feed_run(s, element(name, raws)) == arxiv::after_end(
                arxiv::feed_run(opened, text_tokens(raws)),
                xml::local_part(name),
            )
        }),
{
    let first = seq![xml::XmlTokenView::Start { name }];
    let last = seq![xml::XmlTokenView::End { name }];
    feed::lemma_run_on(s, first + text_tokens(raws), last);
    feed::lemma_run_on(s, first, text_tokens(raws));
    feed::lemma_run_one(s, first[0]);
    feed::lemma_run_one(arxiv::feed_run(s, first + text_tokens(raws)), last[0]);
}

/// Whatever text stands in a title, it is read: the entry's title has exactly
/// its words, in order, with single spaces between them, and nothing else of
/// the entry changes.
pub proof fn law_title_is_read(s: arxiv::FeedView, name: Seq<u8>, raws: Seq<Seq<u8>>)
    requires
        s.in_entry,
        xml::local_part(name) == "title"@,
    ensures
        ({
            let r = arxiv::feed_run(s, element(name, raws));
            &&& r.current.title matches Some(title) && text::words(title) == text::words(
                s.text + told(raws),
            ) && texts::single_spaced(title)
            &&& r == (arxiv::FeedView {
                current: arxiv::EntryView { title: r.current.title, ..s.current },
                field: arxiv::TextField::Outside,
                text: Seq::empty(),
                ..s
            })
        }),
{
    feed::lemma_names_differ();
    lemma_run_element(s, name, raws);
    lemma_texts_inside(arxiv::after_start(s, "title"@), raws);
    law_normalized_text(s.text + told(raws));
}

/// Whatever text stands in a summary, it is read: the entry's summary has
/// exactly its words, in order, with single spaces between them, and nothing
/// else of the entry changes.
pub proof fn law_summary_is_read(s: arxiv::FeedView, name: Seq<u8>, raws: Seq<Seq<u8>>)
    requires
        s.in_entry,
        xml::local_part(name) == "summary"@,
    ensures
        ({
            let r = arxiv::feed_run(s, element(name, raws));
            &&& r.current.summary matches Some(summary) && text::words(summary) == text::words(
                s.text + told(raws),
            ) && texts::single_spaced(summary)
            &&& r == (arxiv::FeedView {
                current: arxiv::EntryView { summary: r.current.summary, ..s.current },
                field: arxiv::TextField::Outside,
                text: Seq::empty(),
                ..s
            })
        }),
{
    feed::lemma_names_differ();
    lemma_run_element(s, name, raws);
    lemma_texts_inside(arxiv::after_start(s, "summary"@), raws);
    law_normalized_text(s.text + told(raws));
}

/// The timestamp is read as it stands, but for whitespace around it.
pub proof fn law_published_is_read(s: arxiv::FeedView, name: Seq<u8>, raws: Seq<Seq<u8>>)
    requires
        s.in_entry,
        xml::local_part(name) == "published"@,
    ensures
        ({
            let r = arxiv::feed_run(s, element(name, raws));
            &&& r.current.published matches Some(published) && texts::is_core(
                s.text + told(raws),
                published,
            )
            &&& r == (arxiv::FeedView {
                current: arxiv::EntryView { published: r.current.published, ..s.current },
                field: arxiv::TextField::Outside,
                text: Seq::empty(),
                ..s
            })
        }),
{
    feed::lemma_names_differ();
    lemma_run_element(s, name, raws);
    lemma_texts_inside(arxiv::after_start(s, "published"@), raws);
    texts::law_trim(s.text + told(raws));
}

/// The id is read out of the address in the element.
pub proof fn law_id_is_read(
    s: arxiv::FeedView,
    name: Seq<u8>,
    raws: Seq<Seq<u8>>,
    core: Seq<char>,
    id: Seq<char>,
)
    requires
        s.in_entry,
        xml::local_part(name) == "id"@,
        texts::is_core(s.text + told(raws), core),
    ensures
        ({
            let r = arxiv::feed_run(s, element(name, raws));
            &&& shows_abstract(core, id) ==> r.current.record_id == id
            &&& (forall|other: Seq<char>| !shows_abstract(core, other)) ==> r.current.record_id
                == s.text + told(raws)
            &&& r == (arxiv::FeedView {
                current: arxiv::EntryView { record_id: r.current.record_id, ..s.current },
                field: arxiv::TextField::Outside,
                text: Seq::empty(),
                ..s
            })
        }),
{
    feed::lemma_names_differ();
    lemma_run_element(s, name, raws);
    lemma_texts_inside(arxiv::after_start(s, "id"@), raws);
    law_id_of_an_address(s.text + told(raws), core, id);
}

/// Each author whose name is not blank is added behind those before, without
/// whitespace around the name; a blank name adds none.
pub proof fn law_author_is_read(
    s: arxiv::FeedView,
    author: Seq<u8>,
    name: Seq<u8>,
    raws: Seq<Seq<u8>>,
    core: Seq<char>,
)
    requires
        s.in_entry,
        xml::local_part(author) == "author"@,
        xml::local_part(name) == "name"@,
        texts::is_core(s.text + told(raws), core),
    ensures
        arxiv::feed_run(s, author_element(author, name, raws)) == (arxiv::FeedView {
            current: arxiv::EntryView {
                authors: if core.len() > 0 {
                    s.current.authors.push(core)
                } else {
                    s.current.authors
                },
                ..s.current
            },
            field: arxiv::TextField::Outside,
            in_author: false,
            in_author_name: false,
            text: Seq::empty(),
            ..s
        }),
{
    feed::lemma_names_differ();
    let first = seq![xml::XmlTokenView::Start { name: author }];
    let last = seq![xml::XmlTokenView::End { name: author }];
    feed::lemma_run_on(s, first + element(name, raws), last);
    feed::lemma_run_on(s, first, element(name, raws));
    feed::lemma_run_one(s, first[0]);
    let inside = arxiv::FeedView { in_author: true, ..s };
    assert(arxiv::feed_run(s, first) == inside);
    lemma_run_element(inside, name, raws);
    lemma_texts_inside(arxiv::after_start(inside, "name"@), raws);
    feed::lemma_run_one(arxiv::feed_run(inside, element(name, raws)), last[0]);
    texts::law_trim(s.text + told(raws));
    texts::law_core_is_unique(s.text + told(raws), core, text::trimmed(s.text + told(raws)));
}

/// A `<name>` that belongs to no author is passed over.
pub proof fn law_other_names_are_passed_over(
    s: arxiv::FeedView,
    name: Seq<u8>,
    raws: Seq<Seq<u8>>,
)
    requires
        !s.in_author,
        !s.in_author_name,
        s.field is Outside,
        xml::local_part(name) == "name"@,
    ensures
        arxiv::feed_run(s, element(name, raws)) == s,
{
    feed::lemma_names_differ();
    lemma_run_element(s, name, raws);
    lemma_texts_outside(s, raws);
}

/// Opening a field, whatever was open before, makes the text that follows count,
/// and changes nothing else.
pub proof fn law_field_is_opened(s: arxiv::FeedView, name: Seq<u8>)
    requires
        s.in_entry,
        xml::local_part(name) == "id"@ || xml::local_part(name) == "title"@ || xml::local_part(
            name,
        ) == "summary"@ || xml::local_part(name) == "published"@,
    ensures
        ({
            let r = arxiv::feed_step(s, xml::XmlTokenView::Start { name });
            &&& !(r.field is Outside)
            &&& r == (arxiv::FeedView { field: r.field, ..s })
        }),
{
    feed::lemma_names_differ();
}

/// Character data inside of a field adds to its text, and changes nothing else;
/// what cannot be decoded adds nothing.
pub proof fn law_text_is_collected(s: arxiv::FeedView, raw: Seq<u8>)
    requires
        s.in_entry,
        !(s.field is Outside),
    ensures
        arxiv::feed_step(s, xml::XmlTokenView::Text { raw }) == (arxiv::FeedView {
            text: match xml::character_data(raw) {
                Some(t) => s.text + t,
                None => s.text,
            },
            ..s
        }),
{
}

/// Closing a field puts the text collected into the entry, cleaned up, and leaves
/// the field.
pub proof fn law_field_is_closed(
    s: arxiv::FeedView,
    name: Seq<u8>,
    core: Seq<char>,
    id: Seq<char>,
)
    requires
        s.in_entry,
        texts::is_core(s.text, core),
    ensures
        ({
            let local = xml::local_part(name);
            let r = arxiv::feed_step(s, xml::XmlTokenView::End { name });
            let left = arxiv::FeedView {
                field: arxiv::TextField::Outside,
                text: Seq::empty(),
                current: r.current,
                ..s
            };
            &&& local == "title"@ ==> r == left && has_words_of(r.current.title, Some(s.text))
                && r.current == (arxiv::EntryView { title: r.current.title, ..s.current })
            &&& local == "summary"@ ==> r == left && has_words_of(r.current.summary, Some(s.text))
                && r.current == (arxiv::EntryView { summary: r.current.summary, ..s.current })
            &&& local == "published"@ ==> r == left && r.current == (arxiv::EntryView {
                published: Some(core),
                ..s.current
            })
            &&& local == "id"@ ==> r == left && (shows_abstract(core, id) ==> r.current
                == (arxiv::EntryView { record_id: id, ..s.current })) && ((forall|
                other: Seq<char>,
            | !shows_abstract(core, other)) ==> r.current == (arxiv::EntryView {
                record_id: s.text,
                ..s.current
            }))
        }),
{
    feed::lemma_names_differ();
    law_normalized_text(s.text);
    texts::law_trim(s.text);
    texts::law_core_is_unique(s.text, core, text::trimmed(s.text));
    law_id_of_an_address(s.text, core, id);
}

/// An author is opened and closed without effect on the entry, and between, each
/// name that is not blank adds one.
pub proof fn law_names_inside_an_author(
    s: arxiv::FeedView,
    author: Seq<u8>,
    name: Seq<u8>,
    raws: Seq<Seq<u8>>,
    core: Seq<char>,
)
    requires
        s.in_entry,
        xml::local_part(author) == "author"@,
        xml::local_part(name) == "name"@,
        texts::is_core(s.text + told(raws), core),
    ensures
        arxiv::feed_step(s, xml::XmlTokenView::Start { name: author }) == (arxiv::FeedView {
            in_author: true,
            ..s
        }),
        arxiv::feed_step(s, xml::XmlTokenView::End { name: author }) == (arxiv::FeedView {
            in_author: false,
            ..s
        }),
        s.in_author ==> arxiv::feed_run(s, element(name, raws)) == (arxiv::FeedView {
            current: arxiv::EntryView {
                authors: if core.len() > 0 {
                    s.current.authors.push(core)
                } else {
                    s.current.authors
                },
                ..s.current
            },
            field: arxiv::TextField::Outside,
            in_author_name: false,
            text: Seq::empty(),
            ..s
        }),
{
    feed::lemma_names_differ();
    if s.in_author {
        lemma_run_element(s, name, raws);
        lemma_texts_inside(arxiv::after_start(s, "name"@), raws);
        texts::law_trim(s.text + told(raws));
        texts::law_core_is_unique(s.text + told(raws), core, text::trimmed(s.text + told(raws)));
    }
}

/// The tags that the parser looks for.
pub open spec fn is_looked_for(name: Seq<char>) -> bool {
    ||| name == "entry"@
    ||| name == "id"@
    ||| name == "title"@
    ||| name == "summary"@
    ||| name == "published"@
    ||| name == "author"@
    ||| name == "name"@
}

/// Every other tag is passed over, and so are comments and declarations,
/// whatever has been read before.
pub proof fn law_other_tags_are_passed_over(s: arxiv::FeedView, token: xml::XmlTokenView)
    requires
        match token {
            xml::XmlTokenView::Start { name } => !is_looked_for(xml::local_part(name)),
            xml::XmlTokenView::End { name } => !is_looked_for(xml::local_part(name)),
            xml::XmlTokenView::Empty { name, attributes } => {
                &&& xml::local_part(name) != "link"@
                &&& xml::local_part(name) != "category"@
                &&& xml::local_part(name) != "primary_category"@
            },
            xml::XmlTokenView::Text { raw } => s.field is Outside,
            xml::XmlTokenView::Other => true,
        },
    ensures
        arxiv::feed_step(s, token) == s,
{
}

/// A category is added behind those before.
pub proof fn law_category_is_read(
    s: arxiv::FeedView,
    name: Seq<u8>,
    attributes: Seq<Option<(Seq<u8>, Seq<u8>)>>,
)
    requires
        s.in_entry,
        xml::local_part(name) == "category"@,
    ensures
        ({
            let r = arxiv::feed_step(s, xml::XmlTokenView::Empty { name, attributes });
            let m = xml::attribute_map(attributes);
            &&& r == (arxiv::FeedView {
                current: arxiv::EntryView { categories: r.current.categories, ..s.current },
                ..s
            })
            &&& r.current.categories == if m.contains_key("term"@) {
                s.current.categories.push(m["term"@])
            } else {
                s.current.categories
            }
        }),
{
    feed::lemma_names_differ();
}

/// The primary category is the one that the element names.
pub proof fn law_primary_category_is_read(
    s: arxiv::FeedView,
    name: Seq<u8>,
    attributes: Seq<Option<(Seq<u8>, Seq<u8>)>>,
)
    requires
        s.in_entry,
        xml::local_part(name) == "primary_category"@,
    ensures
        ({
            let r = arxiv::feed_step(s, xml::XmlTokenView::Empty { name, attributes });
            let m = xml::attribute_map(attributes);
            &&& r == (arxiv::FeedView {
                current: arxiv::EntryView {
                    primary_category: r.current.primary_category,
                    ..s.current
                },
                ..s
            })
            &&& r.current.primary_category == if m.contains_key("term"@) {
                Some(m["term"@])
            } else {
                s.current.primary_category
            }
        }),
{
    feed::lemma_names_differ();
}

/// The PDF link is the target of the link titled `pdf`; other links do not
/// count.
pub proof fn law_pdf_link_is_read(
    s: arxiv::FeedView,
    name: Seq<u8>,
    attributes: Seq<Option<(Seq<u8>, Seq<u8>)>>,
)
    requires
        s.in_entry,
        xml::local_part(name) == "link"@,
    ensures
        ({
            let r = arxiv::feed_step(s, xml::XmlTokenView::Empty { name, attributes });
            let m = xml::attribute_map(attributes);
            let titled = m.contains_key("title"@) && m["title"@] == "pdf"@;
            &&& r == (arxiv::FeedView {
                current: arxiv::EntryView { pdf_link: r.current.pdf_link, ..s.current },
                ..s
            })
            &&& r.current.pdf_link == if titled && m.contains_key("href"@) {
                Some(m["href"@])
            } else {
                s.current.pdf_link
            }
        }),
{
    feed::lemma_names_differ();
}

/// An entry has nothing in it.
pub open spec fn is_blank(e: arxiv::EntryView) -> bool {
    &&& e.record_id.len() == 0
    &&& e.title is None
    &&& e.summary is None
    &&& e.published is None
    &&& e.authors.len() == 0
    &&& e.categories.len() == 0
    &&& e.primary_category is None
    &&& e.pdf_link is None
}

/// `<entry>` begins an entry of which nothing is known, and keeps the entries
/// that are complete.
pub proof fn law_entry_begins_blank(s: arxiv::FeedView, name: Seq<u8>)
    requires
        xml::local_part(name) == "entry"@,
    ensures
        ({
            let r = arxiv::feed_step(s, xml::XmlTokenView::Start { name });
            &&& is_blank(r.current)
            &&& r == (arxiv::FeedView { in_entry: true, current: r.current, ..s })
        }),
{
}

/// `</entry>` completes an entry: it stands behind those before, with all that
/// was read of it.
pub proof fn law_entry_is_completed(s: arxiv::FeedView, name: Seq<u8>)
    requires
        xml::local_part(name) == "entry"@,
    ensures
        ({
            let r = arxiv::feed_step(s, xml::XmlTokenView::End { name });
            &&& is_blank(r.current)
            &&& r == (arxiv::FeedView {
                in_entry: false,
                entries: s.entries.push(s.current),
                current: r.current,
                ..s
            })
        }),
{
    feed::lemma_names_differ();
}

/// A feed is read token by token from its beginning, where nothing is known.
pub proof fn law_feed_is_read_in_order(
    s: arxiv::FeedView,
    token: xml::XmlTokenView,
    a: Seq<xml::XmlTokenView>,
    b: Seq<xml::XmlTokenView>,
)
    ensures
        arxiv::feed_run(s, Seq::<xml::XmlTokenView>::empty()) == s,
        arxiv::feed_run(s, seq![token]) == arxiv::feed_step(s, token),
        arxiv::feed_run(s, a + b) == arxiv::feed_run(arxiv::feed_run(s, a), b),
        arxiv::feed_entries(a) == arxiv::feed_run(arxiv::feed_start(), a).entries,
        arxiv::feed_start().entries.len() == 0,
        !arxiv::feed_start().in_entry,
        !arxiv::feed_start().in_author,
        !arxiv::feed_start().in_author_name,
        arxiv::feed_start().field is Outside,
        arxiv::feed_start().text.len() == 0,
{
    feed::lemma_run_on(s, a, b);
    feed::lemma_run_one(s, token);
}

// ------------------------------------------------------------- tokens and names
/// The attribute can be read and has this local name.
pub open spec fn is_named(a: Option<(Seq<u8>, Seq<u8>)>, name: Seq<char>) -> bool {
    match a {
        Some((key, _)) => xml::local_part(key) == name,
        None => false,
    }
}

/// Under each name stands the value of the last attribute with that local name
/// that can be read.
pub proof fn law_last_attribute_counts(
    list: Seq<Option<(Seq<u8>, Seq<u8>)>>,
    name: Seq<char>,
    at: int,
    key: Seq<u8>,
    value: Seq<u8>,
)
    requires
        0 <= at < list.len(),
        list[at] == Some((key, value)),
        xml::local_part(key) == name,
        forall|i: int| at < i < list.len() ==> !is_named(#[trigger] list[i], name),
    ensures
        xml::attribute_map(list).contains_key(name),
        xml::attribute_map(list)[name] == xml::lenient_text(value),
    decreases list.len(),
{
    let before = list.drop_last();
    if at < list.len() - 1 {
        assert forall|i: int| at < i < before.len() implies !is_named(#[trigger] before[i], name) by {
            assert(before[i] == list[i]);
        }
        law_last_attribute_counts(before, name, at, key, value);
        assert(!is_named(list[list.len() - 1], name));
    }
}

/// A name that no attribute has is not there.
pub proof fn law_absent_attribute_is_absent(list: Seq<Option<(Seq<u8>, Seq<u8>)>>, name: Seq<char>)
    requires
        forall|i: int| 0 <= i < list.len() ==> !is_named(#[trigger] list[i], name),
    ensures
        !xml::attribute_map(list).contains_key(name),
    decreases list.len(),
{
    if list.len() > 0 {
        let before = list.drop_last();
        assert forall|i: int| 0 <= i < before.len() implies !is_named(#[trigger] before[i], name) by {
            assert(before[i] == list[i]);
        }
        law_absent_attribute_is_absent(before, name);
        assert(!is_named(list[list.len() - 1], name));
    }
}

/// Bytes that encode a text are read as that text, bytes that encode none as
/// nothing; a name is read without its namespace prefix, and character data
/// without an ampersand stands for itself.
pub proof fn law_bytes_are_read_as_text(s: Seq<char>, bytes: Seq<u8>)
    ensures
        xml::lenient_text(utf8::encode_utf8(s)) == s,
        !utf8::valid_utf8(bytes) ==> xml::lenient_text(bytes).len() == 0 && xml::local_part(
            bytes,
        ).len() == 0 && xml::character_data(bytes) is None,
        !s.contains('&') ==> xml::character_data(utf8::encode_utf8(s)) == Some(s),
        s.contains('&') ==> xml::character_data(utf8::encode_utf8(s)) == xml::resolved_references(
            s,
        ),
        !s.contains(':') ==> xml::local_part(utf8::encode_utf8(s)) == s,
{
    utf8::encode_utf8_valid_utf8(s);
    utf8::encode_utf8_decode_utf8(s);
    if !s.contains(':') {
        feed::law_namespace_prefix_is_ignored(Seq::empty(), s);
    }
}

/// A document whose tokens can all be read is those tokens, in order; one with
/// an error fails with the first error.
pub proof fn law_document_is_all_or_the_first_error(
    pending: Seq<Result<xml::XmlTokenView, Seq<char>>>,
    at: int,
)
    requires
        0 <= at <= pending.len(),
        forall|i: int| 0 <= i < at ==> (#[trigger] pending[i]) is Ok,
        at < pending.len() ==> pending[at] is Err,
    ensures
        at == pending.len() ==> (xml::document(pending) matches Ok(tokens) && tokens.len() == at
            && forall|i: int| 0 <= i < at ==> #[trigger] tokens[i] == pending[i]->Ok_0),
        at < pending.len() ==> xml::document(pending) == Err::<Seq<xml::XmlTokenView>, Seq<char>>(
            pending[at]->Err_0,
        ),
    decreases pending.len(),
{
    if at > 0 {
        assert(pending[0] is Ok);
        let rest = pending.drop_first();
        assert forall|i: int| 0 <= i < at - 1 implies (#[trigger] rest[i]) is Ok by {
            assert(rest[i] == pending[i + 1]);
        }
        law_document_is_all_or_the_first_error(rest, at - 1);
        if at == pending.len() {
            let tokens = xml::document(pending)->Ok_0;
            let after = xml::document(rest)->Ok_0;
            assert forall|i: int| 0 <= i < at implies #[trigger] tokens[i] == pending[i]->Ok_0 by {
                if i > 0 {
                    assert(tokens[i] == after[i - 1]);
                    assert(rest[i - 1] == pending[i]);
                }
            }
        }
    }
}

/// Parsing gives the entries of the tokens, or the reader's message.
pub proof fn law_parse_gives_the_entries(tokens: Seq<xml::XmlTokenView>, message: Seq<char>)
    ensures
        arxiv::parsed_feed(Ok(tokens)) == Ok::<Seq<arxiv::EntryView>, Seq<char>>(
            arxiv::feed_entries(tokens),
        ),
        arxiv::parsed_feed(Err(message)) == Err::<Seq<arxiv::EntryView>, Seq<char>>(message),
{
}

// ------------------------------------------------------------- feeds as they come
/// The names are the texts that are not blank, in order, without the whitespace
/// around them.
pub open spec fn are_names_in(names: Seq<Seq<char>>, raw: Seq<Seq<char>>) -> bool
    decreases raw.len(),
{
    if raw.len() == 0 {
        names.len() == 0
    } else if texts::all_blank(raw.last()) {
        are_names_in(names, raw.drop_last())
    } else {
        names.len() > 0 && texts::is_core(raw.last(), names.last()) && are_names_in(
            names.drop_last(),
            raw.drop_last(),
        )
    }
}

/// The text has exactly the words of the other one, in order, with single spaces
/// between them; there is one where there is the other.
pub open spec fn has_words_of(clean: Option<Seq<char>>, raw: Option<Seq<char>>) -> bool {
    match raw {
        Some(t) => clean matches Some(x) && text::words(x) == text::words(t)
            && texts::single_spaced(x),
        None => clean is None,
    }
}

/// What becomes of an entry whose texts come with any whitespace: none of it is
/// kept around the id, the timestamp and the authors, single spaces are kept in
/// the title and the summary, and the attributes stay as they are.
pub open spec fn is_tidied(clean: arxiv::EntryView, raw: arxiv::EntryView) -> bool {
    &&& texts::is_core(
        "http://arxiv.org/abs/"@ + raw.record_id,
        "http://arxiv.org/abs/"@ + clean.record_id,
    )
    &&& has_words_of(clean.title, raw.title)
    &&& has_words_of(clean.summary, raw.summary)
    &&& match raw.published {
        Some(t) => clean.published matches Some(x) && texts::is_core(t, x),
        None => clean.published is None,
    }
    &&& are_names_in(clean.authors, raw.authors)
    &&& clean.categories == raw.categories
    &&& clean.primary_category == raw.primary_category
    &&& clean.pdf_link == raw.pdf_link
}

/// No text of the entry holds a reference.
pub open spec fn is_plain(e: arxiv::EntryView) -> bool {
    &&& feed::plain(e.record_id)
    &&& e.title matches Some(t) ==> feed::plain(t)
    &&& e.summary matches Some(t) ==> feed::plain(t)
    &&& e.published matches Some(t) ==> feed::plain(t)
    &&& forall|i: int| 0 <= i < e.authors.len() ==> feed::plain(#[trigger] e.authors[i])
}

/// The parser inside an entry, between two of its elements.
spec fn inside(done: Seq<arxiv::EntryView>, e: arxiv::EntryView) -> arxiv::FeedView {
    arxiv::FeedView {
        entries: done,
        in_entry: true,
        current: e,
        field: arxiv::TextField::Outside,
        in_author: false,
        in_author_name: false,
        text: Seq::empty(),
    }
}

proof fn lemma_plain_element(name: Seq<char>, t: Seq<char>)
    requires
        feed::plain(t),
    ensures
        feed::text_element(name, t) == element(
            utf8::encode_utf8(name),
            seq![utf8::encode_utf8(t)],
        ),
        Seq::<char>::empty() + told(seq![utf8::encode_utf8(t)]) == t,
{
    let raws = seq![utf8::encode_utf8(t)];
    assert(feed::text_element(name, t) =~= element(utf8::encode_utf8(name), raws));
    feed::lemma_content(t);
    assert(raws.drop_last() =~= Seq::<Seq<u8>>::empty());
    assert(told(raws.drop_last()) =~= Seq::<char>::empty());
    assert(told(raws) =~= t);
    assert(Seq::<char>::empty() + told(raws) =~= t);
}

proof fn lemma_tidy_title(
    done: Seq<arxiv::EntryView>,
    e: arxiv::EntryView,
    raw: Option<Seq<char>>,
) -> (out: Option<Seq<char>>)
    requires
        raw matches Some(t) ==> feed::plain(t),
        e.title is None,
    ensures
        has_words_of(out, raw),
        arxiv::feed_run(inside(done, e), feed::optional_element("title"@, raw)) == inside(
            done,
            arxiv::EntryView { title: out, ..e },
        ),
{
    feed::lemma_names();
    match raw {
        Some(t) => {
            let s = inside(done, e);
            lemma_plain_element("title"@, t);
            let name = utf8::encode_utf8("title"@);
            let raws = seq![utf8::encode_utf8(t)];
            law_title_is_read(s, name, raws);
            arxiv::feed_run(s, element(name, raws)).current.title
        },
        None => None,
    }
}

proof fn lemma_tidy_summary(
    done: Seq<arxiv::EntryView>,
    e: arxiv::EntryView,
    raw: Option<Seq<char>>,
) -> (out: Option<Seq<char>>)
    requires
        raw matches Some(t) ==> feed::plain(t),
        e.summary is None,
    ensures
        has_words_of(out, raw),
        arxiv::feed_run(inside(done, e), feed::optional_element("summary"@, raw)) == inside(
            done,
            arxiv::EntryView { summary: out, ..e },
        ),
{
    feed::lemma_names();
    match raw {
        Some(t) => {
            let s = inside(done, e);
            lemma_plain_element("summary"@, t);
            let name = utf8::encode_utf8("summary"@);
            let raws = seq![utf8::encode_utf8(t)];
            law_summary_is_read(s, name, raws);
            arxiv::feed_run(s, element(name, raws)).current.summary
        },
        None => None,
    }
}

proof fn lemma_tidy_published(
    done: Seq<arxiv::EntryView>,
    e: arxiv::EntryView,
    raw: Option<Seq<char>>,
) -> (out: Option<Seq<char>>)
    requires
        raw matches Some(t) ==> feed::plain(t),
        e.published is None,
    ensures
        match raw {
            Some(t) => out matches Some(x) && texts::is_core(t, x),
            None => out is None,
        },
        arxiv::feed_run(inside(done, e), feed::optional_element("published"@, raw)) == inside(
            done,
            arxiv::EntryView { published: out, ..e },
        ),
{
    feed::lemma_names();
    match raw {
        Some(t) => {
            let s = inside(done, e);
            lemma_plain_element("published"@, t);
            let name = utf8::encode_utf8("published"@);
            let raws = seq![utf8::encode_utf8(t)];
            law_published_is_read(s, name, raws);
            arxiv::feed_run(s, element(name, raws)).current.published
        },
        None => None,
    }
}

proof fn lemma_tidy_id(done: Seq<arxiv::EntryView>, e: arxiv::EntryView, raw: Seq<char>) -> (out:
    Seq<char>)
    requires
        feed::plain(raw),
    ensures
        texts::is_core("http://arxiv.org/abs/"@ + raw, "http://arxiv.org/abs/"@ + out),
        arxiv::feed_run(
            inside(done, e),
            feed::text_element("id"@, "http://arxiv.org/abs/"@ + raw),
        ) == inside(done, arxiv::EntryView { record_id: out, ..e }),
{
    feed::lemma_names();
    let address = "http://arxiv.org/abs/"@ + raw;
    let out = lemma_tidy_address(raw);
    let core = "http://arxiv.org/abs/"@ + out;
    let s = inside(done, e);
    let name = utf8::encode_utf8("id"@);
    let raws = seq![utf8::encode_utf8(address)];
    lemma_plain_element("id"@, address);
    assert(shows_abstract(core, out));
    law_id_is_read(s, name, raws, core, out);
    out
}

/// An address without references is none with them, and trimming it takes nothing
/// from what stands before the id.
proof fn lemma_tidy_address(raw: Seq<char>) -> (out: Seq<char>)
    requires
        feed::plain(raw),
    ensures
        feed::plain("http://arxiv.org/abs/"@ + raw),
        texts::is_core("http://arxiv.org/abs/"@ + raw, "http://arxiv.org/abs/"@ + out),
{
    let p = "http://arxiv.org/abs/"@;
    lemma_abs_prefix();
    lemma_plain_joined(p, raw);
    lemma_tidy_prefixed(p, raw)
}

proof fn lemma_abs_prefix()
    ensures
        "http://arxiv.org/abs/"@.len() == 21,
        "http://arxiv.org/abs/"@[0] == 'h',
        "http://arxiv.org/abs/"@[20] == '/',
        feed::plain("http://arxiv.org/abs/"@),
{
    reveal_strlit("http://arxiv.org/abs/");
}

proof fn lemma_plain_joined(a: Seq<char>, b: Seq<char>)
    requires
        feed::plain(a),
        feed::plain(b),
    ensures
        feed::plain(a + b),
{
    let s = a + b;
    assert forall|i: int| 0 <= i < s.len() implies s[i] != '&' by {
        if i < a.len() {
            assert(s[i] == a[i]);
            assert(a.contains(a[i]));
        } else {
            assert(s[i] == b[i - a.len()]);
            assert(b.contains(b[i - a.len()]));
        }
    }
}

proof fn lemma_tidy_prefixed(p: Seq<char>, raw: Seq<char>) -> (out: Seq<char>)
    requires
        p.len() > 0,
        !text::is_white_space(p[0]),
        !text::is_white_space(p[p.len() - 1]),
    ensures
        texts::is_core(p + raw, p + out),
{
    texts::law_trim(p + raw);
    lemma_trimmed_prefixed(p, raw)
}

proof fn lemma_trimmed_prefixed(p: Seq<char>, raw: Seq<char>) -> (out: Seq<char>)
    requires
        p.len() > 0,
        !text::is_white_space(p[0]),
        !text::is_white_space(p[p.len() - 1]),
    ensures
        text::trimmed(p + raw) == p + out,
{
    let address = p + raw;
    let n = p.len() as int;
    assert(address[0] == p[0]);
    assert(text::trimmed_start(address) == address);
    assert(address[n - 1] == p[n - 1]);
    lemma_trimmed_keeps(address, n);
    let core = text::trimmed(address);
    let out = core.skip(n);
    assert(address.take(n) =~= p);
    assert(core =~= core.take(n) + out);
    out
}

/// Trimming at the end takes nothing from a head that does not end in whitespace.
proof fn lemma_trimmed_keeps(s: Seq<char>, n: int)
    requires
        0 < n <= s.len(),
        !text::is_white_space(s[n - 1]),
    ensures
        text::trimmed_end(s).len() >= n,
        text::trimmed_end(s).take(n) == s.take(n),
    decreases s.len(),
{
    if text::is_white_space(s.last()) {
        assert(n < s.len());
        lemma_trimmed_keeps(s.drop_last(), n);
        assert(s.drop_last().take(n) =~= s.take(n));
    }
}

proof fn lemma_tidy_authors(
    done: Seq<arxiv::EntryView>,
    e: arxiv::EntryView,
    raw: Seq<Seq<char>>,
) -> (out: Seq<Seq<char>>)
    requires
        forall|i: int| 0 <= i < raw.len() ==> feed::plain(#[trigger] raw[i]),
        e.authors.len() == 0,
    ensures
        are_names_in(out, raw),
        arxiv::feed_run(inside(done, e), feed::author_elements(raw)) == inside(
            done,
            arxiv::EntryView { authors: out, ..e },
        ),
    decreases raw.len(),
{
    feed::lemma_names();
    if raw.len() == 0 {
        assert(e.authors =~= Seq::<Seq<char>>::empty());
        Seq::empty()
    } else {
        let rest = raw.drop_last();
        assert forall|i: int| 0 <= i < rest.len() implies feed::plain(#[trigger] rest[i]) by {
            assert(rest[i] == raw[i]);
        }
        let before = lemma_tidy_authors(done, e, rest);
        let t = raw[raw.len() - 1];
        let f = arxiv::EntryView { authors: before, ..e };
        let s = inside(done, f);
        let author = utf8::encode_utf8("author"@);
        let name = utf8::encode_utf8("name"@);
        let raws = seq![utf8::encode_utf8(t)];
        let tokens = seq![feed::open_tag("author"@)] + feed::text_element("name"@, t) + seq![
            feed::close_tag("author"@),
        ];
        lemma_plain_element("name"@, t);
        assert(tokens =~= author_element(author, name, raws));
        let core = text::trimmed(t);
        texts::law_trim(t);
        law_author_is_read(s, author, name, raws, core);
        feed::lemma_run_on(inside(done, e), feed::author_elements(rest), tokens);
        lemma_blank_core(t, core);
        if core.len() > 0 {
            let out = before.push(core);
            assert(out.drop_last() =~= before);
            out
        } else {
            before
        }
    }
}

/// A text is blank if and only if nothing is left of it.
proof fn lemma_blank_core(s: Seq<char>, core: Seq<char>)
    requires
        texts::is_core(s, core),
    ensures
        texts::all_blank(s) <==> core.len() == 0,
{
    let from = choose|from: int|
        0 <= from <= from + core.len() <= s.len() && core == #[trigger] s.subrange(
            from,
            from + core.len(),
        ) && texts::all_blank(s.take(from)) && texts::all_blank(s.skip(from + core.len()));
    if core.len() == 0 {
        assert forall|i: int| 0 <= i < s.len() implies text::is_white_space(#[trigger] s[i]) by {
            if i < from {
                assert(s.take(from)[i] == s[i]);
            } else {
                assert(s.skip(from + core.len())[i - from] == s[i]);
            }
        }
    } else {
        assert(core[0] == s[from]);
    }
}

proof fn lemma_tidy_attributes(
    done: Seq<arxiv::EntryView>,
    e: arxiv::EntryView,
    raw: arxiv::EntryView,
)
    requires
        e.categories.len() == 0,
        e.primary_category is None,
        e.pdf_link is None,
    ensures
        arxiv::feed_run(
            inside(done, e),
            feed::primary_element(raw.primary_category) + feed::category_elements(raw.categories)
                + feed::link_element(raw.pdf_link),
        ) == inside(
            done,
            arxiv::EntryView {
                categories: raw.categories,
                primary_category: raw.primary_category,
                pdf_link: raw.pdf_link,
                ..e
            },
        ),
{
    feed::lemma_names();
    feed::lemma_names_differ();
    let s = inside(done, e);
    let t1 = feed::primary_element(raw.primary_category);
    let t2 = feed::category_elements(raw.categories);
    let t3 = feed::link_element(raw.pdf_link);
    let e1 = arxiv::EntryView { primary_category: raw.primary_category, ..e };
    let e2 = arxiv::EntryView { categories: raw.categories, ..e1 };
    feed::lemma_run_on(s, t1 + t2, t3);
    feed::lemma_run_on(s, t1, t2);
    if let Some(term) = raw.primary_category {
        feed::lemma_run_one(s, t1[0]);
        feed::lemma_one_attribute("term"@, term);
    }
    assert(arxiv::feed_run(s, t1) == inside(done, e1));
    lemma_tidy_categories(done, e1, raw.categories);
    if let Some(href) = raw.pdf_link {
        feed::lemma_run_one(inside(done, e2), t3[0]);
        feed::lemma_two_attributes("title"@, "pdf"@, "href"@, href);
    }
}

proof fn lemma_tidy_categories(
    done: Seq<arxiv::EntryView>,
    e: arxiv::EntryView,
    raw: Seq<Seq<char>>,
)
    requires
        e.categories.len() == 0,
    ensures
        arxiv::feed_run(inside(done, e), feed::category_elements(raw)) == inside(
            done,
            arxiv::EntryView { categories: raw, ..e },
        ),
    decreases raw.len(),
{
    if raw.len() == 0 {
        assert(e.categories =~= raw);
    } else {
        feed::lemma_names();
        feed::lemma_names_differ();
        let before = raw.drop_last();
        let tag = feed::empty_tag("category"@, seq![feed::attribute("term"@, raw.last())]);
        lemma_tidy_categories(done, e, before);
        feed::lemma_run_on(inside(done, e), feed::category_elements(before), seq![tag]);
        feed::lemma_run_one(inside(done, arxiv::EntryView { categories: before, ..e }), tag);
        feed::lemma_one_attribute("term"@, raw.last());
        assert(before.push(raw.last()) =~= raw);
    }
}

proof fn lemma_tidy_entry(done: Seq<arxiv::EntryView>, raw: arxiv::EntryView) -> (out:
    arxiv::EntryView)
    requires
        is_plain(raw),
    ensures
        is_tidied(out, raw),
        arxiv::feed_run(
            arxiv::FeedView { entries: done, ..arxiv::feed_start() },
            feed::entry_tokens(raw),
        ) == (arxiv::FeedView { entries: done.push(out), ..arxiv::feed_start() }),
{
    feed::lemma_names();
    feed::lemma_names_differ();
    let s = arxiv::FeedView { entries: done, ..arxiv::feed_start() };
    let first = seq![feed::open_tag("entry"@)];
    let last = seq![feed::close_tag("entry"@)];
    let t1 = first + feed::text_element("id"@, "http://arxiv.org/abs/"@ + raw.record_id);
    let t2 = t1 + feed::optional_element("published"@, raw.published);
    let t3 = t2 + feed::optional_element("title"@, raw.title);
    let t4 = t3 + feed::optional_element("summary"@, raw.summary);
    let t5 = t4 + feed::author_elements(raw.authors);
    let attributes = feed::primary_element(raw.primary_category) + feed::category_elements(
        raw.categories,
    ) + feed::link_element(raw.pdf_link);
    let t6 = t5 + attributes;
    let e0 = arxiv::blank_entry();
    feed::lemma_run_one(s, first[0]);
    assert(arxiv::feed_run(s, first) == inside(done, e0));
    feed::lemma_run_on(
        s,
        first,
        feed::text_element("id"@, "http://arxiv.org/abs/"@ + raw.record_id),
    );
    let record_id = lemma_tidy_id(done, e0, raw.record_id);
    let e1 = arxiv::EntryView { record_id, ..e0 };
    feed::lemma_run_on(s, t1, feed::optional_element("published"@, raw.published));
    let published = lemma_tidy_published(done, e1, raw.published);
    let e2 = arxiv::EntryView { published, ..e1 };
    feed::lemma_run_on(s, t2, feed::optional_element("title"@, raw.title));
    let title = lemma_tidy_title(done, e2, raw.title);
    let e3 = arxiv::EntryView { title, ..e2 };
    feed::lemma_run_on(s, t3, feed::optional_element("summary"@, raw.summary));
    let summary = lemma_tidy_summary(done, e3, raw.summary);
    let e4 = arxiv::EntryView { summary, ..e3 };
    feed::lemma_run_on(s, t4, feed::author_elements(raw.authors));
    let authors = lemma_tidy_authors(done, e4, raw.authors);
    let e5 = arxiv::EntryView { authors, ..e4 };
    feed::lemma_run_on(s, t5, attributes);
    lemma_tidy_attributes(done, e5, raw);
    let e6 = arxiv::EntryView {
        categories: raw.categories,
        primary_category: raw.primary_category,
        pdf_link: raw.pdf_link,
        ..e5
    };
    assert(arxiv::feed_run(s, t6) == inside(done, e6));
    feed::lemma_run_on(s, t6, last);
    feed::lemma_run_one(inside(done, e6), last[0]);
    assert(feed::entry_tokens(raw) =~= t6 + last);
    e6
}

/// A feed whose texts come with any whitespace gives all its entries, in order,
/// each tidied.
pub proof fn law_untidy_feed_is_tidied(entries: Seq<arxiv::EntryView>)
    requires
        forall|i: int| 0 <= i < entries.len() ==> is_plain(#[trigger] entries[i]),
    ensures
        arxiv::feed_entries(feed::feed_tokens(entries)).len() == entries.len(),
        forall|i: int|
            0 <= i < entries.len() ==> is_tidied(
                arxiv::feed_entries(feed::feed_tokens(entries))[i],
                #[trigger] entries[i],
            ),
{
    lemma_tidy_feed(entries);
}

proof fn lemma_tidy_feed(entries: Seq<arxiv::EntryView>)
    requires
        forall|i: int| 0 <= i < entries.len() ==> is_plain(#[trigger] entries[i]),
    ensures
        ({
            let r = arxiv::feed_run(arxiv::feed_start(), feed::feed_tokens(entries));
            &&& r == (arxiv::FeedView { entries: r.entries, ..arxiv::feed_start() })
            &&& r.entries.len() == entries.len()
            &&& forall|i: int|
                0 <= i < entries.len() ==> is_tidied(r.entries[i], #[trigger] entries[i])
        }),
    decreases entries.len(),
{
    if entries.len() > 0 {
        let before = entries.drop_last();
        assert forall|i: int| 0 <= i < before.len() implies is_plain(#[trigger] before[i]) by {
            assert(before[i] == entries[i]);
        }
        lemma_tidy_feed(before);
        let done = arxiv::feed_run(arxiv::feed_start(), feed::feed_tokens(before)).entries;
        let last = entries[entries.len() - 1];
        let out = lemma_tidy_entry(done, last);
        feed::lemma_run_on(
            arxiv::feed_start(),
            feed::feed_tokens(before),
            feed::entry_tokens(last),
        );
        let all = done.push(out);
        assert forall|i: int| 0 <= i < entries.len() implies is_tidied(
            all[i],
            #[trigger] entries[i],
        ) by {
            if i < before.len() {
                assert(before[i] == entries[i]);
                assert(all[i] == done[i]);
            }
        }
    }
}

} // verus!
