//! arXiv: the Atom feed of its search API, and the records made from it.
use crate::common;
use crate::common::{begin_compute, single_outcome, urlencode, ComputeStep};
use crate::hash;
use crate::hash::{compute_ipfs_cid, SHA256_MAX_LEN};
use crate::query;
use crate::query::{query_accepts_plugin, GatewayQuery};
use crate::text;
use crate::text::{
    chars_of, decimal_text, find_char, join, same_text, split_words, string_of, strip_prefix, trim,
    trim_end_char,
};
use crate::text_map::TextMap;
use crate::types;
use crate::types::{
    put_field, upstream_id_field, ConfigError, DiscoveryRecord, GatewayError, PluginHealth,
};
use crate::xml;
use crate::xml::{collect_attrs, local_name, read_document, text_content, XmlError, XmlToken};
use vstd::prelude::*;

verus! {

// ---------------------------------------------------------------- feed entries
/// One `<entry>` of an arXiv Atom feed.
#[derive(Debug, PartialEq)]
pub struct ArxivEntry {
    /// The arXiv id, with its version suffix where the feed gives one.
    pub record_id: String,
    pub title: Option<String>,
    pub summary: Option<String>,
    /// The ISO 8601 timestamp, as it stands in the feed.
    pub published: Option<String>,
    pub authors: Vec<String>,
    pub categories: Vec<String>,
    pub primary_category: Option<String>,
    /// The `href` of the link titled `pdf`.
    pub pdf_link: Option<String>,
}

/// The contents of an [`ArxivEntry`].
pub struct EntryView {
    pub record_id: Seq<char>,
    pub title: Option<Seq<char>>,
    pub summary: Option<Seq<char>>,
    pub published: Option<Seq<char>>,
    pub authors: Seq<Seq<char>>,
    pub categories: Seq<Seq<char>>,
    pub primary_category: Option<Seq<char>>,
    pub pdf_link: Option<Seq<char>>,
}

impl View for ArxivEntry {
    type V = EntryView;

    open spec fn view(&self) -> EntryView {
        EntryView {
            record_id: self.record_id@,
            title: types::opt_text(self.title),
            summary: types::opt_text(self.summary),
            published: types::opt_text(self.published),
            authors: text::texts(self.authors@),
            categories: text::texts(self.categories@),
            primary_category: types::opt_text(self.primary_category),
            pdf_link: types::opt_text(self.pdf_link),
        }
    }
}

/// The contents of a list of entries.
pub open spec fn entry_views(list: Seq<ArxivEntry>) -> Seq<EntryView> {
    Seq::new(list.len(), |i: int| list[i]@)
}

/// An entry of which nothing has been read yet.
pub open spec fn blank_entry() -> EntryView {
    EntryView {
        record_id: Seq::empty(),
        title: None,
        summary: None,
        published: None,
        authors: Seq::empty(),
        categories: Seq::empty(),
        primary_category: None,
        pdf_link: None,
    }
}

impl Default for ArxivEntry {
    fn default() -> (res: ArxivEntry)
        ensures
            res@ == blank_entry(),
    {
        let res = ArxivEntry {
            record_id: String::new(),
            title: None,
            summary: None,
            published: None,
            authors: Vec::new(),
            categories: Vec::new(),
            primary_category: None,
            pdf_link: None,
        };
        assert(res@.authors =~= Seq::empty());
        assert(res@.categories =~= Seq::empty());
        res
    }
}

// --------------------------------------------------------------- field clean-up
/// The addresses under which arXiv shows the abstract of a paper.
pub open spec fn abs_prefixes() -> Seq<Seq<char>> {
    seq![
        "http://arxiv.org/abs/"@,
        "https://arxiv.org/abs/"@,
        "http://export.arxiv.org/abs/"@,
        "https://export.arxiv.org/abs/"@,
    ]
}

/// The id in an abstract's address: what follows the prefix, whitespace
/// around the address left out. Any other text is its own id.
pub open spec fn abs_id(raw: Seq<char>) -> Seq<char> {
    let url = text::trimmed(raw);
    let p = abs_prefixes();
    if p[0].is_prefix_of(url) {
        url.skip(p[0].len() as int)
    } else if p[1].is_prefix_of(url) {
        url.skip(p[1].len() as int)
    } else if p[2].is_prefix_of(url) {
        url.skip(p[2].len() as int)
    } else if p[3].is_prefix_of(url) {
        url.skip(p[3].len() as int)
    } else {
        raw
    }
}

/// `http://arxiv.org/abs/2106.07447v1` gives `2106.07447v1`. Returns the input
/// verbatim if it doesn't look like an arXiv abs URL.
pub fn strip_abs_prefix(raw: &str) -> (res: String)
    ensures
        res@ == abs_id(raw@),
{
    let url = trim(raw);
    if let Some(rest) = strip_prefix(url.as_str(), "http://arxiv.org/abs/") {
        return rest;
    }
    if let Some(rest) = strip_prefix(url.as_str(), "https://arxiv.org/abs/") {
        return rest;
    }
    if let Some(rest) = strip_prefix(url.as_str(), "http://export.arxiv.org/abs/") {
        return rest;
    }
    if let Some(rest) = strip_prefix(url.as_str(), "https://export.arxiv.org/abs/") {
        return rest;
    }
    raw.to_string()
}

/// An abstract's address gives the id behind the prefix, with either scheme and
/// on either host, whatever whitespace stands around it.
pub proof fn law_abs_address_gives_the_id(raw: Seq<char>, which: int, id: Seq<char>)
    requires
        0 <= which < abs_prefixes().len(),
        text::trimmed(raw) == abs_prefixes()[which] + id,
    ensures
        abs_id(raw) == id,
{
    reveal_strlit("http://arxiv.org/abs/");
    reveal_strlit("https://arxiv.org/abs/");
    reveal_strlit("http://export.arxiv.org/abs/");
    reveal_strlit("https://export.arxiv.org/abs/");
    let p = abs_prefixes();
    let url = p[which] + id;
    assert(p[which].is_prefix_of(url)) by {
        assert(url.subrange(0, p[which].len() as int) =~= p[which]);
    }
    assert(url.skip(p[which].len() as int) =~= id);
    assert(url[4] == p[which][4]);
    assert(url[7] == p[which][7]);
    assert(url[8] == p[which][8]);
    lemma_prefix_chars(p[0], url);
    lemma_prefix_chars(p[1], url);
    lemma_prefix_chars(p[2], url);
    lemma_prefix_chars(p[3], url);
}

/// A prefix's characters are those of the text.
pub proof fn lemma_prefix_chars(p: Seq<char>, url: Seq<char>)
    ensures
        p.is_prefix_of(url) ==> forall|i: int| 0 <= i < p.len() ==> #[trigger] p[i] == url[i],
{
    if p.is_prefix_of(url) {
        assert forall|i: int| 0 <= i < p.len() implies #[trigger] p[i] == url[i] by {
            assert(url.subrange(0, p.len() as int)[i] == url[i]);
        }
    }
}

/// A text that is no abstract's address is its own id, verbatim.
pub proof fn law_other_text_is_its_own_id(raw: Seq<char>)
    requires
        forall|i: int|
            0 <= i < abs_prefixes().len() ==> !(#[trigger] abs_prefixes()[i]).is_prefix_of(
                text::trimmed(raw),
            ),
    ensures
        abs_id(raw) == raw,
{
    let p = abs_prefixes();
    assert(!p[0].is_prefix_of(text::trimmed(raw)));
    assert(!p[1].is_prefix_of(text::trimmed(raw)));
    assert(!p[2].is_prefix_of(text::trimmed(raw)));
    assert(!p[3].is_prefix_of(text::trimmed(raw)));
}

/// The words of `raw` with one space between neighbours.
pub open spec fn normalized(raw: Seq<char>) -> Seq<char> {
    text::joined(text::words(raw), " "@)
}

/// Collapses runs of whitespace into single spaces and trims.
pub fn normalize_whitespace(raw: &str) -> (res: String)
    ensures
        res@ == normalized(raw@),
{
    let parts = split_words(raw);
    join(&parts, " ")
}

/// Normalizing keeps the words and their order, and a text that is normalized
/// stays as it is.
pub proof fn law_normalizing_keeps_the_words(raw: Seq<char>)
    ensures
        text::words(normalized(raw)) == text::words(raw),
        normalized(normalized(raw)) == normalized(raw),
{
    text::lemma_words(raw);
    text::lemma_words_of_joined(text::words(raw));
}

// ------------------------------------------------------------------ feed parser
/// Which text-bearing field the parser is inside of.
#[derive(Debug)]
pub enum TextField {
    Outside,
    Id,
    Title,
    Summary,
    Published,
    Author,
}

/// Leaves the current field and drops the text collected for it.
pub fn finish_field(field: &mut TextField, buf: &mut String)
    ensures
        *final(field) == TextField::Outside,
        final(buf)@ == Seq::<char>::empty(),
{
    *field = TextField::Outside;
    *buf = String::new();
}

/// What the parser knows after a number of tokens.
pub struct FeedView {
    pub entries: Seq<EntryView>,
    pub in_entry: bool,
    pub current: EntryView,
    pub field: TextField,
    pub in_author: bool,
    pub in_author_name: bool,
    pub text: Seq<char>,
}

/// The parser before the first token.
pub open spec fn feed_start() -> FeedView {
    FeedView {
        entries: Seq::empty(),
        in_entry: false,
        current: blank_entry(),
        field: TextField::Outside,
        in_author: false,
        in_author_name: false,
        text: Seq::empty(),
    }
}

/// An opening tag: `<entry>` begins an entry; inside an entry a tag that bears
/// text is entered.
pub open spec fn after_start(s: FeedView, name: Seq<char>) -> FeedView {
    if name == "entry"@ {
        FeedView { in_entry: true, current: blank_entry(), ..s }
    } else if !s.in_entry {
        s
    } else if name == "id"@ {
        FeedView { field: TextField::Id, ..s }
    } else if name == "title"@ {
        FeedView { field: TextField::Title, ..s }
    } else if name == "summary"@ {
        FeedView { field: TextField::Summary, ..s }
    } else if name == "published"@ {
        FeedView { field: TextField::Published, ..s }
    } else if name == "author"@ {
        FeedView { in_author: true, ..s }
    } else if name == "name"@ && s.in_author {
        FeedView { in_author_name: true, field: TextField::Author, ..s }
    } else {
        s
    }
}

/// A self-closing tag inside an entry: the PDF link, a category, the primary
/// category.
pub open spec fn after_empty(
    s: FeedView,
    name: Seq<char>,
    attributes: Map<Seq<char>, Seq<char>>,
) -> FeedView {
    let e = s.current;
    if !s.in_entry {
        s
    } else if name == "link"@ {
        if attributes.contains_key("title"@) && attributes["title"@] == "pdf"@
            && attributes.contains_key("href"@) {
            FeedView { current: EntryView { pdf_link: Some(attributes["href"@]), ..e }, ..s }
        } else {
            s
        }
    } else if name == "category"@ {
        if attributes.contains_key("term"@) {
            FeedView {
                current: EntryView { categories: e.categories.push(attributes["term"@]), ..e },
                ..s
            }
        } else {
            s
        }
    } else if name == "primary_category"@ {
        if attributes.contains_key("term"@) {
            FeedView {
                current: EntryView { primary_category: Some(attributes["term"@]), ..e },
                ..s
            }
        } else {
            s
        }
    } else {
        s
    }
}

/// Character data counts inside a text-bearing field of an entry; it adds to
/// what the field has so far.
pub open spec fn after_text(s: FeedView, content: Option<Seq<char>>) -> FeedView {
    if s.in_entry && !(s.field is Outside) && content is Some {
        FeedView { text: s.text + content->0, ..s }
    } else {
        s
    }
}

/// A closing tag: a field's text goes into the entry, `</entry>` completes it.
pub open spec fn after_end(s: FeedView, name: Seq<char>) -> FeedView {
    let e = s.current;
    let left = FeedView { field: TextField::Outside, text: Seq::empty(), ..s };
    if !s.in_entry && name != "entry"@ {
        s
    } else if name == "id"@ {
        FeedView { current: EntryView { record_id: abs_id(s.text), ..e }, ..left }
    } else if name == "title"@ {
        FeedView { current: EntryView { title: Some(normalized(s.text)), ..e }, ..left }
    } else if name == "summary"@ {
        FeedView { current: EntryView { summary: Some(normalized(s.text)), ..e }, ..left }
    } else if name == "published"@ {
        FeedView { current: EntryView { published: Some(text::trimmed(s.text)), ..e }, ..left }
    } else if name == "name"@ && s.in_author_name {
        let author = text::trimmed(s.text);
        let authors = if author.len() > 0 {
            e.authors.push(author)
        } else {
            e.authors
        };
        FeedView { current: EntryView { authors, ..e }, in_author_name: false, ..left }
    } else if name == "author"@ {
        FeedView { in_author: false, ..s }
    } else if name == "entry"@ {
        FeedView { in_entry: false, entries: s.entries.push(e), current: blank_entry(), ..s }
    } else {
        s
    }
}

/// What one token does to the parser.
pub open spec fn feed_step(s: FeedView, token: xml::XmlTokenView) -> FeedView {
    match token {
        xml::XmlTokenView::Start { name } => after_start(s, xml::local_part(name)),
        xml::XmlTokenView::Empty { name, attributes } => after_empty(
            s,
            xml::local_part(name),
            xml::attribute_map(attributes),
        ),
        xml::XmlTokenView::Text { raw } => after_text(s, xml::character_data(raw)),
        xml::XmlTokenView::End { name } => after_end(s, xml::local_part(name)),
        xml::XmlTokenView::Other => s,
    }
}

/// The parser after all of `tokens`, from the state `s` on.
pub open spec fn feed_run(s: FeedView, tokens: Seq<xml::XmlTokenView>) -> FeedView
    decreases tokens.len(),
{
    if tokens.len() == 0 {
        s
    } else {
        feed_step(feed_run(s, tokens.drop_last()), tokens.last())
    }
}

/// The entries of a feed with these tokens.
pub open spec fn feed_entries(tokens: Seq<xml::XmlTokenView>) -> Seq<EntryView> {
    feed_run(feed_start(), tokens).entries
}

/// The state of the feed parser.
pub struct FeedParser {
    entries: Vec<ArxivEntry>,
    in_entry: bool,
    current: ArxivEntry,
    field: TextField,
    in_author: bool,
    in_author_name: bool,
    text: String,
}

impl View for FeedParser {
    type V = FeedView;

    closed spec fn view(&self) -> FeedView {
        FeedView {
            entries: entry_views(self.entries@),
            in_entry: self.in_entry,
            current: self.current@,
            field: self.field,
            in_author: self.in_author,
            in_author_name: self.in_author_name,
            text: self.text@,
        }
    }
}

impl FeedParser {
    /// A parser that has seen nothing yet.
    pub fn new() -> (res: FeedParser)
        ensures
            res@ == feed_start(),
    {
        let res = FeedParser {
            entries: Vec::new(),
            in_entry: false,
            current: ArxivEntry::default(),
            field: TextField::Outside,
            in_author: false,
            in_author_name: false,
            text: String::new(),
        };
        assert(res@.entries =~= Seq::empty());
        res
    }

    /// Takes in an opening tag.
    fn start(&mut self, name: &str)
        ensures
            final(self)@ == after_start(old(self)@, name@),
    {
        if same_text(name, "entry") {
            self.in_entry = true;
            self.current = ArxivEntry::default();
        } else if self.in_entry {
            if same_text(name, "id") {
                self.field = TextField::Id;
            } else if same_text(name, "title") {
                self.field = TextField::Title;
            } else if same_text(name, "summary") {
                self.field = TextField::Summary;
            } else if same_text(name, "published") {
                self.field = TextField::Published;
            } else if same_text(name, "author") {
                self.in_author = true;
            } else if same_text(name, "name") && self.in_author {
                self.in_author_name = true;
                self.field = TextField::Author;
            }
        }
    }

    /// Takes in a self-closing tag.
    fn empty(&mut self, name: &str, attributes: &TextMap<String>)
        ensures
            final(self)@ == after_empty(old(self)@, name@, attributes@),
    {
        if !self.in_entry {
            return;
        }
        if same_text(name, "link") {
            let is_pdf = match attributes.get("title") {
                Some(title) => same_text(title.as_str(), "pdf"),
                None => false,
            };
            if is_pdf {
                if let Some(href) = attributes.get("href") {
                    self.current.pdf_link = Some(href.clone());
                }
            }
        } else if same_text(name, "category") {
            if let Some(term) = attributes.get("term") {
                let ghost before = self.current.categories@;
                self.current.categories.push(term.clone());
                assert(text::texts(self.current.categories@) =~= text::texts(before).push(term@));
            }
        } else if same_text(name, "primary_category") {
            if let Some(term) = attributes.get("term") {
                self.current.primary_category = Some(term.clone());
            }
        }
    }

    /// Takes in character data.
    fn characters(&mut self, content: Option<String>)
        ensures
            final(self)@ == after_text(old(self)@, types::opt_text(content)),
    {
        if self.in_entry {
            match self.field {
                TextField::Outside => {},
                _ => {
                    if let Some(s) = content {
                        self.text.push_str(s.as_str());
                    }
                },
            }
        }
    }

    /// Takes in a closing tag.
    fn end(&mut self, name: &str)
        ensures
            final(self)@ == after_end(old(self)@, name@),
    {
        if !self.in_entry && !same_text(name, "entry") {
            return;
        }
        if same_text(name, "id") {
            self.current.record_id = strip_abs_prefix(self.text.as_str());
            finish_field(&mut self.field, &mut self.text);
        } else if same_text(name, "title") {
            self.current.title = Some(normalize_whitespace(self.text.as_str()));
            finish_field(&mut self.field, &mut self.text);
        } else if same_text(name, "summary") {
            self.current.summary = Some(normalize_whitespace(self.text.as_str()));
            finish_field(&mut self.field, &mut self.text);
        } else if same_text(name, "published") {
            self.current.published = Some(trim(self.text.as_str()));
            finish_field(&mut self.field, &mut self.text);
        } else if same_text(name, "name") && self.in_author_name {
            let author = trim(self.text.as_str());
            if !author.as_str().is_empty() {
                let ghost before = self.current.authors@;
                let ghost added = author@;
                self.current.authors.push(author);
                assert(text::texts(self.current.authors@) =~= text::texts(before).push(added));
            }
            self.in_author_name = false;
            finish_field(&mut self.field, &mut self.text);
        } else if same_text(name, "author") {
            self.in_author = false;
        } else if same_text(name, "entry") {
            self.in_entry = false;
            let mut done = ArxivEntry::default();
            std::mem::swap(&mut done, &mut self.current);
            let ghost before = self.entries@;
            let ghost added = done@;
            self.entries.push(done);
            assert(entry_views(self.entries@) =~= entry_views(before).push(added));
        }
    }

    /// Takes in one token.
    pub fn step(&mut self, token: &XmlToken)
        ensures
            final(self)@ == feed_step(old(self)@, token@),
    {
        match token {
            XmlToken::Start { name } => {
                let local = local_name(name.as_slice());
                self.start(local.as_str());
            },
            XmlToken::Empty { name, attributes } => {
                let local = local_name(name.as_slice());
                let attrs = collect_attrs(attributes);
                self.empty(local.as_str(), &attrs);
            },
            XmlToken::Text { raw } => {
                self.characters(text_content(raw.as_slice()));
            },
            XmlToken::End { name } => {
                let local = local_name(name.as_slice());
                self.end(local.as_str());
            },
            XmlToken::Other => {},
        }
    }
}

/// The entries of a feed, from its tokens.
pub fn entries_of_tokens(tokens: &Vec<XmlToken>) -> (res: Vec<ArxivEntry>)
    ensures
        entry_views(res@) == feed_entries(xml::token_views(tokens@)),
{
    let mut parser = FeedParser::new();
    let mut i: usize = 0;
    let ghost all = xml::token_views(tokens@);
    while i < tokens.len()
        invariant
            all == xml::token_views(tokens@),
            i <= tokens@.len(),
            parser@ == feed_run(feed_start(), all.take(i as int)),
        decreases tokens@.len() - i,
    {
        assert(all.take(i + 1).drop_last() =~= all.take(i as int));
        parser.step(&tokens[i]);
        i = i + 1;
    }
    assert(all.take(i as int) =~= all);
    parser.entries
}

/// What parsing a feed gives: the entries, or the message of the reader's error.
pub open spec fn parsed_feed(document: Result<Seq<xml::XmlTokenView>, Seq<char>>) -> Result<
    Seq<EntryView>,
    Seq<char>,
> {
    match document {
        Ok(tokens) => Ok(feed_entries(tokens)),
        Err(message) => Err(message),
    }
}

/// The outcome of a parse, in terms of contents.
pub open spec fn parse_view(parsed: Result<Vec<ArxivEntry>, XmlError>) -> Result<
    Seq<EntryView>,
    Seq<char>,
> {
    match parsed {
        Ok(entries) => Ok(entry_views(entries@)),
        Err(e) => Err(e.message@),
    }
}

/// Parses an arXiv Atom feed into entries. Tolerant of namespace prefixes
/// (`arxiv:primary_category`) and self-closing `<link/>` tags.
pub fn parse_arxiv_feed(xml: &[u8]) -> (res: Result<Vec<ArxivEntry>, XmlError>)
    ensures
        parse_view(res) == parsed_feed(xml::document(xml::xml_tokens(xml@))),
{
    match read_document(xml) {
        Ok(tokens) => Ok(entries_of_tokens(&tokens)),
        Err(e) => Err(e),
    }
}

// ---------------------------------------------------------------------- records
/// The year of a timestamp: its first four characters, where they are digits.
pub open spec fn year_of(published: Seq<char>) -> Option<Seq<char>> {
    if published.len() >= 4 && forall|i: int|
        0 <= i < 4 ==> '0' <= #[trigger] published[i] <= '9' {
        Some(published.take(4))
    } else {
        None
    }
}

/// The year of a timestamp.
fn leading_year(published: &str) -> (res: Option<String>)
    ensures
        types::opt_text(res) == year_of(published@),
{
    let chars = chars_of(published);
    if chars.len() < 4 {
        return None;
    }
    let mut i: usize = 0;
    while i < 4
        invariant
            chars@ == published@,
            chars@.len() >= 4,
            i <= 4,
            forall|k: int| 0 <= k < i ==> '0' <= #[trigger] published@[k] <= '9',
        decreases 4 - i,
    {
        if chars[i] < '0' || '9' < chars[i] {
            return None;
        }
        i = i + 1;
    }
    Some(string_of(&chars, 0, 4))
}

/// `list` joined by commas, where it is not empty.
pub open spec fn comma_list(list: Seq<Seq<char>>) -> Option<Seq<char>> {
    if list.len() == 0 {
        None
    } else {
        Some(text::joined(list, ", "@))
    }
}

fn comma_joined(list: &Vec<String>) -> (res: Option<String>)
    ensures
        types::opt_text(res) == comma_list(text::texts(list@)),
{
    if list.is_empty() {
        None
    } else {
        Some(join(list, ", "))
    }
}

/// The metadata fields of an arXiv record.
pub open spec fn entry_fields(e: EntryView) -> Map<Seq<char>, Seq<char>> {
    let m = types::put(Map::empty(), "title"@, e.title);
    let m = m.insert("fileType"@, "document"@);
    let m = m.insert("contentKind"@, "paper"@);
    let m = m.insert("sourceUrl"@, "https://arxiv.org/abs/"@ + e.record_id);
    let m = m.insert("fileName"@, "arxiv-"@ + e.record_id + ".pdf"@);
    let m = m.insert("arxiv"@ + "id"@, e.record_id);
    let m = m.insert("format"@, "pdf"@);
    let m = types::put(m, "author"@, comma_list(e.authors));
    let m = types::put(m, "categories"@, comma_list(e.categories));
    let m = types::put(m, "primaryCategory"@, e.primary_category);
    let m = types::put(m, "published"@, e.published);
    let m = types::put(
        m,
        "year"@,
        match e.published {
            Some(p) => year_of(p),
            None => None,
        },
    );
    types::put(m, "summary"@, e.summary)
}

/// The record made from an arXiv entry.
pub open spec fn entry_record(e: EntryView) -> types::DiscoveryRecordView {
    types::DiscoveryRecordView {
        upstream_id: "arxiv"@,
        record_id: e.record_id,
        fields: entry_fields(e),
    }
}

/// Converts a parsed arXiv entry into a record. The id stands both as the
/// record id and under the canonical field `arxivid`.
pub fn into_discovery_record(entry: ArxivEntry) -> (res: DiscoveryRecord)
    ensures
        res@ == entry_record(entry@),
{
    let mut fields: TextMap<String> = TextMap::new();
    let year = match &entry.published {
        Some(p) => leading_year(p.as_str()),
        None => None,
    };
    let mut source_url = String::new();
    source_url.push_str("https://arxiv.org/abs/");
    source_url.push_str(entry.record_id.as_str());
    let mut file_name = String::new();
    file_name.push_str("arxiv-");
    file_name.push_str(entry.record_id.as_str());
    file_name.push_str(".pdf");
    proof {
        assert(Seq::<char>::empty() + "https://arxiv.org/abs/"@ =~= "https://arxiv.org/abs/"@);
        assert(Seq::<char>::empty() + "arxiv-"@ =~= "arxiv-"@);
    }
    put_field(&mut fields, "title", entry.title);
    fields.insert("fileType".to_string(), "document".to_string());
    fields.insert("contentKind".to_string(), "paper".to_string());
    fields.insert("sourceUrl".to_string(), source_url);
    fields.insert("fileName".to_string(), file_name);
    fields.insert(upstream_id_field("arxiv"), entry.record_id.clone());
    fields.insert("format".to_string(), "pdf".to_string());
    put_field(&mut fields, "author", comma_joined(&entry.authors));
    put_field(&mut fields, "categories", comma_joined(&entry.categories));
    put_field(&mut fields, "primaryCategory", entry.primary_category);
    put_field(&mut fields, "published", entry.published);
    put_field(&mut fields, "year", year);
    put_field(&mut fields, "summary", entry.summary);
    DiscoveryRecord { upstream_id: "arxiv".to_string(), record_id: entry.record_id, fields }
}

// ------------------------------------------------------------------ addresses
/// What follows `http://` or `https://` in a web address.
pub open spec fn without_scheme(url: Seq<char>) -> Option<Seq<char>> {
    if "http://"@.is_prefix_of(url) {
        Some(url.skip("http://"@.len() as int))
    } else if "https://"@.is_prefix_of(url) {
        Some(url.skip("https://"@.len() as int))
    } else {
        None
    }
}

/// The path of a web address: from the first slash behind the authority on.
pub open spec fn url_path(url: Seq<char>) -> Option<Seq<char>> {
    match without_scheme(url) {
        Some(rest) => if text::before_first(rest, '/') < rest.len() {
            Some(rest.skip(text::before_first(rest, '/')))
        } else {
            None
        },
        None => None,
    }
}

/// The origin of a web address: its scheme and its authority, which is what
/// stands before the path.
pub open spec fn origin(url: Seq<char>) -> Option<Seq<char>> {
    match without_scheme(url) {
        Some(rest) => Some(url.take(url.len() - rest.len() + text::before_first(rest, '/'))),
        None => None,
    }
}

/// Two web addresses have the same scheme and the same authority.
pub open spec fn same_origin(a: Seq<char>, b: Seq<char>) -> bool {
    origin(a) is Some && origin(a) == origin(b)
}

/// The origin of a web address.
fn origin_of(url: &str) -> (res: Option<String>)
    ensures
        types::opt_text(res) == origin(url@),
{
    let mut name = "http://".to_string();
    let rest = match strip_prefix(url, "http://") {
        Some(rest) => rest,
        None => match strip_prefix(url, "https://") {
            Some(rest) => {
                name = "https://".to_string();
                rest
            },
            None => {
                return None;
            },
        },
    };
    let ghost scheme = name@;
    proof {
        lemma_prefix_chars("http://"@, url@);
        lemma_prefix_chars("https://"@, url@);
        assert(url@ =~= scheme + rest@);
    }
    let chars = chars_of(rest.as_str());
    match find_char(&chars, '/') {
        Some(at) => {
            name.push_str(string_of(&chars, 0, at).as_str());
            assert(name@ =~= url@.take(scheme.len() + at));
        },
        None => {
            name.push_str(rest.as_str());
            assert(name@ =~= url@.take(url@.len() as int));
        },
    }
    Some(name)
}

/// Whether two web addresses have the same scheme and the same authority.
fn on_same_origin(a: &str, b: &str) -> (res: bool)
    ensures
        res == same_origin(a@, b@),
{
    match (origin_of(a), origin_of(b)) {
        (Some(x), Some(y)) => same_text(x.as_str(), y.as_str()),
        _ => false,
    }
}

/// The path of `url` on the host of `new_base`.
pub open spec fn rehosted(url: Seq<char>, new_base: Seq<char>) -> Option<Seq<char>> {
    match url_path(text::trimmed(url)) {
        Some(path) => Some(text::without_trailing(new_base, '/') + path),
        None => None,
    }
}

/// Rewrites the host of an absolute URL. Returns `None` if the input isn't an
/// absolute http(s) URL with a path.
pub fn rewrite_host(url: &str, new_base: &str) -> (res: Option<String>)
    ensures
        types::opt_text(res) == rehosted(url@, new_base@),
{
    let url = trim(url);
    let rest = match strip_prefix(url.as_str(), "http://") {
        Some(rest) => rest,
        None => match strip_prefix(url.as_str(), "https://") {
            Some(rest) => rest,
            None => {
                return None;
            },
        },
    };
    let chars = chars_of(rest.as_str());
    match find_char(&chars, '/') {
        Some(at) => {
            let path = string_of(&chars, at, chars.len());
            assert(path@ =~= rest@.skip(at as int));
            let mut out = trim_end_char(new_base, '/');
            out.push_str(path.as_str());
            Some(out)
        },
        None => None,
    }
}

// ----------------------------------------------------------------------- plugin
/// The public arXiv API host.
pub open spec fn default_base_url() -> Seq<char> {
    "https://export.arxiv.org"@
}

/// The arXiv plugin: which host it asks, and whether its cache is open.
#[derive(Debug)]
pub struct ArxivPlugin {
    pub base_url: String,
    pub cache_open: bool,
}

/// The address of a search for text that is already percent-encoded.
pub open spec fn search_address(base: Seq<char>, encoded: Seq<char>, max_results: nat) -> Seq<char> {
    text::without_trailing(base, '/') + "/api/query?search_query=all:"@ + encoded
        + "&start=0&max_results="@ + text::decimal(max_results)
}

/// The address of the entry with an id that is already percent-encoded.
pub open spec fn entry_address(base: Seq<char>, encoded: Seq<char>) -> Seq<char> {
    text::without_trailing(base, '/') + "/api/query?id_list="@ + encoded
}

/// The address of an entry's PDF. A PDF link with a path is taken as it is where
/// it has the base's scheme and authority, and its path is asked for on the base
/// where it has not; without such a link the address is
/// `<base>/pdf/<record_id>.pdf`.
pub open spec fn pdf_address(base: Seq<char>, e: EntryView, record_id: Seq<char>) -> Seq<char> {
    let host = text::without_trailing(base, '/');
    let derived = host + "/pdf/"@ + record_id + ".pdf"@;
    match e.pdf_link {
        Some(link) => match rehosted(link, host) {
            Some(url) => if same_origin(text::trimmed(link), host) {
                text::trimmed(link)
            } else {
                url
            },
            None => derived,
        },
        None => derived,
    }
}

/// The first `limit` of a list of entries, as records.
pub open spec fn entry_records(entries: Seq<EntryView>, limit: nat) -> Seq<
    types::DiscoveryRecordView,
> {
    Seq::new(
        if entries.len() <= limit {
            entries.len()
        } else {
            limit
        },
        |i: int| entry_record(entries[i]),
    )
}

/// The answer to a search whose feed parsed as `parsed`.
pub open spec fn search_answer(
    parsed: Result<Seq<EntryView>, Seq<char>>,
    max_results: nat,
) -> Result<Seq<types::DiscoveryRecordView>, types::GatewayErrorView> {
    match parsed {
        Ok(entries) => Ok(entry_records(entries, max_results)),
        Err(message) => Err(
            types::GatewayErrorView::Permanent("parse arxiv atom search response: "@ + message),
        ),
    }
}

/// The entry that a lookup by id found, where its feed parsed as `parsed`.
pub open spec fn looked_up(
    parsed: Result<Seq<EntryView>, Seq<char>>,
    record_id: Seq<char>,
) -> Result<EntryView, types::GatewayErrorView> {
    match parsed {
        Ok(entries) => if entries.len() > 0 {
            Ok(entries[0])
        } else {
            Err(types::GatewayErrorView::NotFound)
        },
        Err(message) => Err(
            types::GatewayErrorView::Permanent(
                "parse arxiv atom for "@ + record_id + ": "@ + message,
            ),
        ),
    }
}

/// The first `max_results` entries of a search as records. arXiv treats the
/// limit as a soft one, so it is enforced here.
pub fn records_of_feed(
    parsed: Result<Vec<ArxivEntry>, XmlError>,
    max_results: usize,
) -> (res: Result<Vec<DiscoveryRecord>, GatewayError>)
    ensures
        types::answer_view(res) == search_answer(parse_view(parsed), max_results as nat),
{
    let entries = match parsed {
        Ok(entries) => entries,
        Err(e) => {
            let mut message = "parse arxiv atom search response: ".to_string();
            message.push_str(e.message.as_str());
            return Err(GatewayError::Permanent(message));
        },
    };
    let mut entries = entries;
    let ghost all = entry_views(entries@);
    if max_results < entries.len() {
        entries.truncate(max_results);
    }
    let ghost kept = entry_views(entries@);
    let mut records: Vec<DiscoveryRecord> = Vec::new();
    let ghost list = entries@;
    for entry in it: entries.into_iter()
        invariant
            it.seq() == list,
            records@.len() == it.index(),
            forall|i: int|
                0 <= i < it.index() ==> (#[trigger] records@[i])@ == entry_record(list[i]@),
    {
        records.push(into_discovery_record(entry));
    }
    assert(types::record_views(records@) =~= entry_records(all, max_results as nat));
    Ok(records)
}

/// The entry that a lookup by id found.
pub fn entry_of_feed(parsed: Result<Vec<ArxivEntry>, XmlError>, record_id: &str) -> (res: Result<
    ArxivEntry,
    GatewayError,
>)
    ensures
        match looked_up(parse_view(parsed), record_id@) {
            Ok(e) => res matches Ok(entry) && entry@ == e,
            Err(e) => res matches Err(error) && error@ == e,
        },
{
    match parsed {
        Ok(entries) => {
            let mut entries = entries;
            if entries.is_empty() {
                return Err(GatewayError::NotFound);
            }
            Ok(entries.remove(0))
        },
        Err(e) => {
            let mut message = "parse arxiv atom for ".to_string();
            message.push_str(record_id);
            message.push_str(": ");
            message.push_str(e.message.as_str());
            Err(GatewayError::Permanent(message))
        },
    }
}

/// The contents of an entry, or of the error in its place.
pub open spec fn found_view(found: Result<ArxivEntry, GatewayError>) -> Result<
    EntryView,
    types::GatewayErrorView,
> {
    match found {
        Ok(entry) => Ok(entry@),
        Err(e) => Err(e@),
    }
}

/// What comes of a lookup: the PDF of the entry that it found is asked for.
pub open spec fn after_lookup(
    base: Seq<char>,
    record_id: Seq<char>,
    found: Result<EntryView, types::GatewayErrorView>,
) -> common::ComputeStepView<EntryView> {
    match found {
        Ok(entry) => common::ComputeStepView::FetchPdf {
            url: pdf_address(base, entry, record_id),
            entry,
        },
        Err(e) => common::ComputeStepView::Finished(Err(e)),
    }
}

/// A PDF that was fetched and hashed: its hash is remembered, and the one
/// outcome carries it, the bytes and the entry's record.
pub open spec fn resolved(e: EntryView, bytes: Seq<u8>, hash: Seq<char>) -> common::ComputeStepView<
    EntryView,
> {
    common::ComputeStepView::Store {
        hash,
        outcomes: seq![common::fresh_outcome(hash, bytes, entry_record(e))],
    }
}

/// What comes of the body that the PDF's address gave.
pub open spec fn after_pdf(
    e: EntryView,
    body: Result<Seq<u8>, types::GatewayErrorView>,
) -> common::ComputeStepView<EntryView> {
    match body {
        Ok(bytes) => resolved(e, bytes, hash::cid_text(hash::sha256_digest(bytes))),
        Err(e) => common::ComputeStepView::Finished(Err(e)),
    }
}

impl Default for ArxivPlugin {
    fn default() -> (res: ArxivPlugin)
        ensures
            res.base_url@ == default_base_url(),
            !res.cache_open,
    {
        ArxivPlugin::new()
    }
}

impl ArxivPlugin {
    /// A plugin that asks the public arXiv API.
    pub fn new() -> (res: ArxivPlugin)
        ensures
            res.base_url@ == default_base_url(),
            !res.cache_open,
    {
        ArxivPlugin::with_base_url("https://export.arxiv.org".to_string())
    }

    /// A plugin that asks another host. The base must serve both `/api/query`
    /// (Atom feed) and `/pdf/<id>.pdf` paths.
    pub fn with_base_url(base_url: String) -> (res: ArxivPlugin)
        ensures
            res.base_url@ == base_url@,
            !res.cache_open,
    {
        ArxivPlugin { base_url, cache_open: false }
    }

    /// The id under which the plugin is addressed.
    pub fn upstream_id(&self) -> (res: &'static str)
        ensures
            res@ == "arxiv"@,
    {
        "arxiv"
    }

    /// Takes note of whether the cache could be opened.
    pub fn configure(&mut self, opened: Result<(), ConfigError>) -> (res: Result<(), ConfigError>)
        ensures
            res == opened,
            final(self).base_url == old(self).base_url,
            final(self).cache_open == (opened is Ok || old(self).cache_open),
    {
        if opened.is_ok() {
            self.cache_open = true;
        }
        opened
    }

    /// Healthy once the cache is open.
    pub fn health(&self) -> (res: PluginHealth)
        ensures
            match res {
                PluginHealth::Healthy => self.cache_open,
                PluginHealth::Degraded { reason } => !self.cache_open && reason@
                    == "configure() not yet called"@,
            },
    {
        if self.cache_open {
            PluginHealth::Healthy
        } else {
            PluginHealth::Degraded { reason: "configure() not yet called".to_string() }
        }
    }

    /// The file types that the plugin serves.
    pub fn served_file_types(&self) -> (res: Vec<String>)
        ensures
            text::texts(res@) == seq!["document"@],
    {
        let mut res: Vec<String> = Vec::new();
        res.push("document".to_string());
        assert(text::texts(res@) =~= seq!["document"@]);
        res
    }

    /// The content kinds that the plugin serves.
    pub fn served_content_kinds(&self) -> (res: Vec<String>)
        ensures
            text::texts(res@) == seq!["paper"@],
    {
        let mut res: Vec<String> = Vec::new();
        res.push("paper".to_string());
        assert(text::texts(res@) =~= seq!["paper"@]);
        res
    }

    /// The address of a full-text search.
    pub fn search_url(&self, query: &str, max_results: usize) -> (res: String)
        ensures
            res@ == search_address(
                self.base_url@,
                common::url_encoded(query@),
                max_results as nat,
            ),
    {
        let mut url = trim_end_char(self.base_url.as_str(), '/');
        url.push_str("/api/query?search_query=all:");
        url.push_str(urlencode(query).as_str());
        url.push_str("&start=0&max_results=");
        url.push_str(decimal_text(max_results as u64).as_str());
        url
    }

    /// The address of the lookup of one entry by its id.
    pub fn entry_url(&self, record_id: &str) -> (res: String)
        ensures
            res@ == entry_address(self.base_url@, common::url_encoded(record_id@)),
    {
        let mut url = trim_end_char(self.base_url.as_str(), '/');
        url.push_str("/api/query?id_list=");
        url.push_str(urlencode(record_id).as_str());
        url
    }

    /// The address of an entry's PDF.
    pub fn pdf_url_for(&self, entry: &ArxivEntry, record_id: &str) -> (res: String)
        ensures
            res@ == pdf_address(self.base_url@, entry@, record_id@),
    {
        let base = trim_end_char(self.base_url.as_str(), '/');
        if let Some(link) = &entry.pdf_link {
            if let Some(url) = rewrite_host(link.as_str(), base.as_str()) {
                let address = trim(link.as_str());
                if on_same_origin(address.as_str(), base.as_str()) {
                    return address;
                }
                return url;
            }
        }
        let mut url = base;
        url.push_str("/pdf/");
        url.push_str(record_id);
        url.push_str(".pdf");
        url
    }

    /// Begins a search: the address to ask, or `None` where no paper can match
    /// the query and the answer is empty.
    pub fn handle_query(&self, query: &GatewayQuery, max_results: usize) -> (res: Option<String>)
        ensures
            types::opt_text(res) == if query::accepts(query@, seq!["document"@], seq!["paper"@]) {
                Some(
                    search_address(
                        self.base_url@,
                        common::url_encoded(query::text_or_star(query@.free_text)),
                        max_results as nat,
                    ),
                )
            } else {
                None
            },
            res is Some <==> (query@.filters.contains_key("fileType"@)
                ==> query@.filters["fileType"@] == "document"@) && (query@.filters.contains_key(
                "contentKind"@,
            ) ==> query@.filters["contentKind"@] == "paper"@),
    {
        assert(forall|s: Seq<char>| seq!["document"@].contains(s) <==> s == "document"@) by {
            assert(seq!["document"@][0] == "document"@);
        }
        assert(forall|s: Seq<char>| seq!["paper"@].contains(s) <==> s == "paper"@) by {
            assert(seq!["paper"@][0] == "paper"@);
        }
        if !query_accepts_plugin(query, &self.served_file_types(), &self.served_content_kinds()) {
            return None;
        }
        Some(self.search_url(query.free_text_or_star(), max_results))
    }

    /// Completes a search with the body that its address gave.
    pub fn query_answered(&self, body: Result<Vec<u8>, GatewayError>, max_results: usize) -> (res:
        Result<Vec<DiscoveryRecord>, GatewayError>)
        ensures
            types::answer_view(res) == match common::body_view(body) {
                Ok(bytes) => search_answer(
                    parsed_feed(xml::document(xml::xml_tokens(bytes))),
                    max_results as nat,
                ),
                Err(e) => Err(e),
            },
    {
        match body {
            Ok(bytes) => records_of_feed(parse_arxiv_feed(bytes.as_slice()), max_results),
            Err(e) => Err(e),
        }
    }

    /// Begins to resolve a record: the cache was asked and answered `cached`.
    pub fn compute_outcomes(
        &self,
        record_id: &str,
        cached: Result<Option<String>, GatewayError>,
    ) -> (res: ComputeStep<ArxivEntry>)
        ensures
            res@ == common::compute_begin::<EntryView>(
                "arxiv"@,
                self.cache_open,
                common::cached_view(cached),
                entry_address(self.base_url@, common::url_encoded(record_id@)),
            ),
    {
        begin_compute("arxiv", self.cache_open, cached, self.entry_url(record_id))
    }

    /// Goes on with the entry that the lookup found.
    pub fn entry_found(&self, record_id: &str, found: Result<ArxivEntry, GatewayError>) -> (res:
        ComputeStep<ArxivEntry>)
        ensures
            res@ == after_lookup(self.base_url@, record_id@, found_view(found)),
    {
        match found {
            Ok(entry) => ComputeStep::FetchPdf {
                url: self.pdf_url_for(&entry, record_id),
                entry,
            },
            Err(e) => ComputeStep::Finished(Err(e)),
        }
    }

    /// Goes on with the body that the lookup's address gave.
    pub fn entry_fetched(&self, record_id: &str, body: Result<Vec<u8>, GatewayError>) -> (res:
        ComputeStep<ArxivEntry>)
        ensures
            res@ == after_lookup(
                self.base_url@,
                record_id@,
                match common::body_view(body) {
                    Ok(bytes) => looked_up(
                        parsed_feed(xml::document(xml::xml_tokens(bytes))),
                        record_id@,
                    ),
                    Err(e) => Err(e),
                },
            ),
    {
        match body {
            Ok(bytes) => {
                let found = entry_of_feed(parse_arxiv_feed(bytes.as_slice()), record_id);
                self.entry_found(record_id, found)
            },
            Err(e) => ComputeStep::Finished(Err(e)),
        }
    }

    /// Goes on with the body that the PDF's address gave: it is hashed.
    pub fn pdf_fetched(&self, entry: ArxivEntry, body: Result<Vec<u8>, GatewayError>) -> (res:
        ComputeStep<ArxivEntry>)
        requires
            body matches Ok(bytes) ==> bytes@.len() <= SHA256_MAX_LEN,
        ensures
            res@ == after_pdf(entry@, common::body_view(body)),
            res@ matches common::ComputeStepView::Store { hash, outcomes } ==> body is Ok
                && outcomes.len() == 1 && outcomes[0].bytes == Some(body->Ok_0@)
                && outcomes[0].hash == hash && hash == hash::cid_text(
                hash::sha256_digest(body->Ok_0@),
            ),
            body is Ok ==> res@ is Store,
            body matches Err(e) ==> res@ == common::ComputeStepView::<EntryView>::Finished(Err(e@)),
    {
        match body {
            Ok(bytes) => {
                let hash = compute_ipfs_cid(bytes.as_slice());
                self.pdf_hashed(entry, bytes, hash)
            },
            Err(e) => ComputeStep::Finished(Err(e)),
        }
    }

    /// Completes the resolution: the PDF's hash is `hash`.
    pub fn pdf_hashed(&self, entry: ArxivEntry, bytes: Vec<u8>, hash: String) -> (res: ComputeStep<
        ArxivEntry,
    >)
        ensures
            res@ == resolved(entry@, bytes@, hash@),
            res@ matches common::ComputeStepView::Store { hash: stored, outcomes } && stored
                == hash@ && outcomes.len() == 1 && outcomes[0].bytes == Some(bytes@)
                && outcomes[0].hash == hash@,
    {
        let outcomes = single_outcome(hash.clone(), bytes, into_discovery_record(entry));
        ComputeStep::Store { hash, outcomes }
    }
}

// ------------------------------------------------------------------------ laws
/// Every request goes to the configured host: searches and lookups begin with
/// the base address, and whatever the entry's PDF link says, the PDF is asked
/// for with the base's scheme and at its authority.
pub proof fn law_requests_go_to_the_configured_host(
    base: Seq<char>,
    encoded: Seq<char>,
    max_results: nat,
    e: EntryView,
    record_id: Seq<char>,
)
    ensures
        text::without_trailing(base, '/').is_prefix_of(search_address(base, encoded, max_results)),
        text::without_trailing(base, '/').is_prefix_of(entry_address(base, encoded)),
        origin(text::without_trailing(base, '/')) is Some ==> origin(
            pdf_address(base, e, record_id),
        ) == origin(text::without_trailing(base, '/')),
{
    let host = text::without_trailing(base, '/');
    lemma_without_trailing_again(base, '/');
    assert(search_address(base, encoded, max_results).subrange(0, host.len() as int) =~= host);
    assert(entry_address(base, encoded).subrange(0, host.len() as int) =~= host);
    if origin(host) is Some {
        reveal_strlit("/pdf/");
        let tail = "/pdf/"@ + record_id + ".pdf"@;
        assert(host + "/pdf/"@ + record_id + ".pdf"@ =~= host + tail);
        assert(tail[0] == '/');
        lemma_origin_of_joined(host, tail);
        if let Some(link) = e.pdf_link {
            if let Some(path) = url_path(text::trimmed(link)) {
                lemma_path_begins_with_slash(text::trimmed(link));
                lemma_origin_of_joined(host, path);
            }
        }
    }
}

/// A path begins with a slash.
proof fn lemma_path_begins_with_slash(url: Seq<char>)
    ensures
        url_path(url) matches Some(path) ==> path.len() > 0 && path[0] == '/',
{
    if let Some(rest) = without_scheme(url) {
        lemma_at_first(rest, '/');
    }
}

proof fn lemma_at_first(s: Seq<char>, c: char)
    ensures
        0 <= text::before_first(s, c) <= s.len(),
        text::before_first(s, c) < s.len() ==> s[text::before_first(s, c)] == c,
        !s.take(text::before_first(s, c)).contains(c),
    decreases s.len(),
{
    if s.len() > 0 && s[0] != c {
        let rest = s.drop_first();
        lemma_at_first(rest, c);
        let n = text::before_first(rest, c);
        let head = s.take(n + 1);
        assert forall|i: int| 0 <= i < head.len() implies head[i] != c by {
            if i > 0 {
                assert(s[i] == rest[i - 1]);
                assert(rest.take(n)[i - 1] == rest[i - 1]);
                assert(rest.take(n).contains(rest.take(n)[i - 1]));
            }
        }
    }
}

/// A path behind an address leaves its origin as it is.
proof fn lemma_origin_of_joined(url: Seq<char>, tail: Seq<char>)
    requires
        origin(url) is Some,
        tail.len() > 0,
        tail[0] == '/',
    ensures
        origin(url + tail) == origin(url),
{
    reveal_strlit("http://");
    reveal_strlit("https://");
    let joined = url + tail;
    let rest = without_scheme(url)->0;
    lemma_prefix_chars("http://"@, url);
    lemma_prefix_chars("https://"@, url);
    lemma_prefix_chars("http://"@, joined);
    lemma_prefix_chars("https://"@, joined);
    if "http://"@.is_prefix_of(url) {
        assert(joined.subrange(0, 7) =~= url.subrange(0, 7));
        assert("http://"@.is_prefix_of(joined));
        assert(joined.skip(7) =~= rest + tail);
    } else {
        assert(joined.subrange(0, 8) =~= url.subrange(0, 8));
        assert("https://"@.is_prefix_of(joined));
        assert(joined[4] == url[4] && "https://"@[4] == 's' && "http://"@[4] == ':');
        assert(!"http://"@.is_prefix_of(joined));
        assert(joined.skip(8) =~= rest + tail);
    }
    let n = text::before_first(rest, '/');
    lemma_at_first(rest, '/');
    let head = rest.take(n);
    let after = rest.skip(n) + tail;
    assert(rest + tail =~= head + after);
    assert(after[0] == '/') by {
        if n < rest.len() {
            assert(after[0] == rest[n]);
        }
    }
    lemma_before_first(head, after, '/');
    let scheme = url.len() - rest.len();
    assert(joined.len() - (rest + tail).len() == scheme);
    assert(joined.take(scheme + n) =~= url.take(scheme + n));
}

proof fn lemma_without_trailing_again(s: Seq<char>, c: char)
    ensures
        text::without_trailing(text::without_trailing(s, c), c) == text::without_trailing(s, c),
    decreases s.len(),
{
    if s.len() > 0 && s.last() == c {
        lemma_without_trailing_again(s.drop_last(), c);
    }
}

/// Different record ids, such as two versions of a paper, are looked up at
/// different addresses.
pub proof fn law_versions_are_looked_up_apart(base: Seq<char>, a: Seq<char>, b: Seq<char>)
    requires
        entry_address(base, common::url_encoded(a)) == entry_address(base, common::url_encoded(b)),
    ensures
        a == b,
{
    let head = text::without_trailing(base, '/') + "/api/query?id_list="@;
    let x = common::url_encoded(a);
    let y = common::url_encoded(b);
    assert((head + x).skip(head.len() as int) =~= x);
    assert((head + y).skip(head.len() as int) =~= y);
    common::law_urlencode_is_lossless(a, b);
}

/// Rewriting the host keeps the path: what stands behind the new base is the
/// path of the old address.
pub proof fn law_rewriting_keeps_the_path(url: Seq<char>, new_base: Seq<char>)
    ensures
        rehosted(url, new_base) is Some <==> url_path(text::trimmed(url)) is Some,
        rehosted(url, new_base) matches Some(moved) ==> {
            let host = text::without_trailing(new_base, '/');
            &&& host.is_prefix_of(moved)
            &&& Some(moved.skip(host.len() as int)) == url_path(text::trimmed(url))
        },
{
    if let Some(moved) = rehosted(url, new_base) {
        let host = text::without_trailing(new_base, '/');
        assert(moved.subrange(0, host.len() as int) =~= host);
        assert(moved.skip(host.len() as int) =~= url_path(text::trimmed(url))->0);
    }
}

/// A PDF link on the configured host is asked for as it is, but for whitespace
/// around it: whatever path the base has, nothing is put before the link's own.
pub proof fn law_link_on_the_host_is_kept(
    base: Seq<char>,
    e: EntryView,
    record_id: Seq<char>,
    link: Seq<char>,
)
    requires
        e.pdf_link == Some(link),
        same_origin(text::trimmed(link), text::without_trailing(base, '/')),
        url_path(text::trimmed(link)) is Some,
    ensures
        pdf_address(base, e, record_id) == text::trimmed(link),
{
}

/// A PDF link with another scheme or authority is asked for by its path on the
/// configured host.
pub proof fn law_link_elsewhere_is_rewritten(
    base: Seq<char>,
    e: EntryView,
    record_id: Seq<char>,
    link: Seq<char>,
    path: Seq<char>,
)
    requires
        e.pdf_link == Some(link),
        !same_origin(text::trimmed(link), text::without_trailing(base, '/')),
        url_path(text::trimmed(link)) == Some(path),
    ensures
        pdf_address(base, e, record_id) == text::without_trailing(base, '/') + path,
{
    lemma_without_trailing_again(base, '/');
}

/// Without a PDF link that has a path, the address is made from the record id.
pub proof fn law_unusable_link_gives_the_derived_address(
    base: Seq<char>,
    e: EntryView,
    record_id: Seq<char>,
)
    requires
        e.pdf_link matches Some(link) ==> url_path(text::trimmed(link)) is None,
    ensures
        pdf_address(base, e, record_id) == text::without_trailing(base, '/') + "/pdf/"@ + record_id
            + ".pdf"@,
{
}

pub proof fn lemma_before_first(head: Seq<char>, tail: Seq<char>, c: char)
    requires
        !head.contains(c),
        tail.len() > 0,
        tail[0] == c,
    ensures
        text::before_first(head + tail, c) == head.len(),
    decreases head.len(),
{
    if head.len() == 0 {
        assert(head + tail =~= tail);
    } else {
        assert(head.contains(head[0]));
        assert((head + tail).drop_first() =~= head.drop_first() + tail);
        assert forall|i: int| 0 <= i < head.drop_first().len() implies head.drop_first()[i]
            != c by {
            assert(head.contains(head[i + 1]));
        }
        lemma_before_first(head.drop_first(), tail, c);
    }
}

/// Every record carries the fields that typed filters rest on: what kind of
/// file it is, where it comes from, and its id under the canonical field.
pub proof fn law_record_has_the_required_fields(e: EntryView)
    ensures
        entry_record(e).upstream_id == "arxiv"@,
        entry_record(e).record_id == e.record_id,
        types::has_field(entry_record(e), "fileType"@, "document"@),
        types::has_field(entry_record(e), "contentKind"@, "paper"@),
        types::has_field(entry_record(e), "format"@, "pdf"@),
        types::has_field(entry_record(e), "sourceUrl"@, "https://arxiv.org/abs/"@ + e.record_id),
        types::has_field(entry_record(e), "fileName"@, "arxiv-"@ + e.record_id + ".pdf"@),
        types::has_field(entry_record(e), entry_record(e).upstream_id + "id"@, e.record_id),
        e.title matches Some(title) ==> types::has_field(entry_record(e), "title"@, title),
        e.summary matches Some(summary) ==> types::has_field(entry_record(e), "summary"@, summary),
        e.published matches Some(published) ==> types::has_field(
            entry_record(e),
            "published"@,
            published,
        ),
{
    reveal_strlit("title");
    reveal_strlit("fileType");
    reveal_strlit("contentKind");
    reveal_strlit("sourceUrl");
    reveal_strlit("fileName");
    reveal_strlit("arxiv");
    reveal_strlit("id");
    reveal_strlit("format");
    reveal_strlit("author");
    reveal_strlit("categories");
    reveal_strlit("primaryCategory");
    reveal_strlit("published");
    reveal_strlit("year");
    reveal_strlit("summary");
    let own = "arxiv"@ + "id"@;
    assert(own.len() == 7);
    assert(own[0] == 'a');
    assert("summary"@[0] == 's');
    assert("fileType"@[4] == 'T' && "fileName"@[4] == 'N');
    assert("author"@[0] == 'a' && "format"@[0] == 'f');
    assert("published"@[0] == 'p' && "sourceUrl"@[0] == 's');
    assert("published"@.len() == 9 && "sourceUrl"@.len() == 9);
    assert("fileType"@.len() == 8 && "fileName"@.len() == 8 && "summary"@.len() == 7);
    assert("author"@.len() == 6 && "format"@.len() == 6);
    assert("contentKind"@.len() == 11 && "categories"@.len() == 10);
    assert("primaryCategory"@.len() == 15 && "title"@.len() == 5 && "year"@.len() == 4);
}

/// A search returns no more records than asked for, each made from an entry of
/// the feed, in its order.
pub proof fn law_search_respects_the_limit(entries: Seq<EntryView>, max_results: nat)
    ensures
        search_answer(Ok(entries), max_results) matches Ok(records) && {
            &&& records.len() <= max_results
            &&& records.len() <= entries.len()
            &&& entries.len() <= max_results ==> records.len() == entries.len()
            &&& forall|i: int|
                0 <= i < records.len() ==> #[trigger] records[i] == entry_record(entries[i])
        },
{
}

/// The resolution of a record, where `upstream` gives the body, or the error,
/// behind each address.
pub open spec fn resolution(
    plugin: ArxivPlugin,
    record_id: Seq<char>,
    cached: Result<Option<Seq<char>>, types::GatewayErrorView>,
    upstream: spec_fn(Seq<char>) -> Result<Seq<u8>, types::GatewayErrorView>,
) -> common::Resolution {
    let base = plugin.base_url@;
    let lookup_url = entry_address(base, common::url_encoded(record_id));
    match common::compute_begin::<EntryView>("arxiv"@, plugin.cache_open, cached, lookup_url) {
        common::ComputeStepView::FetchEntry { url } => {
            let found = match upstream(url) {
                Ok(body) => looked_up(parsed_feed(xml::document(xml::xml_tokens(body))), record_id),
                Err(e) => Err(e),
            };
            match after_lookup(base, record_id, found) {
                common::ComputeStepView::FetchPdf { url, entry } => common::ended(
                    after_pdf(entry, upstream(url)),
                ),
                step => common::ended(step),
            }
        },
        step => common::ended(step),
    }
}

/// A resolution succeeds with one outcome or fails with an error, never with an
/// empty success, and it remembers only the hash of what it fetched. A failed
/// lookup is the answer; a hash that is cached is the answer without any
/// request.
pub proof fn law_resolution_is_sound(
    plugin: ArxivPlugin,
    record_id: Seq<char>,
    cached: Result<Option<Seq<char>>, types::GatewayErrorView>,
    upstream: spec_fn(Seq<char>) -> Result<Seq<u8>, types::GatewayErrorView>,
    error: types::GatewayErrorView,
    hash: Seq<char>,
)
    ensures
        common::sound_resolution(resolution(plugin, record_id, cached, upstream)),
        plugin.cache_open && cached == Ok::<Option<Seq<char>>, types::GatewayErrorView>(None)
            && upstream(entry_address(plugin.base_url@, common::url_encoded(record_id))) == Err::<
            Seq<u8>,
            types::GatewayErrorView,
        >(error) ==> resolution(plugin, record_id, cached, upstream) == (common::Resolution {
            answer: Err(error),
            remembered: None,
        }),
        plugin.cache_open && cached == Ok::<Option<Seq<char>>, types::GatewayErrorView>(Some(hash))
            ==> resolution(plugin, record_id, cached, upstream) == (common::Resolution {
            answer: Ok(seq![common::remembered_outcome(hash)]),
            remembered: None,
        }),
{
}

/// A failed request fails the resolution with that very error.
pub proof fn law_failures_are_passed_on(
    base: Seq<char>,
    record_id: Seq<char>,
    e: EntryView,
    error: types::GatewayErrorView,
)
    ensures
        after_lookup(base, record_id, Err(error)) == common::ComputeStepView::<EntryView>::Finished(
            Err(error),
        ),
        after_pdf(e, Err(error)) == common::ComputeStepView::<EntryView>::Finished(Err(error)),
{
}

} // verus!
