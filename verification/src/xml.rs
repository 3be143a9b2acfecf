//! Reading an XML document as a list of tokens. The tokenizer is `quick-xml`;
//! what it hands out is copied into plain values here.
use crate::text;
use crate::text::rest_after_last;
use crate::text_map::TextMap;
use crate::types;
use quick_xml::events::Event;
use quick_xml::Reader;
use vstd::prelude::*;
use vstd::utf8;

verus! {

/// `quick_xml::Reader`, a pull parser over its input.
#[verifier::external_type_specification]
#[verifier::external_body]
#[verifier::reject_recursive_types(R)]
pub struct ExReader<R>(quick_xml::Reader<R>);

/// One attribute of a tag: its raw name and its raw value, or `None` where
/// the tag is malformed at that place.
pub type RawAttribute = Option<(Vec<u8>, Vec<u8>)>;

/// One piece of an XML document. Names, attribute values and text are the raw
/// bytes of the document.
#[derive(Debug)]
pub enum XmlToken {
    /// An opening tag, `<name ...>`.
    Start { name: Vec<u8> },
    /// A self-closing tag, `<name .../>`.
    Empty { name: Vec<u8>, attributes: Vec<RawAttribute> },
    /// Character data, still escaped.
    Text { raw: Vec<u8> },
    /// A closing tag, `</name>`.
    End { name: Vec<u8> },
    /// Anything else: a comment, a declaration, a processing instruction,
    /// a CDATA section.
    Other,
}

/// The contents of an [`XmlToken`].
pub enum XmlTokenView {
    Start { name: Seq<u8> },
    Empty { name: Seq<u8>, attributes: Seq<Option<(Seq<u8>, Seq<u8>)>> },
    Text { raw: Seq<u8> },
    End { name: Seq<u8> },
    Other,
}

/// The contents of a [`RawAttribute`].
pub open spec fn attribute_view(a: RawAttribute) -> Option<(Seq<u8>, Seq<u8>)> {
    match a {
        Some((key, value)) => Some((key@, value@)),
        None => None,
    }
}

/// The contents of a list of attributes.
pub open spec fn attribute_views(list: Seq<RawAttribute>) -> Seq<Option<(Seq<u8>, Seq<u8>)>> {
    Seq::new(list.len(), |i: int| attribute_view(list[i]))
}

impl View for XmlToken {
    type V = XmlTokenView;

    open spec fn view(&self) -> XmlTokenView {
        match *self {
            XmlToken::Start { name } => XmlTokenView::Start { name: name@ },
            XmlToken::Empty { name, attributes } => XmlTokenView::Empty {
                name: name@,
                attributes: attribute_views(attributes@),
            },
            XmlToken::Text { raw } => XmlTokenView::Text { raw: raw@ },
            XmlToken::End { name } => XmlTokenView::End { name: name@ },
            XmlToken::Other => XmlTokenView::Other,
        }
    }
}

/// The contents of a list of tokens.
pub open spec fn token_views(list: Seq<XmlToken>) -> Seq<XmlTokenView> {
    Seq::new(list.len(), |i: int| list[i]@)
}

/// What a reader has still to hand out: its tokens up to the end of the input,
/// or up to the first error, which then stands last as the error's message.
pub uninterp spec fn unread(reader: Reader<&[u8]>) -> Seq<Result<XmlTokenView, Seq<char>>>;

/// What reading `input` from its beginning hands out, with the whitespace
/// around character data left out.
pub uninterp spec fn xml_tokens(input: Seq<u8>) -> Seq<Result<XmlTokenView, Seq<char>>>;

/// `quick_xml::Reader::from_reader`, with `Config::trim_text` switched on: a
/// reader at the beginning of `xml`.
#[verifier::external_body]
fn new_reader<'a>(xml: &'a [u8]) -> (reader: Reader<&'a [u8]>)
    ensures
        unread(reader) == xml_tokens(xml@),
{
    let mut reader = Reader::from_reader(xml);
    reader.config_mut().trim_text(true);
    reader
}

/// `quick_xml::Reader::read_event_into`: hands out the next of the tokens that
/// are still unread and leaves the others; `None` at the end of the input.
/// After an error nothing is said of the reader.
#[verifier::external_body]
fn next_token(reader: &mut Reader<&[u8]>) -> (res: Result<Option<XmlToken>, String>)
    ensures
        unread(*old(reader)).len() == 0 ==> res matches Ok(None),
        unread(*old(reader)).len() > 0 ==> match unread(*old(reader))[0] {
            Ok(t) => (res matches Ok(Some(token)) && token@ == t) && unread(*final(reader))
                == unread(*old(reader)).drop_first(),
            Err(message) => res matches Err(e) && e@ == message,
        },
{
    Ok(Some(match reader.read_event_into(&mut Vec::new()).map_err(|e| e.to_string())? {
        Event::Start(e) => XmlToken::Start { name: e.name().0.to_vec() },
        Event::Empty(e) => XmlToken::Empty {
            name: e.name().0.to_vec(),
            attributes: e.attributes().map(|a| a.ok().map(|a| (a.key.0.to_vec(), a.value.to_vec()))).collect(),
        },
        Event::Text(t) => XmlToken::Text { raw: t.to_vec() },
        Event::End(e) => XmlToken::End { name: e.name().0.to_vec() },
        Event::Eof => return Ok(None),
        _ => XmlToken::Other,
    }))
}

/// Why a document could not be read.
#[derive(Debug)]
pub struct XmlError {
    pub message: String,
}

/// Reading goes on token by token until the input ends (`Ok` with all tokens)
/// or an error comes (`Err` with its message).
pub open spec fn document(pending: Seq<Result<XmlTokenView, Seq<char>>>) -> Result<
    Seq<XmlTokenView>,
    Seq<char>,
>
    decreases pending.len(),
{
    if pending.len() == 0 {
        Ok(Seq::empty())
    } else {
        match pending[0] {
            Err(message) => Err(message),
            Ok(token) => match document(pending.drop_first()) {
                Ok(rest) => Ok(seq![token] + rest),
                Err(message) => Err(message),
            },
        }
    }
}

/// The tokens of an XML document.
pub fn read_document(xml: &[u8]) -> (res: Result<Vec<XmlToken>, XmlError>)
    ensures
        match document(xml_tokens(xml@)) {
            Ok(tokens) => res matches Ok(list) && token_views(list@) == tokens,
            Err(message) => res matches Err(e) && e.message@ == message,
        },
{
    let mut reader = new_reader(xml);
    let mut list: Vec<XmlToken> = Vec::new();
    let ghost whole = document(xml_tokens(xml@));
    assert(token_views(list@) =~= Seq::empty());
    proof {
        if let Ok(rest) = document(unread(reader)) {
            assert(token_views(list@) + rest =~= rest);
        }
    }
    loop
        invariant
            whole == document(xml_tokens(xml@)),
            match document(unread(reader)) {
                Ok(rest) => whole == Ok::<Seq<XmlTokenView>, Seq<char>>(token_views(list@) + rest),
                Err(message) => whole == Err::<Seq<XmlTokenView>, Seq<char>>(message),
            },
        decreases unread(reader).len(),
    {
        let ghost pending = unread(reader);
        match next_token(&mut reader) {
            Ok(Some(token)) => {
                let ghost done = token_views(list@);
                list.push(token);
                proof {
                    assert(token_views(list@) =~= done.push(token@));
                    if let Ok(rest) = document(pending.drop_first()) {
                        assert(done + (seq![token@] + rest) =~= token_views(list@) + rest);
                    }
                }
            },
            Ok(None) => {
                assert(token_views(list@) + Seq::<XmlTokenView>::empty() =~= token_views(list@));
                return Ok(list);
            },
            Err(message) => {
                return Err(XmlError { message });
            },
        }
    }
}

// ---------------------------------------------------------- names and content
/// `std::str::from_utf8`: the text that the bytes encode, or `None` where they
/// are not UTF-8.
#[verifier::external_body]
pub(crate) fn utf8_text(bytes: &[u8]) -> (res: Option<&str>)
    ensures
        match res {
            Some(s) => utf8::valid_utf8(bytes@) && s@ == utf8::decode_utf8(bytes@),
            None => !utf8::valid_utf8(bytes@),
        },
{
    std::str::from_utf8(bytes).ok()
}

/// What replacing the entity and character references in `escaped` gives;
/// `None` where one of them cannot be resolved.
pub uninterp spec fn resolved_references(escaped: Seq<char>) -> Option<Seq<char>>;

/// The character data that `escaped` stands for. Every reference begins with
/// an ampersand, so a text without one stands for itself.
pub open spec fn unescaped(escaped: Seq<char>) -> Option<Seq<char>> {
    if escaped.contains('&') {
        resolved_references(escaped)
    } else {
        Some(escaped)
    }
}

/// `quick_xml::escape::unescape`: replaces the references in a text; where
/// there is no ampersand the text comes back as it is.
#[verifier::external_body]
fn unescape(escaped: &str) -> (res: Option<String>)
    ensures
        escaped@.contains('&') ==> types::opt_text(res) == resolved_references(escaped@),
        !escaped@.contains('&') ==> types::opt_text(res) == Some(escaped@),
{
    quick_xml::escape::unescape(escaped).ok().map(|s| s.into_owned())
}

/// The text that `bytes` encode; empty where they are not UTF-8.
pub open spec fn lenient_text(bytes: Seq<u8>) -> Seq<char> {
    if utf8::valid_utf8(bytes) {
        utf8::decode_utf8(bytes)
    } else {
        Seq::empty()
    }
}

/// The local part of a tag or attribute name: what follows its last colon.
pub open spec fn local_part(raw: Seq<u8>) -> Seq<char> {
    text::after_last(lenient_text(raw), ':')
}

/// The character data of a text token, where it can be decoded and unescaped.
pub open spec fn character_data(raw: Seq<u8>) -> Option<Seq<char>> {
    if utf8::valid_utf8(raw) {
        unescaped(utf8::decode_utf8(raw))
    } else {
        None
    }
}

/// The attributes of a tag under their local names. Malformed ones are left
/// out; of two with the same local name the later one counts.
pub open spec fn attribute_map(list: Seq<Option<(Seq<u8>, Seq<u8>)>>) -> Map<Seq<char>, Seq<char>>
    decreases list.len(),
{
    if list.len() == 0 {
        Map::empty()
    } else {
        match list.last() {
            Some((key, value)) => attribute_map(list.drop_last()).insert(
                local_part(key),
                lenient_text(value),
            ),
            None => attribute_map(list.drop_last()),
        }
    }
}

/// Decodes bytes; anything that is not UTF-8 becomes the empty text.
fn decode(bytes: &[u8]) -> (res: String)
    ensures
        res@ == lenient_text(bytes@),
{
    match utf8_text(bytes) {
        Some(s) => s.to_string(),
        None => String::new(),
    }
}

/// The local part of a tag or attribute name, without a namespace prefix.
pub fn local_name(raw: &[u8]) -> (res: String)
    ensures
        res@ == local_part(raw@),
{
    let name = decode(raw);
    rest_after_last(name.as_str(), ':')
}

/// The character data of a text token, where it can be decoded and unescaped.
pub fn text_content(raw: &[u8]) -> (res: Option<String>)
    ensures
        types::opt_text(res) == character_data(raw@),
{
    match utf8_text(raw) {
        Some(s) => unescape(s),
        None => None,
    }
}

/// The attributes of a tag, by local name.
pub fn collect_attrs(attributes: &Vec<RawAttribute>) -> (res: TextMap<String>)
    ensures
        res@ == attribute_map(attribute_views(attributes@)),
{
    let mut out: TextMap<String> = TextMap::new();
    let mut i: usize = 0;
    let ghost all = attribute_views(attributes@);
    while i < attributes.len()
        invariant
            all == attribute_views(attributes@),
            i <= attributes@.len(),
            out@ == attribute_map(all.take(i as int)),
        decreases attributes@.len() - i,
    {
        assert(all.take(i + 1).drop_last() =~= all.take(i as int));
        if let Some((key, value)) = &attributes[i] {
            out.insert(local_name(key.as_slice()), decode(value.as_slice()));
        }
        i = i + 1;
    }
    assert(all.take(i as int) =~= all);
    out
}

} // verus!
