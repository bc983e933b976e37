//! The events of an XML document, as `quick_xml` reads them.

use crate::text::same;
use crate::text::text_of;
use quick_xml::events::Event;
use quick_xml::Reader;
use vstd::prelude::*;

verus! {

/// A reader over a document that is held in memory.
#[verifier::external_type_specification]
#[verifier::external_body]
#[verifier::reject_recursive_types(R)]
pub struct ExReader<R>(Reader<R>);

/// The opening tag of an element.
#[derive(Debug)]
pub struct XmlElement {
    /// The name as written, with its prefix if it has one
    pub name: String,
    /// The attributes in order: key and raw value, or `None` for one that
    /// cannot be read
    pub attributes: Vec<Option<(String, String)>>,
}

/// One step through a document.
#[derive(Debug)]
pub enum XmlEvent {
    /// `<name ...>`
    Start(XmlElement),
    /// `<name .../>`
    Empty(XmlElement),
    /// `</name>`
    End(String),
    /// Text, a comment, a declaration or the like
    Other,
    /// The end of the document
    Eof,
    /// The document cannot be read further; the message says why
    Malformed(String),
}

/// The opening tag of an element, as a mathematical value.
pub struct Tag {
    pub name: Seq<char>,
    pub attributes: Seq<Option<(Seq<char>, Seq<char>)>>,
}

/// One step through a document, as a mathematical value.
pub enum Token {
    Start(Tag),
    Empty(Tag),
    End(Seq<char>),
    Other,
    Eof,
    Malformed(Seq<char>),
}

impl View for XmlElement {
    type V = Tag;

    open spec fn view(&self) -> Tag {
        Tag { name: self.name@, attributes: self.attributes.deep_view() }
    }
}

impl View for XmlEvent {
    type V = Token;

    open spec fn view(&self) -> Token {
        match self {
            XmlEvent::Start(e) => Token::Start(e@),
            XmlEvent::Empty(e) => Token::Empty(e@),
            XmlEvent::End(name) => Token::End(name@),
            XmlEvent::Other => Token::Other,
            XmlEvent::Eof => Token::Eof,
            XmlEvent::Malformed(message) => Token::Malformed(message@),
        }
    }
}

/// Nothing can be read after this token.
pub open spec fn is_final(token: Token) -> bool {
    token is Eof || token is Malformed
}

/// The tokens of a whole document: the last one is final, and no other is.
pub open spec fn is_complete(tokens: Seq<Token>) -> bool {
    &&& tokens.len() > 0
    &&& is_final(tokens.last())
    &&& forall|i: int| 0 <= i < tokens.len() - 1 ==> !is_final(#[trigger] tokens[i])
}

/// The tokens of the document `text`, up to its end or to the first place where
/// it cannot be read.
pub uninterp spec fn document_tokens(text: Seq<char>) -> Seq<Token>;

/// The tokens that a reader has still to give.
pub uninterp spec fn remaining_tokens(reader: Reader<&[u8]>) -> Seq<Token>;

/// `Reader::from_str`, with text trimmed at both ends: the reader has all the
/// tokens of the document before it. There are finitely many, since every read
/// that does not end the document consumes some of it.
#[verifier::external_body]
pub(crate) fn open_document<'a>(text: &'a str) -> (r: Reader<&'a [u8]>)
    ensures
        remaining_tokens(r) == document_tokens(text@),
        is_complete(remaining_tokens(r)),
{
    let mut reader = Reader::from_str(text);
    reader.config_mut().trim_text(true);
    reader
}

/// `Reader::read_event`: gives the next token and moves past it. Names and
/// attribute values are copied as they stand in the document; an attribute that
/// `quick_xml` reports as faulty becomes `None`, and the message of a failed
/// read is that of its error.
#[verifier::external_body]
pub(crate) fn next_event(reader: &mut Reader<&[u8]>) -> (r: XmlEvent)
    requires
        remaining_tokens(*old(reader)).len() > 0,
    ensures
        r@ == remaining_tokens(*old(reader))[0],
        remaining_tokens(*final(reader)) == remaining_tokens(*old(reader)).skip(1),
{
    let (variant, e): (fn(XmlElement) -> XmlEvent, _) = match reader.read_event() {
        Ok(Event::Start(e)) => (XmlEvent::Start, e),
        Ok(Event::Empty(e)) => (XmlEvent::Empty, e),
        Ok(Event::End(e)) => return XmlEvent::End(e.name().0.into()),
        Ok(Event::Eof) => return XmlEvent::Eof,
        Ok(_) => return XmlEvent::Other,
        Err(e) => return XmlEvent::Malformed(e.to_string()),
    };
    variant(XmlElement {
        name: e.name().0.into(),
        attributes: e.attributes().map(|a| a.ok().map(|a| (a.key.0.into(), a.value.into()))).collect(),
    })
}

/// The value of the first readable attribute with the given key.
pub open spec fn attr_of(
    attributes: Seq<Option<(Seq<char>, Seq<char>)>>,
    key: Seq<char>,
) -> Option<Seq<char>>
    decreases attributes.len(),
{
    if attributes.len() == 0 {
        None
    } else {
        match attributes[0] {
            Some((k, v)) if k == key => Some(v),
            _ => attr_of(attributes.skip(1), key),
        }
    }
}

/// Extract an attribute value by key from an opening tag.
pub fn attr(e: &XmlElement, key: &str) -> (r: Option<String>)
    ensures
        text_of(r) == attr_of(e@.attributes, key@),
{
    let mut i: usize = 0;
    assert(e@.attributes.skip(0) =~= e@.attributes);
    while i < e.attributes.len()
        invariant
            i <= e.attributes@.len(),
            attr_of(e@.attributes.skip(i as int), key@) == attr_of(e@.attributes, key@),
        decreases e.attributes@.len() - i,
    {
        let ghost rest = e@.attributes.skip(i as int);
        assert(rest[0] == e.attributes@[i as int].deep_view());
        if let Some((k, v)) = &e.attributes[i] {
            if same(k.as_str(), key) {
                return Some(v.clone());
            }
        }
        assert(rest.skip(1) =~= e@.attributes.skip(i + 1));
        i += 1;
    }
    assert(e@.attributes.skip(i as int).len() == 0);
    None
}

} // verus!
