//! The events that `quick-xml` reads from a document. Each event, and each attribute of a
//! tag, carries the document, the trim setting and its position in the stream, so that what
//! `quick-xml` reports of it can be named as a function of those plain values: the reader is
//! deterministic, so the k-th event of a document depends on the bytes and the setting
//! alone. The fields are private to this module, which holds nothing but the calls into
//! `quick-xml`; a position therefore always counts the events (or attributes) read before.
use vstd::prelude::*;
use quick_xml::events::attributes::{AttrError, Attribute, Attributes};
use quick_xml::events::{BytesCData, BytesEnd, BytesRef, BytesStart, BytesText, Event};
use quick_xml::Reader;
use quick_xml::XmlVersion;

verus! {

#[verifier::external_type_specification]
#[verifier::external_body]
#[verifier::reject_recursive_types(R)]
pub struct ExXmlReader<R>(Reader<R>);

#[verifier::external_type_specification]
#[verifier::external_body]
pub struct ExBytesStart<'i>(BytesStart<'i>);

#[verifier::external_type_specification]
#[verifier::external_body]
pub struct ExBytesEnd<'i>(BytesEnd<'i>);

#[verifier::external_type_specification]
#[verifier::external_body]
pub struct ExBytesText<'i>(BytesText<'i>);

#[verifier::external_type_specification]
#[verifier::external_body]
pub struct ExBytesCData<'i>(BytesCData<'i>);

#[verifier::external_type_specification]
#[verifier::external_body]
pub struct ExBytesRef<'i>(BytesRef<'i>);

#[verifier::external_type_specification]
#[verifier::external_body]
pub struct ExAttributes<'a>(Attributes<'a>);

#[verifier::external_type_specification]
#[verifier::external_body]
pub struct ExAttribute<'a>(Attribute<'a>);

#[verifier::external_type_specification]
#[verifier::external_body]
pub struct ExAttrError(AttrError);

/// A `quick-xml` reader over a document, with the document, the trim setting and the
/// number of events read so far.
pub struct XmlCursor<'a> {
    reader: Reader<&'a [u8]>,
    xml: &'a [u8],
    trim: bool,
    count: u128,
}

impl<'a> XmlCursor<'a> {
    pub closed spec fn source(&self) -> Seq<u8> {
        self.xml@
    }

    pub closed spec fn trims(&self) -> bool {
        self.trim
    }

    pub closed spec fn position(&self) -> nat {
        self.count as nat
    }
}

/// Where an event stands: the document, the trim setting, and the event's position.
#[derive(Clone, Copy)]
pub struct EventTag<'a> {
    xml: &'a [u8],
    trim: bool,
    index: u128,
}

/// A `quick-xml` value that came with event `index` of a document read with a trim setting.
pub struct At<'a, T> {
    item: T,
    tag: EventTag<'a>,
}

impl<'a, T> At<'a, T> {
    pub closed spec fn source(&self) -> Seq<u8> {
        self.tag.xml@
    }

    pub closed spec fn trims(&self) -> bool {
        self.tag.trim
    }

    pub closed spec fn index(&self) -> nat {
        self.tag.index as nat
    }
}

/// The attribute iterator of event `index`, with the number of attributes read so far.
pub struct AttrCursor<'a, 'b> {
    attributes: Attributes<'b>,
    xml: &'a [u8],
    trim: bool,
    index: u128,
    count: u128,
}

impl<'a, 'b> AttrCursor<'a, 'b> {
    pub closed spec fn source(&self) -> Seq<u8> {
        self.xml@
    }

    pub closed spec fn trims(&self) -> bool {
        self.trim
    }

    pub closed spec fn index(&self) -> nat {
        self.index as nat
    }

    pub closed spec fn position(&self) -> nat {
        self.count as nat
    }
}

/// Attribute `slot` of event `index`.
pub struct AttrAt<'a, 'b> {
    attribute: Attribute<'b>,
    xml: &'a [u8],
    trim: bool,
    index: u128,
    slot: u128,
}

impl<'a, 'b> AttrAt<'a, 'b> {
    pub closed spec fn source(&self) -> Seq<u8> {
        self.xml@
    }

    pub closed spec fn trims(&self) -> bool {
        self.trim
    }

    pub closed spec fn index(&self) -> nat {
        self.index as nat
    }

    pub closed spec fn slot(&self) -> nat {
        self.slot as nat
    }
}

/// The kind of an event, and the reader's message when reading failed.
pub enum XmlEventShape {
    Start,
    Empty,
    End,
    Text,
    CData,
    GeneralRef,
    /// A comment, declaration, processing instruction or document type.
    Other,
    Eof,
    Failed(Seq<char>),
}

/// One event of `Reader::read_event`, its payload still in `quick-xml`'s types.
pub enum RawXmlEvent<'a> {
    Start(At<'a, BytesStart<'a>>),
    Empty(At<'a, BytesStart<'a>>),
    End(At<'a, BytesEnd<'a>>),
    Text(At<'a, BytesText<'a>>),
    CData(At<'a, BytesCData<'a>>),
    GeneralRef(At<'a, BytesRef<'a>>),
    Other,
    Eof,
    Failed(String),
}

pub open spec fn raw_shape(e: RawXmlEvent) -> XmlEventShape {
    match e {
        RawXmlEvent::Start(_) => XmlEventShape::Start,
        RawXmlEvent::Empty(_) => XmlEventShape::Empty,
        RawXmlEvent::End(_) => XmlEventShape::End,
        RawXmlEvent::Text(_) => XmlEventShape::Text,
        RawXmlEvent::CData(_) => XmlEventShape::CData,
        RawXmlEvent::GeneralRef(_) => XmlEventShape::GeneralRef,
        RawXmlEvent::Other => XmlEventShape::Other,
        RawXmlEvent::Eof => XmlEventShape::Eof,
        RawXmlEvent::Failed(m) => XmlEventShape::Failed(m@),
    }
}

/// Whether the event's payload is tagged with the document, setting and position given.
pub open spec fn raw_tagged(e: RawXmlEvent, xml: Seq<u8>, trim: bool, k: nat) -> bool {
    match e {
        RawXmlEvent::Start(a) => a.source() == xml && a.trims() == trim && a.index() == k,
        RawXmlEvent::Empty(a) => a.source() == xml && a.trims() == trim && a.index() == k,
        RawXmlEvent::End(a) => a.source() == xml && a.trims() == trim && a.index() == k,
        RawXmlEvent::Text(a) => a.source() == xml && a.trims() == trim && a.index() == k,
        RawXmlEvent::CData(a) => a.source() == xml && a.trims() == trim && a.index() == k,
        RawXmlEvent::GeneralRef(a) => a.source() == xml && a.trims() == trim && a.index() == k,
        _ => true,
    }
}

/// The kind of event `k` that `Reader::read_event` reports for a document (counting from 0,
/// with the given `trim_text` setting).
pub uninterp spec fn xml_event_at(xml: Seq<u8>, trim: bool, k: nat) -> XmlEventShape;

/// `BytesStart::name` of start (or empty) tag event `k`, as written.
pub uninterp spec fn start_name_at(xml: Seq<u8>, trim: bool, k: nat) -> Seq<char>;

/// `BytesEnd::name` of end tag event `k`, as written.
pub uninterp spec fn end_name_at(xml: Seq<u8>, trim: bool, k: nat) -> Seq<char>;

/// The length of `BytesStart::attributes_raw` of tag event `k`.
pub uninterp spec fn attributes_raw_len_at(xml: Seq<u8>, trim: bool, k: nat) -> nat;

/// What the `j`-th call of `Iterator::next` on the attributes of tag event `k` gives:
/// nothing, a well-formed attribute (`true`) or a malformed one (`false`).
pub uninterp spec fn attribute_at(xml: Seq<u8>, trim: bool, k: nat, j: nat) -> Option<bool>;

/// The key of attribute `j` of tag event `k`, as written.
pub uninterp spec fn attribute_key_at(xml: Seq<u8>, trim: bool, k: nat, j: nat) -> Seq<char>;

/// `Attribute::normalized_value` (XML 1.0) of attribute `j` of tag event `k`; `None` when
/// it fails.
pub uninterp spec fn attribute_value_at(xml: Seq<u8>, trim: bool, k: nat, j: nat) -> Option<Seq<char>>;

/// The content of text event `k` as it appears in the document.
pub uninterp spec fn text_raw_at(xml: Seq<u8>, trim: bool, k: nat) -> Seq<char>;

/// `quick_xml::escape::unescape` of the content of text event `k`; `None` when it fails.
pub uninterp spec fn text_unescaped_at(xml: Seq<u8>, trim: bool, k: nat) -> Option<Seq<char>>;

/// The content of CDATA event `k`.
pub uninterp spec fn cdata_at(xml: Seq<u8>, trim: bool, k: nat) -> Seq<char>;

/// The content (between `&` and `;`) of general reference event `k`.
pub uninterp spec fn reference_content_at(xml: Seq<u8>, trim: bool, k: nat) -> Seq<char>;

/// `Reader::from_reader` over a byte slice; no event read yet, text not trimmed (the
/// reader's default configuration).
#[verifier::external_body]
pub(crate) fn new_xml_cursor<'a>(xml: &'a [u8]) -> (c: XmlCursor<'a>)
    ensures
        c.source() == xml@,
        !c.trims(),
        c.position() == 0,
{
    XmlCursor { reader: Reader::from_reader(xml), xml, trim: false, count: 0 }
}

/// `Config::trim_text` on the reader's configuration, before any event is read: whether
/// white space around text events is dropped.
#[verifier::external_body]
pub(crate) fn set_trim_text(cursor: &mut XmlCursor, trim: bool)
    requires
        old(cursor).position() == 0,
    ensures
        final(cursor).source() == old(cursor).source(),
        final(cursor).trims() == trim,
        final(cursor).position() == 0,
{
    cursor.reader.config_mut().trim_text(trim);
    cursor.trim = trim;
}

/// The tag of the next event, counted as read.
fn advance<'a>(cursor: &mut XmlCursor<'a>) -> (tag: EventTag<'a>)
    requires
        old(cursor).count < u128::MAX,
    ensures
        tag.xml == old(cursor).xml,
        tag.trim == old(cursor).trim,
        tag.index == old(cursor).count,
        final(cursor).xml == old(cursor).xml,
        final(cursor).trim == old(cursor).trim,
        final(cursor).count == old(cursor).count + 1,
{
    let tag = EventTag { xml: cursor.xml, trim: cursor.trim, index: cursor.count };
    cursor.count = cursor.count + 1;
    tag
}

/// `Reader::read_event`: the next event of the document, its payload moved into
/// [`RawXmlEvent`] unchanged and tagged with its position.
#[verifier::external_body]
pub(crate) fn read_raw_event<'a>(cursor: &mut XmlCursor<'a>) -> (r: RawXmlEvent<'a>)
    requires
        old(cursor).position() < u128::MAX,
    ensures
        final(cursor).source() == old(cursor).source(),
        final(cursor).trims() == old(cursor).trims(),
        final(cursor).position() == old(cursor).position() + 1,
        raw_shape(r) == xml_event_at(old(cursor).source(), old(cursor).trims(), old(cursor).position()),
        raw_tagged(r, old(cursor).source(), old(cursor).trims(), old(cursor).position()),
{
    let tag = advance(cursor);
    match cursor.reader.read_event() {
        Ok(Event::Start(item)) => RawXmlEvent::Start(At { item, tag }),
        Ok(Event::Empty(item)) => RawXmlEvent::Empty(At { item, tag }),
        Ok(Event::End(item)) => RawXmlEvent::End(At { item, tag }),
        Ok(Event::Text(item)) => RawXmlEvent::Text(At { item, tag }),
        Ok(Event::CData(item)) => RawXmlEvent::CData(At { item, tag }),
        Ok(Event::GeneralRef(item)) => RawXmlEvent::GeneralRef(At { item, tag }),
        Ok(Event::Eof) => RawXmlEvent::Eof,
        Ok(_) => RawXmlEvent::Other,
        Err(error) => RawXmlEvent::Failed(error.to_string()),
    }
}

/// `BytesStart::name`, as written (with any namespace prefix).
#[verifier::external_body]
pub(crate) fn start_name(event: &At<BytesStart>) -> (r: String)
    ensures
        r@ == start_name_at(event.source(), event.trims(), event.index()),
{
    event.item.name().0.to_string()
}

/// `BytesEnd::name`, as written (with any namespace prefix).
#[verifier::external_body]
pub(crate) fn end_name(event: &At<BytesEnd>) -> (r: String)
    ensures
        r@ == end_name_at(event.source(), event.trims(), event.index()),
{
    event.item.name().0.to_string()
}

/// The length of `BytesStart::attributes_raw`.
#[verifier::external_body]
pub(crate) fn attributes_raw_len(event: &At<BytesStart>) -> (r: usize)
    ensures
        r as nat == attributes_raw_len_at(event.source(), event.trims(), event.index()),
{
    event.item.attributes_raw().len()
}

/// `BytesStart::attributes`: an iterator over the tag's attributes, none read yet.
#[verifier::external_body]
pub(crate) fn start_attributes<'a, 'b>(event: &'b At<'a, BytesStart<'a>>) -> (r: AttrCursor<'a, 'b>)
    ensures
        r.source() == event.source(),
        r.trims() == event.trims(),
        r.index() == event.index(),
        r.position() == 0,
{
    AttrCursor { attributes: event.item.attributes(), xml: event.tag.xml, trim: event.tag.trim, index: event.tag.index, count: 0 }
}

/// Where the next attribute stands (document, trim setting, event, slot), counted as read.
fn advance_attributes<'a, 'b>(cursor: &mut AttrCursor<'a, 'b>) -> (t: (&'a [u8], bool, u128, u128))
    requires
        old(cursor).count < u128::MAX,
    ensures
        t.0 == old(cursor).xml,
        t.1 == old(cursor).trim,
        t.2 == old(cursor).index,
        t.3 == old(cursor).count,
        final(cursor).xml == old(cursor).xml,
        final(cursor).trim == old(cursor).trim,
        final(cursor).index == old(cursor).index,
        final(cursor).count == old(cursor).count + 1,
{
    let t = (cursor.xml, cursor.trim, cursor.index, cursor.count);
    cursor.count = cursor.count + 1;
    t
}

/// `Iterator::next` on the attributes; a malformed attribute is `Some(Err(()))`.
#[verifier::external_body]
pub(crate) fn next_attribute<'a, 'b>(cursor: &mut AttrCursor<'a, 'b>) -> (r: Option<Result<AttrAt<'a, 'b>, ()>>)
    requires
        old(cursor).position() < u128::MAX,
    ensures
        final(cursor).source() == old(cursor).source(),
        final(cursor).trims() == old(cursor).trims(),
        final(cursor).index() == old(cursor).index(),
        final(cursor).position() == old(cursor).position() + 1,
        attribute_at(old(cursor).source(), old(cursor).trims(), old(cursor).index(), old(cursor).position()) == match r {
            None => None,
            Some(Ok(_)) => Some(true),
            Some(Err(_)) => Some(false),
        },
        r matches Some(Ok(a)) ==> (a.source() == old(cursor).source() && a.trims() == old(cursor).trims()
            && a.index() == old(cursor).index() && a.slot() == old(cursor).position()),
{
    let (xml, trim, index, slot) = advance_attributes(cursor);
    match cursor.attributes.next() {
        None => None,
        Some(Ok(attribute)) => Some(Ok(AttrAt { attribute, xml, trim, index, slot })),
        Some(Err(_)) => Some(Err(())),
    }
}

/// The attribute's key, as written.
#[verifier::external_body]
pub(crate) fn attribute_key(attribute: &AttrAt) -> (r: String)
    ensures
        r@ == attribute_key_at(attribute.source(), attribute.trims(), attribute.index(), attribute.slot()),
{
    attribute.attribute.key.0.to_string()
}

/// `Attribute::normalized_value` for XML 1.0; `None` when the value is malformed.
#[verifier::external_body]
pub(crate) fn attribute_normalized_value(attribute: &AttrAt) -> (r: Option<String>)
    ensures
        match r {
            Some(v) => attribute_value_at(attribute.source(), attribute.trims(), attribute.index(), attribute.slot()) == Some(v@),
            None => attribute_value_at(attribute.source(), attribute.trims(), attribute.index(), attribute.slot()) is None,
        },
{
    attribute.attribute.normalized_value(XmlVersion::Implicit1_0).ok().map(|value| value.into_owned())
}

/// The text event's content as it appears in the document (entities not resolved).
#[verifier::external_body]
pub(crate) fn text_raw(event: &At<BytesText>) -> (r: String)
    ensures
        r@ == text_raw_at(event.source(), event.trims(), event.index()),
{
    String::from(&*event.item)
}

/// `quick_xml::escape::unescape` of the text event's content; `None` when it fails.
#[verifier::external_body]
pub(crate) fn text_unescaped(event: &At<BytesText>) -> (r: Option<String>)
    ensures
        match r {
            Some(v) => text_unescaped_at(event.source(), event.trims(), event.index()) == Some(v@),
            None => text_unescaped_at(event.source(), event.trims(), event.index()) is None,
        },
{
    quick_xml::escape::unescape(&*event.item).ok().map(|value| value.into_owned())
}

/// The CDATA section's content.
#[verifier::external_body]
pub(crate) fn cdata_text(event: &At<BytesCData>) -> (r: String)
    ensures
        r@ == cdata_at(event.source(), event.trims(), event.index()),
{
    String::from(&*event.item)
}

/// The content inside a general reference (`amp` for `&amp;`).
#[verifier::external_body]
pub(crate) fn reference_name(event: &At<BytesRef>) -> (r: String)
    ensures
        r@ == reference_content_at(event.source(), event.trims(), event.index()),
{
    String::from(&*event.item)
}

} // verus!
