//! XML events read with `quick-xml`, turned into plain values the library's parsers fold.
use vstd::prelude::*;
use quick_xml::events::BytesRef;
use vstd::string::StringExecFns;
use crate::xml_events::{
    attribute_at, attribute_key, attribute_key_at, attribute_normalized_value, attribute_value_at,
    attributes_raw_len, attributes_raw_len_at, cdata_at, cdata_text, end_name, end_name_at,
    new_xml_cursor, next_attribute, read_raw_event, reference_content_at, reference_name,
    set_trim_text, start_attributes, start_name, start_name_at, text_raw, text_raw_at,
    text_unescaped, text_unescaped_at, xml_event_at, At, RawXmlEvent, XmlEventShape,
};
use quick_xml::events::BytesStart;

verus! {

/// One attribute of a start tag, or the point where the attribute list became malformed.
#[derive(Debug)]
pub enum XmlAttribute {
    /// The key as written, and the normalized value (`None` when the value is malformed).
    Attribute { key: String, value: Option<String> },
    Malformed,
}

/// An XML event as plain values.
#[derive(Debug)]
pub enum XmlItem {
    /// A start tag: its name as written, and its attributes up to the first malformed one.
    Start { name: String, attributes: Vec<XmlAttribute> },
    /// A self-closing tag.
    Empty { name: String, attributes: Vec<XmlAttribute> },
    End { name: String },
    /// Text: as written, and with entities resolved (`None` when that fails).
    Text { raw: String, unescaped: Option<String> },
    CData { text: String },
    /// A general reference (`&name;`): what it stands for, or why it cannot be resolved.
    Reference { resolved: Result<String, String> },
    Other,
    Eof,
    /// The document is malformed; the reader's message.
    Failed(String),
}

/// The text that a predefined XML entity stands for.
pub open spec fn predefined_entity(name: Seq<char>) -> Option<Seq<char>> {
    if name == seq!['l', 't'] {
        Some(seq!['<'])
    } else if name == seq!['g', 't'] {
        Some(seq!['>'])
    } else if name == seq!['a', 'm', 'p'] {
        Some(seq!['&'])
    } else if name == seq!['a', 'p', 'o', 's'] {
        Some(seq!['\''])
    } else if name == seq!['q', 'u', 'o', 't'] {
        Some(seq!['"'])
    } else {
        None
    }
}

/// `quick_xml::escape::resolve_xml_entity`: the replacement text of the five predefined
/// XML entities, and `None` for any other name.
#[verifier::external_body]
fn resolve_xml_entity(name: &str) -> (r: Option<&'static str>)
    ensures
        match r {
            Some(text) => predefined_entity(name@) == Some(text@),
            None => predefined_entity(name@) is None,
        },
{
    quick_xml::escape::resolve_xml_entity(name)
}

/// The value of an ASCII digit in base 10 or 16.
pub open spec fn radix_digit(c: char, radix: int) -> Option<int> {
    if '0' <= c && c <= '9' && (c as int) - ('0' as int) < radix {
        Some((c as int) - ('0' as int))
    } else if radix == 16 && 'a' <= c && c <= 'f' {
        Some((c as int) - ('a' as int) + 10)
    } else if radix == 16 && 'A' <= c && c <= 'F' {
        Some((c as int) - ('A' as int) + 10)
    } else {
        None
    }
}

/// The number that the digits spell in the base, if each is a digit of it.
pub open spec fn radix_value(digits: Seq<char>, radix: int) -> Option<int>
    decreases digits.len(),
{
    if digits.len() == 0 {
        Some(0)
    } else {
        match (radix_value(digits.drop_last(), radix), radix_digit(digits.last(), radix)) {
            (Some(v), Some(d)) => Some(v * radix + d),
            _ => None,
        }
    }
}

/// The character that a reference's content names: `#` and a decimal number, or `#x` and a
/// hexadecimal one, that fits in 32 bits, is not 0 and is a Unicode scalar value.
pub open spec fn char_reference_code(content: Seq<char>) -> Option<int> {
    if content.len() > 0 && content[0] == '#' {
        let num = content.skip(1);
        let hex = num.len() > 0 && num[0] == 'x';
        let digits = if hex { num.skip(1) } else { num };
        match radix_value(digits, if hex { 16 } else { 10 }) {
            Some(v) => if digits.len() > 0 && v <= u32::MAX && v != 0 && v <= 0x10FFFF && !(0xD800 <= v && v <= 0xDFFF) {
                Some(v)
            } else {
                None
            },
            None => None,
        }
    } else {
        None
    }
}

/// What `BytesRef::resolve_char_ref` of `quick-xml` gives for a reference with this
/// content, with the failure's message as its `Display` writes it.
pub uninterp spec fn char_reference_value(content: Seq<char>) -> Result<Option<char>, Seq<char>>;

/// `BytesRef::resolve_char_ref` on a reference with the given content (the text between
/// `&` and `;`). By its source (and `parse_number`): content that does not start with `#`
/// is an entity reference (`Ok(None)`); content that does names a character when the rest
/// is a decimal number, or `x` and a hexadecimal one, without sign, that fits in a `u32`, is
/// not 0 and is a valid `char`; otherwise it fails. The failure's message is not spelt out.
#[verifier::external_body]
fn char_reference(content: &str) -> (r: Result<Option<char>, String>)
    ensures
        match r {
            Ok(c) => char_reference_value(content@) == Ok::<Option<char>, Seq<char>>(c),
            Err(m) => char_reference_value(content@) == Err::<Option<char>, Seq<char>>(m@),
        },
        !(content@.len() > 0 && content@[0] == '#') ==> r matches Ok(None),
        content@.len() > 0 && content@[0] == '#' ==> match char_reference_code(content@) {
            Some(v) => r matches Ok(Some(c)) && c as int == v,
            None => r is Err,
        },
{
    BytesRef::new(content).resolve_char_ref().map_err(|error| error.to_string())
}

/// An attribute as plain values.
pub enum XmlAttributeView {
    Attribute { key: Seq<char>, value: Option<Seq<char>> },
    Malformed,
}

impl View for XmlAttribute {
    type V = XmlAttributeView;

    open spec fn view(&self) -> XmlAttributeView {
        match self {
            XmlAttribute::Attribute { key, value } => XmlAttributeView::Attribute {
                key: key@,
                value: match value {
                    Some(v) => Some(v@),
                    None => None,
                },
            },
            XmlAttribute::Malformed => XmlAttributeView::Malformed,
        }
    }
}

pub open spec fn attribute_views(v: Seq<XmlAttribute>) -> Seq<XmlAttributeView> {
    v.map_values(|a: XmlAttribute| a@)
}

/// Attribute `j` of tag event `k`, well-formed.
pub open spec fn attribute_view_at(xml: Seq<u8>, trim: bool, k: nat, j: nat) -> XmlAttributeView {
    XmlAttributeView::Attribute { key: attribute_key_at(xml, trim, k, j), value: attribute_value_at(xml, trim, k, j) }
}

/// The attributes of tag event `k` from slot `j` on: up to the end of the list, up to and
/// including the first malformed one, or, past `bound` slots, a final malformed mark (every
/// attribute spans at least one byte of the raw attribute text, so a list longer than that
/// text is not well-formed).
pub open spec fn attributes_from(xml: Seq<u8>, trim: bool, k: nat, j: nat, bound: nat) -> Seq<XmlAttributeView>
    decreases bound - j,
{
    if j > bound {
        seq![XmlAttributeView::Malformed]
    } else {
        match attribute_at(xml, trim, k, j) {
            None => Seq::empty(),
            Some(well_formed) => if !well_formed {
                seq![XmlAttributeView::Malformed]
            } else if j == bound {
                seq![attribute_view_at(xml, trim, k, j), XmlAttributeView::Malformed]
            } else {
                seq![attribute_view_at(xml, trim, k, j)] + attributes_from(xml, trim, k, j + 1, bound)
            },
        }
    }
}

/// The attributes of tag event `k`, in order, ending at the first malformed one.
pub open spec fn tag_attributes(xml: Seq<u8>, trim: bool, k: nat) -> Seq<XmlAttributeView> {
    attributes_from(xml, trim, k, 0, attributes_raw_len_at(xml, trim, k))
}

/// The attributes of a start tag, in order, ending at the first malformed one.
fn collect_attributes(event: &At<BytesStart>) -> (r: Vec<XmlAttribute>)
    ensures
        attribute_views(r@) == tag_attributes(event.source(), event.trims(), event.index()),
{
    let ghost x = event.source();
    let ghost t = event.trims();
    let ghost k = event.index();
    let mut out: Vec<XmlAttribute> = Vec::new();
    let bound = attributes_raw_len(event);
    let mut attributes = start_attributes(event);
    let mut steps: usize = 0;
    proof {
        assert(attribute_views(out@) + attributes_from(x, t, k, 0, bound as nat) =~= tag_attributes(x, t, k));
    }
    while steps <= bound
        invariant_except_break
            attribute_views(out@) + attributes_from(x, t, k, steps as nat, bound as nat) == tag_attributes(x, t, k),
            attributes.position() == steps,
        invariant
            steps <= bound,
            x == event.source(),
            t == event.trims(),
            k == event.index(),
            attributes.source() == x,
            attributes.trims() == t,
            attributes.index() == k,
        ensures
            steps == bound,
            attribute_views(out@) + seq![XmlAttributeView::Malformed] == tag_attributes(x, t, k),
        decreases bound - steps,
    {
        let ghost before = attribute_views(out@);
        match next_attribute(&mut attributes) {
            None => {
                proof {
                    assert(attribute_views(out@) =~= before + Seq::<XmlAttributeView>::empty());
                }
                return out;
            },
            Some(Ok(attribute)) => {
                let key = attribute_key(&attribute);
                let value = attribute_normalized_value(&attribute);
                out.push(XmlAttribute::Attribute { key, value });
                proof {
                    assert(attribute_views(out@) =~= before.push(attribute_view_at(x, t, k, steps as nat)));
                    if steps < bound {
                        assert(attribute_views(out@) + attributes_from(x, t, k, (steps + 1) as nat, bound as nat)
                            =~= before + attributes_from(x, t, k, steps as nat, bound as nat));
                    } else {
                        assert(attribute_views(out@) + seq![XmlAttributeView::Malformed]
                            =~= before + attributes_from(x, t, k, steps as nat, bound as nat));
                    }
                }
            },
            Some(Err(())) => {
                out.push(XmlAttribute::Malformed);
                proof {
                    assert(attribute_views(out@) =~= before + attributes_from(x, t, k, steps as nat, bound as nat));
                }
                return out;
            },
        }
        if steps == bound {
            break;
        }
        steps = steps + 1;
    }
    let ghost before = attribute_views(out@);
    out.push(XmlAttribute::Malformed);
    proof {
        assert(attribute_views(out@) =~= before + seq![XmlAttributeView::Malformed]);
    }
    out
}

/// What a general reference with this content stands for: the character of a character
/// reference, the text of a predefined entity, or why it stands for nothing (references are
/// resolved for ComicInfo.xml, whose message names the unknown entity).
pub open spec fn reference_resolution(content: Seq<char>) -> Result<Seq<char>, Seq<char>> {
    match char_reference_value(content) {
        Err(m) => Err(m),
        Ok(Some(c)) => Ok(seq![c]),
        Ok(None) => match predefined_entity(content) {
            Some(text) => Ok(text),
            None => Err("unknown ComicInfo.xml entity '&"@ + content + ";'"@),
        },
    }
}

/// What a general reference stands for, given its content (the text between `&` and `;`):
/// the character of a character reference, or the text of a predefined entity.
fn resolve_reference(content: &str) -> (r: Result<String, String>)
    ensures
        match r {
            Ok(text) => reference_resolution(content@) == Ok::<Seq<char>, Seq<char>>(text@),
            Err(m) => reference_resolution(content@) == Err::<Seq<char>, Seq<char>>(m@),
        },
{
    match char_reference(content) {
        Err(message) => Err(message),
        Ok(Some(c)) => {
            let text = crate::text::string_from_chars(&[c]);
            proof {
                assert(text@ =~= seq![c]);
            }
            Ok(text)
        },
        Ok(None) => {
            match resolve_xml_entity(content) {
                Some(text) => Ok(String::from_str(text)),
                None => {
                    let mut message = String::from_str("unknown ComicInfo.xml entity '&");
                    message.append(content);
                    message.append(";'");
                    Err(message)
                },
            }
        },
    }
}

/// An XML event as plain values.
pub enum XmlItemView {
    Start { name: Seq<char>, attributes: Seq<XmlAttributeView> },
    Empty { name: Seq<char>, attributes: Seq<XmlAttributeView> },
    End { name: Seq<char> },
    Text { raw: Seq<char>, unescaped: Option<Seq<char>> },
    CData { text: Seq<char> },
    Reference { resolved: Result<Seq<char>, Seq<char>> },
    Other,
    Eof,
    Failed(Seq<char>),
}

pub open spec fn opt_chars(o: Option<String>) -> Option<Seq<char>> {
    match o {
        Some(v) => Some(v@),
        None => None,
    }
}

impl View for XmlItem {
    type V = XmlItemView;

    open spec fn view(&self) -> XmlItemView {
        match self {
            XmlItem::Start { name, attributes } => XmlItemView::Start { name: name@, attributes: attribute_views(attributes@) },
            XmlItem::Empty { name, attributes } => XmlItemView::Empty { name: name@, attributes: attribute_views(attributes@) },
            XmlItem::End { name } => XmlItemView::End { name: name@ },
            XmlItem::Text { raw, unescaped } => XmlItemView::Text { raw: raw@, unescaped: opt_chars(*unescaped) },
            XmlItem::CData { text } => XmlItemView::CData { text: text@ },
            XmlItem::Reference { resolved } => XmlItemView::Reference {
                resolved: match resolved {
                    Ok(v) => Ok(v@),
                    Err(m) => Err(m@),
                },
            },
            XmlItem::Other => XmlItemView::Other,
            XmlItem::Eof => XmlItemView::Eof,
            XmlItem::Failed(m) => XmlItemView::Failed(m@),
        }
    }
}

pub open spec fn item_views(v: Seq<XmlItem>) -> Seq<XmlItemView> {
    v.map_values(|item: XmlItem| item@)
}

/// Event `k` of a document as plain values.
pub open spec fn item_at(xml: Seq<u8>, trim: bool, k: nat) -> XmlItemView {
    match xml_event_at(xml, trim, k) {
        XmlEventShape::Start => XmlItemView::Start { name: start_name_at(xml, trim, k), attributes: tag_attributes(xml, trim, k) },
        XmlEventShape::Empty => XmlItemView::Empty { name: start_name_at(xml, trim, k), attributes: tag_attributes(xml, trim, k) },
        XmlEventShape::End => XmlItemView::End { name: end_name_at(xml, trim, k) },
        XmlEventShape::Text => XmlItemView::Text { raw: text_raw_at(xml, trim, k), unescaped: text_unescaped_at(xml, trim, k) },
        XmlEventShape::CData => XmlItemView::CData { text: cdata_at(xml, trim, k) },
        XmlEventShape::GeneralRef => XmlItemView::Reference { resolved: reference_resolution(reference_content_at(xml, trim, k)) },
        XmlEventShape::Other => XmlItemView::Other,
        XmlEventShape::Eof => XmlItemView::Eof,
        XmlEventShape::Failed(m) => XmlItemView::Failed(m),
    }
}

pub open spec fn stuck_message() -> Seq<char> {
    "the reader did not reach the end of the document"@
}

/// The events from `k` on, up to and including the end of the document or the first
/// failure; past `bound` events, a failure (every event before the end of the document
/// consumes at least one byte, so a reader that outlasts the bytes is stuck).
pub open spec fn xml_items_from(xml: Seq<u8>, trim: bool, k: nat, bound: nat) -> Seq<XmlItemView>
    decreases bound - k,
{
    let item = item_at(xml, trim, k);
    if k > bound {
        seq![XmlItemView::Failed(stuck_message())]
    } else if item is Eof || item is Failed {
        seq![item]
    } else if k == bound {
        seq![item, XmlItemView::Failed(stuck_message())]
    } else {
        seq![item] + xml_items_from(xml, trim, k + 1, bound)
    }
}

/// The events of a document read with a trim setting, as plain values: up to and including
/// the end of the document or the first failure.
pub open spec fn xml_items_of(xml: Seq<u8>, trim: bool) -> Seq<XmlItemView> {
    xml_items_from(xml, trim, 0, xml.len())
}

/// Reads the document's events as plain values (see [`xml_items_of`]).
pub fn read_xml_items(xml: &[u8], trim_text: bool) -> (r: Vec<XmlItem>)
    ensures
        item_views(r@) == xml_items_of(xml@, trim_text),
{
    let mut cursor = new_xml_cursor(xml);
    set_trim_text(&mut cursor, trim_text);
    let ghost x = xml@;
    let ghost t = trim_text;
    let mut items: Vec<XmlItem> = Vec::new();
    let bound = xml.len();
    let mut steps: usize = 0;
    proof {
        assert(item_views(items@) + xml_items_from(x, t, 0, bound as nat) =~= xml_items_of(x, t));
    }
    while steps <= bound
        invariant_except_break
            item_views(items@) + xml_items_from(x, t, steps as nat, bound as nat) == xml_items_of(x, t),
            cursor.position() == steps,
        invariant
            x == xml@,
            t == trim_text,
            bound == xml@.len(),
            steps <= bound,
            cursor.source() == x,
            cursor.trims() == t,
        ensures
            steps == bound,
            item_views(items@) + seq![XmlItemView::Failed(stuck_message())] == xml_items_of(x, t),
        decreases bound - steps,
    {
        let ghost before = item_views(items@);
        let ghost k = steps as nat;
        let item = match read_raw_event(&mut cursor) {
            RawXmlEvent::Start(e) => XmlItem::Start { name: start_name(&e), attributes: collect_attributes(&e) },
            RawXmlEvent::Empty(e) => XmlItem::Empty { name: start_name(&e), attributes: collect_attributes(&e) },
            RawXmlEvent::End(e) => XmlItem::End { name: end_name(&e) },
            RawXmlEvent::Text(e) => XmlItem::Text { raw: text_raw(&e), unescaped: text_unescaped(&e) },
            RawXmlEvent::CData(e) => XmlItem::CData { text: cdata_text(&e) },
            RawXmlEvent::GeneralRef(e) => XmlItem::Reference { resolved: resolve_reference(reference_name(&e).as_str()) },
            RawXmlEvent::Other => XmlItem::Other,
            RawXmlEvent::Eof => {
                items.push(XmlItem::Eof);
                proof {
                    assert(item_views(items@) =~= before + xml_items_from(x, t, k, bound as nat));
                }
                return items;
            },
            RawXmlEvent::Failed(message) => {
                items.push(XmlItem::Failed(message));
                proof {
                    assert(item_views(items@) =~= before + xml_items_from(x, t, k, bound as nat));
                }
                return items;
            },
        };
        proof {
            assert(item@ == item_at(x, t, k));
        }
        items.push(item);
        proof {
            assert(item_views(items@) =~= before.push(item_at(x, t, k)));
            if steps < bound {
                assert(item_views(items@) + xml_items_from(x, t, k + 1, bound as nat)
                    =~= before + xml_items_from(x, t, k, bound as nat));
            } else {
                assert(item_views(items@) + seq![XmlItemView::Failed(stuck_message())]
                    =~= before + xml_items_from(x, t, k, bound as nat));
            }
        }
        if steps == bound {
            break;
        }
        steps = steps + 1;
    }
    let ghost before = item_views(items@);
    items.push(XmlItem::Failed(String::from_str("the reader did not reach the end of the document")));
    proof {
        assert(item_views(items@) =~= before + seq![XmlItemView::Failed(stuck_message())]);
    }
    items
}

} // verus!
