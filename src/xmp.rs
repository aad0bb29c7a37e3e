use quick_xml::events::Event;
use quick_xml::Reader;
use vstd::prelude::*;

use crate::sidecar::pairs_view;
use crate::tags::{attribute_tag, map_xmp_key_value_into_tag, Tag, TagView};

verus! {

/// quick_xml's pull reader, held opaque.
#[verifier::external_type_specification]
#[verifier::external_body]
#[verifier::reject_recursive_types(R)]
pub struct ExReader<R>(Reader<R>);

/// One event of an XML document, as the sidecar reader sees it.
pub enum XmlEvent {
    /// A start tag or an empty-element tag: its local name and its
    /// well-formed attributes as `(qualified name, unescaped value)` pairs.
    Element(Vec<u8>, Vec<(String, String)>),
    /// Any other event (text, end tag, comment, declaration, ...).
    Other,
    /// The end of the document, or the first error.
    End,
}

pub ghost enum XmlEventView {
    Element(Seq<u8>, Seq<(Seq<char>, Seq<char>)>),
    Other,
    End,
}

impl View for XmlEvent {
    type V = XmlEventView;

    open spec fn view(&self) -> XmlEventView {
        match self {
            XmlEvent::Element(name, attrs) => XmlEventView::Element(name@, pairs_view(attrs@)),
            XmlEvent::Other => XmlEventView::Other,
            XmlEvent::End => XmlEventView::End,
        }
    }
}

/// The events that quick_xml's reader, set to trim text, reads from `text`
/// before the end of the document or its first error.
pub uninterp spec fn xml_events(text: Seq<char>) -> Seq<XmlEventView>;

/// The events that a quick_xml reader has still to read before the end of
/// its document or its first error.
pub uninterp spec fn pending_events(reader: Reader<&[u8]>) -> Seq<XmlEventView>;

/// Relies on `quick_xml::Reader::from_str` and `Reader::trim_text(true)`: a
/// reader at the start of `text`, white space around text content left out.
#[verifier::external_body]
fn xml_reader<'a>(text: &'a str) -> (r: Reader<&'a [u8]>)
    ensures
        pending_events(r) == xml_events(text@),
{
    let mut reader = Reader::from_str(text);
    reader.trim_text(true);
    reader
}

/// Relies on `quick_xml::Reader::read_event`: the next event, a start or
/// empty-element tag as its local name (`BytesStart::local_name`) and its
/// well-formed attributes (`BytesStart::attributes`, names read as lossy
/// UTF-8, values by `Attribute::unescape_value` or empty); the end of the
/// document or an error ends the events.
#[verifier::external_body]
fn next_event(reader: &mut Reader<&[u8]>) -> (r: XmlEvent)
    ensures
        match r {
            XmlEvent::End => pending_events(*old(reader)).len() == 0,
            _ => {
                &&& pending_events(*old(reader)).len() > 0
                &&& r@ == pending_events(*old(reader))[0]
                &&& pending_events(*final(reader)) == pending_events(*old(reader)).drop_first()
            },
        },
{
    match reader.read_event() {
        Ok(Event::Start(e)) | Ok(Event::Empty(e)) => XmlEvent::Element(
            e.local_name().as_ref().to_vec(),
            e.attributes().flatten().map(|a| (
                String::from_utf8_lossy(a.key.as_ref()).into_owned(),
                a.unescape_value().unwrap_or_default().into_owned(),
            )).collect(),
        ),
        Ok(Event::Eof) | Err(_) => XmlEvent::End,
        Ok(_) => XmlEvent::Other,
    }
}

/// `Description`.
pub open spec fn description_name() -> Seq<u8> {
    seq![68u8, 101u8, 115u8, 99u8, 114u8, 105u8, 112u8, 116u8, 105u8, 111u8, 110u8]
}

/// Whether an element's local name ends in `Description`.
pub open spec fn is_description(name: Seq<u8>) -> bool {
    name.len() >= 11 && name.subrange(name.len() - 11, name.len() as int) == description_name()
}

/// Whether the local name `name` ends in `Description`.
pub fn ends_with_description(name: &[u8]) -> (r: bool)
    ensures
        r == is_description(name@),
{
    let d: [u8; 11] = [68, 101, 115, 99, 114, 105, 112, 116, 105, 111, 110];
    assert(d@ =~= description_name());
    let n = name.len();
    if n < 11 {
        return false;
    }
    let mut i: usize = 0;
    while i < 11
        invariant
            i <= 11,
            n == name@.len(),
            n >= 11,
            d@ == description_name(),
            forall|j: int| 0 <= j < i ==> name@[n - 11 + j] == d@[j],
        decreases 11 - i,
    {
        if name[n - 11 + i] != d[i] {
            assert(name@.subrange(n - 11, n as int)[i as int] != description_name()[i as int]);
            return false;
        }
        i = i + 1;
    }
    assert(name@.subrange(n - 11, n as int) =~= description_name());
    true
}

/// The tags that a list of `(name, value)` attributes maps onto, in order.
pub open spec fn attribute_tags(attrs: Seq<(Seq<char>, Seq<char>)>) -> Seq<TagView>
    decreases attrs.len(),
{
    if attrs.len() == 0 {
        Seq::empty()
    } else {
        let init = attribute_tags(attrs.drop_last());
        match attribute_tag(attrs.last().0, attrs.last().1) {
            Some(t) => init.push(t),
            None => init,
        }
    }
}

pub open spec fn tags_view(tags: Seq<Tag>) -> Seq<TagView> {
    tags.map_values(|t: Tag| t@)
}

/// Appends to `out` the tags that the attributes of an element map onto,
/// when the element's local name ends in `Description`; other elements
/// leave `out` as it was.
pub fn tags_from_element(local_name: &[u8], attrs: &[(String, String)], out: &mut Vec<Tag>)
    ensures
        tags_view(final(out)@) == tags_view(old(out)@) + (if is_description(local_name@) {
            attribute_tags(pairs_view(attrs@))
        } else {
            Seq::empty()
        }),
{
    if !ends_with_description(local_name) {
        assert(tags_view(out@) =~= tags_view(out@) + Seq::<TagView>::empty());
        return;
    }
    let ghost start = tags_view(out@);
    let ghost all = pairs_view(attrs@);
    let mut i: usize = 0;
    while i < attrs.len()
        invariant
            i <= attrs@.len(),
            all == pairs_view(attrs@),
            tags_view(out@) == start + attribute_tags(all.take(i as int)),
        decreases attrs@.len() - i,
    {
        let ghost before = out@;
        map_xmp_key_value_into_tag(attrs[i].0.as_str(), attrs[i].1.as_str(), out);
        proof {
            let pre = all.take(i + 1);
            assert(pre.drop_last() =~= all.take(i as int));
            assert(pre.last() == (attrs@[i as int].0@, attrs@[i as int].1@));
            match attribute_tag(attrs@[i as int].0@, attrs@[i as int].1@) {
                Some(t) => {
                    assert(out@ =~= before.push(out@.last()));
                    assert(tags_view(out@) =~= tags_view(before).push(t));
                },
                None => {},
            }
        }
        i = i + 1;
    }
    assert(all.take(attrs@.len() as int) =~= all);
}

/// The tags of the description elements among `events`, in document order.
pub open spec fn description_tags(events: Seq<XmlEventView>) -> Seq<TagView>
    decreases events.len(),
{
    if events.len() == 0 {
        Seq::empty()
    } else {
        description_tags(events.drop_last()) + match events.last() {
            XmlEventView::Element(name, attrs) => if is_description(name) {
                attribute_tags(attrs)
            } else {
                Seq::empty()
            },
            _ => Seq::empty(),
        }
    }
}

/// Reads the tags of an XMP sidecar document: every attribute of every
/// element whose local name ends in `Description` is mapped onto a tag, in
/// document order, up to the end of the document or its first malformed
/// event. `None` when no attribute maps onto a tag.
pub fn parse_xmp_to_exif_tags(text: &str) -> (r: Option<Vec<Tag>>)
    ensures
        match r {
            Some(tags) => {
                &&& tags@.len() > 0
                &&& tags_view(tags@) == description_tags(xml_events(text@))
            },
            None => description_tags(xml_events(text@)).len() == 0,
        },
{
    let mut reader = xml_reader(text);
    let ghost all = xml_events(text@);
    let ghost mut k: int = 0;
    let mut out: Vec<Tag> = Vec::new();
    loop
        invariant_except_break
            pending_events(reader) == all.skip(k),
        invariant
            0 <= k <= all.len(),
            all == xml_events(text@),
            tags_view(out@) == description_tags(all.take(k)),
        ensures
            tags_view(out@) == description_tags(all),
        decreases all.len() - k,
    {
        let ghost before = out@;
        let event = next_event(&mut reader);
        proof {
            if !(event is End) {
                let pre = all.take(k + 1);
                assert(pre.drop_last() =~= all.take(k));
                assert(pre.last() == all[k]);
                assert(all.skip(k).drop_first() =~= all.skip(k + 1));
            }
        }
        match event {
            XmlEvent::Element(name, attrs) => {
                tags_from_element(name.as_slice(), attrs.as_slice(), &mut out);
            },
            XmlEvent::Other => {
                assert(tags_view(out@) =~= tags_view(out@) + Seq::<TagView>::empty());
            },
            XmlEvent::End => {
                assert(all.take(k) =~= all);
                break;
            },
        }
        proof {
            k = k + 1;
        }
    }
    if out.len() == 0 {
        None
    } else {
        Some(out)
    }
}

} // verus!
