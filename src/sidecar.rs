use vstd::prelude::*;

use crate::text::{escape_attr, push_escaped_attr, push_str};

verus! {

/// The XML declaration line.
pub open spec fn declaration_line() -> Seq<char> {
    "<?xml version=\"1.0\" encoding=\"UTF-8\"?>\n"@
}

/// The opening line of the root element, naming the source image.
pub open spec fn root_open_line(source: Seq<char>) -> Seq<char> {
    "<ExifFromMetadata source=\""@ + escape_attr(source) + "\">\n"@
}

/// The closing line of the root element.
pub open spec fn root_close_line() -> Seq<char> {
    "</ExifFromMetadata>\n"@
}

/// One child element: the tag name as an attribute, the value as literal data.
pub open spec fn entry_line(name: Seq<char>, value: Seq<char>) -> Seq<char> {
    "  <tag name=\""@ + escape_attr(name) + "\"><![CDATA["@ + value + "]]></tag>\n"@
}

/// The child elements of a list of (name, value) pairs, in order.
pub open spec fn entry_lines(items: Seq<(Seq<char>, Seq<char>)>) -> Seq<char>
    decreases items.len(),
{
    if items.len() == 0 {
        Seq::empty()
    } else {
        entry_lines(items.drop_last()) + entry_line(items.last().0, items.last().1)
    }
}

/// The sidecar document for the image `source` with the tags `items`.
pub open spec fn sidecar_document(source: Seq<char>, items: Seq<(Seq<char>, Seq<char>)>) -> Seq<
    char,
> {
    declaration_line() + root_open_line(source) + entry_lines(items) + root_close_line()
}

pub open spec fn pairs_view(items: Seq<(String, String)>) -> Seq<(Seq<char>, Seq<char>)> {
    items.map_values(|p: (String, String)| (p.0@, p.1@))
}

/// Renders the sidecar document that mirrors the tags of the image
/// `source`: one `tag` element per (name, value) pair, the name escaped as an
/// attribute and the value kept verbatim in a literal-data section.
pub fn render_sidecar(source: &str, items: &[(String, String)]) -> (r: String)
    ensures
        r@ == sidecar_document(source@, pairs_view(items@)),
{
    let mut out = String::new();
    push_str(&mut out, "<?xml version=\"1.0\" encoding=\"UTF-8\"?>\n");
    push_str(&mut out, "<ExifFromMetadata source=\"");
    push_escaped_attr(&mut out, source);
    push_str(&mut out, "\">\n");
    let ghost head = out@;
    assert(head =~= declaration_line() + root_open_line(source@));
    let ghost all = pairs_view(items@);
    let mut i: usize = 0;
    while i < items.len()
        invariant
            i <= items@.len(),
            all == pairs_view(items@),
            out@ == head + entry_lines(all.take(i as int)),
        decreases items@.len() - i,
    {
        let ghost before = out@;
        push_str(&mut out, "  <tag name=\"");
        push_escaped_attr(&mut out, items[i].0.as_str());
        push_str(&mut out, "\"><![CDATA[");
        push_str(&mut out, items[i].1.as_str());
        push_str(&mut out, "]]></tag>\n");
        proof {
            let pre = all.take(i + 1);
            assert(pre.drop_last() =~= all.take(i as int));
            assert(pre.last() == (items@[i as int].0@, items@[i as int].1@));
            assert(out@ =~= before + entry_line(pre.last().0, pre.last().1));
        }
        i = i + 1;
    }
    assert(all.take(items@.len() as int) =~= all);
    push_str(&mut out, "</ExifFromMetadata>\n");
    out
}

} // verus!
