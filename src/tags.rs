use vstd::prelude::*;

use crate::numbers::{
    bounded_value, fraction_from_chars, fraction_of, iso_from_chars, iso_of, parse_unsigned,
    Rational,
};
use crate::text::{
    chars_eq_str, chars_of, lower_of, lowercase, split_whitespace, split_ws,
    string_of, trim, trim_chars,
};

verus! {

/// The EXIF fields that sidecar attributes map onto.
#[derive(Clone, Copy, Debug, PartialEq, Eq, Structural)]
pub enum TagField {
    Make,
    Model,
    Software,
    CreateDate,
    DateTimeOriginal,
    ModifyDate,
    Copyright,
    Artist,
    ImageDescription,
    SerialNumber,
    LensMake,
    LensModel,
    Iso,
    Orientation,
    ResolutionUnit,
    ExposureProgram,
    MeteringMode,
    Flash,
    WhiteBalance,
    FocalLengthIn35mmFormat,
    SceneCaptureType,
    Contrast,
    Saturation,
    Sharpness,
    FNumber,
    FocalLength,
    ExposureTime,
    XResolution,
    YResolution,
    MaxApertureValue,
    LensInfo,
}

/// How the text of an attribute becomes a tag value.
#[derive(Clone, Copy, Debug, PartialEq, Eq, Structural)]
pub enum ValueRule {
    /// The trimmed text itself.
    Text,
    /// An unsigned 16-bit integer.
    Short,
    /// An unsigned 16-bit integer, else the first number in the text, truncated.
    Iso,
    /// One rational, by the fraction rule.
    Fraction,
    /// Up to four rationals separated by white space.
    LensInfo,
}

/// A typed tag value.
#[derive(Clone, Debug)]
pub enum TagValue {
    Text(String),
    Shorts(Vec<u16>),
    Rationals(Vec<Rational>),
}

/// One named metadata field with its value.
#[derive(Clone, Debug)]
pub struct Tag {
    pub field: TagField,
    pub value: TagValue,
}

pub ghost enum TagValueView {
    Text(Seq<char>),
    Shorts(Seq<u16>),
    Rationals(Seq<Rational>),
}

pub ghost struct TagView {
    pub field: TagField,
    pub value: TagValueView,
}

impl View for TagValue {
    type V = TagValueView;

    open spec fn view(&self) -> TagValueView {
        match self {
            TagValue::Text(s) => TagValueView::Text(s@),
            TagValue::Shorts(v) => TagValueView::Shorts(v@),
            TagValue::Rationals(v) => TagValueView::Rationals(v@),
        }
    }
}

impl View for Tag {
    type V = TagView;

    open spec fn view(&self) -> TagView {
        TagView { field: self.field, value: self.value@ }
    }
}

/// The field and value rule of a lower-cased attribute name.
pub open spec fn key_rule(k: Seq<char>) -> Option<(TagField, ValueRule)> {
    if k == "make"@ {
        Some((TagField::Make, ValueRule::Text))
    } else if k == "model"@ {
        Some((TagField::Model, ValueRule::Text))
    } else if k == "creatortool"@ || k == "software"@ {
        Some((TagField::Software, ValueRule::Text))
    } else if k == "createdate"@ {
        Some((TagField::CreateDate, ValueRule::Text))
    } else if k == "datetimeoriginal"@ {
        Some((TagField::DateTimeOriginal, ValueRule::Text))
    } else if k == "modifydate"@ {
        Some((TagField::ModifyDate, ValueRule::Text))
    } else if k == "copyright"@ {
        Some((TagField::Copyright, ValueRule::Text))
    } else if k == "artist"@ {
        Some((TagField::Artist, ValueRule::Text))
    } else if k == "imagedescription"@ {
        Some((TagField::ImageDescription, ValueRule::Text))
    } else if k == "serialnumber"@ {
        Some((TagField::SerialNumber, ValueRule::Text))
    } else if k == "lensmake"@ {
        Some((TagField::LensMake, ValueRule::Text))
    } else if k == "lensmodel"@ {
        Some((TagField::LensModel, ValueRule::Text))
    } else if k == "isospeedratings"@ || k == "iso"@ || k == "recommendedexposureindex"@ {
        Some((TagField::Iso, ValueRule::Iso))
    } else if k == "fnumber"@ || k == "aperturevalue"@ {
        Some((TagField::FNumber, ValueRule::Fraction))
    } else if k == "focallength"@ {
        Some((TagField::FocalLength, ValueRule::Fraction))
    } else if k == "exposuretime"@ || k == "shutterspeedvalue"@ {
        Some((TagField::ExposureTime, ValueRule::Fraction))
    } else if k == "xresolution"@ {
        Some((TagField::XResolution, ValueRule::Fraction))
    } else if k == "yresolution"@ {
        Some((TagField::YResolution, ValueRule::Fraction))
    } else if k == "maxaperturevalue"@ {
        Some((TagField::MaxApertureValue, ValueRule::Fraction))
    } else if k == "orientation"@ {
        Some((TagField::Orientation, ValueRule::Short))
    } else if k == "resolutionunit"@ {
        Some((TagField::ResolutionUnit, ValueRule::Short))
    } else if k == "exposureprogram"@ {
        Some((TagField::ExposureProgram, ValueRule::Short))
    } else if k == "meteringmode"@ {
        Some((TagField::MeteringMode, ValueRule::Short))
    } else if k == "flash"@ {
        Some((TagField::Flash, ValueRule::Short))
    } else if k == "whitebalance"@ {
        Some((TagField::WhiteBalance, ValueRule::Short))
    } else if k == "focallengthin35mmfilm"@ {
        Some((TagField::FocalLengthIn35mmFormat, ValueRule::Short))
    } else if k == "scenecapturetype"@ {
        Some((TagField::SceneCaptureType, ValueRule::Short))
    } else if k == "contrast"@ {
        Some((TagField::Contrast, ValueRule::Short))
    } else if k == "saturation"@ {
        Some((TagField::Saturation, ValueRule::Short))
    } else if k == "sharpness"@ {
        Some((TagField::Sharpness, ValueRule::Short))
    } else if k == "lensinfo"@ {
        Some((TagField::LensInfo, ValueRule::LensInfo))
    } else {
        None
    }
}

/// The field and value rule of a lower-cased attribute name.
pub fn key_rule_of(k: &[char]) -> (r: Option<(TagField, ValueRule)>)
    ensures
        r == key_rule(k@),
{
    if chars_eq_str(k, "make") {
        Some((TagField::Make, ValueRule::Text))
    } else if chars_eq_str(k, "model") {
        Some((TagField::Model, ValueRule::Text))
    } else if chars_eq_str(k, "creatortool") || chars_eq_str(k, "software") {
        Some((TagField::Software, ValueRule::Text))
    } else if chars_eq_str(k, "createdate") {
        Some((TagField::CreateDate, ValueRule::Text))
    } else if chars_eq_str(k, "datetimeoriginal") {
        Some((TagField::DateTimeOriginal, ValueRule::Text))
    } else if chars_eq_str(k, "modifydate") {
        Some((TagField::ModifyDate, ValueRule::Text))
    } else if chars_eq_str(k, "copyright") {
        Some((TagField::Copyright, ValueRule::Text))
    } else if chars_eq_str(k, "artist") {
        Some((TagField::Artist, ValueRule::Text))
    } else if chars_eq_str(k, "imagedescription") {
        Some((TagField::ImageDescription, ValueRule::Text))
    } else if chars_eq_str(k, "serialnumber") {
        Some((TagField::SerialNumber, ValueRule::Text))
    } else if chars_eq_str(k, "lensmake") {
        Some((TagField::LensMake, ValueRule::Text))
    } else if chars_eq_str(k, "lensmodel") {
        Some((TagField::LensModel, ValueRule::Text))
    } else if chars_eq_str(k, "isospeedratings") || chars_eq_str(k, "iso") || chars_eq_str(
        k,
        "recommendedexposureindex",
    ) {
        Some((TagField::Iso, ValueRule::Iso))
    } else if chars_eq_str(k, "fnumber") || chars_eq_str(k, "aperturevalue") {
        Some((TagField::FNumber, ValueRule::Fraction))
    } else if chars_eq_str(k, "focallength") {
        Some((TagField::FocalLength, ValueRule::Fraction))
    } else if chars_eq_str(k, "exposuretime") || chars_eq_str(k, "shutterspeedvalue") {
        Some((TagField::ExposureTime, ValueRule::Fraction))
    } else if chars_eq_str(k, "xresolution") {
        Some((TagField::XResolution, ValueRule::Fraction))
    } else if chars_eq_str(k, "yresolution") {
        Some((TagField::YResolution, ValueRule::Fraction))
    } else if chars_eq_str(k, "maxaperturevalue") {
        Some((TagField::MaxApertureValue, ValueRule::Fraction))
    } else if chars_eq_str(k, "orientation") {
        Some((TagField::Orientation, ValueRule::Short))
    } else if chars_eq_str(k, "resolutionunit") {
        Some((TagField::ResolutionUnit, ValueRule::Short))
    } else if chars_eq_str(k, "exposureprogram") {
        Some((TagField::ExposureProgram, ValueRule::Short))
    } else if chars_eq_str(k, "meteringmode") {
        Some((TagField::MeteringMode, ValueRule::Short))
    } else if chars_eq_str(k, "flash") {
        Some((TagField::Flash, ValueRule::Short))
    } else if chars_eq_str(k, "whitebalance") {
        Some((TagField::WhiteBalance, ValueRule::Short))
    } else if chars_eq_str(k, "focallengthin35mmfilm") {
        Some((TagField::FocalLengthIn35mmFormat, ValueRule::Short))
    } else if chars_eq_str(k, "scenecapturetype") {
        Some((TagField::SceneCaptureType, ValueRule::Short))
    } else if chars_eq_str(k, "contrast") {
        Some((TagField::Contrast, ValueRule::Short))
    } else if chars_eq_str(k, "saturation") {
        Some((TagField::Saturation, ValueRule::Short))
    } else if chars_eq_str(k, "sharpness") {
        Some((TagField::Sharpness, ValueRule::Short))
    } else if chars_eq_str(k, "lensinfo") {
        Some((TagField::LensInfo, ValueRule::LensInfo))
    } else {
        None
    }
}

/// The rationals of a list of tokens, `None` when one of them is not a number.
pub open spec fn rationals_of(ts: Seq<Seq<char>>) -> Option<Seq<Rational>>
    decreases ts.len(),
{
    if ts.len() == 0 {
        Some(Seq::empty())
    } else {
        match (rationals_of(ts.drop_last()), fraction_of(ts.last())) {
            (Some(rs), Some(r)) => Some(rs.push(r)),
            _ => None,
        }
    }
}

/// Lens information: the first (at most four) words of `v`, each by the
/// fraction rule; `None` unless all of them parse.
pub open spec fn lens_info_of(v: Seq<char>) -> Option<Seq<Rational>> {
    let words = split_ws(v);
    let first = words.take(if words.len() < 4 { words.len() as int } else { 4 });
    match rationals_of(first) {
        Some(rs) => if rs.len() > 0 {
            Some(rs)
        } else {
            None
        },
        None => None,
    }
}

/// The value that `rule` makes of the trimmed, non-empty text `v`.
pub open spec fn value_of(rule: ValueRule, v: Seq<char>) -> Option<TagValueView> {
    match rule {
        ValueRule::Text => Some(TagValueView::Text(v)),
        ValueRule::Short => match bounded_value(v, 65535) {
            Some(n) => Some(TagValueView::Shorts(seq![n as u16])),
            None => None,
        },
        ValueRule::Iso => match iso_of(v) {
            Some(n) => Some(TagValueView::Shorts(seq![n])),
            None => None,
        },
        ValueRule::Fraction => match fraction_of(v) {
            Some(r) => Some(TagValueView::Rationals(seq![r])),
            None => None,
        },
        ValueRule::LensInfo => match lens_info_of(v) {
            Some(rs) => Some(TagValueView::Rationals(rs)),
            None => None,
        },
    }
}

/// The tag that the lower-cased attribute name `key` with text `val` maps
/// onto: none for an unknown name, for text that is empty once trimmed, or
/// for a value the name's rule cannot read.
pub open spec fn tag_of(key: Seq<char>, val: Seq<char>) -> Option<TagView> {
    let v = trim(val);
    if v.len() == 0 {
        None
    } else {
        match key_rule(key) {
            Some((field, rule)) => match value_of(rule, v) {
                Some(value) => Some(TagView { field, value }),
                None => None,
            },
            None => None,
        }
    }
}

/// The part of an attribute name after its last `:` (all of it without one).
pub open spec fn local_part(s: Seq<char>) -> Seq<char>
    decreases s.len(),
{
    if s.len() == 0 {
        s
    } else if s.last() == ':' {
        Seq::empty()
    } else {
        local_part(s.drop_last()).push(s.last())
    }
}

/// The tag that an attribute `key="val"` of a description element maps onto.
pub open spec fn attribute_tag(key: Seq<char>, val: Seq<char>) -> Option<TagView> {
    tag_of(lower_of(local_part(key)), val)
}

/// Lens information from the words of `v`.
pub fn lens_info_from_chars(v: &[char]) -> (r: Option<Vec<Rational>>)
    ensures
        match r {
            Some(rs) => lens_info_of(v@) == Some(rs@),
            None => lens_info_of(v@) is None,
        },
{
    let words = split_whitespace(v);
    let ghost ws = split_ws(v@);
    let n: usize = if words.len() < 4 {
        words.len()
    } else {
        4
    };
    let ghost first = ws.take(n as int);
    let mut out: Vec<Rational> = Vec::new();
    let mut ok = true;
    let mut i: usize = 0;
    while i < n
        invariant
            i <= n <= words@.len(),
            words@.len() == ws.len(),
            forall|j: int| 0 <= j < words@.len() ==> words@[j]@ == ws[j],
            first == ws.take(n as int),
            ok ==> rationals_of(first.take(i as int)) == Some(out@),
            !ok ==> rationals_of(first.take(i as int)) is None,
        decreases n - i,
    {
        let f = fraction_from_chars(words[i].as_slice());
        proof {
            let pre = first.take(i + 1);
            assert(pre.drop_last() =~= first.take(i as int));
            assert(pre.last() == ws[i as int]);
        }
        match f {
            Some(r) => {
                if ok {
                    out.push(r);
                }
            },
            None => {
                ok = false;
            },
        }
        i = i + 1;
    }
    assert(first.take(n as int) =~= first);
    if ok && out.len() > 0 {
        Some(out)
    } else {
        None
    }
}

fn single<T>(x: T) -> (r: Vec<T>)
    ensures
        r@ == seq![x],
{
    let mut r = Vec::new();
    r.push(x);
    assert(r@ =~= seq![x]);
    r
}

/// The tag that the lower-cased attribute name `key` with text `val` maps onto.
pub fn tag_from_key_value(key: &[char], val: &[char]) -> (r: Option<Tag>)
    ensures
        match r {
            Some(t) => tag_of(key@, val@) == Some(t@),
            None => tag_of(key@, val@) is None,
        },
{
    let v = trim_chars(val);
    if v.len() == 0 {
        return None;
    }
    let (field, rule) = match key_rule_of(key) {
        Some(fr) => fr,
        None => return None,
    };
    let value = match rule {
        ValueRule::Text => TagValue::Text(string_of(v.as_slice())),
        ValueRule::Short => match parse_unsigned(v.as_slice(), 65535) {
            Some(n) => TagValue::Shorts(single(n as u16)),
            None => return None,
        },
        ValueRule::Iso => match iso_from_chars(v.as_slice()) {
            Some(n) => TagValue::Shorts(single(n)),
            None => return None,
        },
        ValueRule::Fraction => match fraction_from_chars(v.as_slice()) {
            Some(q) => TagValue::Rationals(single(q)),
            None => return None,
        },
        ValueRule::LensInfo => match lens_info_from_chars(v.as_slice()) {
            Some(rs) => TagValue::Rationals(rs),
            None => return None,
        },
    };
    Some(Tag { field, value })
}

proof fn lemma_local_part(s: Seq<char>, k: int)
    requires
        0 <= k <= s.len(),
        k == 0 || s[k - 1] == ':',
        forall|j: int| k <= j < s.len() ==> s[j] != ':',
    ensures
        local_part(s) == s.subrange(k, s.len() as int),
    decreases s.len() - k,
{
    if s.len() == k {
        if k > 0 {
            assert(s.last() == ':');
        }
        assert(s.subrange(k, s.len() as int) =~= Seq::<char>::empty());
    } else {
        lemma_local_part(s.drop_last(), k);
        assert(s.drop_last().subrange(k, s.len() - 1).push(s.last()) =~= s.subrange(
            k,
            s.len() as int,
        ));
    }
}

/// The part of an attribute name after its last `:`.
pub fn local_part_of(key: &[char]) -> (r: Vec<char>)
    ensures
        r@ == local_part(key@),
{
    let mut k: usize = key.len();
    while k > 0 && key[k - 1] != ':'
        invariant
            k <= key@.len(),
            forall|j: int| k <= j < key@.len() ==> key@[j] != ':',
        decreases k,
    {
        k = k - 1;
    }
    proof {
        lemma_local_part(key@, k as int);
    }
    vstd::slice::slice_to_vec(&key[k..key.len()])
}

/// Maps the attribute `key="val"` of a description element onto a tag and
/// appends it to `out`; an attribute that maps onto nothing leaves `out` as
/// it was.
pub fn map_xmp_key_value_into_tag(key: &str, val: &str, out: &mut Vec<Tag>)
    ensures
        match attribute_tag(key@, val@) {
            Some(t) => {
                &&& final(out)@.len() == old(out)@.len() + 1
                &&& final(out)@.take(old(out)@.len() as int) == old(out)@
                &&& final(out)@.last()@ == t
            },
            None => final(out)@ == old(out)@,
        },
{
    let local = local_part_of(chars_of(key).as_slice());
    let lowered = lowercase(string_of(local.as_slice()).as_str());
    let k = chars_of(lowered.as_str());
    let v = chars_of(val);
    match tag_from_key_value(k.as_slice(), v.as_slice()) {
        Some(t) => {
            out.push(t);
            assert(final(out)@.take(old(out)@.len() as int) =~= old(out)@);
        },
        None => {},
    }
}

} // verus!
