use vstd::prelude::*;

use crate::numbers::{
    all_digits, bounded_value, digit_value, digits_value, fraction_of, is_digit, is_first_index,
    lemma_first_index_unique, u32_max, unsigned_value, Rational,
};
use crate::tags::{
    key_rule, lens_info_of, rationals_of, tag_of, value_of, TagField, TagValueView, TagView, ValueRule,
};
use crate::text::{decimal, digit_char, is_white_space, split_ws, trim, trim_end, trim_start};

verus! {

/// The lower-cased attribute name that stands for a field in a sidecar.
pub open spec fn field_key(f: TagField) -> Seq<char> {
    match f {
        TagField::Make => "make"@,
        TagField::Model => "model"@,
        TagField::Software => "software"@,
        TagField::CreateDate => "createdate"@,
        TagField::DateTimeOriginal => "datetimeoriginal"@,
        TagField::ModifyDate => "modifydate"@,
        TagField::Copyright => "copyright"@,
        TagField::Artist => "artist"@,
        TagField::ImageDescription => "imagedescription"@,
        TagField::SerialNumber => "serialnumber"@,
        TagField::LensMake => "lensmake"@,
        TagField::LensModel => "lensmodel"@,
        TagField::Iso => "isospeedratings"@,
        TagField::Orientation => "orientation"@,
        TagField::ResolutionUnit => "resolutionunit"@,
        TagField::ExposureProgram => "exposureprogram"@,
        TagField::MeteringMode => "meteringmode"@,
        TagField::Flash => "flash"@,
        TagField::WhiteBalance => "whitebalance"@,
        TagField::FocalLengthIn35mmFormat => "focallengthin35mmfilm"@,
        TagField::SceneCaptureType => "scenecapturetype"@,
        TagField::Contrast => "contrast"@,
        TagField::Saturation => "saturation"@,
        TagField::Sharpness => "sharpness"@,
        TagField::FNumber => "fnumber"@,
        TagField::FocalLength => "focallength"@,
        TagField::ExposureTime => "exposuretime"@,
        TagField::XResolution => "xresolution"@,
        TagField::YResolution => "yresolution"@,
        TagField::MaxApertureValue => "maxaperturevalue"@,
        TagField::LensInfo => "lensinfo"@,
    }
}

/// The rule by which a field's attribute text is read.
pub open spec fn field_rule(f: TagField) -> ValueRule {
    match f {
        TagField::Iso => ValueRule::Iso,
        TagField::Orientation | TagField::ResolutionUnit | TagField::ExposureProgram
        | TagField::MeteringMode | TagField::Flash | TagField::WhiteBalance
        | TagField::FocalLengthIn35mmFormat | TagField::SceneCaptureType | TagField::Contrast
        | TagField::Saturation | TagField::Sharpness => ValueRule::Short,
        TagField::FNumber | TagField::FocalLength | TagField::ExposureTime | TagField::XResolution
        | TagField::YResolution | TagField::MaxApertureValue => ValueRule::Fraction,
        TagField::LensInfo => ValueRule::LensInfo,
        _ => ValueRule::Text,
    }
}

/// A rational written in fraction form, `numerator/denominator`.
pub open spec fn fraction_text(r: Rational) -> Seq<char> {
    decimal(r.numerator as nat) + seq!['/'] + decimal(r.denominator as nat)
}

/// Rationals in fraction form, separated by single spaces.
pub open spec fn fractions_text(rs: Seq<Rational>) -> Seq<char>
    decreases rs.len(),
{
    if rs.len() <= 1 {
        if rs.len() == 1 {
            fraction_text(rs[0])
        } else {
            Seq::empty()
        }
    } else {
        fractions_text(rs.drop_last()) + seq![' '] + fraction_text(rs.last())
    }
}

/// The attribute text of a tag value: text as it is, an integer in decimal,
/// rationals in fraction form separated by spaces.
pub open spec fn value_text(v: TagValueView) -> Seq<char> {
    match v {
        TagValueView::Text(s) => s,
        TagValueView::Shorts(ns) => decimal(ns[0] as nat),
        TagValueView::Rationals(rs) => fractions_text(rs),
    }
}

/// A tag whose value has the shape its field's rule reads: trimmed
/// non-empty text, one integer, one rational, or one to four rationals of
/// lens information.
pub open spec fn readable_shape(t: TagView) -> bool {
    match (field_rule(t.field), t.value) {
        (ValueRule::Text, TagValueView::Text(s)) => s.len() > 0 && trim(s) == s,
        (ValueRule::Short, TagValueView::Shorts(ns)) => ns.len() == 1,
        (ValueRule::Iso, TagValueView::Shorts(ns)) => ns.len() == 1,
        (ValueRule::Fraction, TagValueView::Rationals(rs)) => rs.len() == 1,
        (ValueRule::LensInfo, TagValueView::Rationals(rs)) => 1 <= rs.len() <= 4,
        _ => false,
    }
}

/// The attribute names of the key table, character by character.
proof fn lemma_key_names()
    ensures
        "make"@ == seq!['m', 'a', 'k', 'e'],
        "model"@ == seq!['m', 'o', 'd', 'e', 'l'],
        "creatortool"@ == seq!['c', 'r', 'e', 'a', 't', 'o', 'r', 't', 'o', 'o', 'l'],
        "software"@ == seq!['s', 'o', 'f', 't', 'w', 'a', 'r', 'e'],
        "createdate"@ == seq!['c', 'r', 'e', 'a', 't', 'e', 'd', 'a', 't', 'e'],
        "datetimeoriginal"@ == seq!['d', 'a', 't', 'e', 't', 'i', 'm', 'e', 'o', 'r', 'i', 'g', 'i', 'n', 'a', 'l'],
        "modifydate"@ == seq!['m', 'o', 'd', 'i', 'f', 'y', 'd', 'a', 't', 'e'],
        "copyright"@ == seq!['c', 'o', 'p', 'y', 'r', 'i', 'g', 'h', 't'],
        "artist"@ == seq!['a', 'r', 't', 'i', 's', 't'],
        "imagedescription"@ == seq!['i', 'm', 'a', 'g', 'e', 'd', 'e', 's', 'c', 'r', 'i', 'p', 't', 'i', 'o', 'n'],
        "serialnumber"@ == seq!['s', 'e', 'r', 'i', 'a', 'l', 'n', 'u', 'm', 'b', 'e', 'r'],
        "lensmake"@ == seq!['l', 'e', 'n', 's', 'm', 'a', 'k', 'e'],
        "lensmodel"@ == seq!['l', 'e', 'n', 's', 'm', 'o', 'd', 'e', 'l'],
        "isospeedratings"@ == seq!['i', 's', 'o', 's', 'p', 'e', 'e', 'd', 'r', 'a', 't', 'i', 'n', 'g', 's'],
        "iso"@ == seq!['i', 's', 'o'],
        "recommendedexposureindex"@ == seq!['r', 'e', 'c', 'o', 'm', 'm', 'e', 'n', 'd', 'e', 'd', 'e', 'x', 'p', 'o', 's', 'u', 'r', 'e', 'i', 'n', 'd', 'e', 'x'],
        "fnumber"@ == seq!['f', 'n', 'u', 'm', 'b', 'e', 'r'],
        "aperturevalue"@ == seq!['a', 'p', 'e', 'r', 't', 'u', 'r', 'e', 'v', 'a', 'l', 'u', 'e'],
        "focallength"@ == seq!['f', 'o', 'c', 'a', 'l', 'l', 'e', 'n', 'g', 't', 'h'],
        "exposuretime"@ == seq!['e', 'x', 'p', 'o', 's', 'u', 'r', 'e', 't', 'i', 'm', 'e'],
        "shutterspeedvalue"@ == seq!['s', 'h', 'u', 't', 't', 'e', 'r', 's', 'p', 'e', 'e', 'd', 'v', 'a', 'l', 'u', 'e'],
        "xresolution"@ == seq!['x', 'r', 'e', 's', 'o', 'l', 'u', 't', 'i', 'o', 'n'],
        "yresolution"@ == seq!['y', 'r', 'e', 's', 'o', 'l', 'u', 't', 'i', 'o', 'n'],
        "maxaperturevalue"@ == seq!['m', 'a', 'x', 'a', 'p', 'e', 'r', 't', 'u', 'r', 'e', 'v', 'a', 'l', 'u', 'e'],
        "orientation"@ == seq!['o', 'r', 'i', 'e', 'n', 't', 'a', 't', 'i', 'o', 'n'],
        "resolutionunit"@ == seq!['r', 'e', 's', 'o', 'l', 'u', 't', 'i', 'o', 'n', 'u', 'n', 'i', 't'],
        "exposureprogram"@ == seq!['e', 'x', 'p', 'o', 's', 'u', 'r', 'e', 'p', 'r', 'o', 'g', 'r', 'a', 'm'],
        "meteringmode"@ == seq!['m', 'e', 't', 'e', 'r', 'i', 'n', 'g', 'm', 'o', 'd', 'e'],
        "flash"@ == seq!['f', 'l', 'a', 's', 'h'],
        "whitebalance"@ == seq!['w', 'h', 'i', 't', 'e', 'b', 'a', 'l', 'a', 'n', 'c', 'e'],
        "focallengthin35mmfilm"@ == seq!['f', 'o', 'c', 'a', 'l', 'l', 'e', 'n', 'g', 't', 'h', 'i', 'n', '3', '5', 'm', 'm', 'f', 'i', 'l', 'm'],
        "scenecapturetype"@ == seq!['s', 'c', 'e', 'n', 'e', 'c', 'a', 'p', 't', 'u', 'r', 'e', 't', 'y', 'p', 'e'],
        "contrast"@ == seq!['c', 'o', 'n', 't', 'r', 'a', 's', 't'],
        "saturation"@ == seq!['s', 'a', 't', 'u', 'r', 'a', 't', 'i', 'o', 'n'],
        "sharpness"@ == seq!['s', 'h', 'a', 'r', 'p', 'n', 'e', 's', 's'],
        "lensinfo"@ == seq!['l', 'e', 'n', 's', 'i', 'n', 'f', 'o'],
{
    reveal_strlit("make");
    reveal_strlit("model");
    reveal_strlit("creatortool");
    reveal_strlit("software");
    reveal_strlit("createdate");
    reveal_strlit("datetimeoriginal");
    reveal_strlit("modifydate");
    reveal_strlit("copyright");
    reveal_strlit("artist");
    reveal_strlit("imagedescription");
    reveal_strlit("serialnumber");
    reveal_strlit("lensmake");
    reveal_strlit("lensmodel");
    reveal_strlit("isospeedratings");
    reveal_strlit("iso");
    reveal_strlit("recommendedexposureindex");
    reveal_strlit("fnumber");
    reveal_strlit("aperturevalue");
    reveal_strlit("focallength");
    reveal_strlit("exposuretime");
    reveal_strlit("shutterspeedvalue");
    reveal_strlit("xresolution");
    reveal_strlit("yresolution");
    reveal_strlit("maxaperturevalue");
    reveal_strlit("orientation");
    reveal_strlit("resolutionunit");
    reveal_strlit("exposureprogram");
    reveal_strlit("meteringmode");
    reveal_strlit("flash");
    reveal_strlit("whitebalance");
    reveal_strlit("focallengthin35mmfilm");
    reveal_strlit("scenecapturetype");
    reveal_strlit("contrast");
    reveal_strlit("saturation");
    reveal_strlit("sharpness");
    reveal_strlit("lensinfo");
    assert("make"@ =~= seq!['m', 'a', 'k', 'e']);
    assert("model"@ =~= seq!['m', 'o', 'd', 'e', 'l']);
    assert("creatortool"@ =~= seq!['c', 'r', 'e', 'a', 't', 'o', 'r', 't', 'o', 'o', 'l']);
    assert("software"@ =~= seq!['s', 'o', 'f', 't', 'w', 'a', 'r', 'e']);
    assert("createdate"@ =~= seq!['c', 'r', 'e', 'a', 't', 'e', 'd', 'a', 't', 'e']);
    assert("datetimeoriginal"@ =~= seq!['d', 'a', 't', 'e', 't', 'i', 'm', 'e', 'o', 'r', 'i', 'g', 'i', 'n', 'a', 'l']);
    assert("modifydate"@ =~= seq!['m', 'o', 'd', 'i', 'f', 'y', 'd', 'a', 't', 'e']);
    assert("copyright"@ =~= seq!['c', 'o', 'p', 'y', 'r', 'i', 'g', 'h', 't']);
    assert("artist"@ =~= seq!['a', 'r', 't', 'i', 's', 't']);
    assert("imagedescription"@ =~= seq!['i', 'm', 'a', 'g', 'e', 'd', 'e', 's', 'c', 'r', 'i', 'p', 't', 'i', 'o', 'n']);
    assert("serialnumber"@ =~= seq!['s', 'e', 'r', 'i', 'a', 'l', 'n', 'u', 'm', 'b', 'e', 'r']);
    assert("lensmake"@ =~= seq!['l', 'e', 'n', 's', 'm', 'a', 'k', 'e']);
    assert("lensmodel"@ =~= seq!['l', 'e', 'n', 's', 'm', 'o', 'd', 'e', 'l']);
    assert("isospeedratings"@ =~= seq!['i', 's', 'o', 's', 'p', 'e', 'e', 'd', 'r', 'a', 't', 'i', 'n', 'g', 's']);
    assert("iso"@ =~= seq!['i', 's', 'o']);
    assert("recommendedexposureindex"@ =~= seq!['r', 'e', 'c', 'o', 'm', 'm', 'e', 'n', 'd', 'e', 'd', 'e', 'x', 'p', 'o', 's', 'u', 'r', 'e', 'i', 'n', 'd', 'e', 'x']);
    assert("fnumber"@ =~= seq!['f', 'n', 'u', 'm', 'b', 'e', 'r']);
    assert("aperturevalue"@ =~= seq!['a', 'p', 'e', 'r', 't', 'u', 'r', 'e', 'v', 'a', 'l', 'u', 'e']);
    assert("focallength"@ =~= seq!['f', 'o', 'c', 'a', 'l', 'l', 'e', 'n', 'g', 't', 'h']);
    assert("exposuretime"@ =~= seq!['e', 'x', 'p', 'o', 's', 'u', 'r', 'e', 't', 'i', 'm', 'e']);
    assert("shutterspeedvalue"@ =~= seq!['s', 'h', 'u', 't', 't', 'e', 'r', 's', 'p', 'e', 'e', 'd', 'v', 'a', 'l', 'u', 'e']);
    assert("xresolution"@ =~= seq!['x', 'r', 'e', 's', 'o', 'l', 'u', 't', 'i', 'o', 'n']);
    assert("yresolution"@ =~= seq!['y', 'r', 'e', 's', 'o', 'l', 'u', 't', 'i', 'o', 'n']);
    assert("maxaperturevalue"@ =~= seq!['m', 'a', 'x', 'a', 'p', 'e', 'r', 't', 'u', 'r', 'e', 'v', 'a', 'l', 'u', 'e']);
    assert("orientation"@ =~= seq!['o', 'r', 'i', 'e', 'n', 't', 'a', 't', 'i', 'o', 'n']);
    assert("resolutionunit"@ =~= seq!['r', 'e', 's', 'o', 'l', 'u', 't', 'i', 'o', 'n', 'u', 'n', 'i', 't']);
    assert("exposureprogram"@ =~= seq!['e', 'x', 'p', 'o', 's', 'u', 'r', 'e', 'p', 'r', 'o', 'g', 'r', 'a', 'm']);
    assert("meteringmode"@ =~= seq!['m', 'e', 't', 'e', 'r', 'i', 'n', 'g', 'm', 'o', 'd', 'e']);
    assert("flash"@ =~= seq!['f', 'l', 'a', 's', 'h']);
    assert("whitebalance"@ =~= seq!['w', 'h', 'i', 't', 'e', 'b', 'a', 'l', 'a', 'n', 'c', 'e']);
    assert("focallengthin35mmfilm"@ =~= seq!['f', 'o', 'c', 'a', 'l', 'l', 'e', 'n', 'g', 't', 'h', 'i', 'n', '3', '5', 'm', 'm', 'f', 'i', 'l', 'm']);
    assert("scenecapturetype"@ =~= seq!['s', 'c', 'e', 'n', 'e', 'c', 'a', 'p', 't', 'u', 'r', 'e', 't', 'y', 'p', 'e']);
    assert("contrast"@ =~= seq!['c', 'o', 'n', 't', 'r', 'a', 's', 't']);
    assert("saturation"@ =~= seq!['s', 'a', 't', 'u', 'r', 'a', 't', 'i', 'o', 'n']);
    assert("sharpness"@ =~= seq!['s', 'h', 'a', 'r', 'p', 'n', 'e', 's', 's']);
    assert("lensinfo"@ =~= seq!['l', 'e', 'n', 's', 'i', 'n', 'f', 'o']);
}

proof fn lemma_key_rule(f: TagField)
    ensures
        key_rule(field_key(f)) == Some((f, field_rule(f))),
{
    lemma_key_names();
    match f {
        TagField::Make => {},
        TagField::Model => {},
        TagField::Software => {},
        TagField::CreateDate => {},
        TagField::DateTimeOriginal => {},
        TagField::ModifyDate => {
            assert("modifydate"@[0] != "createdate"@[0]);
        },
        TagField::Copyright => {},
        TagField::Artist => {},
        TagField::ImageDescription => {
            assert("imagedescription"@[0] != "datetimeoriginal"@[0]);
        },
        TagField::SerialNumber => {},
        TagField::LensMake => {
            assert("lensmake"@[0] != "software"@[0]);
        },
        TagField::LensModel => {
            assert("lensmodel"@[0] != "copyright"@[0]);
        },
        TagField::Iso => {},
        TagField::Orientation => {
            assert("orientation"@[0] != "creatortool"@[0]);
            assert("orientation"@[0] != "focallength"@[0]);
            assert("orientation"@[0] != "xresolution"@[0]);
            assert("orientation"@[0] != "yresolution"@[0]);
        },
        TagField::ResolutionUnit => {},
        TagField::ExposureProgram => {
            assert("exposureprogram"@[0] != "isospeedratings"@[0]);
        },
        TagField::MeteringMode => {
            assert("meteringmode"@[0] != "serialnumber"@[0]);
            assert("meteringmode"@[0] != "exposuretime"@[0]);
        },
        TagField::Flash => {
            assert("flash"@[0] != "model"@[0]);
        },
        TagField::WhiteBalance => {
            assert("whitebalance"@[0] != "serialnumber"@[0]);
            assert("whitebalance"@[0] != "exposuretime"@[0]);
            assert("whitebalance"@[0] != "meteringmode"@[0]);
        },
        TagField::FocalLengthIn35mmFormat => {
            assert("focallengthin35mmfilm"@.len() == 21);
        },
        TagField::SceneCaptureType => {
            assert("scenecapturetype"@[0] != "datetimeoriginal"@[0]);
            assert("scenecapturetype"@[0] != "imagedescription"@[0]);
            assert("scenecapturetype"@[0] != "maxaperturevalue"@[0]);
        },
        TagField::Contrast => {
            assert("contrast"@[0] != "software"@[0]);
            assert("contrast"@[0] != "lensmake"@[0]);
        },
        TagField::Saturation => {
            assert("saturation"@[0] != "createdate"@[0]);
            assert("saturation"@[0] != "modifydate"@[0]);
        },
        TagField::Sharpness => {
            assert("sharpness"@[0] != "copyright"@[0]);
            assert("sharpness"@[0] != "lensmodel"@[0]);
        },
        TagField::FNumber => {},
        TagField::FocalLength => {
            assert("focallength"@[0] != "creatortool"@[0]);
        },
        TagField::ExposureTime => {
            assert("exposuretime"@[0] != "serialnumber"@[0]);
        },
        TagField::XResolution => {
            assert("xresolution"@[0] != "creatortool"@[0]);
            assert("xresolution"@[0] != "focallength"@[0]);
        },
        TagField::YResolution => {
            assert("yresolution"@[0] != "creatortool"@[0]);
            assert("yresolution"@[0] != "focallength"@[0]);
            assert("yresolution"@[0] != "xresolution"@[0]);
        },
        TagField::MaxApertureValue => {
            assert("maxaperturevalue"@[0] != "datetimeoriginal"@[0]);
            assert("maxaperturevalue"@[0] != "imagedescription"@[0]);
        },
        TagField::LensInfo => {
            assert("lensinfo"@[0] != "software"@[0]);
            assert("lensinfo"@[4] != "lensmake"@[4]);
            assert("lensinfo"@[0] != "contrast"@[0]);
        },
    }
}

proof fn lemma_digit_char(d: nat)
    requires
        d < 10,
    ensures
        is_digit(digit_char(d)),
        digit_value(digit_char(d)) == d,
        !is_white_space(digit_char(d)),
        digit_char(d) != '/',
        digit_char(d) != '+',
{
}

proof fn lemma_decimal(n: nat)
    ensures
        decimal(n).len() > 0,
        all_digits(decimal(n)),
        digits_value(decimal(n)) == n,
        !is_white_space(decimal(n)[0]),
        !is_white_space(decimal(n).last()),
        decimal(n)[0] != '+',
        forall|i: int| 0 <= i < decimal(n).len() ==> decimal(n)[i] != '/',
    decreases n,
{
    if n < 10 {
        lemma_digit_char(n);
        assert(decimal(n).drop_last() =~= Seq::<char>::empty());
        assert(digits_value(decimal(n)) == digits_value(decimal(n).drop_last()) * 10 + digit_value(decimal(n).last()));
    } else {
        lemma_decimal(n / 10);
        lemma_digit_char(n % 10);
        let s = decimal(n / 10);
        assert(decimal(n).drop_last() =~= s);
        assert(decimal(n)[0] == s[0]);
        assert(digits_value(decimal(n)) == digits_value(decimal(n).drop_last()) * 10 + digit_value(decimal(n).last()));
    }
}

proof fn lemma_trim_unchanged(s: Seq<char>)
    requires
        s.len() > 0,
        !is_white_space(s[0]),
        !is_white_space(s.last()),
    ensures
        trim(s) == s,
{
    assert(trim_start(s) == s);
    assert(trim_end(s) == s);
}

proof fn lemma_decimal_reads_back(n: nat, max: nat)
    requires
        n <= max,
    ensures
        trim(decimal(n)) == decimal(n),
        bounded_value(decimal(n), max) == Some(n),
{
    lemma_decimal(n);
    lemma_trim_unchanged(decimal(n));
}

proof fn lemma_fraction_reads_back(r: Rational)
    ensures
        fraction_of(fraction_text(r)) == Some(r),
{
    let a = decimal(r.numerator as nat);
    let b = decimal(r.denominator as nat);
    let s = fraction_text(r);
    lemma_decimal_reads_back(r.numerator as nat, u32_max());
    lemma_decimal_reads_back(r.denominator as nat, u32_max());
    lemma_decimal(r.numerator as nat);
    lemma_decimal(r.denominator as nat);
    assert(s[0] == a[0]);
    assert(s.last() == b.last());
    lemma_trim_unchanged(s);
    let p = a.len() as int;
    assert(s[p] == '/');
    assert(!all_digits(s));
    assert(unsigned_value(s) is None);
    assert(is_first_index(s, '/', p)) by {
        assert forall|j: int| 0 <= j < p implies s[j] != '/' by {
            assert(s[j] == a[j]);
        }
    }
    lemma_first_index_unique(s, '/', p);
    assert(s.subrange(0, p) =~= a);
    assert(s.subrange(p + 1, s.len() as int) =~= b);
}


/// A word: non-empty, without white space.
pub open spec fn is_word(w: Seq<char>) -> bool {
    w.len() > 0 && forall|i: int| 0 <= i < w.len() ==> !is_white_space(w[i])
}

proof fn lemma_split_word(prefix: Seq<char>, w: Seq<char>)
    requires
        is_word(w),
        prefix.len() == 0 || is_white_space(prefix.last()),
    ensures
        split_ws(prefix + w) == split_ws(prefix).push(w),
    decreases w.len(),
{
    let s = prefix + w;
    assert(s.drop_last() =~= prefix + w.drop_last());
    assert(s.last() == w.last());
    if w.len() == 1 {
        assert(prefix + w.drop_last() =~= prefix);
        assert(w =~= seq![w.last()]);
    } else {
        assert(is_word(w.drop_last())) by {
            assert forall|i: int| 0 <= i < w.drop_last().len() implies !is_white_space(w.drop_last()[i]) by {
                assert(w.drop_last()[i] == w[i]);
            }
        }
        lemma_split_word(prefix, w.drop_last());
        assert(s[s.len() - 2] == w[w.len() - 2]);
        assert(w.drop_last().push(w.last()) =~= w);
        assert(split_ws(prefix).push(w.drop_last()).update(split_ws(prefix).len() as int, w) =~= split_ws(prefix).push(w));
    }
}

proof fn lemma_fraction_text_word(r: Rational)
    ensures
        is_word(fraction_text(r)),
        !is_white_space(fraction_text(r)[0]),
{
    let a = decimal(r.numerator as nat);
    let b = decimal(r.denominator as nat);
    lemma_decimal(r.numerator as nat);
    lemma_decimal(r.denominator as nat);
    let t = fraction_text(r);
    assert forall|i: int| 0 <= i < t.len() implies !is_white_space(t[i]) by {
        if i < a.len() {
            assert(t[i] == a[i]);
            lemma_digit_char(digit_value(a[i]));
        } else if i > a.len() {
            assert(t[i] == b[i - a.len() - 1]);
        }
    }
}

proof fn lemma_fractions_split(rs: Seq<Rational>)
    requires
        rs.len() >= 1,
    ensures
        split_ws(fractions_text(rs)) == rs.map_values(|r: Rational| fraction_text(r)),
        is_word(fractions_text(rs).take(1)),
        !is_white_space(fractions_text(rs).last()),
    decreases rs.len(),
{
    lemma_fraction_text_word(rs.last());
    if rs.len() == 1 {
        lemma_split_word(Seq::empty(), fraction_text(rs[0]));
        assert(Seq::<char>::empty() + fraction_text(rs[0]) =~= fraction_text(rs[0]));
        assert(rs.map_values(|r: Rational| fraction_text(r)) =~= seq![fraction_text(rs[0])]);
        assert(fraction_text(rs[0]).take(1) =~= seq![fraction_text(rs[0])[0]]);
    } else {
        let init = rs.drop_last();
        lemma_fractions_split(init);
        let prefix = fractions_text(init) + seq![' '];
        assert(split_ws(prefix) == split_ws(fractions_text(init))) by {
            assert(prefix.drop_last() =~= fractions_text(init));
        }
        lemma_split_word(prefix, fraction_text(rs.last()));
        assert(init.map_values(|r: Rational| fraction_text(r)).push(fraction_text(rs.last()))
            =~= rs.map_values(|r: Rational| fraction_text(r)));
        assert(fractions_text(rs).take(1) =~= fractions_text(init).take(1));
    }
}

proof fn lemma_rationals_read_back(rs: Seq<Rational>)
    ensures
        rationals_of(rs.map_values(|r: Rational| fraction_text(r))) == Some(rs),
    decreases rs.len(),
{
    let ts = rs.map_values(|r: Rational| fraction_text(r));
    if rs.len() > 0 {
        lemma_rationals_read_back(rs.drop_last());
        assert(ts.drop_last() =~= rs.drop_last().map_values(|r: Rational| fraction_text(r)));
        lemma_fraction_reads_back(rs.last());
        assert(rs.drop_last().push(rs.last()) =~= rs);
    } else {
        assert(ts.len() == 0);
    }
}

proof fn lemma_lens_info_reads_back(rs: Seq<Rational>)
    requires
        1 <= rs.len() <= 4,
    ensures
        trim(fractions_text(rs)) == fractions_text(rs),
        lens_info_of(fractions_text(rs)) == Some(rs),
{
    lemma_fractions_split(rs);
    let v = fractions_text(rs);
    assert(v[0] == v.take(1)[0]);
    lemma_trim_unchanged(v);
    let ts = rs.map_values(|r: Rational| fraction_text(r));
    assert(ts.take(ts.len() as int) =~= ts);
    lemma_rationals_read_back(rs);
}

/// Every tag of a recognised field reads back from the attribute named after
/// its field (lower-cased, without prefix) whose text is the tag's text, its
/// integer in decimal, or its rationals as `numerator/denominator`
/// separated by spaces.
pub proof fn lemma_attribute_text_reads_back(t: TagView)
    requires
        readable_shape(t),
    ensures
        tag_of(field_key(t.field), value_text(t.value)) == Some(t),
{
    lemma_key_rule(t.field);
    let v = value_text(t.value);
    match t.value {
        TagValueView::Text(s) => {},
        TagValueView::Shorts(ns) => {
            lemma_decimal_reads_back(ns[0] as nat, 65535);
            assert(ns =~= seq![ns[0]]);
            assert(value_of(field_rule(t.field), v) == Some(t.value));
        },
        TagValueView::Rationals(rs) => {
            lemma_lens_info_reads_back(rs);
            if rs.len() == 1 {
                lemma_fraction_reads_back(rs[0]);
                assert(rs =~= seq![rs[0]]);
            }
        },
    }
}

} // verus!
