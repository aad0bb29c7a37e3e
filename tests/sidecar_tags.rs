use exif_sidecar::{
    map_xmp_key_value_into_tag, parse_fraction_to_rational, parse_xmp_to_exif_tags, render_sidecar,
    return_ori_val_16, return_ori_val_32, tags_from_element, xml_escape_attr, Rational, Tag, TagField, TagValue,
};

fn r(numerator: u32, denominator: u32) -> Rational {
    Rational { numerator, denominator }
}

fn map(key: &str, val: &str) -> Vec<Tag> {
    let mut out = Vec::new();
    map_xmp_key_value_into_tag(key, val, &mut out);
    out
}

fn text_of(t: &Tag) -> &str {
    match &t.value {
        TagValue::Text(s) => s.as_str(),
        other => panic!("not text: {:?}", other),
    }
}

fn shorts_of(t: &Tag) -> Vec<u16> {
    match &t.value {
        TagValue::Shorts(v) => v.clone(),
        other => panic!("not shorts: {:?}", other),
    }
}

fn rationals_of(t: &Tag) -> Vec<Rational> {
    match &t.value {
        TagValue::Rationals(v) => v.clone(),
        other => panic!("not rationals: {:?}", other),
    }
}

#[test]
fn fraction_rule_examples() {
    assert_eq!(parse_fraction_to_rational("1/125"), Some(r(1, 125)));
    assert_eq!(parse_fraction_to_rational("8"), Some(r(8, 1)));
    assert_eq!(parse_fraction_to_rational("2.8"), Some(r(2800, 1000)));
    assert_eq!(parse_fraction_to_rational(""), None);
    assert_eq!(parse_fraction_to_rational("abc"), None);
    assert_eq!(parse_fraction_to_rational("   "), None);
}

#[test]
fn fraction_rule_edge_cases() {
    assert_eq!(parse_fraction_to_rational("  1 / 125 "), Some(r(1, 125)));
    assert_eq!(parse_fraction_to_rational("+5"), Some(r(5, 1)));
    assert_eq!(parse_fraction_to_rational("3/0"), Some(r(3, 0)));
    assert_eq!(parse_fraction_to_rational("1/x"), Some(r(1000, 1000)));
    assert_eq!(parse_fraction_to_rational("1/2/3"), Some(r(1000, 1000)));
    assert_eq!(parse_fraction_to_rational("f/2.8"), Some(r(2800, 1000)));
    assert_eq!(parse_fraction_to_rational("1.23456"), Some(r(1235, 1000)));
    assert_eq!(parse_fraction_to_rational("0.0004"), Some(r(0, 1000)));
    assert_eq!(parse_fraction_to_rational(".5"), Some(r(500, 1000)));
    assert_eq!(parse_fraction_to_rational("7."), Some(r(7000, 1000)));
    assert_eq!(parse_fraction_to_rational("-2.5"), Some(r(0, 1000)));
    assert_eq!(parse_fraction_to_rational("4294967295"), Some(r(4294967295, 1)));
    assert_eq!(parse_fraction_to_rational("4294967296"), Some(r(4294967295, 1000)));
    assert_eq!(parse_fraction_to_rational("1.2.3"), Some(r(1200, 1000)));
    assert_eq!(parse_fraction_to_rational("1-2"), Some(r(1000, 1000)));
    assert_eq!(parse_fraction_to_rational("--1"), Some(r(0, 1000)));
    assert_eq!(parse_fraction_to_rational("-"), None);
    assert_eq!(parse_fraction_to_rational("-."), None);
    assert_eq!(parse_fraction_to_rational("x-.25y"), Some(r(0, 1000)));
}

#[test]
fn text_attributes_are_trimmed() {
    let tags = map("tiff:Make", "  Canon \n");
    assert_eq!(tags.len(), 1);
    assert_eq!(tags[0].field, TagField::Make);
    assert_eq!(text_of(&tags[0]), "Canon");
    let tags = map("xmp:CreatorTool", "Lightroom");
    assert_eq!(tags[0].field, TagField::Software);
    let tags = map("LensModel", "EF 24-70mm\u{3000}");
    assert_eq!(tags[0].field, TagField::LensModel);
    assert_eq!(text_of(&tags[0]), "EF 24-70mm");
}

#[test]
fn attribute_names_match_without_case_or_prefix() {
    assert_eq!(map("TIFF:MAKE", "Nikon")[0].field, TagField::Make);
    assert_eq!(map("a:b:DateTimeOriginal", "2024:01:01 10:00:00")[0].field, TagField::DateTimeOriginal);
}

#[test]
fn empty_and_unknown_attributes_map_to_nothing() {
    assert!(map("tiff:Make", "   ").is_empty());
    assert!(map("exif:SomethingElse", "1").is_empty());
    assert!(map("exif:CreatorDate", "2024").is_empty());
    assert!(map("rdf:about", "").is_empty());
}

#[test]
fn numeric_attributes_parse_as_shorts() {
    let tags = map("tiff:Orientation", "6");
    assert_eq!(tags[0].field, TagField::Orientation);
    assert_eq!(shorts_of(&tags[0]), vec![6]);
    assert_eq!(shorts_of(&map("exif:FocalLengthIn35mmFilm", "50")[0]), vec![50]);
    assert_eq!(map("exif:FocalLengthIn35mmFilm", "50")[0].field, TagField::FocalLengthIn35mmFormat);
    assert!(map("exif:Flash", "70000").is_empty());
    assert!(map("exif:Flash", "1.5").is_empty());
    assert!(map("exif:MeteringMode", "-1").is_empty());
}

#[test]
fn iso_attributes_fall_back_to_the_first_number() {
    let tags = map("exif:ISOSpeedRatings", "200");
    assert_eq!(tags[0].field, TagField::Iso);
    assert_eq!(shorts_of(&tags[0]), vec![200]);
    assert_eq!(shorts_of(&map("exif:ISO", "ISO 400")[0]), vec![400]);
    assert_eq!(shorts_of(&map("exif:RecommendedExposureIndex", "100.9")[0]), vec![100]);
    assert_eq!(shorts_of(&map("exif:ISO", "99999")[0]), vec![65535]);
    assert_eq!(shorts_of(&map("exif:ISO", "-5")[0]), vec![0]);
    assert_eq!(shorts_of(&map("exif:ISO", "1-2")[0]), vec![1]);
    assert_eq!(shorts_of(&map("exif:ISO", "speed .9-")[0]), vec![0]);
    assert!(map("exif:ISO", "auto").is_empty());
}

#[test]
fn rational_attributes_use_the_fraction_rule() {
    let tags = map("exif:FNumber", "28/10");
    assert_eq!(tags[0].field, TagField::FNumber);
    assert_eq!(rationals_of(&tags[0]), vec![r(28, 10)]);
    assert_eq!(map("exif:ApertureValue", "4")[0].field, TagField::FNumber);
    assert_eq!(map("exif:ShutterSpeedValue", "1/60")[0].field, TagField::ExposureTime);
    assert_eq!(rationals_of(&map("exif:ExposureTime", "0.004")[0]), vec![r(4, 1000)]);
    assert_eq!(rationals_of(&map("tiff:XResolution", "300")[0]), vec![r(300, 1)]);
    assert_eq!(map("tiff:YResolution", "72")[0].field, TagField::YResolution);
    assert_eq!(map("exif:MaxApertureValue", "3/1")[0].field, TagField::MaxApertureValue);
    assert!(map("exif:FocalLength", "long").is_empty());
}

#[test]
fn lens_info_takes_four_fractions() {
    let tags = map("aux:LensInfo", "700/10 2100/10 40/10 56/10");
    assert_eq!(tags[0].field, TagField::LensInfo);
    assert_eq!(rationals_of(&tags[0]), vec![r(700, 10), r(2100, 10), r(40, 10), r(56, 10)]);
    let tags = map("aux:LensInfo", "24  70\t2.8 4 extra");
    assert_eq!(rationals_of(&tags[0]), vec![r(24, 1), r(70, 1), r(2800, 1000), r(4, 1)]);
    assert_eq!(rationals_of(&map("aux:LensInfo", "50")[0]), vec![r(50, 1)]);
    assert!(map("aux:LensInfo", "24 wide 2.8 4").is_empty());
}

#[test]
fn sidecar_reader_collects_description_attributes() {
    let doc = r#"<?xml version="1.0"?>
<x:xmpmeta xmlns:x="adobe:ns:meta/">
  <rdf:RDF xmlns:rdf="http://www.w3.org/1999/02/22-rdf-syntax-ns#">
    <rdf:Description rdf:about="" xmlns:tiff="http://ns.adobe.com/tiff/1.0/"
        tiff:Make="Canon &amp; Co" tiff:Model=" EOS R5 " exif:FNumber="28/10"
        exif:ISOSpeedRatings="100" exif:Unknown="z"/>
  </rdf:RDF>
</x:xmpmeta>"#;
    let tags = parse_xmp_to_exif_tags(doc).unwrap();
    assert_eq!(tags.len(), 4);
    assert_eq!(tags[0].field, TagField::Make);
    assert_eq!(text_of(&tags[0]), "Canon & Co");
    assert_eq!(tags[1].field, TagField::Model);
    assert_eq!(text_of(&tags[1]), "EOS R5");
    assert_eq!(rationals_of(&tags[2]), vec![r(28, 10)]);
    assert_eq!(shorts_of(&tags[3]), vec![100]);
}

#[test]
fn sidecar_reader_reads_start_and_empty_description_elements() {
    let doc = r#"<root><a:Description tiff:Make="A"></a:Description><b:CameraDescription Model="B"/></root>"#;
    let tags = parse_xmp_to_exif_tags(doc).unwrap();
    assert_eq!(tags.len(), 2);
    assert_eq!(text_of(&tags[0]), "A");
    assert_eq!(tags[1].field, TagField::Model);
}

#[test]
fn sidecar_reader_without_recognised_attributes_gives_none() {
    assert!(parse_xmp_to_exif_tags("<root><item Make=\"x\"/></root>").is_none());
    assert!(parse_xmp_to_exif_tags("").is_none());
    assert!(parse_xmp_to_exif_tags("<rdf:Description other=\"1\"/>").is_none());
}

#[test]
fn rendered_sidecar_is_exact() {
    let items = vec![
        ("制造商".to_string(), "Canon".to_string()),
        ("a&b<\"c\">".to_string(), "x < y & z".to_string()),
    ];
    let doc = render_sidecar("photo.png", &items);
    let expected = "<?xml version=\"1.0\" encoding=\"UTF-8\"?>\n\
<ExifFromMetadata source=\"photo.png\">\n  <tag name=\"制造商\"><![CDATA[Canon]]></tag>\n  \
<tag name=\"a&amp;b&lt;&quot;c&quot;&gt;\"><![CDATA[x < y & z]]></tag>\n</ExifFromMetadata>\n";
    assert_eq!(doc, expected);
    assert_eq!(
        render_sidecar("a\"b.png", &[]),
        "<?xml version=\"1.0\" encoding=\"UTF-8\"?>\n<ExifFromMetadata source=\"a&quot;b.png\">\n</ExifFromMetadata>\n"
    );
}

#[test]
fn rendered_sidecar_carries_no_description_attributes() {
    let items = vec![("Make".to_string(), "Canon".to_string())];
    let doc = render_sidecar("photo.jpg", &items);
    assert!(parse_xmp_to_exif_tags(&doc).is_none());
}

#[test]
fn attribute_escaping() {
    assert_eq!(xml_escape_attr("a&b"), "a&amp;b");
    assert_eq!(xml_escape_attr("\"<>\""), "&quot;&lt;&gt;&quot;");
    assert_eq!(xml_escape_attr("&amp;"), "&amp;amp;");
    assert_eq!(xml_escape_attr("plain 文字"), "plain 文字");
    assert_eq!(xml_escape_attr(""), "");
}

#[test]
fn first_value_as_text() {
    assert_eq!(return_ori_val_16(&[3, 9]), "3");
    assert_eq!(return_ori_val_16(&[65535]), "65535");
    assert_eq!(return_ori_val_16(&[]), "None");
    assert_eq!(return_ori_val_32(&[0]), "0");
    assert_eq!(return_ori_val_32(&[4294967295, 1]), "4294967295");
    assert_eq!(return_ori_val_32(&[1200]), "1200");
    assert_eq!(return_ori_val_32(&[]), "None");
}

#[test]
fn element_attributes_map_only_on_description_elements() {
    let attrs = vec![
        ("tiff:Make".to_string(), "Canon".to_string()),
        ("xmlns:tiff".to_string(), "http://ns.adobe.com/tiff/1.0/".to_string()),
        ("exif:ExposureTime".to_string(), "1/250".to_string()),
    ];
    let mut out = map("tiff:Model", "R5");
    tags_from_element(b"Description", &attrs, &mut out);
    assert_eq!(out.len(), 3);
    assert_eq!(out[0].field, TagField::Model);
    assert_eq!(out[1].field, TagField::Make);
    assert_eq!(rationals_of(&out[2]), vec![r(1, 250)]);
    let mut other = Vec::new();
    tags_from_element(b"Descriptions", &attrs, &mut other);
    tags_from_element(b"tag", &attrs, &mut other);
    assert!(other.is_empty());
}

#[test]
fn canonical_attribute_text_reads_back() {
    assert_eq!(rationals_of(&map("lensinfo", "24/1 70/1 28/10 4/1")[0]), vec![r(24, 1), r(70, 1), r(28, 10), r(4, 1)]);
    assert_eq!(rationals_of(&map("lensinfo", "50/1")[0]), vec![r(50, 1)]);
    assert_eq!(shorts_of(&map("orientation", "8")[0]), vec![8]);
    assert_eq!(shorts_of(&map("isospeedratings", "65535")[0]), vec![65535]);
    assert_eq!(rationals_of(&map("fnumber", "4294967295/1")[0]), vec![r(4294967295, 1)]);
    assert_eq!(text_of(&map("artist", "Jane Doe")[0]), "Jane Doe");
}

#[test]
fn leading_numeric_run() {
    let d = exif_sidecar::extract_first_number("1-2").unwrap();
    assert!(!d.negative);
    assert_eq!(d.int_digits, vec!['1']);
    assert!(d.frac_digits.is_empty());
    let d = exif_sidecar::extract_first_number("f/-2.80x").unwrap();
    assert!(d.negative);
    assert_eq!(d.int_digits, vec!['2']);
    assert_eq!(d.frac_digits, vec!['8', '0']);
    assert!(exif_sidecar::extract_first_number("- . -").is_none());
}

#[test]
fn description_attributes_in_document_order() {
    let tags =
        parse_xmp_to_exif_tags(r#"<rdf:Description tiff:Make="Canon" tiff:Orientation="1" exif:Foo="x"/>"#).unwrap();
    assert_eq!(tags.len(), 2);
    assert_eq!(tags[0].field, TagField::Make);
    assert_eq!(text_of(&tags[0]), "Canon");
    assert_eq!(tags[1].field, TagField::Orientation);
    assert_eq!(shorts_of(&tags[1]), vec![1]);
}

#[test]
fn sidecar_reader_stops_at_the_first_error() {
    let doc = r#"<a:Description Make="A"/></wrong><b:Description Model="B"/>"#;
    let tags = parse_xmp_to_exif_tags(doc).unwrap();
    assert_eq!(tags.len(), 1);
    assert_eq!(tags[0].field, TagField::Make);
}
