use std::io::Write;

use exif_sidecar::{decompress_zlib, extract_exif_from_png, find_subslice, DecodeError, HeaderInfo};

const SIGNATURE: [u8; 8] = [0x89, b'P', b'N', b'G', 0x0D, 0x0A, 0x1A, 0x0A];

fn block(ty: &[u8; 4], data: &[u8]) -> Vec<u8> {
    let mut out = Vec::new();
    out.extend_from_slice(&(data.len() as u32).to_be_bytes());
    out.extend_from_slice(ty);
    out.extend_from_slice(data);
    out.extend_from_slice(&[0, 0, 0, 0]);
    out
}

fn text_block(keyword: &[u8], flag: u8, text: &[u8]) -> Vec<u8> {
    let mut data = Vec::new();
    data.extend_from_slice(keyword);
    data.extend_from_slice(&[0, flag, 0]);
    data.extend_from_slice(b"en");
    data.push(0);
    data.push(0);
    data.extend_from_slice(text);
    block(b"iTXt", &data)
}

fn header_block(width: u32, height: u32, bit_depth: u8, color_type: u8) -> Vec<u8> {
    let mut data = Vec::new();
    data.extend_from_slice(&width.to_be_bytes());
    data.extend_from_slice(&height.to_be_bytes());
    data.extend_from_slice(&[bit_depth, color_type, 0, 0, 0]);
    block(b"IHDR", &data)
}

fn container(blocks: &[Vec<u8>]) -> Vec<u8> {
    let mut out = SIGNATURE.to_vec();
    for b in blocks {
        out.extend_from_slice(b);
    }
    out
}

fn zlib(data: &[u8]) -> Vec<u8> {
    let mut enc = flate2::write::ZlibEncoder::new(Vec::new(), flate2::Compression::default());
    enc.write_all(data).unwrap();
    enc.finish().unwrap()
}

#[test]
fn raw_profile_text_block_scenario() {
    let buf = container(&[
        header_block(8, 8, 8, 2),
        text_block(b"Raw profile type exif", 0, b"ABCD"),
        block(b"IEND", &[]),
    ]);
    let scan = extract_exif_from_png(&buf);
    assert_eq!(scan.metadata, Some(vec![0x41, 0x42, 0x43, 0x44]));
    let header = scan.header.unwrap();
    assert_eq!(header.width, 8);
    assert_eq!(header.height, 8);
    assert_eq!(header.bit_depth, 8);
    assert_eq!(header.color_mode(), "RGB truecolor");
    assert_eq!(header.interlace(), "none");
    assert_eq!(scan.sidecar, None);
}

#[test]
fn header_fields_are_read_big_endian() {
    let buf = container(&[header_block(0x0102_0304, 640, 16, 6), block(b"IEND", &[])]);
    let scan = extract_exif_from_png(&buf);
    assert_eq!(
        scan.header,
        Some(HeaderInfo {
            width: 0x0102_0304,
            height: 640,
            bit_depth: 16,
            color_type: 6,
            compression_method: 0,
            filter_method: 0,
            interlace_method: 0,
        })
    );
    assert_eq!(scan.header.unwrap().color_mode(), "RGB truecolor with alpha");
    assert_eq!(scan.metadata, None);
}

#[test]
fn color_mode_names() {
    let mut h = HeaderInfo {
        width: 1,
        height: 1,
        bit_depth: 8,
        color_type: 0,
        compression_method: 0,
        filter_method: 0,
        interlace_method: 1,
    };
    assert_eq!(h.color_mode(), "grayscale");
    assert_eq!(h.interlace(), "Adam7");
    h.color_type = 3;
    assert_eq!(h.color_mode(), "indexed color");
    h.color_type = 4;
    assert_eq!(h.color_mode(), "grayscale with alpha");
    h.color_type = 5;
    assert_eq!(h.color_mode(), "unknown");
}

#[test]
fn short_header_block_is_skipped() {
    let buf = container(&[block(b"IHDR", &[0; 12]), block(b"eXIf", b"MM")]);
    let scan = extract_exif_from_png(&buf);
    assert_eq!(scan.header, None);
    assert_eq!(scan.metadata, Some(b"MM".to_vec()));
}

#[test]
fn wrong_signature_yields_nothing() {
    let mut buf = container(&[block(b"eXIf", b"II*\0"), text_block(b"XML:com.adobe.xmp", 0, b"<x/>")]);
    buf[1] = b'Q';
    let scan = extract_exif_from_png(&buf);
    assert_eq!(scan.metadata, None);
    assert_eq!(scan.sidecar, None);
    assert_eq!(scan.header, None);
}

#[test]
fn short_or_empty_buffer_yields_nothing() {
    let scan = extract_exif_from_png(&[]);
    assert!(scan.metadata.is_none() && scan.sidecar.is_none() && scan.header.is_none());
    let scan = extract_exif_from_png(&SIGNATURE[..7]);
    assert!(scan.metadata.is_none() && scan.sidecar.is_none() && scan.header.is_none());
    let scan = extract_exif_from_png(&SIGNATURE);
    assert!(scan.metadata.is_none() && scan.sidecar.is_none() && scan.header.is_none());
}

#[test]
fn metadata_block_payload_is_returned_exactly() {
    let payload: Vec<u8> = (0..=255u8).collect();
    let buf = container(&[
        header_block(4, 4, 8, 0),
        block(b"tEXt", b"Comment\0hi"),
        block(b"eXIf", &payload),
        block(b"IEND", &[]),
    ]);
    assert_eq!(extract_exif_from_png(&buf).metadata, Some(payload));
}

#[test]
fn metadata_block_after_xmp_block_still_ends_the_walk() {
    let buf = container(&[
        text_block(b"XML:com.adobe.xmp", 0, b"<x:xmpmeta/>"),
        block(b"eXIf", b"EXIF"),
        text_block(b"XML:com.adobe.xmp", 0, b"<later/>"),
    ]);
    let scan = extract_exif_from_png(&buf);
    assert_eq!(scan.metadata, Some(b"EXIF".to_vec()));
    assert_eq!(scan.sidecar, Some(b"<x:xmpmeta/>".to_vec()));
}

#[test]
fn exif_text_block_in_any_case_uncompressed() {
    let buf = container(&[text_block(b"ExIf", 0, b"raw bytes")]);
    assert_eq!(extract_exif_from_png(&buf).metadata, Some(b"raw bytes".to_vec()));
}

#[test]
fn exif_text_block_compressed_is_inflated() {
    let original = b"Exif\0\0MM\0*\0\0\0\x08".to_vec();
    let buf = container(&[text_block(b"exif", 1, &zlib(&original))]);
    assert_eq!(extract_exif_from_png(&buf).metadata, Some(original));
}

#[test]
fn corrupt_compressed_exif_text_is_skipped() {
    let buf = container(&[text_block(b"EXIF", 1, b"not zlib at all"), block(b"eXIf", b"next")]);
    assert_eq!(extract_exif_from_png(&buf).metadata, Some(b"next".to_vec()));
}

#[test]
fn xmp_text_block_is_kept_for_the_sidecar() {
    let packet = b"<x:xmpmeta xmlns:x=\"adobe:ns:meta/\"/>".to_vec();
    let buf = container(&[text_block(b"xml:COM.adobe.XMP", 0, &packet), block(b"IEND", &[])]);
    let scan = extract_exif_from_png(&buf);
    assert_eq!(scan.sidecar, Some(packet));
    assert_eq!(scan.metadata, None);
}

#[test]
fn compressed_xmp_text_block_is_inflated() {
    let packet = b"<rdf:Description tiff:Make=\"Canon\"/>".to_vec();
    let buf = container(&[text_block(b"XML:com.adobe.xmp", 1, &zlib(&packet))]);
    assert_eq!(extract_exif_from_png(&buf).sidecar, Some(packet));
}

#[test]
fn empty_xmp_is_kept_and_undecodable_xmp_is_not() {
    let buf = container(&[text_block(b"XML:com.adobe.xmp", 0, b"")]);
    assert_eq!(extract_exif_from_png(&buf).sidecar, Some(vec![]));
    let buf = container(&[text_block(b"XML:com.adobe.xmp", 1, b"garbage")]);
    assert_eq!(extract_exif_from_png(&buf).sidecar, None);
    let buf = container(&[
        text_block(b"XML:com.adobe.xmp", 0, b"<first/>"),
        text_block(b"XML:com.adobe.xmp", 0, b""),
    ]);
    assert_eq!(extract_exif_from_png(&buf).sidecar, Some(vec![]));
}

#[test]
fn last_xmp_packet_wins() {
    let buf = container(&[
        text_block(b"XML:com.adobe.xmp", 0, b"first"),
        text_block(b"XML:com.adobe.xmp", 0, b"second"),
    ]);
    assert_eq!(extract_exif_from_png(&buf).sidecar, Some(b"second".to_vec()));
}

#[test]
fn other_keywords_are_ignored() {
    let buf = container(&[text_block(b"Description", 0, b"a photo")]);
    let scan = extract_exif_from_png(&buf);
    assert_eq!(scan.metadata, None);
    assert_eq!(scan.sidecar, None);
}

#[test]
fn text_block_without_terminators_is_skipped() {
    let buf = container(&[
        block(b"iTXt", b"exif"),
        block(b"iTXt", b"exif\0\0\0no terminators"),
        block(b"eXIf", b"found"),
    ]);
    assert_eq!(extract_exif_from_png(&buf).metadata, Some(b"found".to_vec()));
}

#[test]
fn zero_length_blocks_are_skipped() {
    let buf = container(&[block(b"sRGB", &[]), block(b"eXIf", &[])]);
    assert_eq!(extract_exif_from_png(&buf).metadata, Some(vec![]));
}

#[test]
fn truncated_block_halts_the_walk() {
    let mut buf = container(&[header_block(2, 3, 8, 2), text_block(b"XML:com.adobe.xmp", 0, b"<kept/>")]);
    let mut cut = block(b"eXIf", b"0123456789");
    cut.truncate(12);
    buf.extend_from_slice(&cut);
    let scan = extract_exif_from_png(&buf);
    assert_eq!(scan.metadata, None);
    assert_eq!(scan.sidecar, Some(b"<kept/>".to_vec()));
    assert_eq!(scan.header.unwrap().height, 3);
}

#[test]
fn block_missing_its_checksum_halts_the_walk() {
    let mut buf = container(&[]);
    let mut b = block(b"eXIf", b"abc");
    b.truncate(b.len() - 1);
    buf.extend_from_slice(&b);
    assert_eq!(extract_exif_from_png(&buf).metadata, None);
}

#[test]
fn huge_declared_length_halts_the_walk() {
    let mut buf = container(&[]);
    buf.extend_from_slice(&[0xFF, 0xFF, 0xFF, 0xFF]);
    buf.extend_from_slice(b"eXIf");
    buf.extend_from_slice(&[1, 2, 3, 4, 5, 6]);
    assert_eq!(extract_exif_from_png(&buf).metadata, None);
}

#[test]
fn decompress_zlib_round_trips_and_rejects_garbage() {
    let data = b"hello hello hello".to_vec();
    assert_eq!(decompress_zlib(&zlib(&data)), Ok(data));
    assert_eq!(decompress_zlib(b"\x00\x01\x02"), Err(DecodeError::Corrupt));
}

#[test]
fn find_subslice_positions() {
    assert_eq!(find_subslice(b"abcabc", b"ca"), Some(2));
    assert_eq!(find_subslice(b"abcabc", b"abc"), Some(0));
    assert_eq!(find_subslice(b"abc", b"abcd"), None);
    assert_eq!(find_subslice(b"abc", b""), None);
    assert_eq!(find_subslice(b"abc", b"x"), None);
    assert_eq!(find_subslice(b"aab", b"ab"), Some(1));
}
