use vstd::prelude::*;

use crate::container::{
    be_u32, block_outcome, empty_scan, eq_ignore_ascii_case, exif_code, exif_keyword, header_code,
    is_first_nul, itxt_code, lemma_first_nul_unique, png_signature, scan_png, text_block_of,
    walk_blocks, xmp_keyword, BlockOutcomeView, PngScanView, TextBlockView,
};
use crate::inflate::zlib_inflated;

verus! {

/// One block as laid out in a container: its 4-byte length, 4-byte type,
/// payload and 4-byte checksum.
pub ghost struct Block {
    pub length: Seq<u8>,
    pub ty: Seq<u8>,
    pub data: Seq<u8>,
    pub crc: Seq<u8>,
}

/// The block's length field gives the length of its payload.
pub open spec fn well_formed_block(b: Block) -> bool {
    &&& b.length.len() == 4
    &&& be_u32(b.length, 0) == b.data.len()
    &&& b.ty.len() == 4
    &&& b.crc.len() == 4
}

pub open spec fn all_well_formed(bs: Seq<Block>) -> bool {
    forall|i: int| 0 <= i < bs.len() ==> well_formed_block(#[trigger] bs[i])
}

pub open spec fn block_bytes(b: Block) -> Seq<u8> {
    b.length + b.ty + b.data + b.crc
}

/// The bytes of a sequence of blocks, one after the other.
pub open spec fn blocks_bytes(bs: Seq<Block>) -> Seq<u8>
    decreases bs.len(),
{
    if bs.len() == 0 {
        Seq::empty()
    } else {
        block_bytes(bs[0]) + blocks_bytes(bs.drop_first())
    }
}

/// A container: the signature followed by the blocks.
pub open spec fn container_bytes(bs: Seq<Block>) -> Seq<u8> {
    png_signature() + blocks_bytes(bs)
}

/// The walk ends at this block.
pub open spec fn ends_walk(b: Block) -> bool {
    block_outcome(b.ty, b.data) is Metadata
}

/// This block hands an XMP packet to the sidecar.
pub open spec fn carries_sidecar(b: Block) -> bool {
    block_outcome(b.ty, b.data) is Sidecar
}

/// The payload of an international text block with the given fields.
pub open spec fn text_block_bytes(
    keyword: Seq<u8>,
    flag: u8,
    method: u8,
    language: Seq<u8>,
    translated: Seq<u8>,
    text: Seq<u8>,
) -> Seq<u8> {
    keyword + seq![0u8, flag, method] + language + seq![0u8] + translated + seq![0u8] + text
}

pub open spec fn nul_free(s: Seq<u8>) -> bool {
    forall|i: int| 0 <= i < s.len() ==> s[i] != 0
}

/// The walk over a list of blocks, block by block.
pub open spec fn walk_list(bs: Seq<Block>, acc: PngScanView) -> PngScanView
    decreases bs.len(),
{
    if bs.len() == 0 {
        acc
    } else {
        let rest = bs.drop_first();
        match block_outcome(bs[0].ty, bs[0].data) {
            BlockOutcomeView::Header(h) => walk_list(rest, PngScanView { header: Some(h), ..acc }),
            BlockOutcomeView::Metadata(p) => PngScanView { metadata: Some(p), ..acc },
            BlockOutcomeView::Sidecar(p) => walk_list(rest, PngScanView { sidecar: Some(p), ..acc }),
            _ => walk_list(rest, acc),
        }
    }
}

proof fn lemma_walk_one_block(b: Block, rest: Seq<u8>, acc: PngScanView)
    requires
        well_formed_block(b),
    ensures
        walk_blocks(block_bytes(b) + rest, acc) == (match block_outcome(b.ty, b.data) {
            BlockOutcomeView::Header(h) => walk_blocks(rest, PngScanView { header: Some(h), ..acc }),
            BlockOutcomeView::Metadata(p) => PngScanView { metadata: Some(p), ..acc },
            BlockOutcomeView::Sidecar(p) => walk_blocks(rest, PngScanView { sidecar: Some(p), ..acc }),
            _ => walk_blocks(rest, acc),
        }),
{
    let s = block_bytes(b) + rest;
    let n = b.data.len() as int;
    assert(s.subrange(0, 4) =~= b.length);
    assert(be_u32(s, 0) == be_u32(b.length, 0));
    assert(s.subrange(4, 8) =~= b.ty);
    assert(s.subrange(8, 8 + n) =~= b.data);
    assert(s.subrange(8 + n + 4, s.len() as int) =~= rest);
}

proof fn lemma_walk_bytes(bs: Seq<Block>, tail: Seq<u8>, acc: PngScanView)
    requires
        all_well_formed(bs),
        acc.metadata is None,
    ensures
        walk_blocks(blocks_bytes(bs) + tail, acc) == (if walk_list(bs, acc).metadata is Some {
            walk_list(bs, acc)
        } else {
            walk_blocks(tail, walk_list(bs, acc))
        }),
    decreases bs.len(),
{
    if bs.len() == 0 {
        assert(blocks_bytes(bs) + tail =~= tail);
    } else {
        let rest = bs.drop_first();
        assert(well_formed_block(bs[0]));
        assert(all_well_formed(rest)) by {
            assert forall|i: int| 0 <= i < rest.len() implies well_formed_block(#[trigger] rest[i]) by {
                assert(rest[i] == bs[i + 1]);
            }
        }
        assert(blocks_bytes(bs) + tail =~= block_bytes(bs[0]) + (blocks_bytes(rest) + tail));
        lemma_walk_one_block(bs[0], blocks_bytes(rest) + tail, acc);
        match block_outcome(bs[0].ty, bs[0].data) {
            BlockOutcomeView::Header(h) => {
                lemma_walk_bytes(rest, tail, PngScanView { header: Some(h), ..acc });
            },
            BlockOutcomeView::Metadata(p) => {},
            BlockOutcomeView::Sidecar(p) => {
                lemma_walk_bytes(rest, tail, PngScanView { sidecar: Some(p), ..acc });
            },
            _ => {
                lemma_walk_bytes(rest, tail, acc);
            },
        }
    }
}

/// What a walk over a container finds is what the block-by-block walk finds.
pub proof fn lemma_scan_is_walk_list(bs: Seq<Block>, tail: Seq<u8>)
    requires
        all_well_formed(bs),
    ensures
        scan_png(container_bytes(bs) + tail) == (if walk_list(bs, empty_scan()).metadata is Some {
            walk_list(bs, empty_scan())
        } else {
            walk_blocks(tail, walk_list(bs, empty_scan()))
        }),
{
    let b = container_bytes(bs) + tail;
    assert(b.subrange(0, 8) =~= png_signature());
    assert(b.subrange(8, b.len() as int) =~= blocks_bytes(bs) + tail);
    lemma_walk_bytes(bs, tail, empty_scan());
}

/// A container cut short inside a block (fewer than eight bytes left, or a
/// declared length that overruns what is left) is read as if it ended where
/// the cut block begins: the walk halts there with what it found before.
pub proof fn lemma_truncated_block_halts_walk(bs: Seq<Block>, tail: Seq<u8>)
    requires
        all_well_formed(bs),
        tail.len() < 8 || 8 + be_u32(tail, 0) + 4 > tail.len(),
    ensures
        scan_png(container_bytes(bs) + tail) == scan_png(container_bytes(bs)),
{
    lemma_scan_is_walk_list(bs, tail);
    lemma_scan_is_walk_list(bs, Seq::empty());
    assert(container_bytes(bs) + Seq::<u8>::empty() =~= container_bytes(bs));
}

proof fn lemma_walk_list_metadata(bs: Seq<Block>, acc: PngScanView, k: int)
    requires
        0 <= k < bs.len(),
        forall|j: int| 0 <= j < k ==> !ends_walk(#[trigger] bs[j]),
        block_outcome(bs[k].ty, bs[k].data) is Metadata,
    ensures
        walk_list(bs, acc).metadata == Some(block_outcome(bs[k].ty, bs[k].data)->Metadata_0),
    decreases k,
{
    if k > 0 {
        let rest = bs.drop_first();
        assert(!ends_walk(bs[0]));
        assert forall|j: int| 0 <= j < k - 1 implies !ends_walk(#[trigger] rest[j]) by {
            assert(rest[j] == bs[j + 1]);
        }
        assert(rest[k - 1] == bs[k]);
        match block_outcome(bs[0].ty, bs[0].data) {
            BlockOutcomeView::Header(h) => {
                lemma_walk_list_metadata(rest, PngScanView { header: Some(h), ..acc }, k - 1);
            },
            BlockOutcomeView::Sidecar(p) => {
                lemma_walk_list_metadata(rest, PngScanView { sidecar: Some(p), ..acc }, k - 1);
            },
            _ => {
                lemma_walk_list_metadata(rest, acc, k - 1);
            },
        }
    }
}

/// In a well-formed container whose metadata block `bs[k]` is not preceded
/// by a block that ends the walk, the walk returns that block's payload
/// byte for byte.
pub proof fn lemma_metadata_block_extracted(bs: Seq<Block>, k: int)
    requires
        all_well_formed(bs),
        0 <= k < bs.len(),
        bs[k].ty == exif_code(),
        forall|j: int| 0 <= j < k ==> !ends_walk(#[trigger] bs[j]),
    ensures
        scan_png(container_bytes(bs)).metadata == Some(bs[k].data),
{
    lemma_scan_is_walk_list(bs, Seq::empty());
    assert(container_bytes(bs) + Seq::<u8>::empty() =~= container_bytes(bs));
    assert(exif_code() != header_code()) by {
        assert(exif_code()[0] != header_code()[0]);
    }
    lemma_walk_list_metadata(bs, empty_scan(), k);
}

proof fn lemma_text_block_fields(
    keyword: Seq<u8>,
    flag: u8,
    method: u8,
    language: Seq<u8>,
    translated: Seq<u8>,
    text: Seq<u8>,
)
    requires
        nul_free(keyword),
        nul_free(language),
        nul_free(translated),
    ensures
        text_block_of(text_block_bytes(keyword, flag, method, language, translated, text)) == Some(
            TextBlockView {
                keyword,
                compression_flag: flag,
                compression_method: method,
                language,
                translated_keyword: translated,
                text,
            },
        ),
{
    let d = text_block_bytes(keyword, flag, method, language, translated, text);
    let k = keyword.len() as int;
    assert(is_first_nul(d, k)) by {
        assert forall|j: int| 0 <= j < k implies d[j] != 0 by {
            assert(d[j] == keyword[j]);
        }
    }
    lemma_first_nul_unique(d, k);
    let rest = d.subrange(k + 3, d.len() as int);
    assert(rest =~= language + seq![0u8] + translated + seq![0u8] + text);
    let l = language.len() as int;
    assert(is_first_nul(rest, l)) by {
        assert forall|j: int| 0 <= j < l implies rest[j] != 0 by {
            assert(rest[j] == language[j]);
        }
    }
    lemma_first_nul_unique(rest, l);
    let t = k + 3 + l + 1;
    let rest2 = d.subrange(t, d.len() as int);
    assert(rest2 =~= translated + seq![0u8] + text);
    let m = translated.len() as int;
    assert(is_first_nul(rest2, m)) by {
        assert forall|j: int| 0 <= j < m implies rest2[j] != 0 by {
            assert(rest2[j] == translated[j]);
        }
    }
    lemma_first_nul_unique(rest2, m);
    assert(d.subrange(0, k) =~= keyword);
    assert(rest.subrange(0, l) =~= language);
    assert(rest2.subrange(0, m) =~= translated);
    assert(d.subrange(t + m + 1, d.len() as int) =~= text);
}

proof fn lemma_codes_differ()
    ensures
        itxt_code() != header_code(),
        itxt_code() != exif_code(),
{
    assert(itxt_code()[0] != header_code()[0]);
    assert(itxt_code()[0] != exif_code()[0]);
}

/// In a well-formed container whose international text block `bs[k]` has
/// the keyword `exif` in any case, and is not preceded by a block that ends
/// the walk, the walk returns the block's text unchanged when it is not
/// compressed, and inflated when it is.
pub proof fn lemma_exif_text_block_extracted(
    bs: Seq<Block>,
    k: int,
    keyword: Seq<u8>,
    flag: u8,
    method: u8,
    language: Seq<u8>,
    translated: Seq<u8>,
    text: Seq<u8>,
)
    requires
        all_well_formed(bs),
        0 <= k < bs.len(),
        bs[k].ty == itxt_code(),
        bs[k].data == text_block_bytes(keyword, flag, method, language, translated, text),
        eq_ignore_ascii_case(keyword, exif_keyword()),
        nul_free(keyword),
        nul_free(language),
        nul_free(translated),
        flag == 1 ==> zlib_inflated(text) is Some,
        forall|j: int| 0 <= j < k ==> !ends_walk(#[trigger] bs[j]),
    ensures
        flag == 0 ==> scan_png(container_bytes(bs)).metadata == Some(text),
        flag == 1 ==> scan_png(container_bytes(bs)).metadata == zlib_inflated(text),
{
    lemma_scan_is_walk_list(bs, Seq::empty());
    assert(container_bytes(bs) + Seq::<u8>::empty() =~= container_bytes(bs));
    lemma_codes_differ();
    lemma_text_block_fields(keyword, flag, method, language, translated, text);
    lemma_walk_list_metadata(bs, empty_scan(), k);
}

proof fn lemma_sidecar_kept(bs: Seq<Block>, acc: PngScanView)
    requires
        acc.sidecar is Some,
        forall|j: int|
            0 <= j < bs.len() && carries_sidecar(#[trigger] bs[j]) ==> exists|i: int|
                0 <= i < j && ends_walk(#[trigger] bs[i]),
    ensures
        walk_list(bs, acc).sidecar == acc.sidecar,
    decreases bs.len(),
{
    if bs.len() > 0 {
        let rest = bs.drop_first();
        if carries_sidecar(bs[0]) {
            let i = choose|i: int| 0 <= i < 0 && ends_walk(#[trigger] bs[i]);
            assert(false);
        }
        if !ends_walk(bs[0]) {
            assert forall|j: int|
                0 <= j < rest.len() && carries_sidecar(#[trigger] rest[j]) implies exists|i: int|
                0 <= i < j && ends_walk(#[trigger] rest[i]) by {
                assert(rest[j] == bs[j + 1]);
                let i = choose|i: int| 0 <= i < j + 1 && ends_walk(#[trigger] bs[i]);
                assert(i != 0);
                assert(rest[i - 1] == bs[i]);
            }
            match block_outcome(bs[0].ty, bs[0].data) {
                BlockOutcomeView::Header(h) => {
                    lemma_sidecar_kept(rest, PngScanView { header: Some(h), ..acc });
                },
                _ => {
                    lemma_sidecar_kept(rest, acc);
                },
            }
        }
    }
}

proof fn lemma_walk_list_sidecar(bs: Seq<Block>, acc: PngScanView, k: int)
    requires
        0 <= k < bs.len(),
        forall|j: int| 0 <= j < k ==> !ends_walk(#[trigger] bs[j]),
        carries_sidecar(bs[k]),
        forall|j: int|
            k < j < bs.len() && carries_sidecar(#[trigger] bs[j]) ==> exists|i: int|
                k < i < j && ends_walk(#[trigger] bs[i]),
    ensures
        walk_list(bs, acc).sidecar == Some(block_outcome(bs[k].ty, bs[k].data)->Sidecar_0),
    decreases k,
{
    let rest = bs.drop_first();
    if k == 0 {
        let p = block_outcome(bs[0].ty, bs[0].data)->Sidecar_0;
        assert forall|j: int|
            0 <= j < rest.len() && carries_sidecar(#[trigger] rest[j]) implies exists|i: int|
            0 <= i < j && ends_walk(#[trigger] rest[i]) by {
            assert(rest[j] == bs[j + 1]);
            let i = choose|i: int| 0 < i < j + 1 && ends_walk(#[trigger] bs[i]);
            assert(rest[i - 1] == bs[i]);
        }
        lemma_sidecar_kept(rest, PngScanView { sidecar: Some(p), ..acc });
    } else {
        assert(!ends_walk(bs[0]));
        assert forall|j: int| 0 <= j < k - 1 implies !ends_walk(#[trigger] rest[j]) by {
            assert(rest[j] == bs[j + 1]);
        }
        assert(rest[k - 1] == bs[k]);
        assert forall|j: int|
            k - 1 < j < rest.len() && carries_sidecar(#[trigger] rest[j]) implies exists|i: int|
            k - 1 < i < j && ends_walk(#[trigger] rest[i]) by {
            assert(rest[j] == bs[j + 1]);
            let i = choose|i: int| k < i < j + 1 && ends_walk(#[trigger] bs[i]);
            assert(rest[i - 1] == bs[i]);
        }
        match block_outcome(bs[0].ty, bs[0].data) {
            BlockOutcomeView::Header(h) => {
                lemma_walk_list_sidecar(rest, PngScanView { header: Some(h), ..acc }, k - 1);
            },
            BlockOutcomeView::Sidecar(p) => {
                lemma_walk_list_sidecar(rest, PngScanView { sidecar: Some(p), ..acc }, k - 1);
            },
            _ => {
                lemma_walk_list_sidecar(rest, acc, k - 1);
            },
        }
    }
}

/// In a well-formed container with an international text block `bs[k]`
/// whose keyword is `XML:com.adobe.xmp` in any case and whose text (inflated
/// when flagged) is the packet, the walk keeps that packet for the
/// sidecar, unless a block before it ends the walk or a later packet
/// replaces it before the walk ends.
pub proof fn lemma_xmp_text_block_kept(
    bs: Seq<Block>,
    k: int,
    keyword: Seq<u8>,
    flag: u8,
    method: u8,
    language: Seq<u8>,
    translated: Seq<u8>,
    text: Seq<u8>,
    packet: Seq<u8>,
)
    requires
        all_well_formed(bs),
        0 <= k < bs.len(),
        bs[k].ty == itxt_code(),
        bs[k].data == text_block_bytes(keyword, flag, method, language, translated, text),
        eq_ignore_ascii_case(keyword, xmp_keyword()),
        nul_free(keyword),
        nul_free(language),
        nul_free(translated),
        packet == (if flag == 1 { zlib_inflated(text)->0 } else { text }),
        flag == 1 ==> zlib_inflated(text) is Some,
        forall|j: int| 0 <= j < k ==> !ends_walk(#[trigger] bs[j]),
        forall|j: int|
            k < j < bs.len() && carries_sidecar(#[trigger] bs[j]) ==> exists|i: int|
                k < i < j && ends_walk(#[trigger] bs[i]),
    ensures
        scan_png(container_bytes(bs)).sidecar == Some(packet),
{
    lemma_scan_is_walk_list(bs, Seq::empty());
    assert(container_bytes(bs) + Seq::<u8>::empty() =~= container_bytes(bs));
    lemma_codes_differ();
    lemma_text_block_fields(keyword, flag, method, language, translated, text);
    lemma_walk_list_sidecar(bs, empty_scan(), k);
    if walk_list(bs, empty_scan()).metadata is None {
        assert(walk_blocks(Seq::empty(), walk_list(bs, empty_scan())) == walk_list(bs, empty_scan()));
    }
}

} // verus!
