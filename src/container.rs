use vstd::prelude::*;
use vstd::slice::slice_to_vec;

use crate::inflate::{decompress_zlib, zlib_inflated};

verus! {

/// The eight bytes that open every PNG file.
pub open spec fn png_signature() -> Seq<u8> {
    seq![137u8, 80u8, 78u8, 71u8, 13u8, 10u8, 26u8, 10u8]
}

/// Block type `IHDR`.
pub open spec fn header_code() -> Seq<u8> {
    seq![73u8, 72u8, 68u8, 82u8]
}

/// Block type `eXIf`.
pub open spec fn exif_code() -> Seq<u8> {
    seq![101u8, 88u8, 73u8, 102u8]
}

/// Block type `iTXt`.
pub open spec fn itxt_code() -> Seq<u8> {
    seq![105u8, 84u8, 88u8, 116u8]
}

/// Keyword `XML:com.adobe.xmp`.
pub open spec fn xmp_keyword() -> Seq<u8> {
    seq![88u8, 77u8, 76u8, 58u8, 99u8, 111u8, 109u8, 46u8, 97u8, 100u8, 111u8, 98u8, 101u8, 46u8, 120u8, 109u8, 112u8]
}

/// Keyword `exif`.
pub open spec fn exif_keyword() -> Seq<u8> {
    seq![101u8, 120u8, 105u8, 102u8]
}

/// Keyword `raw profile type exif`.
pub open spec fn raw_exif_keyword() -> Seq<u8> {
    seq![114u8, 97u8, 119u8, 32u8, 112u8, 114u8, 111u8, 102u8, 105u8, 108u8, 101u8, 32u8, 116u8, 121u8, 112u8, 101u8, 32u8, 101u8, 120u8, 105u8, 102u8]
}

/// The big-endian unsigned 32-bit integer held by `b[i..i + 4]`.
pub open spec fn be_u32(b: Seq<u8>, i: int) -> nat {
    (b[i] as nat) * 16777216 + (b[i + 1] as nat) * 65536 + (b[i + 2] as nat) * 256 + (b[i + 3] as nat)
}

pub open spec fn ascii_lower(b: u8) -> u8 {
    if 65 <= b <= 90 {
        (b + 32) as u8
    } else {
        b
    }
}

/// Byte strings equal up to the case of ASCII letters.
pub open spec fn eq_ignore_ascii_case(a: Seq<u8>, b: Seq<u8>) -> bool {
    &&& a.len() == b.len()
    &&& forall|i: int| 0 <= i < a.len() ==> ascii_lower(a[i]) == ascii_lower(b[i])
}

/// Image geometry and coding parameters from the header block.
#[derive(Clone, Copy, Debug, PartialEq, Eq, Structural)]
pub struct HeaderInfo {
    pub width: u32,
    pub height: u32,
    pub bit_depth: u8,
    pub color_type: u8,
    pub compression_method: u8,
    pub filter_method: u8,
    pub interlace_method: u8,
}

/// The header fields held by the first thirteen bytes of a header block.
pub open spec fn header_from(d: Seq<u8>) -> HeaderInfo {
    HeaderInfo {
        width: be_u32(d, 0) as u32,
        height: be_u32(d, 4) as u32,
        bit_depth: d[8],
        color_type: d[9],
        compression_method: d[10],
        filter_method: d[11],
        interlace_method: d[12],
    }
}

pub open spec fn color_mode_text(color_type: u8) -> Seq<char> {
    if color_type == 0 {
        "grayscale"@
    } else if color_type == 2 {
        "RGB truecolor"@
    } else if color_type == 3 {
        "indexed color"@
    } else if color_type == 4 {
        "grayscale with alpha"@
    } else if color_type == 6 {
        "RGB truecolor with alpha"@
    } else {
        "unknown"@
    }
}

impl HeaderInfo {
    /// Name of the colour mode that `color_type` codes.
    pub fn color_mode(&self) -> (r: &'static str)
        ensures
            r@ == color_mode_text(self.color_type),
    {
        if self.color_type == 0 {
            "grayscale"
        } else if self.color_type == 2 {
            "RGB truecolor"
        } else if self.color_type == 3 {
            "indexed color"
        } else if self.color_type == 4 {
            "grayscale with alpha"
        } else if self.color_type == 6 {
            "RGB truecolor with alpha"
        } else {
            "unknown"
        }
    }

    /// Name of the interlace method: none for code 0, Adam7 otherwise.
    pub fn interlace(&self) -> (r: &'static str)
        ensures
            r@ == (if self.interlace_method == 0 { "none"@ } else { "Adam7"@ }),
    {
        if self.interlace_method == 0 {
            "none"
        } else {
            "Adam7"
        }
    }
}

/// The sub-fields of an international text block.
pub struct TextBlock {
    pub keyword: Vec<u8>,
    pub compression_flag: u8,
    pub compression_method: u8,
    pub language: Vec<u8>,
    pub translated_keyword: Vec<u8>,
    pub text: Vec<u8>,
}

pub ghost struct TextBlockView {
    pub keyword: Seq<u8>,
    pub compression_flag: u8,
    pub compression_method: u8,
    pub language: Seq<u8>,
    pub translated_keyword: Seq<u8>,
    pub text: Seq<u8>,
}

impl View for TextBlock {
    type V = TextBlockView;

    open spec fn view(&self) -> TextBlockView {
        TextBlockView {
            keyword: self.keyword@,
            compression_flag: self.compression_flag,
            compression_method: self.compression_method,
            language: self.language@,
            translated_keyword: self.translated_keyword@,
            text: self.text@,
        }
    }
}

/// `s[i]` is the first zero byte of `s`.
pub open spec fn is_first_nul(s: Seq<u8>, i: int) -> bool {
    &&& 0 <= i < s.len()
    &&& s[i] == 0
    &&& forall|j: int| 0 <= j < i ==> s[j] != 0
}

pub open spec fn has_nul(s: Seq<u8>) -> bool {
    exists|i: int| 0 <= i < s.len() && s[i] == 0
}

/// Index of the first zero byte of `s` (meaningful when `has_nul(s)`).
pub open spec fn first_nul(s: Seq<u8>) -> int {
    choose|i: int| is_first_nul(s, i)
}

/// The fields of an international text block: a keyword ended by a zero
/// byte, the compression flag and method bytes, a language tag and a
/// translated keyword each ended by a zero byte, and the text that remains.
pub open spec fn text_block_of(d: Seq<u8>) -> Option<TextBlockView> {
    let k = first_nul(d);
    if !has_nul(d) || d.len() <= k + 2 {
        None
    } else {
        let rest = d.subrange(k + 3, d.len() as int);
        let l = first_nul(rest);
        if !has_nul(rest) {
            None
        } else {
            let t = k + 3 + l + 1;
            let rest2 = d.subrange(t, d.len() as int);
            let m = first_nul(rest2);
            if !has_nul(rest2) {
                None
            } else {
                Some(
                    TextBlockView {
                        keyword: d.subrange(0, k),
                        compression_flag: d[k + 1],
                        compression_method: d[k + 2],
                        language: rest.subrange(0, l),
                        translated_keyword: rest2.subrange(0, m),
                        text: d.subrange(t + m + 1, d.len() as int),
                    },
                )
            }
        }
    }
}

/// The text of a text block, inflated when its compression flag is 1.
pub open spec fn text_payload(t: TextBlockView) -> Option<Seq<u8>> {
    if t.compression_flag == 1 {
        zlib_inflated(t.text)
    } else {
        Some(t.text)
    }
}

/// What one block contributes to a walk.
pub enum BlockOutcome {
    Header(HeaderInfo),
    /// A raw EXIF payload; the walk ends with it.
    Metadata(Vec<u8>),
    /// An XMP packet to keep beside the image.
    Sidecar(Vec<u8>),
    /// A recognised block whose content cannot be used.
    Malformed,
    Unrecognized,
}

pub ghost enum BlockOutcomeView {
    Header(HeaderInfo),
    Metadata(Seq<u8>),
    Sidecar(Seq<u8>),
    Malformed,
    Unrecognized,
}

impl View for BlockOutcome {
    type V = BlockOutcomeView;

    open spec fn view(&self) -> BlockOutcomeView {
        match self {
            BlockOutcome::Header(h) => BlockOutcomeView::Header(*h),
            BlockOutcome::Metadata(p) => BlockOutcomeView::Metadata(p@),
            BlockOutcome::Sidecar(p) => BlockOutcomeView::Sidecar(p@),
            BlockOutcome::Malformed => BlockOutcomeView::Malformed,
            BlockOutcome::Unrecognized => BlockOutcomeView::Unrecognized,
        }
    }
}

/// The outcome of a text block: an XMP keyword yields its text (inflated
/// when flagged) as the sidecar packet, empty or not; an EXIF keyword yields
/// it as the metadata payload. A flagged text that does not inflate makes
/// the block unusable.
pub open spec fn text_block_outcome(t: TextBlockView) -> BlockOutcomeView {
    if eq_ignore_ascii_case(t.keyword, xmp_keyword()) {
        match text_payload(t) {
            Some(p) => BlockOutcomeView::Sidecar(p),
            None => BlockOutcomeView::Malformed,
        }
    } else if eq_ignore_ascii_case(t.keyword, raw_exif_keyword()) || eq_ignore_ascii_case(
        t.keyword,
        exif_keyword(),
    ) {
        match text_payload(t) {
            Some(p) => BlockOutcomeView::Metadata(p),
            None => BlockOutcomeView::Malformed,
        }
    } else {
        BlockOutcomeView::Unrecognized
    }
}

/// The outcome of a block of type `ty` with payload `data`.
pub open spec fn block_outcome(ty: Seq<u8>, data: Seq<u8>) -> BlockOutcomeView {
    if ty == header_code() {
        if data.len() >= 13 {
            BlockOutcomeView::Header(header_from(data))
        } else {
            BlockOutcomeView::Malformed
        }
    } else if ty == exif_code() {
        BlockOutcomeView::Metadata(data)
    } else if ty == itxt_code() {
        match text_block_of(data) {
            Some(t) => text_block_outcome(t),
            None => BlockOutcomeView::Malformed,
        }
    } else {
        BlockOutcomeView::Unrecognized
    }
}

/// What a walk over a container found.
#[derive(Debug)]
pub struct PngScan {
    /// The last header block seen.
    pub header: Option<HeaderInfo>,
    /// The metadata payload that ended the walk.
    pub metadata: Option<Vec<u8>>,
    /// The last XMP packet seen.
    pub sidecar: Option<Vec<u8>>,
}

pub ghost struct PngScanView {
    pub header: Option<HeaderInfo>,
    pub metadata: Option<Seq<u8>>,
    pub sidecar: Option<Seq<u8>>,
}

pub open spec fn bytes_view(o: Option<Vec<u8>>) -> Option<Seq<u8>> {
    match o {
        Some(v) => Some(v@),
        None => None,
    }
}

impl View for PngScan {
    type V = PngScanView;

    open spec fn view(&self) -> PngScanView {
        PngScanView {
            header: self.header,
            metadata: bytes_view(self.metadata),
            sidecar: bytes_view(self.sidecar),
        }
    }
}

pub open spec fn empty_scan() -> PngScanView {
    PngScanView { header: None, metadata: None, sidecar: None }
}

/// Walks the blocks that `rest` starts with, each a 4-byte big-endian
/// length, a 4-byte type, the payload and a 4-byte checksum. The walk stops
/// when fewer than eight bytes remain, when a block overruns the bytes that
/// remain, or at the first metadata payload.
pub open spec fn walk_blocks(rest: Seq<u8>, acc: PngScanView) -> PngScanView
    decreases rest.len(),
{
    if rest.len() < 8 {
        acc
    } else {
        let len = be_u32(rest, 0) as int;
        if 8 + len + 4 > rest.len() {
            acc
        } else {
            let next = rest.subrange(8 + len + 4, rest.len() as int);
            match block_outcome(rest.subrange(4, 8), rest.subrange(8, 8 + len)) {
                BlockOutcomeView::Header(h) => walk_blocks(next, PngScanView { header: Some(h), ..acc }),
                BlockOutcomeView::Metadata(p) => PngScanView { metadata: Some(p), ..acc },
                BlockOutcomeView::Sidecar(p) => walk_blocks(next, PngScanView { sidecar: Some(p), ..acc }),
                _ => walk_blocks(next, acc),
            }
        }
    }
}

/// What a walk over `b` finds: nothing unless `b` opens with the signature.
pub open spec fn scan_png(b: Seq<u8>) -> PngScanView {
    if b.len() >= 8 && b.subrange(0, 8) == png_signature() {
        walk_blocks(b.subrange(8, b.len() as int), empty_scan())
    } else {
        empty_scan()
    }
}

pub proof fn lemma_first_nul_unique(s: Seq<u8>, i: int)
    requires
        is_first_nul(s, i),
    ensures
        has_nul(s),
        first_nul(s) == i,
{
    let k = first_nul(s);
    assert(is_first_nul(s, k));
    if k < i {
        assert(s[k] != 0);
    } else if i < k {
        assert(s[i] != 0);
    }
}

fn read_be_u32(b: &[u8], i: usize) -> (r: u32)
    requires
        i + 4 <= b@.len(),
    ensures
        r as nat == be_u32(b@, i as int),
{
    (b[i] as u32) * 16777216 + (b[i + 1] as u32) * 65536 + (b[i + 2] as u32) * 256 + (b[i + 3] as u32)
}

/// Index of the first zero byte of `data[from..]`.
fn find_nul(data: &[u8], from: usize) -> (r: Option<usize>)
    requires
        from <= data@.len(),
    ensures
        match r {
            Some(i) => from <= i && is_first_nul(data@.subrange(from as int, data@.len() as int), i - from),
            None => !has_nul(data@.subrange(from as int, data@.len() as int)),
        },
{
    let ghost s = data@.subrange(from as int, data@.len() as int);
    let mut i: usize = from;
    while i < data.len()
        invariant
            from <= i <= data@.len(),
            s == data@.subrange(from as int, data@.len() as int),
            forall|j: int| 0 <= j < i - from ==> s[j] != 0,
        decreases data@.len() - i,
    {
        if data[i] == 0 {
            assert(s[i - from] == 0);
            return Some(i);
        }
        i = i + 1;
    }
    None
}

/// Whether `a` and `b` are equal up to the case of ASCII letters.
pub fn bytes_eq_ignore_ascii_case(a: &[u8], b: &[u8]) -> (r: bool)
    ensures
        r == eq_ignore_ascii_case(a@, b@),
{
    if a.len() != b.len() {
        return false;
    }
    let mut i: usize = 0;
    while i < a.len()
        invariant
            i <= a@.len(),
            a@.len() == b@.len(),
            forall|j: int| 0 <= j < i ==> ascii_lower(a@[j]) == ascii_lower(b@[j]),
        decreases a@.len() - i,
    {
        let x = if 65 <= a[i] && a[i] <= 90 { a[i] + 32 } else { a[i] };
        let y = if 65 <= b[i] && b[i] <= 90 { b[i] + 32 } else { b[i] };
        if x != y {
            return false;
        }
        i = i + 1;
    }
    true
}

/// Splits the payload of an international text block into its fields.
pub fn parse_text_block(data: &[u8]) -> (r: Option<TextBlock>)
    ensures
        match r {
            Some(t) => text_block_of(data@) == Some(t@),
            None => text_block_of(data@) is None,
        },
{
    let ghost d = data@;
    let k = match find_nul(data, 0) {
        Some(k) => k,
        None => {
            assert(d.subrange(0, d.len() as int) =~= d);
            return None;
        },
    };
    proof {
        assert(d.subrange(0, d.len() as int) =~= d);
        lemma_first_nul_unique(d, k as int);
    }
    if data.len() - k <= 2 {
        return None;
    }
    let l = match find_nul(data, k + 3) {
        Some(l) => l,
        None => return None,
    };
    proof {
        lemma_first_nul_unique(d.subrange(k + 3, d.len() as int), l - (k + 3));
    }
    let t = l + 1;
    let m = match find_nul(data, t) {
        Some(m) => m,
        None => return None,
    };
    proof {
        lemma_first_nul_unique(d.subrange(t as int, d.len() as int), m - t);
    }
    let block = TextBlock {
        keyword: slice_to_vec(&data[0..k]),
        compression_flag: data[k + 1],
        compression_method: data[k + 2],
        language: slice_to_vec(&data[k + 3..l]),
        translated_keyword: slice_to_vec(&data[t..m]),
        text: slice_to_vec(&data[m + 1..data.len()]),
    };
    proof {
        let rest = d.subrange(k + 3, d.len() as int);
        let rest2 = d.subrange(t as int, d.len() as int);
        assert(rest.subrange(0, l - (k + 3)) =~= d.subrange(k + 3, l as int));
        assert(rest2.subrange(0, m - t) =~= d.subrange(t as int, m as int));
    }
    Some(block)
}

fn is_code(ty: &[u8], a: u8, b: u8, c: u8, d: u8) -> (r: bool)
    requires
        ty@.len() == 4,
    ensures
        r == (ty@ == seq![a, b, c, d]),
{
    let r = ty[0] == a && ty[1] == b && ty[2] == c && ty[3] == d;
    if r {
        assert(ty@ =~= seq![a, b, c, d]);
    } else {
        assert(ty@ != seq![a, b, c, d]) by {
            if ty@ == seq![a, b, c, d] {
                assert(ty@[0] == a && ty@[1] == b && ty@[2] == c && ty@[3] == d);
            }
        }
    }
    r
}

fn text_payload_of(t: TextBlock) -> (r: Option<Vec<u8>>)
    ensures
        bytes_view(r) == text_payload(t@),
{
    if t.compression_flag == 1 {
        match decompress_zlib(t.text.as_slice()) {
            Ok(v) => Some(v),
            Err(_) => None,
        }
    } else {
        Some(t.text)
    }
}

/// Classifies a text block by its keyword.
pub fn classify_text_block(t: TextBlock) -> (r: BlockOutcome)
    ensures
        r@ == text_block_outcome(t@),
{
    let xmp: [u8; 17] = [88, 77, 76, 58, 99, 111, 109, 46, 97, 100, 111, 98, 101, 46, 120, 109, 112];
    let raw: [u8; 21] = [
        114, 97, 119, 32, 112, 114, 111, 102, 105, 108, 101, 32, 116, 121, 112, 101, 32, 101, 120, 105, 102,
    ];
    let exif: [u8; 4] = [101, 120, 105, 102];
    assert(xmp@ =~= xmp_keyword());
    assert(raw@ =~= raw_exif_keyword());
    assert(exif@ =~= exif_keyword());
    if bytes_eq_ignore_ascii_case(t.keyword.as_slice(), &xmp) {
        match text_payload_of(t) {
            Some(p) => BlockOutcome::Sidecar(p),
            None => BlockOutcome::Malformed,
        }
    } else if bytes_eq_ignore_ascii_case(t.keyword.as_slice(), &raw)
        || bytes_eq_ignore_ascii_case(t.keyword.as_slice(), &exif) {
        match text_payload_of(t) {
            Some(p) => BlockOutcome::Metadata(p),
            None => BlockOutcome::Malformed,
        }
    } else {
        BlockOutcome::Unrecognized
    }
}

/// Classifies a block by its 4-byte type code and payload.
pub fn classify_block(ty: &[u8], data: &[u8]) -> (r: BlockOutcome)
    requires
        ty@.len() == 4,
    ensures
        r@ == block_outcome(ty@, data@),
{
    if is_code(ty, 73, 72, 68, 82) {
        if data.len() >= 13 {
            let h = HeaderInfo {
                width: read_be_u32(data, 0),
                height: read_be_u32(data, 4),
                bit_depth: data[8],
                color_type: data[9],
                compression_method: data[10],
                filter_method: data[11],
                interlace_method: data[12],
            };
            BlockOutcome::Header(h)
        } else {
            BlockOutcome::Malformed
        }
    } else if is_code(ty, 101, 88, 73, 102) {
        BlockOutcome::Metadata(slice_to_vec(data))
    } else if is_code(ty, 105, 84, 88, 116) {
        match parse_text_block(data) {
            Some(t) => classify_text_block(t),
            None => BlockOutcome::Malformed,
        }
    } else {
        BlockOutcome::Unrecognized
    }
}

/// Walks the blocks of a PNG container: records header blocks, keeps the
/// last XMP packet, and ends at the first EXIF payload, at a block that
/// overruns the buffer, or at the end of the buffer. A buffer that does not
/// open with the PNG signature yields nothing.
pub fn extract_exif_from_png(buf: &[u8]) -> (r: PngScan)
    ensures
        r@ == scan_png(buf@),
        !(buf@.len() >= 8 && buf@.subrange(0, 8) == png_signature()) ==> r@ == empty_scan(),
{
    let n = buf.len();
    if n < 8 || !(buf[0] == 137 && buf[1] == 80 && buf[2] == 78 && buf[3] == 71 && buf[4] == 13
        && buf[5] == 10 && buf[6] == 26 && buf[7] == 10) {
        proof {
            if n >= 8 && buf@.subrange(0, 8) == png_signature() {
                assert(buf@.subrange(0, 8)[0] == 137 && buf@.subrange(0, 8)[1] == 80);
                assert(buf@.subrange(0, 8)[2] == 78 && buf@.subrange(0, 8)[3] == 71);
                assert(buf@.subrange(0, 8)[4] == 13 && buf@.subrange(0, 8)[5] == 10);
                assert(buf@.subrange(0, 8)[6] == 26 && buf@.subrange(0, 8)[7] == 10);
            }
        }
        return PngScan { header: None, metadata: None, sidecar: None };
    }
    assert(buf@.subrange(0, 8) =~= png_signature());
    let ghost whole = buf@.subrange(8, n as int);
    let mut header: Option<HeaderInfo> = None;
    let mut sidecar: Option<Vec<u8>> = None;
    let mut pos: usize = 8;
    loop
        invariant
            8 <= pos <= n,
            n == buf@.len(),
            whole == buf@.subrange(8, n as int),
            buf@.subrange(0, 8) == png_signature(),
            scan_png(buf@) == walk_blocks(whole, empty_scan()),
            walk_blocks(whole, empty_scan()) == walk_blocks(
                buf@.subrange(pos as int, n as int),
                PngScanView { header: header, metadata: None, sidecar: bytes_view(sidecar) },
            ),
        decreases n - pos,
    {
        let ghost rest = buf@.subrange(pos as int, n as int);
        let ghost acc = PngScanView { header: header, metadata: None, sidecar: bytes_view(sidecar) };
        if n - pos < 8 {
            return PngScan { header, metadata: None, sidecar };
        }
        let len = read_be_u32(buf, pos) as usize;
        assert(be_u32(rest, 0) == be_u32(buf@, pos as int));
        let avail = n - pos - 8;
        if avail < 4 || len > avail - 4 {
            return PngScan { header, metadata: None, sidecar };
        }
        let ty = &buf[pos + 4..pos + 8];
        let data = &buf[pos + 8..pos + 8 + len];
        let next = pos + 8 + len + 4;
        proof {
            assert(rest.subrange(4, 8) =~= ty@);
            assert(rest.subrange(8, 8 + len) =~= data@);
            assert(rest.subrange(8 + len + 4, rest.len() as int) =~= buf@.subrange(next as int, n as int));
        }
        let outcome = classify_block(ty, data);
        pos = next;
        match outcome {
            BlockOutcome::Header(h) => {
                header = Some(h);
            },
            BlockOutcome::Metadata(p) => {
                return PngScan { header, metadata: Some(p), sidecar };
            },
            BlockOutcome::Sidecar(p) => {
                sidecar = Some(p);
            },
            _ => {},
        }
    }
}

} // verus!
