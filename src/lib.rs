//! Camera metadata recovery for still images.
//!
//! The library walks the block structure of PNG containers to locate an
//! embedded EXIF payload (optionally zlib-compressed inside an international
//! text block), keeps any XMP packet found on the way for a sidecar file,
//! maps the attributes of an XMP sidecar back onto typed EXIF tags, and
//! renders the textual sidecar that mirrors decoded tags.
pub mod bytes;
pub mod container;
pub mod container_proofs;
pub mod inflate;
pub mod numbers;
pub mod sidecar;
pub mod tag_proofs;
pub mod tags;
pub mod text;
pub mod xmp;

pub use bytes::find_subslice;
pub use container::{extract_exif_from_png, HeaderInfo, PngScan};
pub use inflate::{decompress_zlib, DecodeError};
pub use numbers::{extract_first_number, parse_fraction_to_rational, DecimalNumeral, Rational};
pub use tags::{map_xmp_key_value_into_tag, Tag, TagField, TagValue};
pub use text::{return_ori_val_16, return_ori_val_32, xml_escape_attr};
pub use sidecar::render_sidecar;
pub use xmp::{parse_xmp_to_exif_tags, tags_from_element};
