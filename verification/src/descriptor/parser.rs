//! Parser for binary product descriptors (`pd001`).
//!
//! The grammar mirrors the `gendist` descriptor writer field by field
//! and is fully deterministic: every record is count-driven, nothing is
//! searched for.
//!
//! ```text
//! file     = "pd001V..." NUL body
//! body     = 07c4 0001 07c3 layout_level product
//! integers = big-endian; strings = BE16 length + Latin-1 bytes ("LP16")
//! ```
//!
//! Records (fields guarded by a level are only present from that
//! layout level on):
//!
//! ```text
//! product   = LP16 name, LP16 id, BE16 flags, BE32 stamp,
//!             [L5] LP16 desc,
//!             [L7] attributes,
//!             BE16 image_count, images
//! image     = BE16 flags, LP16 name, LP16 id,
//!             BE16 legacy_field, BE16 order, BE32 version,
//!             [L5 only] BE32 reserved, BE32 reserved,
//!             [L5] LP16 desc,
//!             [L8] attributes,
//!             BE16 subsystem_count, subsystems
//! subsystem = BE16 flags, LP16 name, LP16 id, LP16 mapping,
//!             BE32 legacy_ordinal,
//!             BE16 count + ranges            (replaces/obsoletes/follows)
//!             BE16 count + clauses           (prereq: BE16 count + ranges)
//!             [L5] LP16 desc,
//!             [L6] BE16 count + ranges       (incompat)
//!             [L8] attributes
//!             [L9] BE16 count + ranges       (updates)
//! attributes = BE32 count + LP16 blobs (one tag byte + payload)
//! ```
//!
//! The string length written by `gendist` is a *signed* 16-bit value,
//! so no legitimate string exceeds 32767 bytes. A declared record count
//! that cannot fit in the remaining bytes, given each record's minimum
//! wire size, is rejected before any record is read.
use vstd::prelude::*;
use crate::descriptor::model::{
    DescriptorAttribute, DescriptorHeader, DescriptorImage, DescriptorRange, DescriptorSubsystem,
    DescriptorText, ProductDescriptor, Version,
};
use crate::diagnostic::Diagnostic;
use crate::error::Error;
use crate::image::{latin1_char, latin1_string};
use crate::text::{append_str, chars_of, decimal, push_char, string_of};

verus! {

/// Length of the descriptor header including its trailing NUL.
pub const DESCRIPTOR_HEADER_SIZE: usize = 13;

/// Lowest layout level the reader accepts.
pub const MIN_LAYOUT_LEVEL: u16 = 5;

/// Highest layout level the writer produces.
pub const MAX_LAYOUT_LEVEL: u16 = 9;

/// Maximum byte length of a length-prefixed string (the writer stores
/// it in a signed 16-bit value).
pub const MAX_STRING_LENGTH: usize = 32767;

/// Minimum wire size of one range record: three empty LP16 strings and
/// two BE32 bounds.
pub const MIN_RANGE_SIZE: usize = 14;

// ---------------------------------------------------------------------
// The grammar
// ---------------------------------------------------------------------

/// A range record: product, image and subsystem texts, raw bounds.
pub struct RangeRecord {
    /// Product name or pattern.
    pub product: Seq<char>,
    /// Image name or pattern.
    pub image: Seq<char>,
    /// Subsystem name or pattern.
    pub subsystem: Seq<char>,
    /// Raw lower bound.
    pub low: u32,
    /// Raw upper bound.
    pub high: u32,
}

/// An attribute blob: tag byte and payload text.
pub struct BlobRecord {
    /// Tag byte.
    pub tag: u8,
    /// Payload, Latin-1 decoded.
    pub text: Seq<char>,
}

/// A subsystem record.
pub struct SubsystemRecord {
    /// Flag word.
    pub flags: u16,
    /// Short name.
    pub name: Seq<char>,
    /// Title.
    pub id: Seq<char>,
    /// Mapping expression.
    pub mapping: Seq<char>,
    /// Legacy ordinal.
    pub legacy_ordinal: u32,
    /// `replaces` list.
    pub replaces: Seq<RangeRecord>,
    /// `prereq` clauses.
    pub prerequisites: Seq<Seq<RangeRecord>>,
    /// Long description.
    pub description: Seq<char>,
    /// `incompat` list.
    pub incompatibilities: Seq<RangeRecord>,
    /// Attribute blobs.
    pub attributes: Seq<BlobRecord>,
    /// `updates` list.
    pub updates: Seq<RangeRecord>,
}

/// An image record.
pub struct ImageRecord {
    /// Flag word.
    pub flags: u16,
    /// Short name.
    pub name: Seq<char>,
    /// Title.
    pub id: Seq<char>,
    /// Legacy field.
    pub legacy_field: u16,
    /// Installation order.
    pub order: u16,
    /// Version.
    pub version: u32,
    /// Long description.
    pub description: Seq<char>,
    /// Attribute blobs.
    pub attributes: Seq<BlobRecord>,
    /// Subsystem records.
    pub subsystems: Seq<SubsystemRecord>,
}

/// The product record of a descriptor body.
pub struct ProductRecord {
    /// Layout level.
    pub layout_level: u16,
    /// Product name.
    pub name: Seq<char>,
    /// Title.
    pub id: Seq<char>,
    /// Flag word.
    pub flags: u16,
    /// Stamp.
    pub stamp: u32,
    /// Long description.
    pub description: Seq<char>,
    /// Attribute blobs.
    pub attributes: Seq<BlobRecord>,
    /// Image records.
    pub images: Seq<ImageRecord>,
}

/// A big-endian 16-bit word at `p`, and the position after it.
pub open spec fn be16_at(s: Seq<u8>, p: int) -> Option<(u16, int)> {
    if 0 <= p && p + 2 <= s.len() {
        Some(((s[p] as int * 256 + s[p + 1] as int) as u16, p + 2))
    } else {
        None
    }
}

/// A big-endian 32-bit word at `p`, and the position after it.
pub open spec fn be32_at(s: Seq<u8>, p: int) -> Option<(u32, int)> {
    if 0 <= p && p + 4 <= s.len() {
        Some((
            (s[p] as int * 16777216 + s[p + 1] as int * 65536 + s[p + 2] as int * 256 + s[p + 3] as int) as u32,
            p + 4,
        ))
    } else {
        None
    }
}

/// A length-prefixed byte blob at `p`: at most 32767 bytes, all present.
pub open spec fn lp16_at(s: Seq<u8>, p: int) -> Option<(Seq<u8>, int)> {
    match be16_at(s, p) {
        None => None,
        Some((len, q)) => if len > 32767 || q + len > s.len() {
            None
        } else {
            Some((s.subrange(q, q + len), q + len))
        },
    }
}

/// Latin-1 text of bytes.
pub open spec fn latin1_of(b: Seq<u8>) -> Seq<char> {
    b.map_values(|x: u8| latin1_char(x))
}

/// A length-prefixed Latin-1 string at `p`.
pub open spec fn text_at(s: Seq<u8>, p: int) -> Option<(Seq<char>, int)> {
    match lp16_at(s, p) {
        None => None,
        Some((b, q)) => Some((latin1_of(b), q)),
    }
}

/// A range record at `p`.
pub open spec fn range_at(s: Seq<u8>, p: int) -> Option<(RangeRecord, int)> {
    match text_at(s, p) {
        None => None,
        Some((product, p1)) => match text_at(s, p1) {
            None => None,
            Some((image, p2)) => match text_at(s, p2) {
                None => None,
                Some((subsystem, p3)) => match be32_at(s, p3) {
                    None => None,
                    Some((low, p4)) => match be32_at(s, p4) {
                        None => None,
                        Some((high, p5)) => Some((RangeRecord { product, image, subsystem, low, high }, p5)),
                    },
                },
            },
        },
    }
}

/// `n` range records from `p`.
pub open spec fn ranges_n(s: Seq<u8>, p: int, n: nat) -> Option<(Seq<RangeRecord>, int)>
    decreases n,
{
    if n == 0 {
        Some((Seq::empty(), p))
    } else {
        match range_at(s, p) {
            None => None,
            Some((r, q)) => match ranges_n(s, q, (n - 1) as nat) {
                None => None,
                Some((rs, e)) => Some((seq![r] + rs, e)),
            },
        }
    }
}

/// Whether `count` records of at least `min_each` bytes fit after `q`.
pub open spec fn count_fits(s: Seq<u8>, q: int, count: int, min_each: int) -> bool {
    count * min_each <= s.len() - q
}

/// A `BE16 count + ranges` list at `p`.
pub open spec fn range_list_at(s: Seq<u8>, p: int) -> Option<(Seq<RangeRecord>, int)> {
    match be16_at(s, p) {
        None => None,
        Some((count, q)) => if !count_fits(s, q, count as int, 14) {
            None
        } else {
            ranges_n(s, q, count as nat)
        },
    }
}

/// `n` prerequisite clauses from `p`, each a `BE16 count + ranges`.
pub open spec fn clauses_n(s: Seq<u8>, p: int, n: nat) -> Option<(Seq<Seq<RangeRecord>>, int)>
    decreases n,
{
    if n == 0 {
        Some((Seq::empty(), p))
    } else {
        match range_list_at(s, p) {
            None => None,
            Some((c, q)) => match clauses_n(s, q, (n - 1) as nat) {
                None => None,
                Some((cs, e)) => Some((seq![c] + cs, e)),
            },
        }
    }
}

/// A `BE16 count + clauses` list at `p`.
pub open spec fn clause_list_at(s: Seq<u8>, p: int) -> Option<(Seq<Seq<RangeRecord>>, int)> {
    match be16_at(s, p) {
        None => None,
        Some((count, q)) => if !count_fits(s, q, count as int, 2) {
            None
        } else {
            clauses_n(s, q, count as nat)
        },
    }
}

/// An attribute blob at `p`: a non-empty LP16 blob split into its tag
/// byte and payload.
pub open spec fn blob_at(s: Seq<u8>, p: int) -> Option<(BlobRecord, int)> {
    match lp16_at(s, p) {
        None => None,
        Some((b, q)) => if b.len() == 0 {
            None
        } else {
            Some((BlobRecord { tag: b[0], text: latin1_of(b.skip(1)) }, q))
        },
    }
}

/// `n` attribute blobs from `p`.
pub open spec fn blobs_n(s: Seq<u8>, p: int, n: nat) -> Option<(Seq<BlobRecord>, int)>
    decreases n,
{
    if n == 0 {
        Some((Seq::empty(), p))
    } else {
        match blob_at(s, p) {
            None => None,
            Some((b, q)) => match blobs_n(s, q, (n - 1) as nat) {
                None => None,
                Some((bs, e)) => Some((seq![b] + bs, e)),
            },
        }
    }
}

/// A `BE32 count + blobs` attribute list at `p`.
pub open spec fn attribute_list_at(s: Seq<u8>, p: int) -> Option<(Seq<BlobRecord>, int)> {
    match be32_at(s, p) {
        None => None,
        Some((count, q)) => if !count_fits(s, q, count as int, 2) {
            None
        } else {
            blobs_n(s, q, count as nat)
        },
    }
}

/// An attribute list present from layout level `min` on; absent
/// (empty) below it.
pub open spec fn attributes_from_level(s: Seq<u8>, p: int, level: u16, min: u16) -> Option<(Seq<BlobRecord>, int)> {
    if level >= min { attribute_list_at(s, p) } else { Some((Seq::empty(), p)) }
}

/// A range list present from layout level `min` on; absent (empty)
/// below it.
pub open spec fn ranges_from_level(s: Seq<u8>, p: int, level: u16, min: u16) -> Option<(Seq<RangeRecord>, int)> {
    if level >= min { range_list_at(s, p) } else { Some((Seq::empty(), p)) }
}

} // verus!

verus! {

/// The fixed head of a subsystem record: flags, name, id, mapping and
/// legacy ordinal.
pub open spec fn subsystem_head_at(s: Seq<u8>, p: int) -> Option<((u16, Seq<char>, Seq<char>, Seq<char>, u32), int)> {
    match be16_at(s, p) { None => None, Some((flags, p1)) =>
    match text_at(s, p1) { None => None, Some((name, p2)) =>
    match text_at(s, p2) { None => None, Some((id, p3)) =>
    match text_at(s, p3) { None => None, Some((mapping, p4)) =>
    match be32_at(s, p4) { None => None, Some((legacy_ordinal, p5)) =>
        Some(((flags, name, id, mapping, legacy_ordinal), p5))
    }}}}}
}

/// The rules region of a subsystem record: `replaces`, `prereq` and the
/// description.
pub open spec fn subsystem_rules_at(s: Seq<u8>, p: int) -> Option<((Seq<RangeRecord>, Seq<Seq<RangeRecord>>, Seq<char>), int)> {
    match range_list_at(s, p) { None => None, Some((replaces, p1)) =>
    match clause_list_at(s, p1) { None => None, Some((prerequisites, p2)) =>
    match text_at(s, p2) { None => None, Some((description, p3)) =>
        Some(((replaces, prerequisites, description), p3))
    }}}
}

/// The level-dependent tail of a subsystem record: `incompat` (level 6),
/// attributes (level 8) and `updates` (level 9).
pub open spec fn subsystem_tail_at(s: Seq<u8>, p: int, level: u16) -> Option<((Seq<RangeRecord>, Seq<BlobRecord>, Seq<RangeRecord>), int)> {
    match ranges_from_level(s, p, level, 6) { None => None, Some((incompatibilities, p1)) =>
    match attributes_from_level(s, p1, level, 8) { None => None, Some((attributes, p2)) =>
    match ranges_from_level(s, p2, level, 9) { None => None, Some((updates, p3)) =>
        Some(((incompatibilities, attributes, updates), p3))
    }}}
}

/// A subsystem record at `p`, for layout level `level`.
pub open spec fn subsystem_at(s: Seq<u8>, p: int, level: u16) -> Option<(SubsystemRecord, int)> {
    match subsystem_head_at(s, p) { None => None, Some((h, p1)) =>
    match subsystem_rules_at(s, p1) { None => None, Some((r, p2)) =>
    match subsystem_tail_at(s, p2, level) { None => None, Some((t, p3)) =>
        Some((SubsystemRecord {
            flags: h.0, name: h.1, id: h.2, mapping: h.3, legacy_ordinal: h.4,
            replaces: r.0, prerequisites: r.1, description: r.2,
            incompatibilities: t.0, attributes: t.1, updates: t.2,
        }, p3))
    }}}
}

/// `n` subsystem records from `p`.
pub open spec fn subsystems_n(s: Seq<u8>, p: int, n: nat, level: u16) -> Option<(Seq<SubsystemRecord>, int)>
    decreases n,
{
    if n == 0 {
        Some((Seq::empty(), p))
    } else {
        match subsystem_at(s, p, level) {
            None => None,
            Some((r, q)) => match subsystems_n(s, q, (n - 1) as nat, level) {
                None => None,
                Some((rs, e)) => Some((seq![r] + rs, e)),
            },
        }
    }
}

/// The two reserved words of a level-5 image record (any value), or
/// nothing at other levels.
pub open spec fn reserved_at(s: Seq<u8>, p: int, level: u16) -> Option<int> {
    if level == 5 {
        match be32_at(s, p) {
            None => None,
            Some((_, q)) => match be32_at(s, q) {
                None => None,
                Some((_, e)) => Some(e),
            },
        }
    } else {
        Some(p)
    }
}

/// The fixed head of an image record: flags, name, id, legacy field,
/// order and version.
pub open spec fn image_head_at(s: Seq<u8>, p: int) -> Option<((u16, Seq<char>, Seq<char>, u16, u16, u32), int)> {
    match be16_at(s, p) { None => None, Some((flags, p1)) =>
    match text_at(s, p1) { None => None, Some((name, p2)) =>
    match text_at(s, p2) { None => None, Some((id, p3)) =>
    match be16_at(s, p3) { None => None, Some((legacy_field, p4)) =>
    match be16_at(s, p4) { None => None, Some((order, p5)) =>
    match be32_at(s, p5) { None => None, Some((version, p6)) =>
        Some(((flags, name, id, legacy_field, order, version), p6))
    }}}}}}
}

/// The rest of an image record: reserved words (level 5), description,
/// attributes (level 8) and the counted subsystems.
pub open spec fn image_rest_at(s: Seq<u8>, p: int, level: u16) -> Option<((Seq<char>, Seq<BlobRecord>, Seq<SubsystemRecord>), int)> {
    match reserved_at(s, p, level) { None => None, Some(p1) =>
    match text_at(s, p1) { None => None, Some((description, p2)) =>
    match attributes_from_level(s, p2, level, 8) { None => None, Some((attributes, p3)) =>
    match be16_at(s, p3) { None => None, Some((count, p4)) =>
    match subsystems_n(s, p4, count as nat, level) { None => None, Some((subsystems, p5)) =>
        Some(((description, attributes, subsystems), p5))
    }}}}}
}

/// An image record at `p`, for layout level `level`.
pub open spec fn image_at(s: Seq<u8>, p: int, level: u16) -> Option<(ImageRecord, int)> {
    match image_head_at(s, p) { None => None, Some((h, p1)) =>
    match image_rest_at(s, p1, level) { None => None, Some((r, p2)) =>
        Some((ImageRecord {
            flags: h.0, name: h.1, id: h.2, legacy_field: h.3, order: h.4, version: h.5,
            description: r.0, attributes: r.1, subsystems: r.2,
        }, p2))
    }}
}

/// `n` image records from `p`.
pub open spec fn images_n(s: Seq<u8>, p: int, n: nat, level: u16) -> Option<(Seq<ImageRecord>, int)>
    decreases n,
{
    if n == 0 {
        Some((Seq::empty(), p))
    } else {
        match image_at(s, p, level) {
            None => None,
            Some((r, q)) => match images_n(s, q, (n - 1) as nat, level) {
                None => None,
                Some((rs, e)) => Some((seq![r] + rs, e)),
            },
        }
    }
}

/// The stream header at `p`: the magic `07c4 0001 07c3`, then a layout
/// level from 5 to 9.
pub open spec fn stream_header_at(s: Seq<u8>, p: int) -> Option<(u16, int)> {
    match be16_at(s, p) { None => None, Some((m0, p1)) => if m0 != 0x07c4 { None } else {
    match be16_at(s, p1) { None => None, Some((m1, p2)) => if m1 != 0x0001 { None } else {
    match be16_at(s, p2) { None => None, Some((m2, p3)) => if m2 != 0x07c3 { None } else {
    match be16_at(s, p3) { None => None, Some((level, p4)) => if level < 5 || level > 9 { None } else {
        Some((level, p4))
    }}}}}}}}
}

/// The fixed head of the product record: name, id, flags, stamp and
/// description.
pub open spec fn product_head_at(s: Seq<u8>, p: int) -> Option<((Seq<char>, Seq<char>, u16, u32, Seq<char>), int)> {
    match text_at(s, p) { None => None, Some((name, p1)) =>
    match text_at(s, p1) { None => None, Some((id, p2)) =>
    match be16_at(s, p2) { None => None, Some((flags, p3)) =>
    match be32_at(s, p3) { None => None, Some((stamp, p4)) =>
    match text_at(s, p4) { None => None, Some((description, p5)) =>
        Some(((name, id, flags, stamp, description), p5))
    }}}}}
}

/// The rest of the product record: attributes (level 7) and the counted
/// images.
pub open spec fn product_rest_at(s: Seq<u8>, p: int, level: u16) -> Option<((Seq<BlobRecord>, Seq<ImageRecord>), int)> {
    match attributes_from_level(s, p, level, 7) { None => None, Some((attributes, p1)) =>
    match be16_at(s, p1) { None => None, Some((count, p2)) =>
    match images_n(s, p2, count as nat, level) { None => None, Some((images, p3)) =>
        Some(((attributes, images), p3))
    }}}
}

/// The descriptor body at `p`: the stream header and the product record
/// with its images.
pub open spec fn body_at(s: Seq<u8>, p: int) -> Option<(ProductRecord, int)> {
    match stream_header_at(s, p) { None => None, Some((level, p1)) =>
    match product_head_at(s, p1) { None => None, Some((h, p2)) =>
    match product_rest_at(s, p2, level) { None => None, Some((r, p3)) =>
        Some((ProductRecord {
            layout_level: level, name: h.0, id: h.1, flags: h.2, stamp: h.3, description: h.4,
            attributes: r.0, images: r.1,
        }, p3))
    }}}
}

/// `pd001V`
pub open spec fn descriptor_magic() -> Seq<u8> {
    seq![0x70u8, 0x64u8, 0x30u8, 0x30u8, 0x31u8, 0x56u8]
}

/// What a descriptor file parses to: a 13-byte NUL-terminated header
/// starting with `pd001V`, then a body that ends exactly at the end of
/// the file.
pub open spec fn descriptor_spec(s: Seq<u8>) -> Option<ProductRecord> {
    if s.len() < 13 || s.take(6) != descriptor_magic() || s[12] != 0 {
        None
    } else {
        match body_at(s, 13) {
            Some((d, e)) => if e == s.len() { Some(d) } else { None },
            None => None,
        }
    }
}

// ---------------------------------------------------------------------
// Views of the parsed records
// ---------------------------------------------------------------------

/// The record a parsed range stands for.
pub open spec fn range_record(r: DescriptorRange) -> RangeRecord {
    RangeRecord { product: r.product@, image: r.image@, subsystem: r.subsystem@, low: r.low_raw, high: r.high_raw }
}

/// The records of a list of parsed ranges.
pub open spec fn range_records(v: Seq<DescriptorRange>) -> Seq<RangeRecord> {
    v.map_values(|r: DescriptorRange| range_record(r))
}

/// The records of a list of parsed clauses.
pub open spec fn clause_records(v: Seq<Vec<DescriptorRange>>) -> Seq<Seq<RangeRecord>> {
    v.map_values(|c: Vec<DescriptorRange>| range_records(c@))
}

/// The record a parsed attribute stands for.
pub open spec fn blob_record(a: DescriptorAttribute) -> BlobRecord {
    BlobRecord { tag: a.tag, text: a.text@ }
}

/// The records of a list of parsed attributes.
pub open spec fn blob_records(v: Seq<DescriptorAttribute>) -> Seq<BlobRecord> {
    v.map_values(|a: DescriptorAttribute| blob_record(a))
}

/// The record a parsed subsystem stands for.
pub open spec fn subsystem_record(r: DescriptorSubsystem) -> SubsystemRecord {
    SubsystemRecord {
        flags: r.flags_raw,
        name: r.name@,
        id: r.text.id@,
        mapping: r.mapping@,
        legacy_ordinal: r.legacy_ordinal,
        replaces: range_records(r.replaces@),
        prerequisites: clause_records(r.prerequisites@),
        description: r.text.description@,
        incompatibilities: range_records(r.incompatibilities@),
        attributes: blob_records(r.attributes@),
        updates: range_records(r.updates@),
    }
}

/// The records of a list of parsed subsystems.
pub open spec fn subsystem_records(v: Seq<DescriptorSubsystem>) -> Seq<SubsystemRecord> {
    v.map_values(|r: DescriptorSubsystem| subsystem_record(r))
}

/// The record a parsed image stands for.
pub open spec fn image_record(r: DescriptorImage) -> ImageRecord {
    ImageRecord {
        flags: r.flags_raw,
        name: r.name@,
        id: r.text.id@,
        legacy_field: r.legacy_field,
        order: r.order,
        version: r.version.0 as u32,
        description: r.text.description@,
        attributes: blob_records(r.attributes@),
        subsystems: subsystem_records(r.subsystems@),
    }
}

/// The records of a list of parsed images.
pub open spec fn image_records(v: Seq<DescriptorImage>) -> Seq<ImageRecord> {
    v.map_values(|r: DescriptorImage| image_record(r))
}

/// The record a parsed descriptor stands for.
pub open spec fn product_record(d: ProductDescriptor) -> ProductRecord {
    ProductRecord {
        layout_level: d.layout_level,
        name: d.name@,
        id: d.text.id@,
        flags: d.flags_raw,
        stamp: d.stamp,
        description: d.text.description@,
        attributes: blob_records(d.attributes@),
        images: image_records(d.images@),
    }
}

} // verus!

verus! {

// ---------------------------------------------------------------------
// Reading
// ---------------------------------------------------------------------

/// Whether an error is a descriptor error about `path`.
pub open spec fn about(e: Error, path: Seq<char>) -> bool {
    e matches Error::Descriptor { path: p, .. } && p@ == path
}

/// An error at a body offset.
fn fail(path: &str, offset: usize, message: &str) -> (e: Error)
    ensures
        about(e, path@),
{
    let mut text = string_of(&chars_of("body offset "));
    append_str(&mut text, crate::text::hex(offset as u64, 1).as_str());
    append_str(&mut text, ": ");
    append_str(&mut text, message);
    Error::Descriptor { path: string_of(&chars_of(path)), message: text }
}

/// The text of a truncation failure: `truncated reading {what}`.
#[verifier::opaque]
spec fn truncated_text(what: Seq<char>) -> Seq<char> {
    "truncated reading "@ + what
}

/// `truncated reading {what}`
fn truncated(what: &str) -> (m: String)
    ensures
        m@ == truncated_text(what@),
{
    let mut m = string_of(&chars_of("truncated reading "));
    append_str(&mut m, what);
    proof {
        reveal(truncated_text);
    }
    m
}

/// Reads a big-endian 16-bit word.
fn read_be16(bytes: &[u8], pos: usize, path: &str, what: &str) -> (r: Result<(u16, usize), Error>)
    requires
        13 <= pos <= bytes.len(),
    ensures
        match be16_at(bytes@, pos as int) {
            None => r matches Err(e) && about(e, path@),
            Some((v, q)) => r == Ok::<(u16, usize), Error>((v, q as usize)),
        },
        r matches Ok((_, e)) ==> pos <= e <= bytes.len(),
{
    if bytes.len() - pos < 2 {
        return Err(fail(path, pos - 13, truncated(what).as_str()));
    }
    let v = (bytes[pos] as u16) * 256 + (bytes[pos + 1] as u16);
    Ok((v, pos + 2))
}

/// Reads a big-endian 32-bit word.
fn read_be32(bytes: &[u8], pos: usize, path: &str, what: &str) -> (r: Result<(u32, usize), Error>)
    requires
        13 <= pos <= bytes.len(),
    ensures
        match be32_at(bytes@, pos as int) {
            None => r matches Err(e) && about(e, path@),
            Some((v, q)) => r == Ok::<(u32, usize), Error>((v, q as usize)),
        },
        r matches Ok((_, e)) ==> pos <= e <= bytes.len(),
{
    if bytes.len() - pos < 4 {
        return Err(fail(path, pos - 13, truncated(what).as_str()));
    }
    let v = (bytes[pos] as u32) * 16777216 + (bytes[pos + 1] as u32) * 65536 + (bytes[pos + 2] as u32) * 256
        + (bytes[pos + 3] as u32);
    Ok((v, pos + 4))
}

/// Reads a `BE16 length + bytes` blob.
fn read_lp16(bytes: &[u8], pos: usize, path: &str, what: &str) -> (r: Result<(Vec<u8>, usize), Error>)
    requires
        13 <= pos <= bytes.len(),
    ensures
        match lp16_at(bytes@, pos as int) {
            None => r matches Err(e) && about(e, path@),
            Some((b, q)) => r matches Ok((v, e)) && v@ == b && e == q,
        },
        r matches Ok((_, e)) ==> pos <= e <= bytes.len(),
{
    let (len, start) = read_be16(bytes, pos, path, what)?;
    if len > 32767 {
        let mut m = string_of(&chars_of(what));
        append_str(&mut m, " length ");
        append_str(&mut m, decimal(len as u64).as_str());
        append_str(&mut m, " exceeds the wire maximum 32767");
        return Err(fail(path, pos - 13, m.as_str()));
    }
    let len = len as usize;
    if bytes.len() - start < len {
        let mut m = string_of(&chars_of(what));
        append_str(&mut m, " length ");
        append_str(&mut m, decimal(len as u64).as_str());
        append_str(&mut m, " exceeds ");
        append_str(&mut m, decimal((bytes.len() - start) as u64).as_str());
        append_str(&mut m, " remaining bytes");
        return Err(fail(path, pos - 13, m.as_str()));
    }
    let mut blob: Vec<u8> = Vec::new();
    let mut i: usize = start;
    while i < start + len
        invariant
            start <= i <= start + len <= bytes.len(),
            blob@ == bytes@.subrange(start as int, i as int),
        decreases start + len - i,
    {
        blob.push(bytes[i]);
        i += 1;
        assert(blob@ == bytes@.subrange(start as int, i as int));
    }
    Ok((blob, start + len))
}

/// Reads a length-prefixed Latin-1 string.
fn read_text(bytes: &[u8], pos: usize, path: &str, what: &str) -> (r: Result<(String, usize), Error>)
    requires
        13 <= pos <= bytes.len(),
    ensures
        match text_at(bytes@, pos as int) {
            None => r matches Err(e) && about(e, path@),
            Some((t, q)) => r matches Ok((v, e)) && v@ == t && e == q,
        },
        r matches Ok((_, e)) ==> pos <= e <= bytes.len(),
{
    let (blob, next) = read_lp16(bytes, pos, path, what)?;
    Ok((latin1_string(&blob), next))
}

/// Rejects a record count that cannot possibly fit in the remaining
/// bytes, given each record's minimum wire size.
fn check_count(bytes: &[u8], pos: usize, count: u64, min_each: u64, path: &str, what: &str) -> (r: Result<(), Error>)
    requires
        13 <= pos <= bytes.len(),
        count <= 0xffff_ffff,
        min_each <= 14,
    ensures
        count_fits(bytes@, pos as int, count as int, min_each as int) ==> r is Ok,
        !count_fits(bytes@, pos as int, count as int, min_each as int) ==> (r matches Err(e) && about(e, path@)),
{
    let remaining = (bytes.len() - pos) as u64;
    assert(count * min_each <= 0xffff_ffff * 14) by (nonlinear_arith)
        requires
            count <= 0xffff_ffff,
            min_each <= 14,
    ;
    if count * min_each > remaining {
        let mut m = string_of(&chars_of(what));
        append_str(&mut m, ": ");
        append_str(&mut m, decimal(count).as_str());
        append_str(&mut m, " records of at least ");
        append_str(&mut m, decimal(min_each).as_str());
        append_str(&mut m, " bytes each exceed ");
        append_str(&mut m, decimal(remaining).as_str());
        append_str(&mut m, " remaining bytes");
        return Err(fail(path, pos - 13, m.as_str()));
    }
    Ok(())
}

/// Reads one range record.
fn read_range(bytes: &[u8], pos: usize, path: &str) -> (r: Result<(DescriptorRange, usize), Error>)
    requires
        13 <= pos <= bytes.len(),
    ensures
        match range_at(bytes@, pos as int) {
            None => r matches Err(e) && about(e, path@),
            Some((v, q)) => r matches Ok((x, e)) && range_record(x) == v && e == q,
        },
        r matches Ok((_, e)) ==> pos <= e <= bytes.len(),
{
    let (product, p1) = read_text(bytes, pos, path, "range product")?;
    let (image, p2) = read_text(bytes, p1, path, "range image")?;
    let (subsystem, p3) = read_text(bytes, p2, path, "range subsystem")?;
    let (low, p4) = read_be32(bytes, p3, path, "range low version")?;
    let (high, p5) = read_be32(bytes, p4, path, "range high version")?;
    Ok((DescriptorRange { product, image, subsystem, low_raw: low, high_raw: high }, p5))
}

/// Reads `count` range records.
fn read_ranges(bytes: &[u8], pos: usize, count: u16, path: &str) -> (r: Result<(Vec<DescriptorRange>, usize), Error>)
    requires
        13 <= pos <= bytes.len(),
    ensures
        match ranges_n(bytes@, pos as int, count as nat) {
            None => r matches Err(e) && about(e, path@),
            Some((v, q)) => r matches Ok((x, e)) && range_records(x@) == v && e == q,
        },
        r matches Ok((_, e)) ==> pos <= e <= bytes.len(),
{
    let mut out: Vec<DescriptorRange> = Vec::new();
    let mut p = pos;
    let mut i: u16 = 0;
    while i < count
        invariant
            13 <= p <= bytes.len(),
            pos <= p,
            i <= count,
            ranges_n(bytes@, pos as int, count as nat) == (match ranges_n(bytes@, p as int, (count - i) as nat) {
                None => None,
                Some((rs, e)) => Some((range_records(out@) + rs, e)),
            }),
        decreases count - i,
    {
        let (range, next) = read_range(bytes, p, path)?;
        proof {
            assert(range_records(out@.push(range)) =~= range_records(out@).push(range_record(range)));
            let rest = ranges_n(bytes@, next as int, (count - i - 1) as nat);
            if rest is Some {
                assert(range_records(out@) + (seq![range_record(range)] + (rest->0).0) =~= range_records(out@).push(range_record(range)) + (rest->0).0);
            }
        }
        out.push(range);
        p = next;
        i += 1;
    }
    assert(range_records(out@) + Seq::<RangeRecord>::empty() =~= range_records(out@));
    Ok((out, p))
}

/// Reads a `BE16 count + range records` list.
fn read_range_list(bytes: &[u8], pos: usize, path: &str, what: &str) -> (r: Result<(Vec<DescriptorRange>, usize), Error>)
    requires
        13 <= pos <= bytes.len(),
    ensures
        match range_list_at(bytes@, pos as int) {
            None => r matches Err(e) && about(e, path@),
            Some((v, q)) => r matches Ok((x, e)) && range_records(x@) == v && e == q,
        },
        r matches Ok((_, e)) ==> pos <= e <= bytes.len(),
{
    let (count, next) = read_be16(bytes, pos, path, "range count")?;
    check_count(bytes, next, count as u64, 14, path, what)?;
    read_ranges(bytes, next, count, path)
}

/// Reads prerequisite clauses: a `BE16` clause count, then per clause a
/// `BE16` range count and that many range records.
fn read_clause_list(bytes: &[u8], pos: usize, path: &str) -> (r: Result<(Vec<Vec<DescriptorRange>>, usize), Error>)
    requires
        13 <= pos <= bytes.len(),
    ensures
        match clause_list_at(bytes@, pos as int) {
            None => r matches Err(e) && about(e, path@),
            Some((v, q)) => r matches Ok((x, e)) && clause_records(x@) == v && e == q,
        },
        r matches Ok((_, e)) ==> pos <= e <= bytes.len(),
{
    let (count, start) = read_be16(bytes, pos, path, "prerequisite clause count")?;
    check_count(bytes, start, count as u64, 2, path, "prerequisite clauses")?;
    let mut out: Vec<Vec<DescriptorRange>> = Vec::new();
    let mut p = start;
    let mut i: u16 = 0;
    while i < count
        invariant
            13 <= p <= bytes.len(),
            pos <= start <= p,
            i <= count,
            be16_at(bytes@, pos as int) == Some((count, start as int)),
            count_fits(bytes@, start as int, count as int, 2),
            clauses_n(bytes@, start as int, count as nat) == (match clauses_n(bytes@, p as int, (count - i) as nat) {
                None => None,
                Some((cs, e)) => Some((clause_records(out@) + cs, e)),
            }),
        decreases count - i,
    {
        let (clause, next) = read_range_list(bytes, p, path, "clause ranges")?;
        proof {
            assert(clause_records(out@.push(clause)) =~= clause_records(out@).push(range_records(clause@)));
            let rest = clauses_n(bytes@, next as int, (count - i - 1) as nat);
            if rest is Some {
                assert(clause_records(out@) + (seq![range_records(clause@)] + (rest->0).0) =~= clause_records(out@).push(range_records(clause@)) + (rest->0).0);
            }
        }
        out.push(clause);
        p = next;
        i += 1;
    }
    assert(clause_records(out@) + Seq::<Seq<RangeRecord>>::empty() =~= clause_records(out@));
    Ok((out, p))
}

/// Reads an attribute list: a `BE32` count followed by that many LP16
/// blobs, each split into its tag byte and payload text.
fn read_attribute_list(bytes: &[u8], pos: usize, path: &str) -> (r: Result<(Vec<DescriptorAttribute>, usize), Error>)
    requires
        13 <= pos <= bytes.len(),
    ensures
        match attribute_list_at(bytes@, pos as int) {
            None => r matches Err(e) && about(e, path@),
            Some((v, q)) => r matches Ok((x, e)) && blob_records(x@) == v && e == q,
        },
        r matches Ok((_, e)) ==> pos <= e <= bytes.len(),
{
    let (count, start) = read_be32(bytes, pos, path, "attribute count")?;
    check_count(bytes, start, count as u64, 2, path, "attributes")?;
    let mut out: Vec<DescriptorAttribute> = Vec::new();
    let mut p = start;
    let mut i: u32 = 0;
    while i < count
        invariant
            13 <= p <= bytes.len(),
            pos <= start <= p,
            i <= count,
            be32_at(bytes@, pos as int) == Some((count, start as int)),
            count_fits(bytes@, start as int, count as int, 2),
            blobs_n(bytes@, start as int, count as nat) == (match blobs_n(bytes@, p as int, (count - i) as nat) {
                None => None,
                Some((bs, e)) => Some((blob_records(out@) + bs, e)),
            }),
        decreases count - i,
    {
        let (blob, next) = read_lp16(bytes, p, path, "attribute blob")?;
        if blob.len() == 0 {
            return Err(fail(path, next - 13, "empty attribute blob"));
        }
        let tag = blob[0];
        let mut rest: Vec<u8> = Vec::new();
        let mut k: usize = 1;
        while k < blob.len()
            invariant
                1 <= k <= blob.len(),
                rest@ == blob@.subrange(1, k as int),
            decreases blob.len() - k,
        {
            rest.push(blob[k]);
            k += 1;
            assert(rest@ == blob@.subrange(1, k as int));
        }
        assert(rest@ =~= blob@.skip(1));
        let attribute = DescriptorAttribute { tag, text: latin1_string(&rest) };
        proof {
            assert(blob_records(out@.push(attribute)) =~= blob_records(out@).push(blob_record(attribute)));
            let more = blobs_n(bytes@, next as int, (count - i - 1) as nat);
            if more is Some {
                assert(blob_records(out@) + (seq![blob_record(attribute)] + (more->0).0) =~= blob_records(out@).push(blob_record(attribute)) + (more->0).0);
            }
        }
        out.push(attribute);
        p = next;
        i += 1;
    }
    assert(blob_records(out@) + Seq::<BlobRecord>::empty() =~= blob_records(out@));
    Ok((out, p))
}

} // verus!

verus! {

/// Reads one subsystem record including its rules region.
fn read_subsystem(bytes: &[u8], pos: usize, level: u16, path: &str) -> (r: Result<(DescriptorSubsystem, usize), Error>)
    requires
        13 <= pos <= bytes.len(),
    ensures
        match subsystem_at(bytes@, pos as int, level) {
            None => r matches Err(e) && about(e, path@),
            Some((v, q)) => r matches Ok((x, e)) && subsystem_record(x) == v && e == q,
        },
        r matches Ok((_, e)) ==> pos <= e <= bytes.len(),
{
    let (flags_raw, p1) = read_be16(bytes, pos, path, "subsystem flags")?;
    let (name, p2) = read_text(bytes, p1, path, "subsystem name")?;
    let (id, p3) = read_text(bytes, p2, path, "subsystem id")?;
    let (mapping, p4) = read_text(bytes, p3, path, "subsystem mapping")?;
    let (legacy_ordinal, p5) = read_be32(bytes, p4, path, "subsystem legacy ordinal")?;
    let (replaces, p6) = read_range_list(bytes, p5, path, "replaces")?;
    let (prerequisites, p7) = read_clause_list(bytes, p6, path)?;
    let (description, p8) = read_text(bytes, p7, path, "subsystem desc")?;
    let (incompatibilities, p9) = if level >= 6 {
        read_range_list(bytes, p8, path, "incompat")?
    } else {
        (Vec::new(), p8)
    };
    let (attributes, p10) = if level >= 8 {
        read_attribute_list(bytes, p9, path)?
    } else {
        (Vec::new(), p9)
    };
    let (updates, p11) = if level >= 9 {
        read_range_list(bytes, p10, path, "updates")?
    } else {
        (Vec::new(), p10)
    };
    proof {
        assert(range_records(Seq::<DescriptorRange>::empty()) =~= Seq::<RangeRecord>::empty());
        assert(blob_records(Seq::<DescriptorAttribute>::empty()) =~= Seq::<BlobRecord>::empty());
    }
    Ok((DescriptorSubsystem {
        flags_raw,
        name,
        text: DescriptorText { id, description },
        mapping,
        legacy_ordinal,
        replaces,
        prerequisites,
        incompatibilities,
        attributes,
        updates,
    }, p11))
}

/// Reads a reserved BE32 word that is zero on all real media. A
/// non-zero value does not change the framing, so it is reported as a
/// diagnostic, not an error.
fn read_reserved(bytes: &[u8], pos: usize, path: &str, diagnostics: &mut Vec<Diagnostic>) -> (r: Result<usize, Error>)
    requires
        13 <= pos <= bytes.len(),
    ensures
        match be32_at(bytes@, pos as int) {
            None => r matches Err(e) && about(e, path@),
            Some((_, q)) => r == Ok::<usize, Error>(q as usize),
        },
        r matches Ok(e) ==> pos <= e <= bytes.len(),
{
    let (reserved, next) = read_be32(bytes, pos, path, "reserved word")?;
    if reserved != 0 {
        let mut message = string_of(&chars_of("image reserved word is "));
        append_str(&mut message, crate::text::hex(reserved as u64, 1).as_str());
        append_str(&mut message, ", expected 0");
        let mut origin = string_of(&chars_of(path));
        append_str(&mut origin, ":#");
        append_str(&mut origin, crate::text::hex_bare((next - 4 - 13) as u64).as_str());
        diagnostics.push(Diagnostic::warning(message, Some(origin)));
    }
    Ok(next)
}

/// Reads one image record including its subsystems.
#[verifier::loop_isolation(false)]
fn read_image(bytes: &[u8], pos: usize, level: u16, path: &str, diagnostics: &mut Vec<Diagnostic>) -> (r: Result<(DescriptorImage, usize), Error>)
    requires
        13 <= pos <= bytes.len(),
    ensures
        match image_at(bytes@, pos as int, level) {
            None => r matches Err(e) && about(e, path@),
            Some((v, q)) => r matches Ok((x, e)) && image_record(x) == v && e == q,
        },
        r matches Ok((_, e)) ==> pos <= e <= bytes.len(),
{
    let (flags_raw, p1) = read_be16(bytes, pos, path, "image flags")?;
    let (name, p2) = read_text(bytes, p1, path, "image name")?;
    let (id, p3) = read_text(bytes, p2, path, "image id")?;
    let (legacy_field, p4) = read_be16(bytes, p3, path, "image legacy field")?;
    let (order, p5) = read_be16(bytes, p4, path, "image order")?;
    let (version, p6) = read_be32(bytes, p5, path, "image version")?;
    let p7 = if level == 5 {
        let q = read_reserved(bytes, p6, path, diagnostics)?;
        read_reserved(bytes, q, path, diagnostics)?
    } else {
        p6
    };
    let (description, p8) = read_text(bytes, p7, path, "image desc")?;
    let (attributes, p9) = if level >= 8 {
        read_attribute_list(bytes, p8, path)?
    } else {
        (Vec::new(), p8)
    };
    let (count, p10) = read_be16(bytes, p9, path, "subsystem count")?;
    let mut subsystems: Vec<DescriptorSubsystem> = Vec::new();
    let mut p = p10;
    let mut i: u16 = 0;
    while i < count
        invariant
            13 <= p10 <= p <= bytes.len(),
            i <= count,
            subsystems_n(bytes@, p10 as int, count as nat, level) == (match subsystems_n(bytes@, p as int, (count - i) as nat, level) {
                None => None,
                Some((rs, e)) => Some((subsystem_records(subsystems@) + rs, e)),
            }),
        decreases count - i,
    {
        let (subsystem, next) = read_subsystem(bytes, p, level, path)?;
        proof {
            assert(subsystem_records(subsystems@.push(subsystem)) =~= subsystem_records(subsystems@).push(subsystem_record(subsystem)));
            let rest = subsystems_n(bytes@, next as int, (count - i - 1) as nat, level);
            if rest is Some {
                assert(subsystem_records(subsystems@) + (seq![subsystem_record(subsystem)] + (rest->0).0) =~= subsystem_records(subsystems@).push(subsystem_record(subsystem)) + (rest->0).0);
            }
        }
        subsystems.push(subsystem);
        p = next;
        i += 1;
    }
    proof {
        assert(subsystem_records(subsystems@) + Seq::<SubsystemRecord>::empty() =~= subsystem_records(subsystems@));
        assert(blob_records(Seq::<DescriptorAttribute>::empty()) =~= Seq::<BlobRecord>::empty());
    }
    Ok((DescriptorImage {
        flags_raw,
        name,
        text: DescriptorText { id, description },
        legacy_field,
        order,
        version: Version(version as u64),
        attributes,
        subsystems,
    }, p))
}

} // verus!

verus! {

/// A mismatching stream magic word.
fn bad_magic(path: &str, p: usize, index: u64, word: u16) -> (e: Error)
    requires
        p >= 13,
    ensures
        about(e, path@),
{
    let mut m = string_of(&chars_of("bad stream magic word "));
    append_str(&mut m, decimal(index).as_str());
    append_str(&mut m, ": ");
    append_str(&mut m, crate::text::hex(word as u64, 4).as_str());
    fail(path, p - 13, m.as_str())
}

/// Reads the stream header: the magic words and the layout level.
fn read_stream_header(bytes: &[u8], path: &str) -> (r: Result<(u16, usize), Error>)
    requires
        13 <= bytes.len(),
    ensures
        match stream_header_at(bytes@, 13) {
            None => r matches Err(e) && about(e, path@),
            Some((v, q)) => r == Ok::<(u16, usize), Error>((v, q as usize)),
        },
        r matches Ok((_, e)) ==> 13 <= e <= bytes.len(),
{
    let (m0, p1) = read_be16(bytes, 13, path, "stream magic")?;
    if m0 != 0x07c4 {
        return Err(bad_magic(path, 13, 0, m0));
    }
    let (m1, p2) = read_be16(bytes, p1, path, "stream magic")?;
    if m1 != 0x0001 {
        return Err(bad_magic(path, p1, 1, m1));
    }
    let (m2, p3) = read_be16(bytes, p2, path, "stream magic")?;
    if m2 != 0x07c3 {
        return Err(bad_magic(path, p2, 2, m2));
    }
    let (layout_level, p4) = read_be16(bytes, p3, path, "layout level")?;
    if !(5 <= layout_level && layout_level <= 9) {
        let mut m = string_of(&chars_of("unknown layout level "));
        append_str(&mut m, decimal(layout_level as u64).as_str());
        return Err(fail(path, p3 - 13, m.as_str()));
    }
    Ok((layout_level, p4))
}

/// Reads the body: stream header, product record and all images.
#[verifier::loop_isolation(false)]
#[verifier::rlimit(40)]
fn read_body(bytes: &[u8], path: &str, header: DescriptorHeader, diagnostics: &mut Vec<Diagnostic>) -> (r: Result<(ProductDescriptor, usize), Error>)
    requires
        13 <= bytes.len(),
    ensures
        match body_at(bytes@, 13) {
            None => r matches Err(e) && about(e, path@),
            Some((v, q)) => r matches Ok((x, e)) && product_record(x) == v && e == q && x.header == header,
        },
        r matches Ok((_, e)) ==> 13 <= e <= bytes.len(),
{
    let (layout_level, p4) = read_stream_header(bytes, path)?;
    let (name, p5) = read_text(bytes, p4, path, "product name")?;
    let (id, p6) = read_text(bytes, p5, path, "product id")?;
    let (flags_raw, p7) = read_be16(bytes, p6, path, "product flags")?;
    let (stamp, p8) = read_be32(bytes, p7, path, "product stamp")?;
    let (description, p9) = read_text(bytes, p8, path, "product desc")?;
    let (attributes, p10) = if layout_level >= 7 {
        read_attribute_list(bytes, p9, path)?
    } else {
        (Vec::new(), p9)
    };
    let (count, p11) = read_be16(bytes, p10, path, "image count")?;
    let mut images: Vec<DescriptorImage> = Vec::new();
    let mut q = p11;
    let mut i: u16 = 0;
    while i < count
        invariant
            13 <= p11 <= q <= bytes.len(),
            i <= count,
            images_n(bytes@, p11 as int, count as nat, layout_level) == (match images_n(bytes@, q as int, (count - i) as nat, layout_level) {
                None => None,
                Some((rs, e)) => Some((image_records(images@) + rs, e)),
            }),
        decreases count - i,
    {
        let (image, next) = read_image(bytes, q, layout_level, path, diagnostics)?;
        proof {
            assert(image_records(images@.push(image)) =~= image_records(images@).push(image_record(image)));
            let rest = images_n(bytes@, next as int, (count - i - 1) as nat, layout_level);
            if rest is Some {
                assert(image_records(images@) + (seq![image_record(image)] + (rest->0).0) =~= image_records(images@).push(image_record(image)) + (rest->0).0);
            }
        }
        images.push(image);
        q = next;
        i += 1;
    }
    proof {
        assert(image_records(images@) + Seq::<ImageRecord>::empty() =~= image_records(images@));
        assert(blob_records(Seq::<DescriptorAttribute>::empty()) =~= Seq::<BlobRecord>::empty());
    }
    Ok((ProductDescriptor {
        header,
        layout_level,
        name,
        text: DescriptorText { id, description },
        flags_raw,
        stamp,
        attributes,
        images,
    }, q))
}

/// Decodes bytes as UTF-8, replacing invalid sequences: calls
/// `String::from_utf8_lossy`. Stated: valid UTF-8 decodes to the
/// characters it encodes, and ASCII bytes to the characters of the same
/// code. How invalid sequences are replaced is left unstated.
#[verifier::external_body]
fn utf8_lossy(bytes: &[u8]) -> (r: String)
    ensures
        vstd::utf8::valid_utf8(bytes@) ==> r@ == vstd::utf8::decode_utf8(bytes@),
        (forall|i: int| 0 <= i < bytes@.len() ==> #[trigger] bytes@[i] < 128) ==> r@ == latin1_of(bytes@),
{
    String::from_utf8_lossy(bytes).into_owned()
}

/// A descriptor error that is not tied to a body offset.
fn header_error(path: &str, message: &str) -> (e: Error)
    ensures
        about(e, path@),
{
    Error::Descriptor { path: string_of(&chars_of(path)), message: string_of(&chars_of(message)) }
}

/// Parses a product descriptor file.
///
/// The parse is exact: after the declared records the body must end
/// precisely at the end of the file. Non-zero reserved words of level-5
/// image records are reported as diagnostics.
///
/// # Errors
///
/// Returns [`Error::Descriptor`] if the header is malformed, the stream
/// magic or layout level is unknown, a record is truncated or
/// over-long, or trailing bytes remain.
pub fn parse(bytes: &[u8], path: &str, diagnostics: &mut Vec<Diagnostic>) -> (r: Result<ProductDescriptor, Error>)
    ensures
        match descriptor_spec(bytes@) {
            None => r matches Err(e) && about(e, path@),
            Some(v) => r matches Ok(d) && product_record(d) == v,
        },
        r matches Ok(d) ==> (forall|i: int| 0 <= i < 12 ==> #[trigger] bytes@[i] < 128)
            ==> d.header.generation_id@ == latin1_of(bytes@.take(12)),
        r matches Ok(d) ==> vstd::utf8::valid_utf8(bytes@.take(12))
            ==> d.header.generation_id@ == vstd::utf8::decode_utf8(bytes@.take(12)),
{
    if bytes.len() < 13 {
        return Err(header_error(path, "file shorter than descriptor header"));
    }
    if !(bytes[0] == 0x70 && bytes[1] == 0x64 && bytes[2] == 0x30 && bytes[3] == 0x30 && bytes[4] == 0x31
        && bytes[5] == 0x56) {
        assert(bytes@.take(6) != descriptor_magic()) by {
            if bytes@.take(6) == descriptor_magic() {
                assert(bytes@.take(6)[0] == bytes@[0] && bytes@.take(6)[1] == bytes@[1]);
                assert(bytes@.take(6)[2] == bytes@[2] && bytes@.take(6)[3] == bytes@[3]);
                assert(bytes@.take(6)[4] == bytes@[4] && bytes@.take(6)[5] == bytes@[5]);
            }
        }
        return Err(header_error(path, "bad descriptor magic"));
    }
    assert(bytes@.take(6) =~= descriptor_magic());
    if bytes[12] != 0 {
        return Err(header_error(path, "descriptor header is not NUL-terminated"));
    }
    let mut head: Vec<u8> = Vec::new();
    let mut i: usize = 0;
    while i < 12
        invariant
            i <= 12 < bytes.len(),
            head@ == bytes@.take(i as int),
        decreases 12 - i,
    {
        head.push(bytes[i]);
        i += 1;
        assert(head@ =~= bytes@.take(i as int));
    }
    let header = DescriptorHeader { generation_id: utf8_lossy(&head) };
    let (descriptor, end) = read_body(bytes, path, header, diagnostics)?;
    if end != bytes.len() {
        let mut m = decimal((bytes.len() - end) as u64);
        append_str(&mut m, " trailing bytes after the last record");
        return Err(fail(path, end - 13, m.as_str()));
    }
    Ok(descriptor)
}

} // verus!
