//! Image archives: the payload containers of a distribution.
//!
//! An image (e.g. `eoe.sw`) is both a logical grouping of subsystems and
//! a physical file inside the distribution directory. The physical
//! record framing was reverse engineered from real IRIX 4.0.5 – 6.5
//! media; it is deliberately isolated in this module so the logical
//! model (product / image / subsystem / entry) does not depend on it.
use vstd::prelude::*;
pub mod layout;
pub mod reader;
pub mod resync;

use crate::compress::decompress;
use crate::descriptor::model::{HardwareRestrictions, Subsystem, Version};
use crate::error::Error;
use crate::names::ImageName;

verus! {

/// The archive byte of a Latin-1 decoded character (its code point,
/// truncated to one byte).
pub open spec fn latin1_byte(c: char) -> u8 {
    ((c as u32) % 256) as u8
}

/// Encodes a Latin-1 decoded string back to its archive bytes.
pub fn latin1_bytes(s: &str) -> (r: Vec<u8>)
    ensures
        r@ == s@.map_values(|c: char| latin1_byte(c)),
{
    let chars = crate::text::chars_of(s);
    let mut r: Vec<u8> = Vec::new();
    let mut i: usize = 0;
    while i < chars.len()
        invariant
            i <= chars.len(),
            chars@ == s@,
            r@ == chars@.take(i as int).map_values(|c: char| latin1_byte(c)),
        decreases chars.len() - i,
    {
        let code = chars[i] as u32;
        let b = (code % 256) as u8;
        r.push(b);
        i += 1;
        assert(r@ =~= chars@.take(i as int).map_values(|c: char| latin1_byte(c)));
    }
    assert(chars@.take(chars.len() as int) == chars@);
    r
}

/// The character of a byte under Latin-1 decoding.
pub open spec fn latin1_char(b: u8) -> char {
    (b as u32) as char
}

/// Decodes archive bytes into a string, one byte per character.
pub fn latin1_string(bytes: &[u8]) -> (r: String)
    ensures
        r@ == bytes@.map_values(|b: u8| latin1_char(b)),
{
    let mut v: Vec<char> = Vec::new();
    let mut i: usize = 0;
    while i < bytes.len()
        invariant
            i <= bytes.len(),
            v@ == bytes@.take(i as int).map_values(|b: u8| latin1_char(b)),
        decreases bytes.len() - i,
    {
        v.push(bytes[i] as char);
        i += 1;
        assert(v@ =~= bytes@.take(i as int).map_values(|b: u8| latin1_char(b)));
    }
    assert(bytes@.take(bytes.len() as int) == bytes@);
    crate::text::string_of(&v)
}

/// Where one entry's bytes live inside an image archive.
///
/// The offset is *expected*: it is derived from the archive layout
/// algorithm, and the actual record position is only confirmed when the
/// record is read.
#[derive(Debug, PartialEq, Eq)]
pub struct PayloadLocator {
    /// The image archive holding the payload.
    pub image: ImageName,
    /// Size of the payload as stored (compressed size, or plain size when
    /// stored uncompressed), or `None` when it could not be determined —
    /// zero is a legitimate empty payload and never means "unknown".
    pub encoded_size: Option<u64>,
    /// Expected record offset, or `None` when the layout could not be
    /// computed past an earlier record of unknown size.
    pub expected_record_offset: Option<u64>,
}

impl Clone for PayloadLocator {
    fn clone(&self) -> (r: Self)
        ensures
            r.image@ == self.image@,
            r.encoded_size == self.encoded_size,
            r.expected_record_offset == self.expected_record_offset,
    {
        PayloadLocator {
            image: self.image.clone(),
            encoded_size: self.encoded_size,
            expected_record_offset: self.expected_record_offset,
        }
    }
}


/// A logical image: a group of subsystems plus its physical archive.
#[derive(Debug, Clone)]
pub struct Image {
    /// Image name, e.g. `eoe.sw`.
    pub name: ImageName,
    /// Human-readable title from the descriptor.
    pub title: Option<String>,
    /// Product version carried by the image, inherited by its
    /// subsystems.
    pub version: Option<Version>,
    /// Installation order hint.
    pub order: Option<i32>,
    /// Hardware applicability from the descriptor's `mach` blobs
    /// (OR-ed); `None` for an image without a descriptor record.
    pub mach: Option<HardwareRestrictions>,
    /// The physical archive file.
    pub archive: ImageArchive,
    /// Subsystems grouped in this image.
    pub subsystems: Vec<Subsystem>,
}

/// The physical archive file of an image, e.g. `dist/eoe.sw`.
#[derive(Debug, Clone)]
pub struct ImageArchive {
    /// Path to the archive file.
    pub path: String,
    /// File size in bytes.
    pub file_size: u64,
    /// Computed record layout.
    pub layout: ImageLayout,
}

/// The computed physical layout of an image archive.
#[derive(Debug, Clone)]
pub struct ImageLayout {
    /// Size of the archive header in bytes.
    pub header_size: u64,
    /// Locators of all payload records, in IDB order.
    pub payloads: Vec<PayloadLocator>,
}

/// A payload read from an image archive.
#[derive(Debug, Clone)]
pub struct Payload {
    /// The payload bytes, still compressed if the entry is stored
    /// compressed.
    pub bytes: Vec<u8>,
    /// Where the payload was actually found.
    pub location: PayloadLocation,
    /// Whether the entry is stored compressed (its `cmpsize` is
    /// non-zero).
    ///
    /// This — not the `1F 9D` magic — decides decoding: a distribution
    /// can legitimately ship a `.Z` file *uncompressed* (`cmpsize(0)`),
    /// and such a payload starts with the magic but must be delivered
    /// as-is.
    pub stored_compressed: bool,
}

impl Payload {
    /// Decodes the payload, transparently decompressing `.Z` data when
    /// the entry is stored compressed.
    ///
    /// # Errors
    ///
    /// Returns [`Error::Compress`] on malformed compressed data.
    pub fn decode(&self) -> (r: Result<Vec<u8>, Error>)
        ensures
            !self.stored_compressed ==> (r matches Ok(v) && v@ == self.bytes@),
            self.stored_compressed ==> match r {
                Ok(v) => crate::compress::decompress_spec(self.bytes@) == Ok::<Seq<u8>, Seq<char>>(v@),
                Err(e) => e matches Error::Compress { message }
                    && crate::compress::decompress_spec(self.bytes@) == Err::<Seq<u8>, Seq<char>>(message@),
            },
    {
        if self.stored_compressed {
            decompress(self.bytes.as_slice())
        } else {
            let mut v: Vec<u8> = Vec::new();
            let mut i: usize = 0;
            while i < self.bytes.len()
                invariant
                    i <= self.bytes.len(),
                    v@ == self.bytes@.take(i as int),
                decreases self.bytes.len() - i,
            {
                v.push(self.bytes[i]);
                i += 1;
                assert(v@ =~= self.bytes@.take(i as int));
            }
            assert(self.bytes@.take(self.bytes.len() as int) == self.bytes@);
            Ok(v)
        }
    }
}

/// Where a payload record was actually found in an image archive.
#[derive(Debug, Clone)]
pub struct PayloadLocation {
    /// The image archive read from.
    pub image: ImageName,
    /// The offset predicted by the layout algorithm, if any.
    pub expected_record_offset: Option<u64>,
    /// The offset the record was actually found at.
    pub actual_record_offset: u64,
    /// Offset of the payload data itself (after the record header).
    pub data_offset: u64,
    /// The record name variant that matched, e.g. `./foo`.
    pub matched_name: String,
    /// How the record was located.
    pub resolution: PayloadResolution,
}

/// How a payload record was located, so callers can surface recovery
/// instead of silently fixing offsets.
#[derive(Debug, Clone, Copy, PartialEq, Eq, Structural)]
pub enum PayloadResolution {
    /// Found exactly at the expected offset.
    Exact,
    /// Found at `expected + delta` without a search.
    Delta {
        /// Distance from the expected offset.
        delta: i64,
    },
    /// Found by a resynchronization scan around the expected offset.
    Resynced {
        /// Distance from the expected offset, if one was known.
        delta: Option<i64>,
    },
    /// Found by scanning because no expected offset existed.
    Scanned,
}

} // verus!
