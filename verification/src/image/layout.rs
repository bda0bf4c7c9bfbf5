//! The image archive layout algorithm.
//!
//! Verified against all payload files of real IRIX 4.0.5, 5.3, 6.2, 6.3
//! and 6.5 distributions (every archive walked exactly to its end):
//!
//! * the archive starts with a 13-byte header (`im001V…` magic + NUL);
//! * each record is `[u16 BE filename length][filename][payload]`;
//! * records appear in IDB order;
//! * the payload length is `cmpsize` when non-zero, otherwise `size`
//!   (files with `cmpsize(0)` are stored uncompressed).
use vstd::prelude::*;
use crate::error::Error;
use crate::image::{latin1_bytes, PayloadLocator};
use crate::names::ImageName;
use crate::text::{append_str, chars_of, decimal, decimal_spec, string_of};

verus! {

/// Size of the image archive header (`im001V530P00\0` and friends).
pub const IMAGE_HEADER_SIZE: u64 = 13;

/// Size of a record header: a big-endian u16 filename length.
pub const RECORD_HEADER_SIZE: u64 = 2;

/// One record's worth of layout input.
#[derive(Debug)]
pub struct LayoutInput {
    /// The entry's raw IDB path, which is also the record filename.
    pub raw_name: String,
    /// The encoded payload size, if it could be determined.
    pub encoded_size: Option<u64>,
}

impl Clone for LayoutInput {
    fn clone(&self) -> (r: Self)
        ensures
            r.raw_name@ == self.raw_name@,
            r.encoded_size == self.encoded_size,
    {
        LayoutInput { raw_name: self.raw_name.clone(), encoded_size: self.encoded_size }
    }
}

/// The expected offset of record `i`: the header, then each earlier
/// record's header, name bytes (one per character) and payload. `None`
/// once an earlier size is unknown, or past the largest 64-bit offset.
pub open spec fn expected_offset(inputs: Seq<LayoutInput>, i: int) -> Option<u64>
    decreases i,
{
    if i <= 0 {
        Some(IMAGE_HEADER_SIZE)
    } else {
        match (expected_offset(inputs, i - 1), inputs[i - 1].encoded_size) {
            (Some(offset), Some(size)) => {
                let next = offset + RECORD_HEADER_SIZE + inputs[i - 1].raw_name@.len() + size;
                if next <= u64::MAX { Some(next as u64) } else { None }
            },
            _ => None,
        }
    }
}

/// Computes expected record offsets for one image archive.
///
/// The returned vector parallels `inputs`. Once a record's encoded size
/// is unknown, the cursor cannot advance and every following record gets
/// `expected_record_offset: None` — the algorithm never guesses.
pub fn compute_layout(image: &ImageName, inputs: &[LayoutInput]) -> (r: Vec<PayloadLocator>)
    ensures
        r.len() == inputs.len(),
        forall|i: int| 0 <= i < r.len() ==> {
            &&& (#[trigger] r[i]).image@ == image@
            &&& r[i].encoded_size == inputs@[i].encoded_size
            &&& r[i].expected_record_offset == expected_offset(inputs@, i)
        },
{
    let mut r: Vec<PayloadLocator> = Vec::new();
    let mut cursor: Option<u64> = Some(IMAGE_HEADER_SIZE);
    let mut i: usize = 0;
    while i < inputs.len()
        invariant
            i <= inputs.len(),
            r.len() == i,
            cursor == expected_offset(inputs@, i as int),
            forall|k: int| 0 <= k < i ==> {
                &&& (#[trigger] r[k]).image@ == image@
                &&& r[k].encoded_size == inputs@[k].encoded_size
                &&& r[k].expected_record_offset == expected_offset(inputs@, k)
            },
        decreases inputs.len() - i,
    {
        let input = &inputs[i];
        r.push(PayloadLocator {
            image: image.clone(),
            encoded_size: input.encoded_size,
            expected_record_offset: cursor,
        });
        cursor = match (cursor, input.encoded_size) {
            (Some(offset), Some(size)) => {
                let name_len = latin1_bytes(input.raw_name.as_str()).len() as u64;
                match offset.checked_add(RECORD_HEADER_SIZE) {
                    Some(a) => match a.checked_add(name_len) {
                        Some(b) => b.checked_add(size),
                        None => None,
                    },
                    None => None,
                }
            },
            _ => None,
        };
        i += 1;
    }
    r
}

/// Once a record's offset is unknown, every later record's offset is
/// unknown too.
pub proof fn lemma_unknown_offset_poisons(inputs: Seq<LayoutInput>, i: int, j: int)
    requires
        0 <= i <= j,
        expected_offset(inputs, i) is None,
    ensures
        expected_offset(inputs, j) is None,
    decreases j - i,
{
    if i < j {
        lemma_unknown_offset_poisons(inputs, i, j - 1);
    }
}

/// A record whose predecessor's offset and size are known starts right
/// after the predecessor's header, name and payload, unless that passes
/// the largest 64-bit offset.
pub proof fn lemma_offsets_are_sequential(inputs: Seq<LayoutInput>, i: int)
    requires
        0 <= i,
        expected_offset(inputs, i) is Some,
        inputs[i].encoded_size is Some,
        expected_offset(inputs, i)->0 + 2 + inputs[i].raw_name@.len() + inputs[i].encoded_size->0 <= u64::MAX,
    ensures
        expected_offset(inputs, i + 1) == Some(
            (expected_offset(inputs, i)->0 + 2 + inputs[i].raw_name@.len() + inputs[i].encoded_size->0) as u64,
        ),
{
}

/// `im001V`
pub open spec fn image_magic() -> Seq<u8> {
    seq![0x69u8, 0x6du8, 0x30u8, 0x30u8, 0x31u8, 0x56u8]
}

/// Why the first bytes of an archive are not a valid header, if they
/// are not: too short, wrong magic, or not NUL-terminated.
pub open spec fn header_problem(header: Seq<u8>) -> Option<Seq<char>> {
    if header.len() < 13 {
        Some("file is only "@ + decimal_spec(header.len()) + " bytes, smaller than the 13-byte header"@)
    } else if header.take(6) != image_magic() {
        Some("missing im001V magic"@)
    } else if header[12] != 0 {
        Some("header is not NUL-terminated"@)
    } else {
        None
    }
}

/// Checks the first bytes read from the image archive at `path` (only
/// the first 13 of them matter): a valid header is exactly the `im001V…`
/// magic terminated by a NUL byte, e.g. `im001V530P00\0`.
///
/// # Errors
///
/// Returns [`Error::ImageFormat`] if the header does not match.
pub fn check_archive_header(path: &str, header: &[u8]) -> (r: Result<(), Error>)
    ensures
        match header_problem(header@) {
            None => r is Ok,
            Some(m) => r matches Err(Error::ImageFormat { path: p, message }) && p@ == path@ && message@ == m,
        },
{
    if header.len() < 13 {
        let mut message = string_of(&chars_of("file is only "));
        append_str(&mut message, decimal(header.len() as u64).as_str());
        append_str(&mut message, " bytes, smaller than the 13-byte header");
        return Err(Error::ImageFormat { path: string_of(&chars_of(path)), message });
    }
    if !(header[0] == 0x69 && header[1] == 0x6d && header[2] == 0x30 && header[3] == 0x30 && header[4] == 0x31
        && header[5] == 0x56) {
        assert(header@.take(6) != image_magic()) by {
            if header@.take(6) == image_magic() {
                assert(header@.take(6)[0] == header@[0]);
                assert(header@.take(6)[5] == header@[5]);
                assert(header@.take(6)[1] == header@[1] && header@.take(6)[2] == header@[2]);
                assert(header@.take(6)[3] == header@[3] && header@.take(6)[4] == header@[4]);
            }
        }
        return Err(Error::ImageFormat {
            path: string_of(&chars_of(path)),
            message: string_of(&chars_of("missing im001V magic")),
        });
    }
    assert(header@.take(6) =~= image_magic());
    if header[12] != 0 {
        return Err(Error::ImageFormat {
            path: string_of(&chars_of(path)),
            message: string_of(&chars_of("header is not NUL-terminated")),
        });
    }
    Ok(())
}

} // verus!
