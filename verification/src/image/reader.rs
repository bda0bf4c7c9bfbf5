//! Reads payload records from image archives.
//!
//! The reader is a session: each image carries a running *delta hint* —
//! the offset error observed on the last resynchronization. On intact
//! media every read hits the expected offset; on media with a systematic
//! offset shift, one resync teaches the reader the delta and subsequent
//! reads hit `expected + delta` immediately instead of scanning again.
//!
//! Reading is always verification: the record name must match the entry's
//! raw path, and the outcome is reported honestly through
//! [`PayloadResolution`].
//!
//! Entries arrive as canonical [`EntryKey`] values, which the reader
//! resolves against the distribution it is bound to: the owning product
//! and the exact logical image an entry is attached to come from that
//! resolution, never from the qualified product segment of a name. The
//! archive bytes come from the caller's `read(archive, offset, length)`
//! function.
use vstd::prelude::*;
use crate::distribution::{Distribution, EntryKey, LocatedEntry, Product};
use crate::error::Error;
use crate::extract::stored_compressed;
use crate::idb::{Entry, EntryId};
use crate::image::resync::{
    bytes_eq, bytes_read_at, chunk_at, chunk_read, display_of, find_record, name_bytes, name_variants, read_gave, reads_exactly,
    record_prefix, window, RecordSearch,
};
use crate::image::{latin1_bytes, Image, Payload, PayloadLocation, PayloadLocator, PayloadResolution};
use crate::names::ImageName;

verus! {

/// Reads payloads of the entries of one distribution.
pub struct ImageReader<'a> {
    distribution: &'a Distribution,
    /// The offset error learned per physical archive (its qualified
    /// image name); images not listed have learned nothing.
    deltas: Vec<(ImageName, i64)>,
}

/// The learned delta of an image: the first listed one, or zero.
pub open spec fn learned(deltas: Seq<(ImageName, i64)>, name: (Seq<char>, Seq<char>)) -> i64
    decreases deltas.len(),
{
    if deltas.len() == 0 {
        0
    } else if deltas[0].0@ == name {
        deltas[0].1
    } else {
        learned(deltas.drop_first(), name)
    }
}

/// Some subsystem of the image lists the entry id.
pub open spec fn image_holds(img: Image, id: EntryId) -> bool {
    exists|b: int, c: int|
        0 <= b < img.subsystems@.len() && 0 <= c < img.subsystems@[b].entry_ids@.len()
        && #[trigger] img.subsystems@[b].entry_ids@[c] == id
}

/// Image `a` is the first image of the list that lists the entry id.
pub open spec fn first_holding(imgs: Seq<Image>, id: EntryId, a: int) -> bool {
    &&& 0 <= a < imgs.len()
    &&& image_holds(imgs[a], id)
    &&& forall|b: int| 0 <= b < a ==> !image_holds(#[trigger] imgs[b], id)
}

/// The image an entry is attached to: the first image of its owning
/// product whose subsystems list it.
pub open spec fn attached_image(ps: Seq<Product>, key: EntryKey) -> Option<Image> {
    let imgs = ps[key.product_index as int].images@;
    if key.product_index < ps.len() && exists|a: int| first_holding(imgs, key.entry_id, a) {
        Some(imgs[choose|a: int| first_holding(imgs, key.entry_id, a)])
    } else {
        None
    }
}

/// Whether a payload agrees with the entry it was read for: the locator's
/// image and expected offset, exactly the encoded size in bytes, the
/// stored-compressed flag, the data offset after the matched record
/// header, and an honest resolution.
pub open spec fn payload_agrees(e: Entry, p: Payload, delta: i64) -> bool {
    &&& e.payload is Some
    &&& ({
        let loc = e.payload->0;
        &&& p.location.image@ == loc.image@
        &&& p.location.expected_record_offset == loc.expected_record_offset
        &&& loc.encoded_size is Some
        &&& p.bytes@.len() == (loc.encoded_size->0) as usize
        &&& p.stored_compressed == stored_compressed(e)
        &&& p.location.data_offset == p.location.actual_record_offset + 2 + name_bytes(p.location.matched_name@).len()
        &&& match p.location.resolution {
            PayloadResolution::Exact => loc.expected_record_offset == Some(p.location.actual_record_offset),
            PayloadResolution::Delta { delta: d } => {
                &&& d != 0
                &&& d == delta
                &&& loc.expected_record_offset matches Some(x) && p.location.actual_record_offset == x + d
                &&& p.location.matched_name@ == e.raw_path@
            },
            PayloadResolution::Resynced { delta: Some(d) } => {
                loc.expected_record_offset matches Some(x) && p.location.actual_record_offset == x + d
            },
            PayloadResolution::Resynced { delta: None } => loc.expected_record_offset is Some,
            PayloadResolution::Scanned => loc.expected_record_offset is None,
        }
    })
}

/// Whether some read of the archive at `archive` may have failed with
/// `err`.
pub open spec fn read_failed<F: Fn(&str, u64, usize) -> Result<Vec<u8>, Error>>(read: F, archive: Seq<char>, err: Error) -> bool {
    exists|a: &str, o: u64, n: usize| a@ == archive && #[trigger] read_gave(read, a, o, n, Err(err))
}

/// Whether some read of the archive at `archive` may have answered `r`
/// for `len` bytes at `offset`.
pub open spec fn archive_gave<F: Fn(&str, u64, usize) -> Result<Vec<u8>, Error>>(
    read: F,
    archive: Seq<char>,
    offset: u64,
    len: usize,
    r: Result<Vec<u8>, Error>,
) -> bool {
    exists|a: &str| a@ == archive && #[trigger] read_gave(read, a, offset, len, r)
}

/// Whether the record prefix of the name bytes `v` was read, byte by
/// byte, at `offset` of the archive at `archive`.
pub open spec fn record_read_at<F: Fn(&str, u64, usize) -> Result<Vec<u8>, Error>>(read: F, archive: Seq<char>, offset: int, v: Seq<u8>) -> bool {
    exists|a: &str| a@ == archive && #[trigger] bytes_read_at(read, a, offset, record_prefix(v))
}

/// Whether a record of one of `raw`'s name variants, reported by the name
/// `matched`, was read at `offset` of the archive at `archive`.
pub open spec fn record_found<F: Fn(&str, u64, usize) -> Result<Vec<u8>, Error>>(
    read: F,
    archive: Seq<char>,
    raw: Seq<char>,
    offset: u64,
    matched: Seq<char>,
) -> bool {
    exists|v: Seq<u8>| #[trigger] name_variants(name_bytes(raw)).contains(v)
        && (matched == display_of(v) || (matched == raw && v == name_bytes(raw)))
        && record_read_at(read, archive, offset as int, v)
}

/// Whether every chunk of the scanned window was read from the archive
/// `a`.
pub open spec fn window_read<F: Fn(&str, u64, usize) -> Result<Vec<u8>, Error>>(read: F, a: &str, w: (u64, u64)) -> bool {
    forall|k: int| 0 <= k && chunk_at(w, k) < w.1 ==> #[trigger] chunk_read(read, a, w, k)
}

/// A name that fits the 16-bit length field is its own first variant.
proof fn lemma_name_is_variant(n: Seq<u8>)
    requires
        n.len() <= 65535,
    ensures
        name_variants(n).contains(n),
{
    let all = seq![n, seq![46u8, 47u8] + n, seq![47u8] + n];
    let one = seq![n];
    let two = seq![n, seq![46u8, 47u8] + n];
    assert(all.drop_last() =~= two);
    assert(two.drop_last() =~= one);
    assert(one.drop_last() =~= Seq::<Seq<u8>>::empty());
    assert(one.last() == n);
    assert(crate::image::resync::short_ones(one.drop_last()) == Seq::<Seq<u8>>::empty());
    assert(crate::image::resync::short_ones(one) =~= seq![n]);
    assert(two.last() == seq![46u8, 47u8] + n);
    assert(all.last() == seq![47u8] + n);
    let s2 = crate::image::resync::short_ones(two);
    assert(s2.len() >= 1 && s2[0] == n);
    let s3 = crate::image::resync::short_ones(all);
    assert(s3.len() >= 1 && s3[0] == n);
    assert(name_variants(n)[0] == n);
}

/// A record header `h` read at `offset` and the name `v` read after it
/// make the record prefix of `v` read at `offset`.
proof fn lemma_record_bytes_read<F: Fn(&str, u64, usize) -> Result<Vec<u8>, Error>>(read: F, a: &str, offset: u64, h: Vec<u8>, v: Vec<u8>)
    requires
        reads_exactly(read),
        read_gave(read, a, offset, 2, Ok(h)),
        header_length(h@) == v@.len(),
        read_gave(read, a, (offset + 2) as u64, v@.len() as usize, Ok(v)),
        offset + 2 + v@.len() <= u64::MAX,
    ensures
        bytes_read_at(read, a, offset as int, record_prefix(v@)),
        v@.len() <= 65535,
{
    assert(h@.len() == 2);
    assert(v@.len() == v@.len() as usize);
    let len = v@.len() as int;
    let p = record_prefix(v@);
    assert(h@[0] as int == len / 256 && h@[1] as int == len % 256);
    assert forall|i: int| 0 <= i < p.len() implies #[trigger] crate::image::resync::byte_read(read, a, offset + i, p[i]) by {
        if i < 2 {
            assert(read_gave(read, a, offset, 2, Ok(h)));
            assert(h@[i] == p[i]);
        } else {
            assert(read_gave(read, a, (offset + 2) as u64, v@.len() as usize, Ok(v)));
            assert(v@[i - 2] == p[i]);
            assert((offset + i) - ((offset + 2) as u64) == i - 2);
        }
    }
}

impl Distribution {
    /// A reader session over this distribution's image archives, with
    /// nothing learned yet.
    pub fn image_reader(&self) -> (r: ImageReader<'_>)
        ensures
            r.distribution_spec() == *self,
            forall|n: (Seq<char>, Seq<char>)| r.delta_spec(n) == 0,
    {
        ImageReader { distribution: self, deltas: Vec::new() }
    }
}

/// `expected + delta`, when it is a valid offset.
fn offset_plus(expected: u64, delta: i64) -> (r: Option<u64>)
    ensures
        match r {
            Some(o) => o == expected + delta,
            None => expected + delta < 0 || expected + delta > u64::MAX,
        },
{
    if delta >= 0 {
        expected.checked_add(delta as u64)
    } else {
        let magnitude: u64 = ((-(delta + 1)) as u64) + 1;
        expected.checked_sub(magnitude)
    }
}

/// The big-endian 16-bit value of a two-byte header.
pub open spec fn header_length(h: Seq<u8>) -> int {
    h[0] * 256 + h[1]
}

/// Whether a name length read from the header at `offset` is plausible:
/// non-zero, and the name fits in the archive after the header.
pub open spec fn plausible_length(length: int, file_size: u64, offset: u64) -> bool {
    0 < length && offset + 2 + length <= file_size
}

/// Reads the raw record name bytes at `offset`, if a plausible record
/// starts there: a non-zero big-endian length followed by that many
/// name bytes, all within the archive.
fn read_record_name<F: Fn(&str, u64, usize) -> Result<Vec<u8>, Error>>(
    read: &F,
    archive: &str,
    file_size: u64,
    offset: u64,
) -> (r: Result<Option<Vec<u8>>, Error>)
    requires
        reads_exactly(*read),
    ensures
        r matches Ok(Some(v)) ==> v@.len() > 0 && offset + 2 + v@.len() <= file_size,
        offset + 2 > file_size ==> r == Ok::<Option<Vec<u8>>, Error>(None),
        offset + 2 <= file_size ==> match r {
            Ok(None) => exists|h: Vec<u8>| #[trigger] read_gave(*read, archive, offset, 2, Ok(h))
                && !plausible_length(header_length(h@), file_size, offset),
            Ok(Some(v)) => exists|h: Vec<u8>| #[trigger] read_gave(*read, archive, offset, 2, Ok(h))
                && header_length(h@) == v@.len()
                && read_gave(*read, archive, (offset + 2) as u64, v@.len() as usize, Ok(v)),
            Err(e) => read_gave(*read, archive, offset, 2, Err(e))
                || exists|h: Vec<u8>| #[trigger] read_gave(*read, archive, offset, 2, Ok(h))
                && plausible_length(header_length(h@), file_size, offset)
                && read_gave(*read, archive, (offset + 2) as u64, header_length(h@) as usize, Err(e)),
        },
{
    if offset > file_size || file_size - offset < 2 {
        return Ok(None);
    }
    let header = match read(archive, offset, 2) {
        Ok(h) => h,
        Err(e) => {
            assert(read_gave(*read, archive, offset, 2, Err(e)));
            return Err(e);
        },
    };
    assert(read_gave(*read, archive, offset, 2, Ok(header)));
    let length: u64 = (header[0] as u64) * 256 + header[1] as u64;
    assert(length == header_length(header@));
    if length == 0 || length > file_size - offset - 2 {
        return Ok(None);
    }
    match read(archive, offset + 2, length as usize) {
        Ok(name) => {
            assert(read_gave(*read, archive, (offset + 2) as u64, name@.len() as usize, Ok(name)));
            Ok(Some(name))
        },
        Err(e) => {
            assert(read_gave(*read, archive, (offset + 2) as u64, header_length(header@) as usize, Err(e)));
            Err(e)
        },
    }
}

/// The image an entry is attached to.
fn containing_image<'b>(products: &'b [Product], key: EntryKey) -> (r: Option<&'b Image>)
    ensures
        match r {
            Some(img) => attached_image(products@, key) == Some(*img),
            None => attached_image(products@, key) is None,
        },
{
    if key.product_index >= products.len() {
        return None;
    }
    let product = &products[key.product_index];
    let ghost imgs = product.images@;
    let mut a: usize = 0;
    while a < product.images.len()
        invariant
            a <= product.images.len(),
            imgs == product.images@,
            key.product_index < products@.len(),
            *product == products@[key.product_index as int],
            forall|b: int| 0 <= b < a ==> !image_holds(#[trigger] imgs[b], key.entry_id),
        decreases product.images.len() - a,
    {
        let image = &product.images[a];
        let mut s: usize = 0;
        while s < image.subsystems.len()
            invariant
                s <= image.subsystems.len(),
                a < imgs.len(),
                *image == imgs[a as int],
                forall|b: int, c: int| 0 <= b < s && 0 <= c < image.subsystems@[b].entry_ids@.len()
                    ==> #[trigger] image.subsystems@[b].entry_ids@[c] != key.entry_id,
                imgs == product.images@,
                key.product_index < products@.len(),
                *product == products@[key.product_index as int],
                forall|b: int| 0 <= b < a ==> !image_holds(#[trigger] imgs[b], key.entry_id),
            decreases image.subsystems.len() - s,
        {
            let ids = &image.subsystems[s].entry_ids;
            let mut c: usize = 0;
            while c < ids.len()
                invariant
                    c <= ids.len(),
                    s < image.subsystems@.len(),
                    *ids == image.subsystems@[s as int].entry_ids,
                    a < imgs.len(),
                    *image == imgs[a as int],
                    imgs == product.images@,
                    key.product_index < products@.len(),
                    *product == products@[key.product_index as int],
                    forall|b: int| 0 <= b < a ==> !image_holds(#[trigger] imgs[b], key.entry_id),
                    forall|q: int| 0 <= q < c ==> #[trigger] ids@[q] != key.entry_id,
                decreases ids.len() - c,
            {
                if ids[c].0 == key.entry_id.0 {
                    proof {
                        assert(image.subsystems@[s as int].entry_ids@[c as int] == key.entry_id);
                        assert(image_holds(imgs[a as int], key.entry_id));
                        assert(first_holding(imgs, key.entry_id, a as int));
                        let w = choose|w: int| first_holding(imgs, key.entry_id, w);
                        if w < a {
                            assert(!image_holds(imgs[w], key.entry_id));
                        }
                        if a < w {
                            assert(!image_holds(imgs[a as int], key.entry_id));
                        }
                    }
                    return Some(image);
                }
                c += 1;
            }
            s += 1;
        }
        a += 1;
    }
    None
}

/// The entry at position `k` carries a payload and is attached to the
/// image.
pub open spec fn payload_member(es: Seq<Entry>, img: Image, k: int) -> bool {
    es[k].payload is Some && image_holds(img, es[k].id)
}

/// Whether an image lists an entry id.
fn holds_id(image: &Image, id: EntryId) -> (r: bool)
    ensures
        r == image_holds(*image, id),
{
    let mut s: usize = 0;
    while s < image.subsystems.len()
        invariant
            s <= image.subsystems.len(),
            forall|b: int, c: int| 0 <= b < s && 0 <= c < image.subsystems@[b].entry_ids@.len()
                ==> #[trigger] image.subsystems@[b].entry_ids@[c] != id,
        decreases image.subsystems.len() - s,
    {
        let ids = &image.subsystems[s].entry_ids;
        let mut c: usize = 0;
        while c < ids.len()
            invariant
                c <= ids.len(),
                s < image.subsystems@.len(),
                *ids == image.subsystems@[s as int].entry_ids,
                forall|q: int| 0 <= q < c ==> #[trigger] ids@[q] != id,
            decreases ids.len() - c,
        {
            if ids[c].0 == id.0 {
                assert(image.subsystems@[s as int].entry_ids@[c as int] == id);
                return true;
            }
            c += 1;
        }
        s += 1;
    }
    false
}

/// The position of the first entry with the id, or the length when
/// there is none.
fn first_with_id(es: &Vec<Entry>, id: EntryId) -> (r: usize)
    ensures
        r <= es@.len(),
        r < es@.len() ==> es@[r as int].id == id,
        forall|q: int| 0 <= q < r ==> (#[trigger] es@[q]).id != id,
{
    let mut p: usize = 0;
    while p < es.len()
        invariant
            p <= es.len(),
            forall|q: int| 0 <= q < p ==> (#[trigger] es@[q]).id != id,
        decreases es.len() - p,
    {
        if es[p].id.0 == id.0 {
            return p;
        }
        p += 1;
    }
    p
}

/// Finds the raw path of the next payload-bearing entry attached to the
/// same exact image, scanning the owning product's entries in IDB order
/// after the first entry with the given id.
///
/// Membership is the image's recorded attachment (`entry_ids`), never a
/// qualified-name comparison.
pub fn next_payload_name(product: &Product, image: &Image, entry: &Entry) -> (r: Option<String>)
    ensures
        match r {
            Some(name) => exists|p: int, k: int| #![trigger product.entries@[p], payload_member(product.entries@, *image, k)] {
                &&& 0 <= p < k < product.entries@.len()
                &&& product.entries@[p].id == entry.id
                &&& (forall|q: int| 0 <= q < p ==> (#[trigger] product.entries@[q]).id != entry.id)
                &&& payload_member(product.entries@, *image, k)
                &&& (forall|q: int| p < q < k ==> !payload_member(product.entries@, *image, q))
                &&& name@ == product.entries@[k].raw_path@
            },
            None => forall|p: int| 0 <= p < product.entries@.len() && product.entries@[p].id == entry.id
                && (forall|q: int| 0 <= q < p ==> (#[trigger] product.entries@[q]).id != entry.id)
                ==> forall|k: int| p < k < product.entries@.len() ==> !#[trigger] payload_member(product.entries@, *image, k),
        },
{
    let es = &product.entries;
    let p = first_with_id(es, entry.id);
    if p >= es.len() {
        return None;
    }
    assert(es@[p as int].id == entry.id);
    let mut k: usize = p + 1;
    while k < es.len()
        invariant
            p < k <= es.len(),
            *es == product.entries,
            es@[p as int].id == entry.id,
            forall|q: int| 0 <= q < p ==> (#[trigger] es@[q]).id != entry.id,
            forall|q: int| p < q < k ==> !payload_member(es@, *image, q),
        decreases es.len() - k,
    {
        if es[k].payload.is_some() && holds_id(image, es[k].id) {
            assert(payload_member(es@, *image, k as int));
            assert(product.entries@[p as int].id == entry.id);
            let name = es[k].raw_path.clone();
            assert(name@ == product.entries@[k as int].raw_path@);
            assert(forall|q: int| 0 <= q < p ==> (#[trigger] product.entries@[q]).id != entry.id);
            assert(forall|q: int| p < q < k ==> !payload_member(product.entries@, *image, q));
            return Some(name);
        }
        k += 1;
    }
    None
}

impl<'a> ImageReader<'a> {
    /// The distribution this reader is bound to.
    pub closed spec fn distribution_spec(&self) -> Distribution {
        *self.distribution
    }

    /// The delta learned for an image.
    pub closed spec fn delta_spec(&self, name: (Seq<char>, Seq<char>)) -> i64 {
        learned(self.deltas@, name)
    }

    /// The distribution this reader is bound to.
    pub fn distribution(&self) -> (r: &'a Distribution)
        ensures
            *r == self.distribution_spec(),
    {
        self.distribution
    }

    /// The delta learned for an image: zero until a resynchronization
    /// found one of its records away from the expected offset.
    pub fn delta(&self, image: &ImageName) -> (r: i64)
        ensures
            r == self.delta_spec(image@),
    {
        let mut k: usize = 0;
        assert(self.deltas@.skip(0) =~= self.deltas@);
        while k < self.deltas.len()
            invariant
                k <= self.deltas.len(),
                learned(self.deltas@, image@) == learned(self.deltas@.skip(k as int), image@),
            decreases self.deltas.len() - k,
        {
            proof {
                assert(self.deltas@.skip(k as int).drop_first() =~= self.deltas@.skip(k as int + 1));
            }
            if self.deltas[k].0 == *image {
                return self.deltas[k].1;
            }
            k += 1;
        }
        0
    }

    /// Records the delta learned for an image.
    fn learn(&mut self, image: &ImageName, delta: i64)
        ensures
            final(self).distribution == old(self).distribution,
            forall|n: (Seq<char>, Seq<char>)| #[trigger] final(self).delta_spec(n)
                == if n == image@ { delta } else { old(self).delta_spec(n) },
    {
        let ghost before = self.deltas@;
        self.deltas.insert(0, (image.clone(), delta));
        proof {
            assert(self.deltas@.drop_first() =~= before);
        }
    }

    /// Resolves a canonical key through the distribution this reader is
    /// bound to.
    ///
    /// # Errors
    ///
    /// Returns [`Error::EntryNotFound`] when the key does not resolve in
    /// the distribution this reader is bound to.
    pub fn locate(&self, key: EntryKey) -> (r: Result<LocatedEntry<'a>, Error>)
        ensures
            match r {
                Ok(l) => l.key == key && key.product_index < self.distribution_spec().products_spec().len()
                    && key.entry_id.0 < self.distribution_spec().products_spec()[key.product_index as int].entries@.len()
                    && *l.entry == self.distribution_spec().products_spec()[key.product_index as int].entries@[key.entry_id.0 as int],
                Err(e) => e == (Error::EntryNotFound { key })
                    && (key.product_index >= self.distribution_spec().products_spec().len()
                    || key.entry_id.0 >= self.distribution_spec().products_spec()[key.product_index as int].entries@.len()),
            },
    {
        match self.distribution.entry(key) {
            Some(l) => Ok(l),
            None => Err(Error::EntryNotFound { key }),
        }
    }
}


/// Reads the payload bytes of a located record and builds the result.
fn finish_read<F: Fn(&str, u64, usize) -> Result<Vec<u8>, Error>>(
    read: &F,
    archive: &str,
    entry: &Entry,
    record_offset: u64,
    matched_name: String,
    resolution: PayloadResolution,
) -> (r: Result<Payload, Error>)
    requires
        reads_exactly(*read),
        entry.payload is Some,
    ensures
        r matches Ok(p) ==> {
            let loc = entry.payload->0;
            &&& p.location.image@ == loc.image@
            &&& p.location.expected_record_offset == loc.expected_record_offset
            &&& loc.encoded_size is Some
            &&& p.bytes@.len() == (loc.encoded_size->0) as usize
            &&& p.stored_compressed == stored_compressed(*entry)
            &&& p.location.actual_record_offset == record_offset
            &&& p.location.matched_name@ == matched_name@
            &&& p.location.data_offset == record_offset + 2 + name_bytes(matched_name@).len()
            &&& p.location.resolution == resolution
        },
        ({
            let loc = entry.payload->0;
            let data = record_offset + 2 + name_bytes(matched_name@).len();
            &&& data > u64::MAX ==> (r matches Err(Error::ResyncFailed { entry: n }) && n@ == entry.path@)
            &&& (data <= u64::MAX && loc.encoded_size is None)
                ==> (r matches Err(Error::PayloadSizeUnknown { entry: n }) && n@ == entry.path@)
            &&& (data <= u64::MAX && loc.encoded_size is Some) ==> match r {
                Ok(p) => read_gave(*read, archive, data as u64, (loc.encoded_size->0) as usize, Ok(p.bytes)),
                Err(e) => read_gave(*read, archive, data as u64, (loc.encoded_size->0) as usize, Err(e)),
            }
        }),
{
    let locator = match &entry.payload {
        Some(l) => l,
        None => {
            return Err(Error::PayloadNotFound { entry: entry.path.to_string() });
        },
    };
    let name_length = latin1_bytes(matched_name.as_str()).len() as u64;
    let data_offset = match record_offset.checked_add(2) {
        Some(x) => x.checked_add(name_length),
        None => None,
    };
    let data_offset = match data_offset {
        Some(d) => d,
        None => {
            return Err(Error::ResyncFailed { entry: entry.path.to_string() });
        },
    };
    let encoded_size = match locator.encoded_size {
        Some(n) => n,
        None => {
            return Err(Error::PayloadSizeUnknown { entry: entry.path.to_string() });
        },
    };
    #[verifier::truncate]
    let length = encoded_size as usize;
    let bytes = match read(archive, data_offset, length) {
        Ok(b) => b,
        Err(e) => {
            assert(read_gave(*read, archive, data_offset, length, Err(e)));
            return Err(e);
        },
    };
    assert(read_gave(*read, archive, data_offset, length, Ok(bytes)));
    let stored = match entry.compressed_size() {
        Some(size) => size > 0,
        None => false,
    };
    Ok(Payload {
        bytes,
        stored_compressed: stored,
        location: PayloadLocation {
            image: locator.image.clone(),
            expected_record_offset: locator.expected_record_offset,
            actual_record_offset: record_offset,
            data_offset,
            matched_name,
            resolution,
        },
    })
}

impl<'a> ImageReader<'a> {
    /// Reads the payload of one entry.
    ///
    /// The key is resolved against the distribution this reader is bound
    /// to; the image the entry is attached to is the archive read. The
    /// record is looked for, in this order, at the expected offset plus
    /// the image's learned delta (when one was learned), at the expected
    /// offset itself, and finally by a resynchronization scan whose delta
    /// the image then learns. A record only counts when its name is the
    /// entry's raw path.
    ///
    /// The returned bytes are still compressed if the entry is stored
    /// compressed; call [`Payload::decode`] to transparently decompress.
    ///
    /// # Errors
    ///
    /// * [`Error::EntryNotFound`] — the key does not resolve.
    /// * [`Error::PayloadNotFound`] — the entry carries no payload
    ///   locator, or is attached to no image.
    /// * [`Error::PayloadSizeUnknown`] — the stored size is unknown.
    /// * [`Error::ResyncFailed`] — the record could not be located.
    /// * [`Error::AmbiguousPayloadRecord`] — several records tied.
    /// * whatever `read` reports when the archive cannot be read.
    pub fn read<F: Fn(&str, u64, usize) -> Result<Vec<u8>, Error>>(&mut self, key: EntryKey, read: &F) -> (r: Result<Payload, Error>)
        requires
            reads_exactly(*read),
        ensures
            final(self).distribution_spec() == old(self).distribution_spec(),
            ({
                let ps = old(self).distribution_spec().products_spec();
                let valid = key.product_index < ps.len() && key.entry_id.0 < ps[key.product_index as int].entries@.len();
                let e = ps[key.product_index as int].entries@[key.entry_id.0 as int];
                &&& !valid ==> r == Err::<Payload, Error>(Error::EntryNotFound { key })
                &&& (valid && (e.payload is None || attached_image(ps, key) is None))
                    ==> (r matches Err(Error::PayloadNotFound { entry }) && entry@ == e.path@)
                &&& r matches Ok(p) ==> {
                    let img = attached_image(ps, key)->0;
                    &&& valid
                    &&& attached_image(ps, key) is Some
                    &&& payload_agrees(e, p, old(self).delta_spec(img.name@))
                    &&& forall|n: (Seq<char>, Seq<char>)| #[trigger] final(self).delta_spec(n) == match p.location.resolution {
                        PayloadResolution::Resynced { delta: Some(d) } => if n == img.name@ { d } else { old(self).delta_spec(n) },
                        _ => old(self).delta_spec(n),
                    }
                    &&& archive_gave(*read, img.archive.path@, p.location.data_offset,
                        ((e.payload->0).encoded_size->0) as usize, Ok(p.bytes))
                    &&& record_found(*read, img.archive.path@, e.raw_path@, p.location.actual_record_offset, p.location.matched_name@)
                }
                &&& r matches Err(err) ==> {
                    let img = attached_image(ps, key)->0;
                    let loc = e.payload->0;
                    let variants = name_variants(name_bytes(e.raw_path@));
                    ||| read_failed(*read, img.archive.path@, err)
                    ||| !valid && err == Error::EntryNotFound { key }
                    ||| err matches Error::PayloadNotFound { entry } && entry@ == e.path@
                        && (e.payload is None || attached_image(ps, key) is None)
                    ||| err matches Error::PayloadSizeUnknown { entry } && entry@ == e.path@ && loc.encoded_size is None
                    ||| err is AmbiguousPayloadRecord
                    ||| err matches Error::ResyncFailed { entry } && entry@ == e.path@ && {
                        ||| variants.len() == 0
                        ||| exists|a: &str| a@ == img.archive.path@
                            && #[trigger] window_read(*read, a, window(loc.expected_record_offset, img.archive.file_size))
                        ||| exists|o: u64, v: Seq<u8>| #[trigger] record_read_at(*read, img.archive.path@, o as int, v)
                            && variants.contains(v) && o + 2 + v.len() > u64::MAX
                    }
                }
            }),
    {
        let ghost ps = self.distribution_spec().products_spec();
        let located = self.locate(key)?;
        let entry: &'a Entry = located.entry;
        let locator = match &entry.payload {
            Some(l) => l,
            None => {
                return Err(Error::PayloadNotFound { entry: entry.path.to_string() });
            },
        };
        let image: &'a Image = match containing_image(self.distribution.products(), key) {
            Some(i) => i,
            None => {
                return Err(Error::PayloadNotFound { entry: entry.path.to_string() });
            },
        };
        let archive = image.archive.path.as_str();
        let file_size = image.archive.file_size;
        let expected_name = latin1_bytes(entry.raw_path.as_str());
        let delta = self.delta(&image.name);

        let ghost path = image.archive.path@;
        let ghost raw = name_bytes(entry.raw_path@);
        assert(archive@ == path);
        assert(expected_name@ == raw);

        // 1. With a learned delta, probe `expected + delta` first.
        if delta != 0 {
            if let Some(expected) = locator.expected_record_offset {
                if let Some(offset) = offset_plus(expected, delta) {
                    let name = match read_record_name(read, archive, file_size, offset) {
                        Ok(n) => n,
                        Err(err) => {
                            assert(read_failed(*read, path, err));
                            return Err(err);
                        },
                    };
                    if let Some(name) = name {
                        if bytes_eq(name.as_slice(), expected_name.as_slice()) {
                            let matched = crate::text::string_of(&crate::text::chars_of(entry.raw_path.as_str()));
                            proof {
                                let h = choose|h: Vec<u8>| #[trigger] read_gave(*read, archive, offset, 2, Ok(h))
                                    && header_length(h@) == name@.len()
                                    && read_gave(*read, archive, (offset + 2) as u64, name@.len() as usize, Ok(name));
                                lemma_record_bytes_read(*read, archive, offset, h, name);
                                lemma_name_is_variant(raw);
                                assert(record_read_at(*read, path, offset as int, raw));
                                assert(record_found(*read, path, entry.raw_path@, offset, matched@));
                            }
                            let r = finish_read(read, archive, entry, offset, matched, PayloadResolution::Delta { delta });
                            proof {
                                if r is Err {
                let err = r->Err_0;
                                    if !(err is ResyncFailed || err is PayloadSizeUnknown) {
                                        assert(read_failed(*read, path, err));
                                    }
                                }
                                if r is Ok {
                let p = r->Ok_0;
                                    assert(archive_gave(*read, path, p.location.data_offset, (locator.encoded_size->0) as usize, Ok(p.bytes)));
                                }
                            }
                            return r;
                        }
                    }
                }
            }
        }

        // 2. Try the expected offset itself.
        if let Some(expected) = locator.expected_record_offset {
            let name = match read_record_name(read, archive, file_size, expected) {
                Ok(n) => n,
                Err(err) => {
                    assert(read_failed(*read, path, err));
                    return Err(err);
                },
            };
            if let Some(name) = name {
                if bytes_eq(name.as_slice(), expected_name.as_slice()) {
                    let matched = crate::text::string_of(&crate::text::chars_of(entry.raw_path.as_str()));
                    proof {
                        let h = choose|h: Vec<u8>| #[trigger] read_gave(*read, archive, expected, 2, Ok(h))
                            && header_length(h@) == name@.len()
                            && read_gave(*read, archive, (expected + 2) as u64, name@.len() as usize, Ok(name));
                        lemma_record_bytes_read(*read, archive, expected, h, name);
                        lemma_name_is_variant(raw);
                        assert(record_read_at(*read, path, expected as int, raw));
                        assert(record_found(*read, path, entry.raw_path@, expected, matched@));
                    }
                    let r = finish_read(read, archive, entry, expected, matched, PayloadResolution::Exact);
                    proof {
                        if r is Err {
                let err = r->Err_0;
                            if !(err is ResyncFailed || err is PayloadSizeUnknown) {
                                assert(read_failed(*read, path, err));
                            }
                        }
                        if r is Ok {
                let p = r->Ok_0;
                            assert(archive_gave(*read, path, p.location.data_offset, (locator.encoded_size->0) as usize, Ok(p.bytes)));
                        }
                    }
                    return r;
                }
            }
        }

        // 3. Resynchronize, using the next payload-bearing entry of the
        //    same image as a cross-check hint, and learn the delta.
        let product = &self.distribution.products()[key.product_index];
        let next_name = next_payload_name(product, image, entry);
        let next: Option<&str> = match &next_name {
            Some(n) => Some(n.as_str()),
            None => None,
        };
        let search = RecordSearch { raw_name: entry.raw_path.as_str(), encoded_size: locator.encoded_size, next_name: next };
        let found = match find_record(read, archive, file_size, locator.expected_record_offset, &search) {
            Ok(Some(f)) => f,
            Ok(None) => {
                proof {
                    if name_variants(raw).len() > 0 {
                        assert(window_read(*read, archive, window(locator.expected_record_offset, file_size)));
                    }
                }
                return Err(Error::ResyncFailed { entry: entry.path.to_string() });
            },
            Err(err) => {
                proof {
                    if !(err is AmbiguousPayloadRecord) {
                        assert(read_failed(*read, path, err));
                    }
                }
                return Err(err);
            },
        };
        let ghost variants = name_variants(raw);
        let ghost k = choose|k: int| 0 <= k < variants.len() && found.matched_name@ == display_of(#[trigger] variants[k])
            && bytes_read_at(*read, archive, found.record_offset as int, record_prefix(variants[k]));
        let ghost v = variants[k];
        proof {
            assert(variants.contains(v));
            assert(record_read_at(*read, path, found.record_offset as int, v));
            assert(record_found(*read, path, entry.raw_path@, found.record_offset, found.matched_name@));
            assert(name_bytes(found.matched_name@).len() == v.len());
        }
        let resolution = match locator.expected_record_offset {
            Some(expected) => {
                if found.record_offset <= 9223372036854775807 && expected <= 9223372036854775807 {
                    let learned_delta = (found.record_offset as i64) - (expected as i64);
                    self.learn(&image.name, learned_delta);
                    PayloadResolution::Resynced { delta: Some(learned_delta) }
                } else {
                    PayloadResolution::Resynced { delta: None }
                }
            },
            None => PayloadResolution::Scanned,
        };
        let ghost offset = found.record_offset;
        let r = finish_read(read, archive, entry, found.record_offset, found.matched_name, resolution);
        proof {
            if r is Err {
                let err = r->Err_0;
                if !(err is ResyncFailed || err is PayloadSizeUnknown) {
                    assert(read_failed(*read, path, err));
                }
            }
            if r is Ok {
                let p = r->Ok_0;
                assert(archive_gave(*read, path, p.location.data_offset, (locator.encoded_size->0) as usize, Ok(p.bytes)));
            }
        }
        r
    }
}

} // verus!
