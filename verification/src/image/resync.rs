//! Resynchronization: locating a payload record whose expected offset is
//! wrong or unknown.
//!
//! Instead of searching for a bare filename (which may also appear inside
//! payload data), the scanner searches for the complete record prefix
//! `[u16 BE filename length][filename]`, trying the name variants `foo`,
//! `./foo` and `/foo`. Candidates are scored by distance to the expected
//! offset, with a bonus when the record that would *follow* the candidate
//! also matches its expected prefix. Several equally scored candidates are
//! reported as ambiguous instead of silently picking one.
//!
//! The archive is read through the caller's `read(archive, offset,
//! length)` function, which returns exactly `length` bytes or an error.
use vstd::prelude::*;
use crate::error::Error;
use crate::image::layout::IMAGE_HEADER_SIZE;
use crate::image::{latin1_byte, latin1_bytes, latin1_char, latin1_string};

verus! {

/// How far before the expected offset a scan looks.
pub const DEFAULT_SEARCH_BACK: u64 = 1048576;

/// How far past the expected offset a scan looks.
pub const DEFAULT_SEARCH_FORWARD: u64 = 16777216;

/// Read chunk size used while scanning.
pub const SCAN_CHUNK: u64 = 1048576;

/// What to search for.
#[derive(Debug)]
pub struct RecordSearch<'a> {
    /// The entry's raw IDB path; variants are derived automatically.
    pub raw_name: &'a str,
    /// Encoded payload size, used for the next-record cross-check. The
    /// cross-check is skipped when the size is unknown.
    pub encoded_size: Option<u64>,
    /// Raw name of the next payload record in the same image, if known.
    pub next_name: Option<&'a str>,
}

/// A record located by [`find_record`].
#[derive(Debug, Clone, PartialEq, Eq)]
pub struct FoundRecord {
    /// Offset of the record header within the archive.
    pub record_offset: u64,
    /// The name variant that matched, e.g. `./foo`.
    pub matched_name: String,
}

/// The variants of a record name that fit the 16-bit length field:
/// `foo`, `./foo`, `/foo`, in that order.
pub open spec fn name_variants(name: Seq<u8>) -> Seq<Seq<u8>> {
    let all = seq![name, seq![46u8, 47u8] + name, seq![47u8] + name];
    short_ones(all)
}

/// The byte strings of a list that fit a 16-bit length, in order.
pub open spec fn short_ones(vs: Seq<Seq<u8>>) -> Seq<Seq<u8>>
    decreases vs.len(),
{
    if vs.len() == 0 {
        Seq::empty()
    } else if vs.last().len() <= 65535 {
        short_ones(vs.drop_last()).push(vs.last())
    } else {
        short_ones(vs.drop_last())
    }
}

/// The record prefix of a name: its big-endian 16-bit length, then the
/// name.
pub open spec fn record_prefix(v: Seq<u8>) -> Seq<u8> {
    seq![(v.len() / 256) as u8, (v.len() % 256) as u8] + v
}

/// The archive bytes of a Latin-1 decoded name.
pub open spec fn name_bytes(s: Seq<char>) -> Seq<u8> {
    s.map_values(|c: char| latin1_byte(c))
}

/// The Latin-1 display string of archive bytes.
pub open spec fn display_of(v: Seq<u8>) -> Seq<char> {
    v.map_values(|b: u8| latin1_char(b))
}

/// Whether the triples describe the given variants: prefix, byte length
/// and display name of each, in order.
pub open spec fn describes(r: Seq<(Vec<u8>, usize, String)>, vs: Seq<Seq<u8>>) -> bool {
    &&& r.len() == vs.len()
    &&& forall|k: int| 0 <= k < vs.len() ==> {
        &&& (#[trigger] r[k]).0@ == record_prefix(vs[k])
        &&& r[k].1 == vs[k].len()
        &&& r[k].2@ == display_of(vs[k])
        &&& vs[k].len() <= 65535
    }
}

/// Builds the record prefixes `[u16 BE length][name]` for every name
/// variant of `raw_name`, using the Latin-1 archive bytes as stored.
///
/// Returns `(prefix, name_byte_length, display_name)` triples.
fn record_prefixes(raw_name: &str) -> (r: Vec<(Vec<u8>, usize, String)>)
    ensures
        describes(r@, name_variants(name_bytes(raw_name@))),
{
    let name = latin1_bytes(raw_name);
    let ghost n = name@;
    let mut dot: Vec<u8> = Vec::new();
    dot.push(46u8);
    dot.push(47u8);
    let mut slash: Vec<u8> = Vec::new();
    slash.push(47u8);
    let mut k: usize = 0;
    while k < name.len()
        invariant
            k <= name.len(),
            dot@ == seq![46u8, 47u8] + name@.take(k as int),
            slash@ == seq![47u8] + name@.take(k as int),
        decreases name.len() - k,
    {
        dot.push(name[k]);
        slash.push(name[k]);
        k += 1;
        assert(dot@ =~= seq![46u8, 47u8] + name@.take(k as int));
        assert(slash@ =~= seq![47u8] + name@.take(k as int));
    }
    assert(name@.take(name@.len() as int) =~= name@);
    let ghost all = seq![n, seq![46u8, 47u8] + n, seq![47u8] + n];
    let mut variants: Vec<Vec<u8>> = Vec::new();
    variants.push(name);
    variants.push(dot);
    variants.push(slash);
    assert(variants@.map_values(|v: Vec<u8>| v@) =~= all);
    let mut r: Vec<(Vec<u8>, usize, String)> = Vec::new();
    let mut i: usize = 0;
    while i < variants.len()
        invariant
            i <= variants.len(),
            variants@.len() == 3,
            all.len() == 3,
            forall|q: int| 0 <= q < 3 ==> (#[trigger] variants@[q])@ == all[q],
            describes(r@, short_ones(all.take(i as int))),
        decreases variants.len() - i,
    {
        proof {
            assert(all.take(i as int + 1).drop_last() =~= all.take(i as int));
            assert(all.take(i as int + 1).last() == all[i as int]);
        }
        let variant = &variants[i];
        if variant.len() <= 65535 {
            let byte_len = variant.len();
            let display = latin1_string(variant.as_slice());
            let mut prefix: Vec<u8> = Vec::new();
            prefix.push((byte_len / 256) as u8);
            prefix.push((byte_len % 256) as u8);
            let mut q: usize = 0;
            while q < variant.len()
                invariant
                    q <= variant.len(),
                    byte_len == variant@.len(),
                    prefix@ == seq![(byte_len / 256) as u8, (byte_len % 256) as u8] + variant@.take(q as int),
                decreases variant.len() - q,
            {
                prefix.push(variant[q]);
                q += 1;
                assert(prefix@ =~= seq![(byte_len / 256) as u8, (byte_len % 256) as u8] + variant@.take(q as int));
            }
            assert(variant@.take(variant@.len() as int) =~= variant@);
            r.push((prefix, byte_len, display));
        }
        i += 1;
    }
    assert(all.take(3) =~= all);
    r
}

/// Whether `needle` occurs in `h` at position `i`.
pub open spec fn occurs_at(h: Seq<u8>, n: Seq<u8>, i: int) -> bool {
    0 <= i && i + n.len() <= h.len() && h.subrange(i, i + n.len()) == n
}

/// The positions below `upto` where `n` occurs in `h`, ascending.
pub open spec fn occurrences(h: Seq<u8>, n: Seq<u8>, upto: int) -> Seq<usize>
    decreases upto,
{
    if upto <= 0 {
        Seq::empty()
    } else if occurs_at(h, n, upto - 1) {
        occurrences(h, n, upto - 1).push((upto - 1) as usize)
    } else {
        occurrences(h, n, upto - 1)
    }
}

/// Every occurrence below `upto` lies below `upto`.
proof fn lemma_occurrences_bound(h: Seq<u8>, n: Seq<u8>, upto: int)
    requires
        upto <= usize::MAX,
    ensures
        forall|q: int| 0 <= q < occurrences(h, n, upto).len() ==> (#[trigger] occurrences(h, n, upto)[q]) < upto,
    decreases upto,
{
    if upto > 0 {
        lemma_occurrences_bound(h, n, upto - 1);
        let prev = occurrences(h, n, upto - 1);
        if occurs_at(h, n, upto - 1) {
            let last = (upto - 1) as usize;
            assert(last == upto - 1);
            assert(occurrences(h, n, upto) == prev.push(last));
            assert forall|q: int| 0 <= q < occurrences(h, n, upto).len() implies (#[trigger] occurrences(h, n, upto)[q]) < upto by {
                if q < prev.len() {
                    assert(occurrences(h, n, upto)[q] == prev[q]);
                }
            }
        }
    }
}

/// Every listed occurrence is one.
proof fn lemma_occurrences_occur(h: Seq<u8>, n: Seq<u8>, upto: int)
    requires
        upto <= usize::MAX,
    ensures
        forall|q: int| 0 <= q < occurrences(h, n, upto).len() ==> occurs_at(h, n, (#[trigger] occurrences(h, n, upto)[q]) as int),
    decreases upto,
{
    if upto > 0 {
        lemma_occurrences_occur(h, n, upto - 1);
        let prev = occurrences(h, n, upto - 1);
        if occurs_at(h, n, upto - 1) {
            assert forall|q: int| 0 <= q < occurrences(h, n, upto).len() implies occurs_at(h, n, (#[trigger] occurrences(h, n, upto)[q]) as int) by {
                if q < prev.len() {
                    assert(occurrences(h, n, upto)[q] == prev[q]);
                }
            }
        }
    }
}

/// Whether `n` occurs in `h` at position `i`.
fn matches_at(h: &[u8], n: &[u8], i: usize) -> (r: bool)
    ensures
        r == occurs_at(h@, n@, i as int),
{
    if n.len() > h.len() || i > h.len() - n.len() {
        return false;
    }
    let mut k: usize = 0;
    while k < n.len()
        invariant
            k <= n.len(),
            i + n.len() <= h.len(),
            forall|q: int| 0 <= q < k ==> h@[i + q] == n@[q],
        decreases n.len() - k,
    {
        if h[i + k] != n[k] {
            assert(h@.subrange(i as int, i + n.len())[k as int] != n@[k as int]);
            return false;
        }
        k += 1;
    }
    assert(h@.subrange(i as int, i + n.len()) =~= n@);
    true
}

/// All positions of `needle` in `haystack`, ascending.
pub fn find_all(haystack: &[u8], needle: &[u8]) -> (r: Vec<usize>)
    requires
        needle@.len() > 0,
    ensures
        r@ == occurrences(haystack@, needle@, haystack@.len() as int),
{
    let mut r: Vec<usize> = Vec::new();
    let mut i: usize = 0;
    while i < haystack.len()
        invariant
            i <= haystack.len(),
            r@ == occurrences(haystack@, needle@, i as int),
        decreases haystack.len() - i,
    {
        if matches_at(haystack, needle, i) {
            r.push(i);
        }
        i += 1;
    }
    r
}

/// Whether two byte strings are equal.
pub fn bytes_eq(a: &[u8], b: &[u8]) -> (r: bool)
    ensures
        r == (a@ == b@),
{
    if a.len() != b.len() {
        return false;
    }
    let mut k: usize = 0;
    while k < a.len()
        invariant
            k <= a.len(),
            a.len() == b.len(),
            forall|q: int| 0 <= q < k ==> a@[q] == b@[q],
        decreases a.len() - k,
    {
        if a[k] != b[k] {
            return false;
        }
        k += 1;
    }
    assert(a@ =~= b@);
    true
}

/// A located candidate record with its cross-check outcome.
#[derive(Debug, Clone)]
pub struct ScoredCandidate {
    /// Offset of the candidate record header.
    pub offset: u64,
    /// Whether the record that would follow it matches the next
    /// expected record.
    pub next_matches: bool,
    /// The name variant that matched.
    pub matched_name: String,
}

/// Distance of an offset from the expected one; zero without one.
pub open spec fn distance(offset: u64, expected: Option<u64>) -> int {
    match expected {
        Some(e) => if offset >= e { offset - e } else { e - offset },
        None => 0,
    }
}

/// Candidate `a` scores strictly better than `b`: the next-record
/// cross-check first, then closeness to the expected offset.
pub open spec fn better(a: ScoredCandidate, b: ScoredCandidate, expected: Option<u64>) -> bool {
    (a.next_matches && !b.next_matches)
        || (a.next_matches == b.next_matches && distance(a.offset, expected) < distance(b.offset, expected))
}

/// No candidate scores better than candidate `i`.
pub open spec fn is_best(cs: Seq<ScoredCandidate>, expected: Option<u64>, i: int) -> bool {
    forall|j: int| 0 <= j < cs.len() ==> !better(#[trigger] cs[j], cs[i], expected)
}

/// The offsets of the best-scoring candidates among the first `n`, in
/// order.
pub open spec fn best_offsets(cs: Seq<ScoredCandidate>, expected: Option<u64>, n: int) -> Seq<u64>
    decreases n,
{
    if n <= 0 {
        Seq::empty()
    } else if is_best(cs, expected, n - 1) {
        best_offsets(cs, expected, n - 1).push(cs[n - 1].offset)
    } else {
        best_offsets(cs, expected, n - 1)
    }
}

/// The distance of an offset from the expected one.
fn distance_of(offset: u64, expected: Option<u64>) -> (r: u64)
    ensures
        r == distance(offset, expected),
{
    match expected {
        Some(e) => if offset >= e { offset - e } else { e - offset },
        None => 0,
    }
}

/// Whether candidate `a` scores strictly better than `b`.
fn scores_better(a: &ScoredCandidate, b: &ScoredCandidate, expected: Option<u64>) -> (r: bool)
    ensures
        r == better(*a, *b, expected),
{
    (a.next_matches && !b.next_matches)
        || (a.next_matches == b.next_matches && distance_of(a.offset, expected) < distance_of(b.offset, expected))
}

/// Picks the single best-scoring candidate record.
///
/// No candidates give `Ok(None)`; one best candidate is returned; several
/// equally scored best candidates are reported as
/// [`Error::AmbiguousPayloadRecord`] with their offsets in candidate
/// order — guessing would risk extracting the wrong bytes.
pub fn pick_record(raw_name: &str, expected: Option<u64>, candidates: &Vec<ScoredCandidate>) -> (r: Result<Option<FoundRecord>, Error>)
    ensures
        candidates@.len() == 0 ==> r matches Ok(None),
        candidates@.len() > 0 ==> {
            let best = best_offsets(candidates@, expected, candidates@.len() as int);
            &&& best.len() == 1 ==> (r matches Ok(Some(f)) && exists|i: int| 0 <= i < candidates@.len()
                && is_best(candidates@, expected, i) && f.record_offset == candidates@[i].offset
                && f.matched_name@ == (#[trigger] candidates@[i]).matched_name@)
            &&& best.len() != 1 ==> (r matches Err(Error::AmbiguousPayloadRecord { entry, candidates: offsets })
                && entry@ == raw_name@ && offsets@ == best && best.len() >= 2)
        },
{
    if candidates.len() == 0 {
        return Ok(None);
    }
    let mut top: usize = 0;
    let mut i: usize = 1;
    while i < candidates.len()
        invariant
            1 <= i <= candidates.len(),
            top < i,
            forall|j: int| 0 <= j < i ==> !better(#[trigger] candidates@[j], candidates@[top as int], expected),
        decreases candidates.len() - i,
    {
        if scores_better(&candidates[i], &candidates[top], expected) {
            top = i;
        }
        i += 1;
    }
    assert(is_best(candidates@, expected, top as int));
    let mut offsets: Vec<u64> = Vec::new();
    let mut chosen: usize = 0;
    let mut k: usize = 0;
    while k < candidates.len()
        invariant
            k <= candidates.len(),
            top < candidates.len(),
            is_best(candidates@, expected, top as int),
            offsets@ == best_offsets(candidates@, expected, k as int),
            offsets@.len() > 0 ==> chosen < k && is_best(candidates@, expected, chosen as int),
            offsets@.len() == 1 ==> offsets@[0] == candidates@[chosen as int].offset,
            k > top ==> offsets@.len() > 0,
        decreases candidates.len() - k,
    {
        if !scores_better(&candidates[top], &candidates[k], expected) {
            assert(is_best(candidates@, expected, k as int));
            if offsets.len() == 0 {
                chosen = k;
            }
            offsets.push(candidates[k].offset);
        } else {
            assert(!is_best(candidates@, expected, k as int));
        }
        k += 1;
    }
    if offsets.len() == 1 {
        let c = &candidates[chosen];
        return Ok(Some(FoundRecord { record_offset: c.offset, matched_name: c.matched_name.clone() }));
    }
    Err(Error::AmbiguousPayloadRecord { entry: crate::text::string_of(&crate::text::chars_of(raw_name)), candidates: offsets })
}

/// The reads a read function promises: any archive, offset and length
/// may be asked, and a successful read returns exactly the requested
/// number of bytes.
pub open spec fn reads_exactly<F: Fn(&str, u64, usize) -> Result<Vec<u8>, Error>>(read: F) -> bool {
    &&& forall|a: &str, o: u64, n: usize| #[trigger] read.requires((a, o, n))
    &&& forall|a: &str, o: u64, n: usize, r: Result<Vec<u8>, Error>|
        #[trigger] read.ensures((a, o, n), r) ==> (r matches Ok(v) ==> v@.len() == n)
}

/// Whether `read`, asked for `len` bytes at `offset` of `archive`, may
/// answer `r`.
pub open spec fn read_gave<F: Fn(&str, u64, usize) -> Result<Vec<u8>, Error>>(
    read: F,
    archive: &str,
    offset: u64,
    len: usize,
    r: Result<Vec<u8>, Error>,
) -> bool {
    read.ensures((archive, offset, len), r)
}

/// Whether `read`, asked for `p.len()` bytes at `offset`, may answer
/// exactly the bytes `p`.
pub open spec fn prefix_seen<F: Fn(&str, u64, usize) -> Result<Vec<u8>, Error>>(
    read: F,
    archive: &str,
    offset: u64,
    p: Seq<u8>,
) -> bool {
    exists|v: Vec<u8>| #[trigger] read_gave(read, archive, offset, p.len() as usize, Ok(v)) && v@ == p
}

/// Whether `read`, asked for `p.len()` bytes at `offset`, may answer
/// bytes other than `p`.
pub open spec fn prefix_missed<F: Fn(&str, u64, usize) -> Result<Vec<u8>, Error>>(
    read: F,
    archive: &str,
    offset: u64,
    p: Seq<u8>,
) -> bool {
    exists|v: Vec<u8>| #[trigger] read_gave(read, archive, offset, p.len() as usize, Ok(v)) && v@ != p
}

/// Whether the bytes `p` fit in an archive of `file_size` bytes at
/// `offset`.
pub open spec fn prefix_fits(p: Seq<u8>, offset: u64, file_size: u64) -> bool {
    offset + p.len() <= file_size
}

/// Whether the record prefix of every name variant before the `k`-th
/// that fits at `offset` was read there and differed.
pub open spec fn missed_before<F: Fn(&str, u64, usize) -> Result<Vec<u8>, Error>>(
    read: F,
    archive: &str,
    file_size: u64,
    offset: u64,
    vs: Seq<Seq<u8>>,
    k: int,
) -> bool {
    forall|j: int| 0 <= j < k && prefix_fits(record_prefix(vs[j]), offset, file_size)
        ==> #[trigger] prefix_missed(read, archive, offset, record_prefix(vs[j]))
}

/// Start of the `k`-th read chunk of a scanned window.
pub open spec fn chunk_at(w: (u64, u64), k: int) -> int {
    w.0 + k * SCAN_CHUNK
}

/// Length of the `k`-th read chunk: a full chunk, or what is left of the
/// window.
pub open spec fn chunk_size(w: (u64, u64), k: int) -> int {
    if w.1 - chunk_at(w, k) < SCAN_CHUNK {
        w.1 - chunk_at(w, k)
    } else {
        SCAN_CHUNK as int
    }
}

/// Whether `read` may answer the `k`-th chunk of the window successfully.
pub open spec fn chunk_read<F: Fn(&str, u64, usize) -> Result<Vec<u8>, Error>>(
    read: F,
    archive: &str,
    w: (u64, u64),
    k: int,
) -> bool {
    exists|v: Vec<u8>| #[trigger] read_gave(read, archive, chunk_at(w, k) as u64, chunk_size(w, k) as usize, Ok(v))
}

/// Whether some successful read covering archive position `at` may
/// answer the byte `b` there.
pub open spec fn byte_read<F: Fn(&str, u64, usize) -> Result<Vec<u8>, Error>>(
    read: F,
    archive: &str,
    at: int,
    b: u8,
) -> bool {
    exists|s: u64, n: usize, v: Vec<u8>| #[trigger] read_gave(read, archive, s, n, Ok(v))
        && s <= at < s + v@.len() && v@[at - s] == b
}

/// Whether every byte of `p` was read at its place from `offset` on.
pub open spec fn bytes_read_at<F: Fn(&str, u64, usize) -> Result<Vec<u8>, Error>>(
    read: F,
    archive: &str,
    offset: int,
    p: Seq<u8>,
) -> bool {
    forall|i: int| 0 <= i < p.len() ==> #[trigger] byte_read(read, archive, offset + i, p[i])
}

/// The bytes of the chunks `bs`, one after the other.
pub open spec fn window_bytes(bs: Seq<Vec<u8>>) -> Seq<u8>
    decreases bs.len(),
{
    if bs.len() == 0 {
        Seq::empty()
    } else {
        window_bytes(bs.drop_last()) + bs.last()@
    }
}

/// No record prefix of the name variants occurs anywhere in `bytes`.
pub open spec fn no_record_in(bytes: Seq<u8>, variants: Seq<Seq<u8>>) -> bool {
    forall|k: int, o: int| 0 <= k < variants.len() ==> !#[trigger] occurs_at(bytes, record_prefix(variants[k]), o)
}

/// Whether `bs` are answers `read` may give for the chunks of the window
/// `w`, in order, together covering the whole window.
pub open spec fn window_chunks<F: Fn(&str, u64, usize) -> Result<Vec<u8>, Error>>(
    read: F,
    archive: &str,
    w: (u64, u64),
    bs: Seq<Vec<u8>>,
) -> bool {
    &&& forall|c: int| 0 <= c < bs.len()
        ==> #[trigger] read_gave(read, archive, chunk_at(w, c) as u64, chunk_size(w, c) as usize, Ok(bs[c]))
    &&& (w.0 < w.1 ==> window_bytes(bs).len() == w.1 - w.0)
}

/// An occurrence below `upto` is listed.
proof fn lemma_occurrence_listed(h: Seq<u8>, n: Seq<u8>, upto: int, i: int)
    requires
        0 <= i < upto,
        occurs_at(h, n, i),
    ensures
        occurrences(h, n, upto).len() > 0,
    decreases upto,
{
    if i < upto - 1 {
        lemma_occurrence_listed(h, n, upto - 1, i);
    }
}

/// A chunk whose bytes, with the carried-over tail of the window read so
/// far, hold no record prefix adds none to the window.
proof fn lemma_chunk_clean(w0: Seq<u8>, buf: Seq<u8>, carry_len: int, keep: int, hay: Seq<u8>, variants: Seq<Seq<u8>>)
    requires
        carry_len == if keep < w0.len() { keep } else { w0.len() as int },
        0 <= keep,
        hay == (w0 + buf).subrange(w0.len() - carry_len, (w0 + buf).len() as int),
        forall|k: int| 0 <= k < variants.len() ==> #[trigger] record_prefix(variants[k]).len() <= keep + 1,
        no_record_in(w0, variants),
        forall|k: int, pos: int| 0 <= k < variants.len() ==> !#[trigger] occurs_at(hay, record_prefix(variants[k]), pos),
    ensures
        no_record_in(w0 + buf, variants),
{
    let w1 = w0 + buf;
    assert forall|k: int, o: int| 0 <= k < variants.len() implies !#[trigger] occurs_at(w1, record_prefix(variants[k]), o) by {
        let p = record_prefix(variants[k]);
        if occurs_at(w1, p, o) {
            if o + p.len() <= w0.len() {
                assert(w0.subrange(o, o + p.len()) =~= w1.subrange(o, o + p.len()));
                assert(occurs_at(w0, p, o));
            } else {
                let start = w0.len() - carry_len;
                assert(start <= o);
                assert(hay.subrange(o - start, o - start + p.len()) =~= w1.subrange(o, o + p.len()));
                assert(occurs_at(hay, p, o - start));
            }
        }
    }
}

/// Whether `o` lies in the window `w` and the record prefix of one of the
/// name variants was read there.
pub open spec fn candidate_read<F: Fn(&str, u64, usize) -> Result<Vec<u8>, Error>>(
    read: F,
    archive: &str,
    w: (u64, u64),
    variants: Seq<Seq<u8>>,
    o: u64,
) -> bool {
    &&& w.0 <= o < w.1
    &&& exists|k: int| 0 <= k < variants.len() && #[trigger] bytes_read_at(read, archive, o as int, record_prefix(variants[k]))
}

/// Every best offset is the offset of a best-scoring candidate.
proof fn lemma_best_offsets(cs: Seq<ScoredCandidate>, expected: Option<u64>, n: int)
    requires
        0 <= n <= cs.len(),
    ensures
        forall|j: int| #![trigger best_offsets(cs, expected, n)[j]] 0 <= j < best_offsets(cs, expected, n).len() ==> exists|i: int| 0 <= i < n
            && is_best(cs, expected, i) && best_offsets(cs, expected, n)[j] == (#[trigger] cs[i]).offset,
    decreases n,
{
    if n > 0 {
        lemma_best_offsets(cs, expected, n - 1);
        let prev = best_offsets(cs, expected, n - 1);
        let all = best_offsets(cs, expected, n);
        if is_best(cs, expected, n - 1) {
            assert(all == prev.push(cs[n - 1].offset));
        } else {
            assert(all == prev);
        }
        assert forall|j: int| #![trigger all[j]] 0 <= j < all.len() implies exists|i: int| 0 <= i < n
            && is_best(cs, expected, i) && all[j] == (#[trigger] cs[i]).offset by {
            if j < prev.len() {
                assert(all[j] == prev[j]);
                assert(prev[j] == best_offsets(cs, expected, n - 1)[j]);
                let i = choose|i: int| 0 <= i < n - 1 && is_best(cs, expected, i) && best_offsets(cs, expected, n - 1)[j] == (#[trigger] cs[i]).offset;
                assert(0 <= i < n && is_best(cs, expected, i) && all[j] == cs[i].offset);
            } else {
                assert(is_best(cs, expected, n - 1) && all[j] == cs[n - 1].offset);
            }
        }
    }
}

/// The scanned window: around the expected offset when one is known,
/// otherwise the whole archive after the image header.
pub open spec fn window(expected: Option<u64>, file_size: u64) -> (u64, u64) {
    match expected {
        Some(o) => (
            if o >= DEFAULT_SEARCH_BACK { (o - DEFAULT_SEARCH_BACK) as u64 } else { 0u64 },
            if o + DEFAULT_SEARCH_FORWARD <= file_size { (o + DEFAULT_SEARCH_FORWARD) as u64 } else { file_size },
        ),
        None => (if IMAGE_HEADER_SIZE <= file_size { IMAGE_HEADER_SIZE } else { file_size }, file_size),
    }
}

/// Computes the scanned window.
fn window_of(expected: Option<u64>, file_size: u64) -> (r: (u64, u64))
    ensures
        r == window(expected, file_size),
{
    match expected {
        Some(o) => {
            let start = if o >= DEFAULT_SEARCH_BACK { o - DEFAULT_SEARCH_BACK } else { 0 };
            let end = if file_size >= DEFAULT_SEARCH_FORWARD && o <= file_size - DEFAULT_SEARCH_FORWARD {
                o + DEFAULT_SEARCH_FORWARD
            } else {
                file_size
            };
            (start, end)
        },
        None => (if IMAGE_HEADER_SIZE <= file_size { IMAGE_HEADER_SIZE } else { file_size }, file_size),
    }
}

/// Checks whether a record named `next_name` starts at `offset`.
fn next_record_matches<F: Fn(&str, u64, usize) -> Result<Vec<u8>, Error>>(
    read: &F,
    archive: &str,
    file_size: u64,
    offset: u64,
    next_name: &str,
) -> (r: Result<bool, Error>)
    requires
        reads_exactly(*read),
    ensures
        ({
            let vs = name_variants(name_bytes(next_name@));
            match r {
                Ok(true) => exists|k: int| 0 <= k < vs.len() && missed_before(*read, archive, file_size, offset, vs, k)
                    && prefix_fits(record_prefix(vs[k]), offset, file_size)
                    && #[trigger] prefix_seen(*read, archive, offset, record_prefix(vs[k])),
                Ok(false) => missed_before(*read, archive, file_size, offset, vs, vs.len() as int),
                Err(e) => exists|k: int| 0 <= k < vs.len() && missed_before(*read, archive, file_size, offset, vs, k)
                    && prefix_fits(record_prefix(vs[k]), offset, file_size)
                    && #[trigger] read_gave(*read, archive, offset, record_prefix(vs[k]).len() as usize, Err(e)),
            }
        }),
{
    let prefixes = record_prefixes(next_name);
    let ghost vs = name_variants(name_bytes(next_name@));
    let mut k: usize = 0;
    while k < prefixes.len()
        invariant
            reads_exactly(*read),
            describes(prefixes@, vs),
            vs == name_variants(name_bytes(next_name@)),
            k <= prefixes.len(),
            missed_before(*read, archive, file_size, offset, vs, k as int),
        decreases prefixes.len() - k,
    {
        let prefix = &prefixes[k].0;
        let ghost p = record_prefix(vs[k as int]);
        assert(prefix@ == p);
        if offset <= file_size && prefix.len() as u64 <= file_size - offset {
            let buffer = match read(archive, offset, prefix.len()) {
                Ok(b) => b,
                Err(e) => {
                    assert(read_gave(*read, archive, offset, p.len() as usize, Err(e)));
                    return Err(e);
                },
            };
            assert(read_gave(*read, archive, offset, p.len() as usize, Ok(buffer)));
            if bytes_eq(buffer.as_slice(), prefix.as_slice()) {
                assert(prefix_seen(*read, archive, offset, p));
                return Ok(true);
            }
            assert(prefix_missed(*read, archive, offset, p));
        }
        assert forall|j: int| 0 <= j < k + 1 && prefix_fits(record_prefix(vs[j]), offset, file_size)
            implies #[trigger] prefix_missed(*read, archive, offset, record_prefix(vs[j])) by {
            if j < k {
                assert(missed_before(*read, archive, file_size, offset, vs, k as int));
            }
        }
        k += 1;
    }
    Ok(false)
}

/// Whether a candidate `(offset, variant)` comes strictly after `b` in
/// scan order.
fn after(a: (u64, usize), b: (u64, usize)) -> (r: bool)
    ensures
        r == (a.0 > b.0 || (a.0 == b.0 && a.1 > b.1)),
{
    a.0 > b.0 || (a.0 == b.0 && a.1 > b.1)
}

/// Searches an image archive for a payload record.
///
/// When `expected` is known the scan covers
/// `[expected - SEARCH_BACK, expected + SEARCH_FORWARD]` (clipped to the
/// archive); otherwise the whole archive is scanned from the end of the
/// image header. The archive is read in chunks, each carrying over the
/// tail of the previous one so prefixes spanning chunks are still found;
/// a record found twice that way is one record, not an ambiguity.
///
/// # Errors
///
/// Returns the read function's error if the archive cannot be read, and
/// [`Error::AmbiguousPayloadRecord`] when several candidates tie for the
/// best score.
pub fn find_record<F: Fn(&str, u64, usize) -> Result<Vec<u8>, Error>>(
    read: &F,
    archive: &str,
    file_size: u64,
    expected: Option<u64>,
    search: &RecordSearch<'_>,
) -> (r: Result<Option<FoundRecord>, Error>)
    requires
        reads_exactly(*read),
    ensures
        name_variants(name_bytes(search.raw_name@)).len() == 0 ==> r matches Ok(None),
        (r == Ok::<Option<FoundRecord>, Error>(None) && name_variants(name_bytes(search.raw_name@)).len() > 0) ==> exists|bs: Seq<Vec<u8>>|
            #[trigger] window_chunks(*read, archive, window(expected, file_size), bs)
            && no_record_in(window_bytes(bs), name_variants(name_bytes(search.raw_name@))),
        (r is Ok && name_variants(name_bytes(search.raw_name@)).len() > 0) ==> forall|k: int|
            0 <= k && chunk_at(window(expected, file_size), k) < window(expected, file_size).1
            ==> #[trigger] chunk_read(*read, archive, window(expected, file_size), k),
        r matches Ok(Some(f)) ==> {
            let variants = name_variants(name_bytes(search.raw_name@));
            &&& window(expected, file_size).0 <= f.record_offset < window(expected, file_size).1
            &&& exists|k: int| 0 <= k < variants.len() && f.matched_name@ == display_of(#[trigger] variants[k])
                && bytes_read_at(*read, archive, f.record_offset as int, record_prefix(variants[k]))
        },
        r matches Err(e) ==> (exists|a: u64, n: usize| #[trigger] read_gave(*read, archive, a, n, Err(e))) || ({
            let variants = name_variants(name_bytes(search.raw_name@));
            &&& e is AmbiguousPayloadRecord
            &&& e->AmbiguousPayloadRecord_entry@ == search.raw_name@
            &&& e->AmbiguousPayloadRecord_candidates@.len() >= 2
            &&& forall|j: int| 0 <= j < e->AmbiguousPayloadRecord_candidates@.len()
                ==> #[trigger] candidate_read(*read, archive, window(expected, file_size), variants, e->AmbiguousPayloadRecord_candidates@[j])
                && distance(e->AmbiguousPayloadRecord_candidates@[j], expected) == distance(e->AmbiguousPayloadRecord_candidates@[0], expected)
        }),
{
    let prefixes = record_prefixes(search.raw_name);
    let ghost variants = name_variants(name_bytes(search.raw_name@));
    if prefixes.len() == 0 {
        return Ok(None);
    }
    let mut max_needle: usize = 0;
    let mut k: usize = 0;
    while k < prefixes.len()
        invariant
            k <= prefixes.len(),
            forall|j: int| 0 <= j < k ==> (#[trigger] prefixes@[j]).0@.len() <= max_needle,
            k > 0 ==> max_needle >= prefixes@[0].0@.len(),
        decreases prefixes.len() - k,
    {
        if prefixes[k].0.len() > max_needle {
            max_needle = prefixes[k].0.len();
        }
        k += 1;
    }
    assert(prefixes@[0].0@ == record_prefix(variants[0]));
    let keep: usize = max_needle - 1;
    assert forall|j: int| 0 <= j < variants.len() implies #[trigger] record_prefix(variants[j]).len() <= keep + 1 by {
        assert(prefixes@[j].0@ == record_prefix(variants[j]));
    }
    let (window_start, window_end) = window_of(expected, file_size);
    let ghost w = (window_start, window_end);
    let mut raw: Vec<(u64, usize)> = Vec::new();
    let mut chunk_start = window_start;
    let mut carry: Vec<u8> = Vec::new();
    let ghost mut chunks: int = 0;
    let ghost mut bs: Seq<Vec<u8>> = Seq::empty();
    assert(carry@ =~= window_bytes(bs).subrange(0, 0));
    while chunk_start < window_end
        invariant
            keep == max_needle - 1,
            forall|j: int| 0 <= j < variants.len() ==> #[trigger] record_prefix(variants[j]).len() <= keep + 1,
            bs.len() == chunks,
            window_bytes(bs).len() == chunk_start - window_start,
            carry@.len() == (if keep < window_bytes(bs).len() { keep as int } else { window_bytes(bs).len() as int }),
            carry@ == window_bytes(bs).subrange(window_bytes(bs).len() - carry@.len(), window_bytes(bs).len() as int),
            forall|c: int| 0 <= c < bs.len() ==> chunk_at(w, c) < w.1
                && #[trigger] read_gave(*read, archive, chunk_at(w, c) as u64, chunk_size(w, c) as usize, Ok(bs[c])),
            raw@.len() == 0 ==> no_record_in(window_bytes(bs), variants),
            reads_exactly(*read),
            describes(prefixes@, variants),
            variants == name_variants(name_bytes(search.raw_name@)),
            prefixes@.len() > 0,
            window_start <= chunk_start,
            (window_start, window_end) == window(expected, file_size),
            w == (window_start, window_end),
            carry@.len() <= chunk_start - window_start,
            forall|q: int| 0 <= q < raw@.len() ==> window_start <= (#[trigger] raw@[q]).0 < window_end
                && raw@[q].1 < prefixes@.len(),
            0 <= chunks,
            chunks == 0 ==> chunk_start == window_start,
            chunks > 0 ==> chunk_start <= window_end,
            chunk_start <= window_start + chunks * SCAN_CHUNK,
            chunk_start < window_end ==> chunk_start == chunk_at(w, chunks),
            forall|c: int| 0 <= c < chunks ==> #[trigger] chunk_read(*read, archive, w, c),
            forall|j: int| 0 <= j < carry@.len() ==> #[trigger] byte_read(*read, archive, chunk_start - carry@.len() + j, carry@[j]),
            forall|q: int| 0 <= q < raw@.len() ==> bytes_read_at(*read, archive, (#[trigger] raw@[q]).0 as int, record_prefix(variants[raw@[q].1 as int])),
        decreases window_end - chunk_start,
    {
        let remaining = window_end - chunk_start;
        let length: usize = if remaining < SCAN_CHUNK { remaining as usize } else { SCAN_CHUNK as usize };
        let buffer = match read(archive, chunk_start, length) {
            Ok(b) => b,
            Err(e) => {
                assert(read_gave(*read, archive, chunk_start, length, Err(e)));
                return Err(e);
            },
        };
        proof {
            assert(read_gave(*read, archive, chunk_start, length, Ok(buffer)));
            assert(chunk_start == chunk_at(w, chunks) as u64 && length == chunk_size(w, chunks) as usize);
            assert(chunk_read(*read, archive, w, chunks));
        }
        let ghost carry0 = carry@;
        let ghost w0 = window_bytes(bs);
        let ghost raw0 = raw@.len();
        let mut haystack = carry;
        let base = chunk_start - haystack.len() as u64;
        let mut b: usize = 0;
        while b < buffer.len()
            invariant
                b <= buffer.len(),
                haystack@ == carry0 + buffer@.take(b as int),
                haystack@.len() == (chunk_start - base) + b,
                base <= chunk_start,
                read_gave(*read, archive, chunk_start, length, Ok(buffer)),
                forall|j: int| 0 <= j < haystack@.len() ==> #[trigger] byte_read(*read, archive, base + j, haystack@[j]),
            decreases buffer.len() - b,
        {
            let ghost at = base + haystack@.len();
            assert(byte_read(*read, archive, at, buffer@[b as int]));
            haystack.push(buffer[b]);
            b += 1;
            assert(haystack@ =~= carry0 + buffer@.take(b as int));
        }
        assert(buffer@.take(buffer@.len() as int) =~= buffer@);
        assert(base >= window_start);
        let mut p: usize = 0;
        while p < prefixes.len()
            invariant
                p <= prefixes.len(),
                haystack@.len() == (chunk_start - base) + length,
                base <= chunk_start,
                chunk_start + length <= window_end,
                forall|q: int| 0 <= q < raw@.len() ==> window_start <= (#[trigger] raw@[q]).0 < window_end
                    && raw@[q].1 < prefixes@.len(),
                describes(prefixes@, variants),
                forall|j: int| 0 <= j < haystack@.len() ==> #[trigger] byte_read(*read, archive, base + j, haystack@[j]),
                forall|q: int| 0 <= q < raw@.len() ==> bytes_read_at(*read, archive, (#[trigger] raw@[q]).0 as int, record_prefix(variants[raw@[q].1 as int])),
                base >= window_start,
                raw@.len() >= raw0,
                raw@.len() == 0 ==> forall|k: int, pos: int| 0 <= k < p ==> !#[trigger] occurs_at(haystack@, record_prefix(variants[k]), pos),
            decreases prefixes.len() - p,
        {
            let positions = find_all(haystack.as_slice(), prefixes[p].0.as_slice());
            let hl = haystack.len();
            proof {
                lemma_occurrences_bound(haystack@, prefixes@[p as int].0@, hl as int);
                lemma_occurrences_occur(haystack@, prefixes@[p as int].0@, hl as int);
            }
            let mut a: usize = 0;
            while a < positions.len()
                invariant
                    a <= positions.len(),
                    p < prefixes@.len(),
                    haystack@.len() == (chunk_start - base) + length,
                    base <= chunk_start,
                    chunk_start + length <= window_end,
                    forall|q: int| 0 <= q < positions@.len() ==> (#[trigger] positions@[q]) < haystack@.len(),
                    forall|q: int| 0 <= q < positions@.len() ==> occurs_at(haystack@, prefixes@[p as int].0@, (#[trigger] positions@[q]) as int),
                    forall|q: int| 0 <= q < raw@.len() ==> window_start <= (#[trigger] raw@[q]).0 < window_end
                        && raw@[q].1 < prefixes@.len(),
                    describes(prefixes@, variants),
                    forall|j: int| 0 <= j < haystack@.len() ==> #[trigger] byte_read(*read, archive, base + j, haystack@[j]),
                    forall|q: int| 0 <= q < raw@.len() ==> bytes_read_at(*read, archive, (#[trigger] raw@[q]).0 as int, record_prefix(variants[raw@[q].1 as int])),
                    base >= window_start,
                    raw@.len() >= raw0,
                    a > 0 ==> raw@.len() > 0,
                    raw@.len() == 0 ==> forall|k: int, pos: int| 0 <= k < p ==> !#[trigger] occurs_at(haystack@, record_prefix(variants[k]), pos),
                decreases positions.len() - a,
            {
                let offset = base + positions[a] as u64;
                assert(offset >= window_start && offset < window_end);
                if offset >= window_start && offset < window_end {
                    proof {
                        let pos = positions@[a as int] as int;
                        let pre = prefixes@[p as int].0@;
                        assert(occurs_at(haystack@, pre, pos));
                        assert(pre == record_prefix(variants[p as int]));
                        assert forall|i: int| 0 <= i < pre.len() implies #[trigger] byte_read(*read, archive, offset + i, pre[i]) by {
                            assert(haystack@.subrange(pos, pos + pre.len())[i] == haystack@[pos + i]);
                            assert(byte_read(*read, archive, base + (pos + i), haystack@[pos + i]));
                        }
                        assert(bytes_read_at(*read, archive, offset as int, pre));
                    }
                    raw.push((offset, p));
                }
                a += 1;
            }
            proof {
                if raw@.len() == 0 {
                    assert(prefixes@[p as int].0@ == record_prefix(variants[p as int]));
                    assert forall|k: int, pos: int| 0 <= k < p + 1 implies !#[trigger] occurs_at(haystack@, record_prefix(variants[k]), pos) by {
                        if k == p && occurs_at(haystack@, record_prefix(variants[k]), pos) {
                            lemma_occurrence_listed(haystack@, prefixes@[p as int].0@, hl as int, pos);
                        }
                    }
                }
            }
            p += 1;
        }
        proof {
            if raw@.len() == 0 {
                assert(w0 + buffer@ =~= window_bytes(bs.push(buffer)).subrange(0, (w0 + buffer@).len() as int)) by {
                    assert(bs.push(buffer).drop_last() =~= bs);
                }
                assert(haystack@ =~= (w0 + buffer@).subrange(w0.len() - carry0.len(), (w0 + buffer@).len() as int));
                assert forall|k: int, pos: int| 0 <= k < variants.len() implies !#[trigger] occurs_at(haystack@, record_prefix(variants[k]), pos) by {
                    assert(variants.len() == prefixes@.len());
                }
                lemma_chunk_clean(w0, buffer@, carry0.len() as int, keep as int, haystack@, variants);
            }
        }
        let from: usize = if haystack.len() > keep { haystack.len() - keep } else { 0 };
        let mut next_carry: Vec<u8> = Vec::new();
        let mut c: usize = from;
        while c < haystack.len()
            invariant
                from <= c <= haystack@.len(),
                next_carry@.len() == c - from,
                next_carry@ == haystack@.subrange(from as int, c as int),
                forall|j: int| 0 <= j < haystack@.len() ==> #[trigger] byte_read(*read, archive, base + j, haystack@[j]),
                forall|j: int| 0 <= j < next_carry@.len() ==> #[trigger] byte_read(*read, archive, base + from + j, next_carry@[j]),
            decreases haystack.len() - c,
        {
            assert(byte_read(*read, archive, base + c, haystack@[c as int]));
            next_carry.push(haystack[c]);
            c += 1;
            assert(next_carry@ =~= haystack@.subrange(from as int, c as int));
        }
        let ghost hay = haystack@;
        carry = next_carry;
        chunk_start = chunk_start + length as u64;
        proof {
            assert(bs.push(buffer).drop_last() =~= bs);
            assert(window_bytes(bs.push(buffer)) == w0 + buffer@);
            assert(hay =~= (w0 + buffer@).subrange(w0.len() - carry0.len(), (w0 + buffer@).len() as int));
            bs = bs.push(buffer);
            assert(carry@ =~= window_bytes(bs).subrange(window_bytes(bs).len() - carry@.len(), window_bytes(bs).len() as int));
            assert forall|c2: int| 0 <= c2 < bs.len() implies chunk_at(w, c2) < w.1
                && #[trigger] read_gave(*read, archive, chunk_at(w, c2) as u64, chunk_size(w, c2) as usize, Ok(bs[c2])) by {
                if c2 < chunks {
                    assert(bs[c2] == bs.drop_last()[c2]);
                }
            }
            chunks = chunks + 1;
            assert(chunk_start - carry@.len() == base + from);
            assert forall|j: int| 0 <= j < carry@.len() implies #[trigger] byte_read(*read, archive, chunk_start - carry@.len() + j, carry@[j]) by {
                assert(byte_read(*read, archive, base + from + j, carry@[j]));
            }
        }
    }
    proof {
        assert forall|c: int| 0 <= c && chunk_at(w, c) < w.1 implies #[trigger] chunk_read(*read, archive, w, c) by {
            assert(c < chunks);
        }
        if w.0 < w.1 {
            assert(chunks > 0);
            assert(chunk_start == window_end);
        }
        assert(window_chunks(*read, archive, w, bs));
    }
    let ghost scanned = bs;
    let mut sorted: Vec<(u64, usize)> = Vec::new();
    let mut round: usize = 0;
    while round < raw.len()
        invariant
            forall|q: int| 0 <= q < raw@.len() ==> window_start <= (#[trigger] raw@[q]).0 < window_end
                && raw@[q].1 < prefixes@.len(),
            forall|q: int| 0 <= q < sorted@.len() ==> window_start <= (#[trigger] sorted@[q]).0 < window_end
                && sorted@[q].1 < prefixes@.len(),
            forall|q: int| 0 <= q < raw@.len() ==> bytes_read_at(*read, archive, (#[trigger] raw@[q]).0 as int, record_prefix(variants[raw@[q].1 as int])),
            forall|q: int| 0 <= q < sorted@.len() ==> bytes_read_at(*read, archive, (#[trigger] sorted@[q]).0 as int, record_prefix(variants[sorted@[q].1 as int])),
            round > 0 ==> sorted@.len() > 0,
        ensures
            forall|q: int| 0 <= q < sorted@.len() ==> window_start <= (#[trigger] sorted@[q]).0 < window_end
                && sorted@[q].1 < prefixes@.len(),
            forall|q: int| 0 <= q < sorted@.len() ==> bytes_read_at(*read, archive, (#[trigger] sorted@[q]).0 as int, record_prefix(variants[sorted@[q].1 as int])),
            raw@.len() > 0 ==> sorted@.len() > 0,
        decreases raw.len() - round,
    {
        let mut next: Option<(u64, usize)> = None;
        let mut q: usize = 0;
        while q < raw.len()
            invariant
                forall|t: int| 0 <= t < raw@.len() ==> window_start <= (#[trigger] raw@[t]).0 < window_end
                    && raw@[t].1 < prefixes@.len(),
                next matches Some(n) ==> window_start <= n.0 < window_end && n.1 < prefixes@.len(),
                forall|t: int| 0 <= t < raw@.len() ==> bytes_read_at(*read, archive, (#[trigger] raw@[t]).0 as int, record_prefix(variants[raw@[t].1 as int])),
                next matches Some(n) ==> bytes_read_at(*read, archive, n.0 as int, record_prefix(variants[n.1 as int])),
                sorted@.len() == 0 && q > 0 ==> next is Some,
                q <= raw@.len(),
            decreases raw.len() - q,
        {
            let c = raw[q];
            let fresh = sorted.len() == 0 || after(c, sorted[sorted.len() - 1]);
            if fresh {
                next = match next {
                    Some(n) => if after(n, c) { Some(c) } else { Some(n) },
                    None => Some(c),
                };
            }
            q += 1;
        }
        match next {
            Some(n) => sorted.push(n),
            None => break,
        }
        round += 1;
    }
    assert(raw@.len() > 0 ==> sorted@.len() > 0);
    let mut scored: Vec<ScoredCandidate> = Vec::new();
    let mut s: usize = 0;
    while s < sorted.len()
        invariant
            reads_exactly(*read),
            describes(prefixes@, variants),
            variants == name_variants(name_bytes(search.raw_name@)),
            prefixes@.len() > 0,
            forall|q: int| 0 <= q < sorted@.len() ==> window_start <= (#[trigger] sorted@[q]).0 < window_end
                && sorted@[q].1 < prefixes@.len(),
            forall|q: int| 0 <= q < sorted@.len() ==> bytes_read_at(*read, archive, (#[trigger] sorted@[q]).0 as int, record_prefix(variants[sorted@[q].1 as int])),
            forall|q: int| 0 <= q < scored@.len() ==> window_start <= (#[trigger] scored@[q]).offset < window_end
                && exists|k: int| 0 <= k < variants.len() && scored@[q].matched_name@ == display_of(#[trigger] variants[k])
                && bytes_read_at(*read, archive, scored@[q].offset as int, record_prefix(variants[k])),
            scored@.len() == s,
            s <= sorted@.len(),
        decreases sorted.len() - s,
    {
        let (offset, v) = sorted[s];
        let byte_len = prefixes[v].1;
        let next_matches = match (search.next_name, search.encoded_size) {
            (Some(next), Some(encoded_size)) => {
                let at = offset.checked_add(2).and_then(|x: u64| x.checked_add(byte_len as u64)).and_then(|x: u64| x.checked_add(encoded_size));
                match at {
                    Some(at) => match next_record_matches(read, archive, file_size, at, next) {
                        Ok(m) => m,
                        Err(e) => {
                            return Err(e);
                        },
                    },
                    None => false,
                }
            },
            _ => false,
        };
        let name = prefixes[v].2.clone();
        assert(name@ == display_of(variants[v as int]));
        assert(bytes_read_at(*read, archive, offset as int, record_prefix(variants[v as int])));
        scored.push(ScoredCandidate { offset, next_matches, matched_name: name });
        s += 1;
    }
    let r = pick_record(search.raw_name, expected, &scored);
    proof {
        if r == Ok::<Option<FoundRecord>, Error>(None) {
            assert(scored@.len() == 0);
            assert(raw@.len() == 0);
            assert(window_chunks(*read, archive, window(expected, file_size), scanned));
            assert(no_record_in(window_bytes(scanned), variants));
        }
        if r is Err && scored@.len() > 0 {
            let cs = scored@;
            let best = best_offsets(cs, expected, cs.len() as int);
            lemma_best_offsets(cs, expected, cs.len() as int);
            let i0 = choose|i: int| 0 <= i < cs.len() && is_best(cs, expected, i) && best[0] == (#[trigger] cs[i]).offset;
            assert forall|j: int| 0 <= j < best.len() implies #[trigger] candidate_read(*read, archive, window(expected, file_size), variants, best[j])
                && distance(best[j], expected) == distance(best[0], expected) by {
                let i = choose|i: int| 0 <= i < cs.len() && is_best(cs, expected, i) && best[j] == (#[trigger] cs[i]).offset;
                assert(!better(cs[i0], cs[i], expected));
                assert(!better(cs[i], cs[i0], expected));
                assert(window_start <= cs[i].offset < window_end);
                let k = choose|k: int| 0 <= k < variants.len() && cs[i].matched_name@ == display_of(#[trigger] variants[k])
                    && bytes_read_at(*read, archive, cs[i].offset as int, record_prefix(variants[k]));
                assert(bytes_read_at(*read, archive, best[j] as int, record_prefix(variants[k])));
            }
        }
    }
    r
}

} // verus!
