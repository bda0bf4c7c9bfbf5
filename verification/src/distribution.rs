//! The top-level object: a whole SGI distribution directory.
//!
//! A distribution directory contains, per product, a descriptor (`eoe`),
//! an IDB (`eoe.idb`) and one archive per image (`eoe.sw`, `eoe.man`,
//! `eoe.sw32`, ...). It may also carry the miniroot support files `sa`
//! and `mr`.
//!
//! The logical tree (product → image → subsystem) is built from the
//! binary descriptor, which is the hierarchy authority; IDB entries are
//! then attached to the subsystems they name. A product whose descriptor
//! is missing or unreadable falls back to a tree derived from the IDB
//! alone, with every subsystem marked accordingly.
//!
//! This module builds the model from the bytes and facts that were read
//! from the directory; reading the directory itself is left to the
//! caller.
use vstd::prelude::*;
use crate::descriptor::model::{Cutpoint, HardwareRestrictions, ProductDescriptor};
use crate::diagnostic::Diagnostic;
use crate::idb::{Entry, EntryId};
use crate::image::Image;
use crate::names::ProductName;
use crate::query::{query_matches, Query};

verus! {

/// Miniroot support files that may sit next to the products.
#[derive(Debug, Clone)]
pub struct DistributionSupportFiles {
    /// The standalone (`sa`) file, if present.
    pub sa: Option<String>,
    /// The miniroot (`mr`) file, if present.
    pub mr: Option<String>,
}

impl Default for DistributionSupportFiles {
    fn default() -> (r: Self)
        ensures
            r.sa is None,
            r.mr is None,
    {
        DistributionSupportFiles { sa: None, mr: None }
    }
}

/// The canonical identity of an [`Entry`] within one [`Distribution`]
/// instance.
///
/// An [`EntryId`] alone identifies an entry only within its owning
/// product; several products may hold an entry with the same id, and a
/// record's subsystem name says nothing about ownership (an IDB record
/// may name a foreign subsystem). `EntryKey` pairs the entry id with the
/// position of the owning product in [`Distribution::products`], making
/// it unique across the whole distribution.
///
/// Stability contract: an `EntryKey` is valid for the lifetime of the
/// [`Distribution`] instance it was obtained from. It is a session-local
/// identity, not a permanent database id: it is *not* stable across
/// reopening the same directory, and never comparable across different
/// `Distribution` instances.
#[derive(Debug, Clone, Copy, PartialEq, Eq, Structural, Hash, PartialOrd, Ord)]
pub struct EntryKey {
    /// Position of the owning product in [`Distribution::products`].
    pub product_index: usize,
    /// The entry's id within its owning product (IDB order, 0-based).
    pub entry_id: EntryId,
}

/// An entry together with its canonical distribution-wide identity.
///
/// This is the shape every distribution-wide listing (search results,
/// hardware selection, extraction plans) carries: the borrowed entry
/// plus the [`EntryKey`] of the product that actually owns it, so no
/// caller ever has to re-derive ownership from a subsystem name.
#[derive(Debug, Clone, Copy)]
pub struct LocatedEntry<'a> {
    /// The entry's canonical identity within its distribution.
    pub key: EntryKey,
    /// The entry itself, borrowed from its owning product.
    pub entry: &'a Entry,
}

/// One product of a distribution.
#[derive(Debug)]
pub struct Product {
    /// Product name, e.g. `eoe`.
    pub name: ProductName,
    /// Path of the descriptor file (e.g. `dist/eoe`); may not exist.
    pub descriptor_file: String,
    /// The parsed descriptor, if the file exists and parses exactly.
    pub descriptor: Option<ProductDescriptor>,
    /// Path of the IDB file (e.g. `dist/eoe.idb`), if the product has
    /// one.
    pub idb_file: Option<String>,
    /// Product title from the descriptor.
    pub title: Option<String>,
    /// Hardware applicability from the descriptor's `mach` attribute
    /// blobs; `None` when there is no parsed descriptor.
    pub mach: Option<HardwareRestrictions>,
    /// Cut points recorded in the descriptor.
    pub cutpoints: Vec<Cutpoint>,
    /// Images, in descriptor order (or first-appearance order in the IDB
    /// when the product has no parsed descriptor).
    pub images: Vec<Image>,
    /// All entries, in IDB order.
    pub entries: Vec<Entry>,
    /// Non-fatal problems found while building this product.
    pub diagnostics: Vec<Diagnostic>,
}

impl Product {
    /// Looks up an entry by id: the entry at that position of the entry
    /// list.
    pub fn entry(&self, id: EntryId) -> (r: Option<&Entry>)
        ensures
            match r {
                Some(e) => id.0 < self.entries@.len() && *e == self.entries@[id.0 as int],
                None => id.0 >= self.entries@.len(),
            },
    {
        if id.0 < self.entries.len() {
            Some(&self.entries[id.0])
        } else {
            None
        }
    }
}

/// A whole distribution directory.
#[derive(Debug)]
pub struct Distribution {
    root: String,
    products: Vec<Product>,
    support_files: DistributionSupportFiles,
    diagnostics: Vec<Diagnostic>,
}

/// The search hits among entries `es` of product `index`, in order.
pub open spec fn entry_hits(es: Seq<Entry>, index: usize, pattern: Option<Seq<char>>) -> Seq<(EntryKey, Entry)>
    decreases es.len(),
{
    if es.len() == 0 {
        Seq::empty()
    } else {
        let rest = entry_hits(es.drop_last(), index, pattern);
        let e = es.last();
        if query_matches(pattern, e.path@) {
            rest.push((EntryKey { product_index: index, entry_id: e.id }, e))
        } else {
            rest
        }
    }
}

/// The search hits among the first `n` products, in product order.
pub open spec fn product_hits(ps: Seq<Product>, n: int, pattern: Option<Seq<char>>) -> Seq<(EntryKey, Entry)>
    decreases n,
{
    if n <= 0 {
        Seq::empty()
    } else {
        product_hits(ps, n - 1, pattern) + entry_hits(ps[n - 1].entries@, (n - 1) as usize, pattern)
    }
}

/// Every product numbers its entries by position, as building a product
/// does.
pub open spec fn ids_positional(ps: Seq<Product>) -> bool {
    forall|p: int, k: int| 0 <= p < ps.len() && 0 <= k < ps[p].entries@.len()
        ==> (#[trigger] ps[p].entries@[k]).id == EntryId(k as usize)
}

/// The hits among one product's entries carry its index and the id of an
/// entry of the product that is the hit itself.
proof fn lemma_entry_hits_owned(es: Seq<Entry>, index: usize, pattern: Option<Seq<char>>)
    ensures
        forall|q: int| 0 <= q < entry_hits(es, index, pattern).len() ==> {
            let h = #[trigger] entry_hits(es, index, pattern)[q];
            &&& h.0.product_index == index
            &&& exists|j: int| 0 <= j < es.len() && es[j] == h.1 && h.0.entry_id == es[j].id
        },
    decreases es.len(),
{
    if es.len() > 0 {
        lemma_entry_hits_owned(es.drop_last(), index, pattern);
        let rest = entry_hits(es.drop_last(), index, pattern);
        assert forall|q: int| 0 <= q < entry_hits(es, index, pattern).len() implies {
            let h = #[trigger] entry_hits(es, index, pattern)[q];
            &&& h.0.product_index == index
            &&& exists|j: int| 0 <= j < es.len() && es[j] == h.1 && h.0.entry_id == es[j].id
        } by {
            if q < rest.len() {
                let h = rest[q];
                let j = choose|j: int| 0 <= j < es.drop_last().len() && es.drop_last()[j] == h.1 && h.0.entry_id == es.drop_last()[j].id;
                assert(es[j] == es.drop_last()[j]);
            } else {
                assert(es[es.len() - 1] == es.last());
            }
        }
    }
}

/// Every search hit's key resolves to the hit itself: it names a product
/// the search covered and the position of the hit among that product's
/// entries.
pub proof fn lemma_hits_resolve_to_themselves(ps: Seq<Product>, n: int, pattern: Option<Seq<char>>)
    requires
        0 <= n <= ps.len() <= usize::MAX,
        ids_positional(ps),
    ensures
        forall|q: int| 0 <= q < product_hits(ps, n, pattern).len() ==> {
            let h = #[trigger] product_hits(ps, n, pattern)[q];
            &&& h.0.product_index < n
            &&& h.0.entry_id.0 < ps[h.0.product_index as int].entries@.len()
            &&& ps[h.0.product_index as int].entries@[h.0.entry_id.0 as int] == h.1
        },
    decreases n,
{
    if n > 0 {
        lemma_hits_resolve_to_themselves(ps, n - 1, pattern);
        let before = product_hits(ps, n - 1, pattern);
        let mine = entry_hits(ps[n - 1].entries@, (n - 1) as usize, pattern);
        lemma_entry_hits_owned(ps[n - 1].entries@, (n - 1) as usize, pattern);
        assert forall|q: int| 0 <= q < product_hits(ps, n, pattern).len() implies {
            let h = #[trigger] product_hits(ps, n, pattern)[q];
            &&& h.0.product_index < n
            &&& h.0.entry_id.0 < ps[h.0.product_index as int].entries@.len()
            &&& ps[h.0.product_index as int].entries@[h.0.entry_id.0 as int] == h.1
        } by {
            assert(product_hits(ps, n, pattern) == before + mine);
            if q < before.len() {
                assert(product_hits(ps, n, pattern)[q] == before[q]);
                let h = before[q];
                assert(h.0.product_index < n - 1);
            } else {
                let h = mine[q - before.len()];
                assert(product_hits(ps, n, pattern)[q] == h);
                assert(h.0.product_index == (n - 1) as usize);
                let es = ps[n - 1].entries@;
                assert(exists|j: int| 0 <= j < es.len() && es[j] == h.1 && h.0.entry_id == es[j].id);
                let j = choose|j: int| 0 <= j < es.len() && es[j] == h.1 && h.0.entry_id == es[j].id;
                assert(ps[n - 1].entries@.len() == ps[n - 1].entries.len());
                assert(ps[n - 1].entries@[j].id == EntryId(j as usize));
            }
        }
    }
}

/// The keys and entries of a list of located entries.
pub open spec fn located_view<'a>(v: Seq<LocatedEntry<'a>>) -> Seq<(EntryKey, Entry)> {
    v.map_values(|l: LocatedEntry<'a>| (l.key, *l.entry))
}

/// The result of running a [`Query`].
#[derive(Debug)]
pub struct QueryResult<'a> {
    /// Matching entries with their canonical owning-product identity,
    /// in distribution product order, each product in IDB order.
    pub entries: Vec<LocatedEntry<'a>>,
}

impl Distribution {
    /// Assembles a distribution from its already built parts.
    pub fn assemble(
        root: String,
        products: Vec<Product>,
        support_files: DistributionSupportFiles,
        diagnostics: Vec<Diagnostic>,
    ) -> (r: Self)
        ensures
            r.root_spec() == root@,
            r.products_spec() == products@,
            r.diagnostics_spec() == diagnostics@,
            r.support_files_spec() == support_files,
    {
        Distribution { root, products, support_files, diagnostics }
    }

    /// The distribution directory.
    pub closed spec fn root_spec(&self) -> Seq<char> {
        self.root@
    }

    /// The products.
    pub closed spec fn products_spec(&self) -> Seq<Product> {
        self.products@
    }

    /// The support files.
    pub closed spec fn support_files_spec(&self) -> DistributionSupportFiles {
        self.support_files
    }

    /// The distribution-level diagnostics.
    pub closed spec fn diagnostics_spec(&self) -> Seq<Diagnostic> {
        self.diagnostics@
    }

    /// The distribution directory.
    pub fn root(&self) -> (r: &str)
        ensures
            r@ == self.root_spec(),
    {
        self.root.as_str()
    }

    /// All products, sorted by file name.
    pub fn products(&self) -> (r: &[Product])
        ensures
            r@ == self.products_spec(),
    {
        self.products.as_slice()
    }

    /// Looks up a product by name, e.g. `eoe1`: the first product of
    /// that name.
    pub fn product(&self, name: &str) -> (r: Option<&Product>)
        ensures
            match r {
                Some(p) => p.name@ == name@ && exists|i: int| 0 <= i < self.products_spec().len()
                    && self.products_spec()[i] == *p
                    && forall|k: int| 0 <= k < i ==> (#[trigger] self.products_spec()[k]).name@ != name@,
                None => forall|k: int| 0 <= k < self.products_spec().len() ==> (#[trigger] self.products_spec()[k]).name@ != name@,
            },
    {
        let mut i: usize = 0;
        while i < self.products.len()
            invariant
                i <= self.products.len(),
                forall|k: int| 0 <= k < i ==> (#[trigger] self.products@[k]).name@ != name@,
            decreases self.products.len() - i,
        {
            if crate::mach::chars_eq(&crate::text::chars_of(self.products[i].name.as_str()), &crate::text::chars_of(name)) {
                return Some(&self.products[i]);
            }
            i += 1;
        }
        None
    }

    /// Resolves a canonical entry key to the entry it identifies.
    ///
    /// Both halves of the key are bounds-checked. Keys originating from
    /// another `Distribution` instance are outside the API contract (see
    /// the stability contract on [`EntryKey`]): when their numeric
    /// halves happen to be valid in this distribution, they identify a
    /// different entry of *this* distribution, not an error.
    pub fn entry(&self, key: EntryKey) -> (r: Option<LocatedEntry<'_>>)
        ensures
            match r {
                Some(l) => l.key == key && key.product_index < self.products_spec().len()
                    && key.entry_id.0 < self.products_spec()[key.product_index as int].entries@.len()
                    && *l.entry == self.products_spec()[key.product_index as int].entries@[key.entry_id.0 as int],
                None => key.product_index >= self.products_spec().len()
                    || key.entry_id.0 >= self.products_spec()[key.product_index as int].entries@.len(),
            },
    {
        if key.product_index >= self.products.len() {
            return None;
        }
        match self.products[key.product_index].entry(key.entry_id) {
            Some(entry) => Some(LocatedEntry { key, entry }),
            None => None,
        }
    }

    /// Miniroot support files.
    pub fn support_files(&self) -> (r: &DistributionSupportFiles)
        ensures
            *r == self.support_files_spec(),
    {
        &self.support_files
    }

    /// Non-fatal problems found while opening the distribution.
    pub fn diagnostics(&self) -> (r: &[Diagnostic])
        ensures
            r@ == self.diagnostics_spec(),
    {
        self.diagnostics.as_slice()
    }

    /// Every diagnostic of the distribution: the distribution-level ones
    /// first, then each product's in product order (each in stored
    /// order).
    pub fn all_diagnostics(&self) -> (r: Vec<&Diagnostic>)
        ensures
            r@.map_values(|d: &Diagnostic| *d) == self.diagnostics_spec() + all_product_diagnostics(self.products_spec(), self.products_spec().len() as int),
    {
        let mut r: Vec<&Diagnostic> = Vec::new();
        let mut i: usize = 0;
        while i < self.diagnostics.len()
            invariant
                i <= self.diagnostics.len(),
                r@.map_values(|d: &Diagnostic| *d) == self.diagnostics@.take(i as int),
            decreases self.diagnostics.len() - i,
        {
            let ghost old_r = r@;
            r.push(&self.diagnostics[i]);
            assert(r@.map_values(|d: &Diagnostic| *d) =~= old_r.map_values(|d: &Diagnostic| *d).push(self.diagnostics@[i as int]));
            assert(self.diagnostics@.take(i + 1) =~= self.diagnostics@.take(i as int).push(self.diagnostics@[i as int]));
            i += 1;
        }
        assert(self.diagnostics@.take(i as int) == self.diagnostics@);
        let mut p: usize = 0;
        while p < self.products.len()
            invariant
                p <= self.products.len(),
                r@.map_values(|d: &Diagnostic| *d) == self.diagnostics@ + all_product_diagnostics(self.products@, p as int),
            decreases self.products.len() - p,
        {
            let product = &self.products[p];
            let ghost before = r@.map_values(|d: &Diagnostic| *d);
            let mut k: usize = 0;
            while k < product.diagnostics.len()
                invariant
                    k <= product.diagnostics.len(),
                    r@.map_values(|d: &Diagnostic| *d) == before + product.diagnostics@.take(k as int),
                decreases product.diagnostics.len() - k,
            {
                let ghost old_r = r@;
                r.push(&product.diagnostics[k]);
                assert(r@.map_values(|d: &Diagnostic| *d) =~= old_r.map_values(|d: &Diagnostic| *d).push(product.diagnostics@[k as int]));
                assert(product.diagnostics@.take(k + 1) =~= product.diagnostics@.take(k as int).push(product.diagnostics@[k as int]));
                k += 1;
            }
            assert(product.diagnostics@.take(k as int) == product.diagnostics@);
            p += 1;
            assert(r@.map_values(|d: &Diagnostic| *d) =~= self.diagnostics@ + all_product_diagnostics(self.products@, p as int));
        }
        r
    }

    /// The total number of diagnostics, distribution- and
    /// product-level.
    pub fn diagnostic_count(&self) -> (r: usize)
        ensures
            r == self.diagnostics_spec().len() + all_product_diagnostics(self.products_spec(), self.products_spec().len() as int).len(),
    {
        let all = self.all_diagnostics();
        assert(all@.map_values(|d: &Diagnostic| *d).len() == all@.len());
        all.len()
    }

    /// Runs a search query across all products.
    ///
    /// Hits keep their owning-product identity: the result is in
    /// distribution product order, each product in IDB order, and
    /// duplicate paths are never deduplicated.
    pub fn find(&self, query: &Query) -> (r: QueryResult<'_>)
        ensures
            located_view(r.entries@) == product_hits(self.products_spec(), self.products_spec().len() as int, query.pattern_spec()),
    {
        let mut entries: Vec<LocatedEntry<'_>> = Vec::new();
        let mut p: usize = 0;
        while p < self.products.len()
            invariant
                p <= self.products.len(),
                located_view(entries@) == product_hits(self.products@, p as int, query.pattern_spec()),
            decreases self.products.len() - p,
        {
            let product = &self.products[p];
            let ghost before = located_view(entries@);
            let mut k: usize = 0;
            while k < product.entries.len()
                invariant
                    k <= product.entries.len(),
                    *product == self.products@[p as int],
                    located_view(entries@) == before + entry_hits(product.entries@.take(k as int), p, query.pattern_spec()),
                decreases product.entries.len() - k,
            {
                let entry = &product.entries[k];
                assert(product.entries@.take(k + 1).drop_last() == product.entries@.take(k as int));
                if query.matches(entry) {
                    let l = LocatedEntry { key: EntryKey { product_index: p, entry_id: entry.id }, entry };
                    assert(located_view(entries@.push(l)) =~= located_view(entries@).push((l.key, *l.entry)));
                    entries.push(l);
                }
                k += 1;
            }
            assert(product.entries@.take(k as int) == product.entries@);
            p += 1;
        }
        QueryResult { entries }
    }
}

/// The diagnostics of the first `n` products, in product order.
pub open spec fn all_product_diagnostics(ps: Seq<Product>, n: int) -> Seq<Diagnostic>
    decreases n,
{
    if n <= 0 {
        Seq::empty()
    } else {
        all_product_diagnostics(ps, n - 1) + ps[n - 1].diagnostics@
    }
}

} // verus!

verus! {

/// `root/name`, as joining a relative name to the directory path writes
/// it.
pub open spec fn joined(root: Seq<char>, name: Seq<char>) -> Seq<char> {
    if root.len() == 0 {
        name
    } else if root.last() == '/' {
        root + name
    } else {
        root + seq!['/'] + name
    }
}

/// Joins a relative file name to a directory path.
pub fn join_path(root: &str, name: &str) -> (r: String)
    ensures
        r@ == joined(root@, name@),
{
    let rv = crate::text::chars_of(root);
    let mut r = crate::text::string_of(&rv);
    if rv.len() > 0 && rv[rv.len() - 1] != '/' {
        crate::text::push_char(&mut r, '/');
    }
    crate::text::append_str(&mut r, name);
    r
}

/// What was found about one image archive file.
#[derive(Debug, Clone)]
pub enum ArchiveProbe {
    /// No such file.
    Missing,
    /// The file exists: its size and its first bytes (up to 13).
    Found {
        /// File size in bytes.
        file_size: u64,
        /// The first bytes of the file, at most 13.
        header: Vec<u8>,
    },
    /// The file exists but could not be read.
    Unreadable {
        /// The description of the read failure.
        message: String,
    },
}

/// One image archive file of the distribution directory, by file name.
#[derive(Debug, Clone)]
pub struct ArchiveFile {
    /// File name within the distribution directory, e.g. `eoe.sw`.
    pub file_name: String,
    /// What was found about it.
    pub probe: ArchiveProbe,
}

/// The archive size the model records: the file size of a file with a
/// valid header, zero otherwise.
pub open spec fn archive_size(probe: Option<ArchiveProbe>) -> u64 {
    match probe {
        Some(ArchiveProbe::Found { file_size, header }) => if crate::image::layout::header_problem(
            header@.take(if header@.len() > 13 { 13 } else { header@.len() as int }),
        ) is None {
            file_size
        } else {
            0
        },
        _ => 0,
    }
}

/// The probe of the archive called `name`, if one was supplied.
pub open spec fn probe_named(archives: Seq<ArchiveFile>, name: Seq<char>) -> Option<ArchiveProbe>
    decreases archives.len(),
{
    if archives.len() == 0 {
        None
    } else if archives[0].file_name@ == name {
        Some(archives[0].probe)
    } else {
        probe_named(archives.skip(1), name)
    }
}

} // verus!

verus! {

/// Finds the probe of the archive called `name`.
fn find_probe<'a>(archives: &'a [ArchiveFile], name: &str) -> (r: Option<&'a ArchiveProbe>)
    ensures
        match r {
            Some(p) => probe_named(archives@, name@) == Some(*p),
            None => probe_named(archives@, name@) is None,
        },
{
    let target = crate::text::chars_of(name);
    let mut i: usize = 0;
    assert(archives@.skip(0) =~= archives@);
    while i < archives.len()
        invariant
            i <= archives.len(),
            target@ == name@,
            probe_named(archives@, name@) == probe_named(archives@.skip(i as int), name@),
        decreases archives.len() - i,
    {
        assert(archives@.skip(i as int)[0] == archives@[i as int]);
        assert(archives@.skip(i as int).skip(1) =~= archives@.skip(i + 1));
        if crate::mach::chars_eq(&crate::text::chars_of(archives[i].file_name.as_str()), &target) {
            return Some(&archives[i].probe);
        }
        i += 1;
    }
    None
}

/// Opens the archive file of one image from what was found about it,
/// reporting problems as diagnostics and yielding an empty layout.
pub fn open_image_archive(
    root: &str,
    image_name: &crate::names::ImageName,
    archives: &[ArchiveFile],
    diagnostics: &mut Vec<Diagnostic>,
) -> (r: crate::image::ImageArchive)
    ensures
        crate::diagnostic::keeps(old(diagnostics)@, final(diagnostics)@),
        r.path@ == joined(root@, crate::names::dotted2(image_name@.0, image_name@.1)),
        r.file_size == archive_size(probe_named(archives@, crate::names::dotted2(image_name@.0, image_name@.1))),
        r.layout.header_size == 13,
        r.layout.payloads@.len() == 0,
{
    let ghost diagnostics0 = diagnostics@;
    let file_name = image_name.file_name();
    let path = join_path(root, file_name.as_str());
    let file_size = match find_probe(archives, file_name.as_str()) {
        Some(ArchiveProbe::Found { file_size, header }) => {
            let read = if header.len() > 13 { 13 } else { header.len() };
            let mut first: Vec<u8> = Vec::new();
            let mut i: usize = 0;
            while i < read
                invariant
                    crate::diagnostic::keeps(diagnostics0, diagnostics@),
                    i <= read <= header.len(),
                    read <= 13,
                    first@ == header@.take(i as int),
                decreases read - i,
            {
                first.push(header[i]);
                i += 1;
                assert(first@ =~= header@.take(i as int));
            }
            match crate::image::layout::check_archive_header(path.as_str(), first.as_slice()) {
                Ok(()) => *file_size,
                Err(error) => {
                    let mut message = crate::text::string_of(&crate::text::chars_of("ignoring image archive: "));
                    crate::text::append_str(&mut message, error.to_string().as_str());
                    diagnostics.push(Diagnostic::error(message, Some(path.clone())));
                    0
                },
            }
        },
        Some(ArchiveProbe::Unreadable { message: cause }) => {
            let error = crate::error::Error::Io { path: path.clone(), message: cause.clone() };
            let mut message = crate::text::string_of(&crate::text::chars_of("ignoring image archive: "));
            crate::text::append_str(&mut message, error.to_string().as_str());
            diagnostics.push(Diagnostic::error(message, Some(path.clone())));
            0
        },
        _ => {
            let mut message = crate::text::string_of(&crate::text::chars_of("image archive "));
            crate::text::append_str(&mut message, file_name.as_str());
            crate::text::append_str(&mut message, " is missing");
            diagnostics.push(Diagnostic::warning(message, Some(path.clone())));
            0
        },
    };
    crate::image::ImageArchive {
        path,
        file_size,
        layout: crate::image::ImageLayout { header_size: 13, payloads: Vec::new() },
    }
}

} // verus!

verus! {

/// A descriptor-declared subsystem as the tree starts it: declared by
/// the descriptor only, no entries yet, every descriptor-derived part
/// decoded.
pub open spec fn fresh_declared(s: crate::descriptor::model::Subsystem) -> bool {
    &&& s.presence == (crate::descriptor::model::SubsystemPresence { descriptor: true, idb: false })
    &&& s.entry_ids@.len() == 0
    &&& s.mach is Some
    &&& s.flags is Some
    &&& s.autominiroot is Some
    &&& s.rules is Some
}

/// A text when it is not empty.
fn non_empty(text: &str) -> (r: Option<String>)
    ensures
        match r {
            Some(t) => t@ == text@ && text@.len() > 0,
            None => text@.len() == 0,
        },
{
    let v = crate::text::chars_of(text);
    if v.len() == 0 {
        None
    } else {
        Some(crate::text::string_of(&v))
    }
}

/// A text, when it is not empty.
pub open spec fn non_empty_text(t: Seq<char>) -> Option<Seq<char>> {
    if t.len() > 0 { Some(t) } else { None }
}

/// An optional text by its view.
pub open spec fn opt_view(o: Option<String>) -> Option<Seq<char>> {
    match o {
        Some(t) => Some(t@),
        None => None,
    }
}

/// Decoded hardware restrictions of a record's attributes with a tag.
pub open spec fn restrictions_from(m: Option<HardwareRestrictions>, attrs: Seq<crate::descriptor::model::DescriptorAttribute>) -> bool {
    m matches Some(r) && crate::descriptor::semantics::hexprs_view(r.expressions@) == crate::descriptor::semantics::tagged_parsed(attrs, 0x6d)
        && crate::descriptor::semantics::texts_view(r.unresolved@) == crate::descriptor::semantics::tagged_unresolved(attrs, 0x6d)
}

/// The qualified name of a subsystem record.
pub open spec fn record_qualified(product: Seq<char>, image: Seq<char>, rec: crate::descriptor::model::DescriptorSubsystem) -> Seq<char> {
    crate::names::dotted3(product, image, rec.name@)
}

/// The subsystem records whose qualified names are valid, in order.
pub open spec fn valid_subsystem_records(product: Seq<char>, image: Seq<char>, recs: Seq<crate::descriptor::model::DescriptorSubsystem>) -> Seq<crate::descriptor::model::DescriptorSubsystem>
    decreases recs.len(),
{
    if recs.len() == 0 {
        Seq::empty()
    } else {
        let rest = valid_subsystem_records(product, image, recs.drop_last());
        if crate::names::valid_subsystem_name(record_qualified(product, image, recs.last())) { rest.push(recs.last()) } else { rest }
    }
}

/// The image records whose names are valid, in order.
pub open spec fn valid_image_records(recs: Seq<crate::descriptor::model::DescriptorImage>) -> Seq<crate::descriptor::model::DescriptorImage>
    decreases recs.len(),
{
    if recs.len() == 0 {
        Seq::empty()
    } else {
        let rest = valid_image_records(recs.drop_last());
        if crate::names::valid_product_name(recs.last().name@) { rest.push(recs.last()) } else { rest }
    }
}

/// A subsystem as its descriptor record declares it: every
/// descriptor-derived part decoded from the record, no entries yet.
pub open spec fn declared_subsystem(s: crate::descriptor::model::Subsystem, product: Seq<char>, image: Seq<char>, rec: crate::descriptor::model::DescriptorSubsystem) -> bool {
    let q = record_qualified(product, image, rec);
    let parts = crate::text::split_on(q, '.');
    &&& s.name@ == (parts[0], parts[1], parts[2])
    &&& opt_view(s.title) == non_empty_text(crate::descriptor::model::effective_text(rec.text))
    &&& opt_view(s.mapping) == non_empty_text(rec.mapping@)
    &&& s.presence == (crate::descriptor::model::SubsystemPresence { descriptor: true, idb: false })
    &&& restrictions_from(s.mach, rec.attributes@)
    &&& s.flags matches Some(f) && {
        &&& crate::descriptor::semantics::flag_view(f.required) == crate::descriptor::semantics::decoded_flag(rec.flags_raw & 0x0001 != 0, rec.attributes@, 0x52)
        &&& crate::descriptor::semantics::flag_view(f.default) == crate::descriptor::semantics::decoded_flag(rec.flags_raw & 0x0002 != 0, rec.attributes@, 0x44)
        &&& crate::descriptor::semantics::flag_view(f.miniroot) == crate::descriptor::semantics::decoded_flag(rec.flags_raw & 0x0800 == 0, rec.attributes@, 0x4d)
        &&& f.inplace == (rec.flags_raw & 0x0800 != 0)
        &&& f.patch == (rec.flags_raw & 0x0400 != 0)
        &&& f.client_only == (rec.flags_raw & 0x2000 != 0)
        &&& f.overlay == (rec.flags_raw & 0x8000 != 0)
        &&& f.overlay_member == (rec.flags_raw & 0x4000 != 0)
    }
    &&& s.autominiroot matches Some(a) && crate::descriptor::semantics::logicals_view(a@) == crate::descriptor::semantics::autominiroot_ranges(rec.attributes@)
    &&& s.rules matches Some(r) && {
        &&& crate::descriptor::semantics::clauses_view(r.prerequisites@) == crate::descriptor::semantics::kept_clauses(rec.prerequisites@)
        &&& crate::descriptor::semantics::logicals_view(r.replaces@) == crate::descriptor::semantics::ordinary_ranges(rec.replaces@)
        &&& crate::descriptor::semantics::logicals_view(r.follows@) == crate::descriptor::semantics::follows_ranges(rec.replaces@)
        &&& crate::descriptor::semantics::logicals_view(r.incompatibilities@) == crate::descriptor::semantics::ordinary_ranges(rec.incompatibilities@)
        &&& crate::descriptor::semantics::logicals_view(r.updates@) == crate::descriptor::semantics::ordinary_ranges(rec.updates@)
    }
    &&& s.entry_ids@.len() == 0
}

/// An image as its descriptor record declares it, with its archive
/// opened and its valid subsystem records declared in order.
pub open spec fn declared_image(i: Image, root: Seq<char>, product: Seq<char>, archives: Seq<ArchiveFile>, rec: crate::descriptor::model::DescriptorImage) -> bool {
    let subs = valid_subsystem_records(product, rec.name@, rec.subsystems@);
    &&& i.name@ == (product, rec.name@)
    &&& opt_view(i.title) == non_empty_text(crate::descriptor::model::effective_text(rec.text))
    &&& i.version == Some(rec.version)
    &&& i.order == Some(rec.order as i32)
    &&& restrictions_from(i.mach, rec.attributes@)
    &&& i.archive.path@ == joined(root, crate::names::dotted2(product, rec.name@))
    &&& i.archive.file_size == archive_size(probe_named(archives, crate::names::dotted2(product, rec.name@)))
    &&& i.archive.layout.header_size == 13
    &&& i.archive.layout.payloads@.len() == 0
    &&& i.subsystems@.len() == subs.len()
    &&& forall|j: int| 0 <= j < subs.len() ==> declared_subsystem(#[trigger] i.subsystems@[j], product, rec.name@, subs[j])
}

/// The subsystems an image record declares, in order; records whose
/// qualified names are not valid are skipped with an error diagnostic.
fn declared_subsystems(
    product: &ProductName,
    image_record: &crate::descriptor::model::DescriptorImage,
    diagnostics: &mut Vec<Diagnostic>,
) -> (r: Vec<crate::descriptor::model::Subsystem>)
    ensures
        crate::diagnostic::keeps(old(diagnostics)@, final(diagnostics)@),
        r@.len() == valid_subsystem_records(product@, image_record.name@, image_record.subsystems@).len(),
        forall|j: int| 0 <= j < r@.len() ==> declared_subsystem(#[trigger] r@[j], product@, image_record.name@,
            valid_subsystem_records(product@, image_record.name@, image_record.subsystems@)[j]),
        forall|j: int| 0 <= j < r@.len() ==> fresh_declared(#[trigger] r@[j]),
{
    let ghost diagnostics0 = diagnostics@;
    let mut subsystems: Vec<crate::descriptor::model::Subsystem> = Vec::new();
    let mut j: usize = 0;
    while j < image_record.subsystems.len()
        invariant
            crate::diagnostic::keeps(diagnostics0, diagnostics@),
            j <= image_record.subsystems.len(),
            subsystems@.len() == valid_subsystem_records(product@, image_record.name@, image_record.subsystems@.take(j as int)).len(),
            forall|k: int| 0 <= k < subsystems@.len() ==> declared_subsystem(#[trigger] subsystems@[k], product@, image_record.name@,
                valid_subsystem_records(product@, image_record.name@, image_record.subsystems@.take(j as int))[k]),
            forall|k: int| 0 <= k < subsystems@.len() ==> fresh_declared(#[trigger] subsystems@[k]),
        decreases image_record.subsystems.len() - j,
    {
        let subsystem_record = &image_record.subsystems[j];
        proof {
            assert(image_record.subsystems@.take(j + 1).drop_last() =~= image_record.subsystems@.take(j as int));
            assert(image_record.subsystems@.take(j + 1).last() == *subsystem_record);
        }
        let ghost prior = subsystems@;
        let mut qualified = crate::text::string_of(&crate::text::chars_of(product.as_str()));
        crate::text::push_char(&mut qualified, '.');
        crate::text::append_str(&mut qualified, image_record.name.as_str());
        crate::text::push_char(&mut qualified, '.');
        crate::text::append_str(&mut qualified, subsystem_record.name.as_str());
        assert(qualified@ =~= record_qualified(product@, image_record.name@, *subsystem_record));
        match crate::names::SubsystemName::parse(qualified.as_str()) {
            Err(error) => {
                let mut message = crate::text::string_of(&crate::text::chars_of("skipping descriptor subsystem record: "));
                crate::text::append_str(&mut message, error.to_string().as_str());
                diagnostics.push(Diagnostic::error(message, None));
            },
            Ok(name) => {
                let title = non_empty(subsystem_record.text.effective());
                let mapping = non_empty(subsystem_record.mapping.as_str());
                let mach = crate::descriptor::semantics::mach_expressions(subsystem_record.attributes.as_slice(), qualified.as_str(), diagnostics);
                let flags = crate::descriptor::semantics::decode_flags(subsystem_record.flags_raw, subsystem_record.attributes.as_slice(), qualified.as_str(), diagnostics);
                let autominiroot = crate::descriptor::semantics::autominiroot(subsystem_record.attributes.as_slice(), qualified.as_str(), diagnostics);
                let rules = crate::descriptor::semantics::decode_rules(subsystem_record, qualified.as_str(), diagnostics);
                subsystems.push(crate::descriptor::model::Subsystem {
                    name,
                    title,
                    mapping,
                    presence: crate::descriptor::model::SubsystemPresence { descriptor: true, idb: false },
                    mach: Some(mach),
                    flags: Some(flags),
                    autominiroot: Some(autominiroot),
                    rules: Some(rules),
                    entry_ids: Vec::new(),
                });
                assert(declared_subsystem(subsystems@.last(), product@, image_record.name@, *subsystem_record));
            },
        }
        proof {
            let recs = valid_subsystem_records(product@, image_record.name@, image_record.subsystems@.take(j + 1));
            assert forall|k: int| 0 <= k < subsystems@.len() implies declared_subsystem(#[trigger] subsystems@[k], product@, image_record.name@, recs[k]) by {
                if k < prior.len() {
                    assert(subsystems@[k] == prior[k]);
                }
            }
        }
        j += 1;
    }
    assert(image_record.subsystems@.take(image_record.subsystems@.len() as int) =~= image_record.subsystems@);
    subsystems
}

/// Builds the image/subsystem tree from the descriptor, the hierarchy
/// authority. Records whose names are not valid are skipped with an
/// error diagnostic. Entries are attached later by [`attach_entries`].
pub fn tree_from_descriptor(
    root: &str,
    product: &ProductName,
    descriptor: &ProductDescriptor,
    archives: &[ArchiveFile],
    diagnostics: &mut Vec<Diagnostic>,
) -> (r: Vec<Image>)
    ensures
        crate::diagnostic::keeps(old(diagnostics)@, final(diagnostics)@),
        r@.len() == valid_image_records(descriptor.images@).len(),
        forall|i: int| 0 <= i < r@.len() ==> declared_image(#[trigger] r@[i], root@, product@, archives@, valid_image_records(descriptor.images@)[i]),
        forall|i: int| 0 <= i < r@.len() ==> {
            &&& (#[trigger] r@[i]).name@.0 == product@
            &&& r@[i].mach is Some
            &&& r@[i].version is Some
            &&& r@[i].order is Some
            &&& forall|j: int| 0 <= j < r@[i].subsystems@.len() ==> fresh_declared(#[trigger] r@[i].subsystems@[j])
        },
{
    let ghost diagnostics0 = diagnostics@;
    let mut images: Vec<Image> = Vec::new();
    let mut i: usize = 0;
    while i < descriptor.images.len()
        invariant
            crate::diagnostic::keeps(diagnostics0, diagnostics@),
            i <= descriptor.images.len(),
            images@.len() <= i,
            images@.len() == valid_image_records(descriptor.images@.take(i as int)).len(),
            forall|k: int| 0 <= k < images@.len() ==> declared_image(#[trigger] images@[k], root@, product@, archives@, valid_image_records(descriptor.images@.take(i as int))[k]),
            forall|k: int| 0 <= k < images@.len() ==> {
                &&& (#[trigger] images@[k]).name@.0 == product@
                &&& images@[k].mach is Some
                &&& images@[k].version is Some
                &&& images@[k].order is Some
                &&& forall|j: int| 0 <= j < images@[k].subsystems@.len() ==> fresh_declared(#[trigger] images@[k].subsystems@[j])
            },
        decreases descriptor.images.len() - i,
    {
        let image_record = &descriptor.images[i];
        proof {
            assert(descriptor.images@.take(i + 1).drop_last() =~= descriptor.images@.take(i as int));
            assert(descriptor.images@.take(i + 1).last() == *image_record);
        }
        let ghost prior = images@;
        match crate::names::ImageName::from_parts(product.clone(), image_record.name.clone()) {
            Err(error) => {
                let mut message = crate::text::string_of(&crate::text::chars_of("skipping descriptor image record: "));
                crate::text::append_str(&mut message, error.to_string().as_str());
                diagnostics.push(Diagnostic::error(message, None));
            },
            Ok(image_name) => {
                let ghost subs = valid_subsystem_records(product@, image_record.name@, image_record.subsystems@);
                let subsystems = declared_subsystems(product, image_record, diagnostics);
                let title = non_empty(image_record.text.effective());
                let mach = crate::descriptor::semantics::mach_expressions(image_record.attributes.as_slice(), image_name.file_name().as_str(), diagnostics);
                let archive = open_image_archive(root, &image_name, archives, diagnostics);
                images.push(Image {
                    title,
                    version: Some(image_record.version),
                    order: Some(image_record.order as i32),
                    mach: Some(mach),
                    archive,
                    name: image_name,
                    subsystems,
                });
                assert(declared_image(images@.last(), root@, product@, archives@, *image_record));
            },
        }
        proof {
            let recs = valid_image_records(descriptor.images@.take(i + 1));
            assert forall|k: int| 0 <= k < images@.len() implies declared_image(#[trigger] images@[k], root@, product@, archives@, recs[k]) by {
                if k < prior.len() {
                    assert(images@[k] == prior[k]);
                }
            }
        }
        i += 1;
    }
    assert(descriptor.images@.take(descriptor.images@.len() as int) =~= descriptor.images@);
    images
}

} // verus!

verus! {

/// Whether image `i`, subsystem `j` of the tree holds entry `e`: the
/// image and subsystem are the ones `e` names, the subsystem is marked
/// as present in the IDB, and its entry list holds `e`'s id.
pub open spec fn holds_entry(images: Seq<Image>, i: int, j: int, e: Entry) -> bool {
    &&& 0 <= i < images.len()
    &&& 0 <= j < images[i].subsystems@.len()
    &&& images[i].name@ == (e.subsystem@.0, e.subsystem@.1)
    &&& images[i].subsystems@[j].name@ == e.subsystem@
    &&& images[i].subsystems@[j].presence.idb
    &&& images[i].subsystems@[j].entry_ids@.contains(e.id)
}

/// Whether some image and subsystem of the tree hold entry `e`.
pub open spec fn attached(images: Seq<Image>, e: Entry) -> bool {
    exists|i: int, j: int| #[trigger] holds_entry(images, i, j, e)
}

/// Finds the image called `name`.
fn image_position(images: &Vec<Image>, name: &crate::names::ImageName) -> (r: Option<usize>)
    ensures
        match r {
            Some(i) => i < images@.len() && images@[i as int].name@ == name@
                && forall|k: int| 0 <= k < i ==> (#[trigger] images@[k]).name@ != name@,
            None => forall|k: int| 0 <= k < images@.len() ==> (#[trigger] images@[k]).name@ != name@,
        },
{
    let mut i: usize = 0;
    while i < images.len()
        invariant
            i <= images.len(),
            forall|k: int| 0 <= k < i ==> (#[trigger] images@[k]).name@ != name@,
        decreases images.len() - i,
    {
        if images[i].name == *name {
            return Some(i);
        }
        i += 1;
    }
    None
}

/// Finds the subsystem called `name`.
fn subsystem_position(subsystems: &Vec<crate::descriptor::model::Subsystem>, name: &crate::names::SubsystemName) -> (r: Option<usize>)
    ensures
        match r {
            Some(i) => i < subsystems@.len() && subsystems@[i as int].name@ == name@
                && forall|k: int| 0 <= k < i ==> (#[trigger] subsystems@[k]).name@ != name@,
            None => forall|k: int| 0 <= k < subsystems@.len() ==> (#[trigger] subsystems@[k]).name@ != name@,
        },
{
    let mut i: usize = 0;
    while i < subsystems.len()
        invariant
            i <= subsystems.len(),
            forall|k: int| 0 <= k < i ==> (#[trigger] subsystems@[k]).name@ != name@,
        decreases subsystems.len() - i,
    {
        if subsystems[i].name == *name {
            return Some(i);
        }
        i += 1;
    }
    None
}

/// `path:line` of an entry's IDB origin.
fn origin_of(entry: &Entry) -> (r: String)
    ensures
        r@ == entry.origin.idb_path@.push(':') + crate::text::decimal_spec(entry.origin.line_number as nat),
{
    let mut r = crate::text::string_of(&crate::text::chars_of(entry.origin.idb_path.as_str()));
    crate::text::push_char(&mut r, ':');
    crate::text::append_str(&mut r, crate::text::decimal(entry.origin.line_number as u64).as_str());
    r
}

/// `IDB entry {path} names {what} {subsystem} which the descriptor does
/// not declare`
fn undeclared(entry: &Entry, what: &str) -> (r: String)
    ensures
        r@ == "IDB entry "@ + entry.path@ + " names "@ + what@.push(' ')
            + crate::names::dotted3(entry.subsystem@.0, entry.subsystem@.1, entry.subsystem@.2)
            + " which the descriptor does not declare"@,
{
    let mut m = crate::text::string_of(&crate::text::chars_of("IDB entry "));
    crate::text::append_str(&mut m, entry.path.as_str());
    crate::text::append_str(&mut m, " names ");
    crate::text::append_str(&mut m, what);
    crate::text::push_char(&mut m, ' ');
    crate::text::append_str(&mut m, entry.subsystem.to_string().as_str());
    crate::text::append_str(&mut m, " which the descriptor does not declare");
    m
}

/// A subsystem of the tree as its name, presence and entry ids.
pub type SubsystemShape = ((Seq<char>, Seq<char>, Seq<char>), crate::descriptor::model::SubsystemPresence, Seq<EntryId>);

/// An image of the tree as its name and subsystems.
pub type ImageShape = ((Seq<char>, Seq<char>), Seq<SubsystemShape>);

/// The shape of the tree: names, presence and entry ids.
pub open spec fn tree_shape(images: Seq<Image>) -> Seq<ImageShape> {
    images.map_values(|i: Image| (i.name@, i.subsystems@.map_values(|s: crate::descriptor::model::Subsystem| (s.name@, s.presence, s.entry_ids@))))
}

/// The first image from `i` on with the given name, or the number of
/// images.
pub open spec fn first_image_from(t: Seq<ImageShape>, name: (Seq<char>, Seq<char>), i: int) -> int
    decreases t.len() - i,
{
    if i < 0 || i >= t.len() {
        t.len() as int
    } else if t[i].0 == name {
        i
    } else {
        first_image_from(t, name, i + 1)
    }
}

/// The first subsystem from `j` on with the given name, or the number
/// of subsystems.
pub open spec fn first_subsystem_from(ss: Seq<SubsystemShape>, name: (Seq<char>, Seq<char>, Seq<char>), j: int) -> int
    decreases ss.len() - j,
{
    if j < 0 || j >= ss.len() {
        ss.len() as int
    } else if ss[j].0 == name {
        j
    } else {
        first_subsystem_from(ss, name, j + 1)
    }
}

/// Attaching one entry: the first image and subsystem of the names it
/// carries (created at the end, IDB-only, when missing) are marked as
/// present in the IDB and get the entry's id appended.
pub open spec fn attach_one(t: Seq<ImageShape>, e: Entry) -> Seq<ImageShape> {
    let name = entry_image(e);
    let i0 = first_image_from(t, name, 0);
    let t1 = if i0 < t.len() { t } else { t.push((name, Seq::empty())) };
    let subs = t1[i0].1;
    let j0 = first_subsystem_from(subs, e.subsystem@, 0);
    let subs1 = if j0 < subs.len() {
        subs
    } else {
        subs.push((e.subsystem@, crate::descriptor::model::SubsystemPresence { descriptor: false, idb: true }, Seq::empty()))
    };
    let s = subs1[j0];
    let s2 = (s.0, crate::descriptor::model::SubsystemPresence { descriptor: s.1.descriptor, idb: true }, s.2.push(e.id));
    t1.update(i0, (t1[i0].0, subs1.update(j0, s2)))
}

/// Attaching the first `n` entries in order.
pub open spec fn attach_all(t: Seq<ImageShape>, es: Seq<Entry>, n: int) -> Seq<ImageShape>
    decreases n,
{
    if n <= 0 { t } else { attach_one(attach_all(t, es, n - 1), es[n - 1]) }
}

/// How often `id` is listed in `ids`.
pub open spec fn id_listed(ids: Seq<EntryId>, id: EntryId) -> nat
    decreases ids.len(),
{
    if ids.len() == 0 {
        0
    } else {
        id_listed(ids.drop_last(), id) + if ids.last() == id { 1nat } else { 0nat }
    }
}

/// How often `id` is listed by the first `n` subsystems.
pub open spec fn id_in_subsystems(ss: Seq<SubsystemShape>, id: EntryId, n: int) -> nat
    decreases n,
{
    if n <= 0 {
        0
    } else {
        id_in_subsystems(ss, id, n - 1) + id_listed(ss[n - 1].2, id)
    }
}

/// How often `id` is listed by the subsystems of the first `n` images.
pub open spec fn id_in_tree(t: Seq<ImageShape>, id: EntryId, n: int) -> nat
    decreases n,
{
    if n <= 0 {
        0
    } else {
        id_in_tree(t, id, n - 1) + id_in_subsystems(t[n - 1].1, id, t[n - 1].1.len() as int)
    }
}

/// How many of the first `n` entries carry `id`.
pub open spec fn entries_with_id(es: Seq<Entry>, id: EntryId, n: int) -> nat
    decreases n,
{
    if n <= 0 {
        0
    } else {
        entries_with_id(es, id, n - 1) + if es[n - 1].id == id { 1nat } else { 0nat }
    }
}

/// The subsystem count over a prefix depends only on that prefix.
proof fn lemma_subsystems_prefix(a: Seq<SubsystemShape>, b: Seq<SubsystemShape>, id: EntryId, n: int)
    requires
        0 <= n <= a.len(),
        n <= b.len(),
        forall|j: int| 0 <= j < n ==> #[trigger] a[j] == b[j],
    ensures
        id_in_subsystems(a, id, n) == id_in_subsystems(b, id, n),
    decreases n,
{
    if n > 0 {
        lemma_subsystems_prefix(a, b, id, n - 1);
    }
}

/// Changing one subsystem's list changes the count by the change of
/// that list's count.
proof fn lemma_subsystems_update(ss: Seq<SubsystemShape>, j: int, x: SubsystemShape, id: EntryId, n: int)
    requires
        0 <= j < ss.len(),
        0 <= n <= ss.len(),
    ensures
        id_in_subsystems(ss.update(j, x), id, n) + (if j < n { id_listed(ss[j].2, id) } else { 0 })
            == id_in_subsystems(ss, id, n) + (if j < n { id_listed(x.2, id) } else { 0 }),
    decreases n,
{
    if n > 0 {
        lemma_subsystems_update(ss, j, x, id, n - 1);
    }
}

/// The tree count over a prefix depends only on that prefix.
proof fn lemma_tree_prefix(a: Seq<ImageShape>, b: Seq<ImageShape>, id: EntryId, n: int)
    requires
        0 <= n <= a.len(),
        n <= b.len(),
        forall|i: int| 0 <= i < n ==> #[trigger] a[i] == b[i],
    ensures
        id_in_tree(a, id, n) == id_in_tree(b, id, n),
    decreases n,
{
    if n > 0 {
        lemma_tree_prefix(a, b, id, n - 1);
    }
}

/// Changing one image changes the tree count by the change of that
/// image's count.
proof fn lemma_tree_update(t: Seq<ImageShape>, i: int, x: ImageShape, id: EntryId, n: int)
    requires
        0 <= i < t.len(),
        0 <= n <= t.len(),
    ensures
        id_in_tree(t.update(i, x), id, n) + (if i < n { id_in_subsystems(t[i].1, id, t[i].1.len() as int) } else { 0 })
            == id_in_tree(t, id, n) + (if i < n { id_in_subsystems(x.1, id, x.1.len() as int) } else { 0 }),
    decreases n,
{
    if n > 0 {
        lemma_tree_update(t, i, x, id, n - 1);
    }
}

/// The warning that a product's descriptor declares another name than
/// its file: `descriptor product name "X" does not match file name "Y"`,
/// at the descriptor file.
pub open spec fn name_mismatch(d: Diagnostic, declared: Seq<char>, stem: Seq<char>, file: Seq<char>) -> bool {
    &&& d.severity == crate::diagnostic::Severity::Warning
    &&& d.message@ == "descriptor product name "@ + crate::text::debug_spec(declared) + " does not match file name "@
        + crate::text::debug_spec(stem)
    &&& (d.origin matches Some(o) && o@ == file)
}

/// A tree whose subsystems list no ids lists no id.
proof fn lemma_tree_without_ids(t: Seq<ImageShape>, id: EntryId, n: int)
    requires
        0 <= n <= t.len(),
        forall|i: int, j: int| 0 <= i < t.len() && 0 <= j < t[i].1.len() ==> (#[trigger] t[i].1[j]).2.len() == 0,
    ensures
        id_in_tree(t, id, n) == 0,
    decreases n,
{
    if n > 0 {
        lemma_tree_without_ids(t, id, n - 1);
        lemma_subsystems_without_ids(t[n - 1].1, id, t[n - 1].1.len() as int);
    }
}

/// Subsystems that list no ids list no id.
proof fn lemma_subsystems_without_ids(ss: Seq<SubsystemShape>, id: EntryId, n: int)
    requires
        0 <= n <= ss.len(),
        forall|j: int| 0 <= j < ss.len() ==> (#[trigger] ss[j]).2.len() == 0,
    ensures
        id_in_subsystems(ss, id, n) == 0,
    decreases n,
{
    if n > 0 {
        lemma_subsystems_without_ids(ss, id, n - 1);
        assert(ss[n - 1].2.len() == 0);
    }
}

/// The first image search ends inside the list or right after it.
proof fn lemma_first_image_range(t: Seq<ImageShape>, name: (Seq<char>, Seq<char>), i: int)
    requires
        0 <= i,
    ensures
        0 <= first_image_from(t, name, i) <= t.len(),
    decreases t.len() - i,
{
    if i < t.len() && t[i].0 != name {
        lemma_first_image_range(t, name, i + 1);
    }
}

/// The first subsystem search ends inside the list or right after it.
proof fn lemma_first_subsystem_range(ss: Seq<SubsystemShape>, name: (Seq<char>, Seq<char>, Seq<char>), j: int)
    requires
        0 <= j,
    ensures
        0 <= first_subsystem_from(ss, name, j) <= ss.len(),
    decreases ss.len() - j,
{
    if j < ss.len() && ss[j].0 != name {
        lemma_first_subsystem_range(ss, name, j + 1);
    }
}

/// Attaching one entry lists its id once more and no other id.
proof fn lemma_attach_one_counts(t: Seq<ImageShape>, e: Entry, id: EntryId)
    ensures
        id_in_tree(attach_one(t, e), id, attach_one(t, e).len() as int)
            == id_in_tree(t, id, t.len() as int) + if e.id == id { 1nat } else { 0nat },
{
    let name = entry_image(e);
    let i0 = first_image_from(t, name, 0);
    let t1 = if i0 < t.len() { t } else { t.push((name, Seq::empty())) };
    lemma_first_image_range(t, name, 0);
    if i0 >= t.len() {
        lemma_tree_prefix(t1, t, id, t.len() as int);
        assert(id_in_subsystems(Seq::<SubsystemShape>::empty(), id, 0) == 0);
    }
    assert(id_in_tree(t1, id, t1.len() as int) == id_in_tree(t, id, t.len() as int));
    let subs = t1[i0].1;
    let j0 = first_subsystem_from(subs, e.subsystem@, 0);
    lemma_first_subsystem_range(subs, e.subsystem@, 0);
    let subs1 = if j0 < subs.len() {
        subs
    } else {
        subs.push((e.subsystem@, crate::descriptor::model::SubsystemPresence { descriptor: false, idb: true }, Seq::empty()))
    };
    if j0 >= subs.len() {
        lemma_subsystems_prefix(subs1, subs, id, subs.len() as int);
        assert(id_listed(Seq::<EntryId>::empty(), id) == 0);
    }
    assert(id_in_subsystems(subs1, id, subs1.len() as int) == id_in_subsystems(subs, id, subs.len() as int));
    let s0 = subs1[j0];
    let s2 = (s0.0, crate::descriptor::model::SubsystemPresence { descriptor: s0.1.descriptor, idb: true }, s0.2.push(e.id));
    assert(s0.2.push(e.id).drop_last() =~= s0.2);
    lemma_subsystems_update(subs1, j0, s2, id, subs1.len() as int);
    lemma_tree_update(t1, i0, (t1[i0].0, subs1.update(j0, s2)), id, t1.len() as int);
}

/// Attaching entries lists each id once for every attached entry that
/// carries it, on top of what the tree listed before.
pub proof fn lemma_attach_counts(t: Seq<ImageShape>, es: Seq<Entry>, n: int, id: EntryId)
    requires
        0 <= n <= es.len(),
    ensures
        id_in_tree(attach_all(t, es, n), id, attach_all(t, es, n).len() as int)
            == id_in_tree(t, id, t.len() as int) + entries_with_id(es, id, n),
    decreases n,
{
    if n > 0 {
        lemma_attach_counts(t, es, n - 1, id);
        lemma_attach_one_counts(attach_all(t, es, n - 1), es[n - 1], id);
    }
}

/// Entries numbered by their position, attached to a tree that lists no
/// id, each end up listed exactly once.
pub proof fn lemma_attached_exactly_once(t: Seq<ImageShape>, es: Seq<Entry>, k: int)
    requires
        0 <= k < es.len(),
        es.len() <= usize::MAX,
        forall|q: int| 0 <= q < es.len() ==> (#[trigger] es[q]).id == EntryId(q as usize),
        id_in_tree(t, es[k].id, t.len() as int) == 0,
    ensures
        id_in_tree(attach_all(t, es, es.len() as int), es[k].id, attach_all(t, es, es.len() as int).len() as int) == 1,
{
    lemma_attach_counts(t, es, es.len() as int, es[k].id);
    lemma_entries_with_id_once(es, k, es.len() as int);
}

/// With ids numbered by position, only entry `k` carries its id.
proof fn lemma_entries_with_id_once(es: Seq<Entry>, k: int, n: int)
    requires
        0 <= k < es.len(),
        0 <= n <= es.len(),
        es.len() <= usize::MAX,
        forall|q: int| 0 <= q < es.len() ==> (#[trigger] es[q]).id == EntryId(q as usize),
    ensures
        entries_with_id(es, es[k].id, n) == if k < n { 1nat } else { 0nat },
    decreases n,
{
    if n > 0 {
        lemma_entries_with_id_once(es, k, n - 1);
        assert(es[n - 1].id == EntryId((n - 1) as usize));
        assert(es[k].id == EntryId(k as usize));
        assert(((n - 1) as usize) as int == n - 1 && (k as usize) as int == k);
    }
}

/// Skipping images of other names does not change the first match.
proof fn lemma_first_image_skip(t: Seq<ImageShape>, name: (Seq<char>, Seq<char>), i: int)
    requires
        0 <= i <= t.len(),
        forall|k: int| 0 <= k < i ==> (#[trigger] t[k]).0 != name,
    ensures
        first_image_from(t, name, 0) == first_image_from(t, name, i),
    decreases i,
{
    if i > 0 {
        lemma_first_image_skip(t, name, i - 1);
    }
}

/// Skipping subsystems of other names does not change the first match.
proof fn lemma_first_subsystem_skip(ss: Seq<SubsystemShape>, name: (Seq<char>, Seq<char>, Seq<char>), j: int)
    requires
        0 <= j <= ss.len(),
        forall|k: int| 0 <= k < j ==> (#[trigger] ss[k]).0 != name,
    ensures
        first_subsystem_from(ss, name, 0) == first_subsystem_from(ss, name, j),
    decreases j,
{
    if j > 0 {
        lemma_first_subsystem_skip(ss, name, j - 1);
    }
}

/// The parts of an image attaching entries leaves alone.
pub open spec fn same_but_subsystems(a: Image, b: Image) -> bool {
    &&& a.name == b.name
    &&& a.title == b.title
    &&& a.version == b.version
    &&& a.order == b.order
    &&& a.mach == b.mach
    &&& a.archive.path == b.archive.path
    &&& a.archive.file_size == b.archive.file_size
    &&& a.archive.layout.header_size == b.archive.layout.header_size
    &&& a.archive.layout.payloads@ == b.archive.layout.payloads@
}

/// The parts of a subsystem attaching entries leaves alone.
pub open spec fn same_but_membership(a: crate::descriptor::model::Subsystem, b: crate::descriptor::model::Subsystem) -> bool {
    &&& a.name == b.name
    &&& a.title == b.title
    &&& a.mapping == b.mapping
    &&& a.presence.descriptor == b.presence.descriptor
    &&& a.mach == b.mach
    &&& a.flags == b.flags
    &&& a.autominiroot == b.autominiroot
    &&& a.rules == b.rules
}

/// An image attaching entries created: nothing descriptor-derived, its
/// archive opened.
pub open spec fn created_image(i: Image, root: Seq<char>, archives: Seq<ArchiveFile>) -> bool {
    &&& i.title is None
    &&& i.version is None
    &&& i.order is None
    &&& i.mach is None
    &&& i.archive.path@ == joined(root, crate::names::dotted2(i.name@.0, i.name@.1))
    &&& i.archive.file_size == archive_size(probe_named(archives, crate::names::dotted2(i.name@.0, i.name@.1)))
}

/// A subsystem attaching entries created: IDB-only, nothing
/// descriptor-derived.
pub open spec fn created_subsystem(s: crate::descriptor::model::Subsystem) -> bool {
    &&& s.title is None
    &&& s.mapping is None
    &&& !s.presence.descriptor
    &&& s.mach is None
    &&& s.flags is None
    &&& s.autominiroot is None
    &&& s.rules is None
}

/// What attaching entries keeps of the tree it started from and gives
/// what it adds.
pub open spec fn attach_frame(before: Seq<Image>, after: Seq<Image>, root: Seq<char>, archives: Seq<ArchiveFile>) -> bool {
    &&& after.len() >= before.len()
    &&& forall|i: int| 0 <= i < before.len() ==> {
        &&& same_but_subsystems(#[trigger] after[i], before[i])
        &&& after[i].subsystems@.len() >= before[i].subsystems@.len()
        &&& forall|j: int| 0 <= j < after[i].subsystems@.len() ==> if j < before[i].subsystems@.len() {
            same_but_membership(#[trigger] after[i].subsystems@[j], before[i].subsystems@[j])
        } else {
            created_subsystem(after[i].subsystems@[j])
        }
    }
    &&& forall|i: int| before.len() <= i < after.len() ==> {
        &&& created_image(#[trigger] after[i], root, archives)
        &&& forall|j: int| 0 <= j < after[i].subsystems@.len() ==> created_subsystem(#[trigger] after[i].subsystems@[j])
    }
}

/// Attaches every IDB entry to the subsystem it names.
///
/// An entry naming a subsystem the tree does not have creates a
/// synthetic IDB-only subsystem (with a warning when there is a
/// descriptor); such entries are never dropped. When there is no
/// descriptor at all, the whole tree is derived from the IDB instead,
/// as the only available authority.
pub fn attach_entries(
    root: &str,
    images: &mut Vec<Image>,
    entries: &[Entry],
    has_descriptor: bool,
    archives: &[ArchiveFile],
    diagnostics: &mut Vec<Diagnostic>,
)
    ensures
        crate::diagnostic::keeps(old(diagnostics)@, final(diagnostics)@),
        tree_shape(final(images)@) == attach_all(tree_shape(old(images)@), entries@, entries@.len() as int),
        attach_frame(old(images)@, final(images)@, root@, archives@),
        final(images)@.len() >= old(images)@.len(),
        forall|i: int| 0 <= i < old(images)@.len() ==> (#[trigger] final(images)@[i]).name@ == old(images)@[i].name@,
        forall|k: int| 0 <= k < entries@.len() ==> #[trigger] attached(final(images)@, entries@[k]),
{
    let ghost diagnostics0 = diagnostics@;
    let ghost start = images@;
    let mut n: usize = 0;
    while n < entries.len()
        invariant
            crate::diagnostic::keeps(diagnostics0, diagnostics@),
            n <= entries.len(),
            tree_shape(images@) == attach_all(tree_shape(start), entries@, n as int),
            attach_frame(start, images@, root@, archives@),
            images@.len() >= start.len(),
            forall|i: int| 0 <= i < start.len() ==> (#[trigger] images@[i]).name@ == start[i].name@,
            forall|k: int| 0 <= k < n ==> #[trigger] attached(images@, entries@[k]),
        decreases entries.len() - n,
    {
        let entry = &entries[n];
        let ghost t = tree_shape(images@);
        let image_name = entry.subsystem.image_name();
        let image_index = match image_position(images, &image_name) {
            Some(index) => {
                proof {
                    assert forall|k: int| 0 <= k < index implies (#[trigger] t[k]).0 != entry_image(*entry) by {
                        assert(t[k].0 == images@[k].name@);
                    }
                    lemma_first_image_skip(t, entry_image(*entry), index as int);
                    assert(t[index as int].0 == images@[index as int].name@);
                }
                index
            },
            None => {
                if has_descriptor {
                    diagnostics.push(Diagnostic::warning(undeclared(entry, "image"), Some(origin_of(entry))));
                }
                proof {
                    assert forall|k: int| 0 <= k < t.len() implies (#[trigger] t[k]).0 != entry_image(*entry) by {
                        assert(t[k].0 == images@[k].name@);
                    }
                    lemma_first_image_skip(t, entry_image(*entry), t.len() as int);
                }
                let archive = open_image_archive(root, &image_name, archives, diagnostics);
                let ghost before = images@;
                images.push(Image {
                    archive,
                    name: image_name,
                    title: None,
                    version: None,
                    order: None,
                    mach: None,
                    subsystems: Vec::new(),
                });
                assert(images@ == before.push(images@.last()));
                proof {
                    let shaped = tree_shape(images@);
                    assert forall|k: int| 0 <= k < t.len() implies shaped[k] == t[k] by {
                        assert(images@[k] == before[k]);
                    }
                    assert(images@[t.len() as int].subsystems@.len() == 0);
                    assert(shaped[t.len() as int].1 =~= Seq::<SubsystemShape>::empty());
                    assert(shaped[t.len() as int].0 == entry_image(*entry));
                    assert(shaped =~= t.push((entry_image(*entry), Seq::empty())));
                }
                assert forall|k: int| 0 <= k < n implies #[trigger] attached(images@, entries@[k]) by {
                    assert(attached(before, entries@[k]));
                    let (i, j) = choose|i: int, j: int| #[trigger] holds_entry(before, i, j, entries@[k]);
                    assert(images@[i] == before[i]);
                    assert(holds_entry(images@, i, j, entries@[k]));
                }
                assert(attach_frame(start, images@, root@, archives@)) by {
                    assert forall|i: int| 0 <= i < start.len() implies {
                        &&& same_but_subsystems(#[trigger] images@[i], start[i])
                        &&& images@[i].subsystems@.len() >= start[i].subsystems@.len()
                        &&& forall|j: int| 0 <= j < images@[i].subsystems@.len() ==> if j < start[i].subsystems@.len() {
                            same_but_membership(#[trigger] images@[i].subsystems@[j], start[i].subsystems@[j])
                        } else {
                            created_subsystem(images@[i].subsystems@[j])
                        }
                    } by {
                        assert(images@[i] == before[i]);
                    }
                    assert forall|i: int| start.len() <= i < images@.len() implies {
                        &&& created_image(#[trigger] images@[i], root@, archives@)
                        &&& forall|j: int| 0 <= j < images@[i].subsystems@.len() ==> created_subsystem(#[trigger] images@[i].subsystems@[j])
                    } by {
                        if i < before.len() {
                            assert(images@[i] == before[i]);
                        }
                    }
                }
                images.len() - 1
            },
        };
        let ghost t1 = tree_shape(images@);
        let ghost subs = t1[image_index as int].1;
        assert(subs == images@[image_index as int].subsystems@.map_values(|s: crate::descriptor::model::Subsystem| (s.name@, s.presence, s.entry_ids@)));
        let ghost before_sub = images@;
        let subsystem_index = match subsystem_position(&images[image_index].subsystems, &entry.subsystem) {
            Some(index) => {
                proof {
                    assert forall|k: int| 0 <= k < index implies (#[trigger] subs[k]).0 != entry.subsystem@ by {
                        assert(subs[k].0 == images@[image_index as int].subsystems@[k].name@);
                    }
                    lemma_first_subsystem_skip(subs, entry.subsystem@, index as int);
                    assert(subs[index as int].0 == images@[image_index as int].subsystems@[index as int].name@);
                }
                index
            },
            None => {
                if has_descriptor {
                    diagnostics.push(Diagnostic::warning(undeclared(entry, "subsystem"), Some(origin_of(entry))));
                }
                proof {
                    assert forall|k: int| 0 <= k < subs.len() implies (#[trigger] subs[k]).0 != entry.subsystem@ by {
                        assert(subs[k].0 == images@[image_index as int].subsystems@[k].name@);
                    }
                    lemma_first_subsystem_skip(subs, entry.subsystem@, subs.len() as int);
                }
                let subsystem = crate::descriptor::model::Subsystem {
                    name: entry.subsystem.clone(),
                    title: None,
                    mapping: None,
                    presence: crate::descriptor::model::SubsystemPresence { descriptor: false, idb: true },
                    // IDB-only subsystem: there is no descriptor record,
                    // so nothing descriptor-derived is known.
                    mach: None,
                    flags: None,
                    autominiroot: None,
                    rules: None,
                    entry_ids: Vec::new(),
                };
                images[image_index].subsystems.push(subsystem);
                proof {
                    let shaped = tree_shape(images@);
                    let grown = subs.push((entry.subsystem@, crate::descriptor::model::SubsystemPresence { descriptor: false, idb: true }, Seq::<EntryId>::empty()));
                    assert forall|k: int| 0 <= k < t1.len() && k != image_index implies shaped[k] == t1[k] by {
                        assert(images@[k] == before_sub[k]);
                    }
                    let after_subs = images@[image_index as int].subsystems@;
                    assert forall|j: int| 0 <= j < subs.len() implies #[trigger] shaped[image_index as int].1[j] == grown[j] by {
                        assert(after_subs[j] == before_sub[image_index as int].subsystems@[j]);
                    }
                    assert(after_subs.last().entry_ids@ =~= Seq::<EntryId>::empty());
                    assert(shaped[image_index as int].1 =~= grown);
                    assert(shaped =~= t1.update(image_index as int, (t1[image_index as int].0, grown)));
                }
                assert forall|k: int| 0 <= k < n implies #[trigger] attached(images@, entries@[k]) by {
                    assert(attached(before_sub, entries@[k]));
                    let (i, j) = choose|i: int, j: int| #[trigger] holds_entry(before_sub, i, j, entries@[k]);
                    if i != image_index {
                        assert(images@[i] == before_sub[i]);
                    } else {
                        assert(images@[i].subsystems@[j] == before_sub[i].subsystems@[j]);
                    }
                    assert(holds_entry(images@, i, j, entries@[k]));
                }
                assert(attach_frame(start, images@, root@, archives@)) by {
                    assert forall|i: int| 0 <= i < start.len() implies {
                        &&& same_but_subsystems(#[trigger] images@[i], start[i])
                        &&& images@[i].subsystems@.len() >= start[i].subsystems@.len()
                        &&& forall|j: int| 0 <= j < images@[i].subsystems@.len() ==> if j < start[i].subsystems@.len() {
                            same_but_membership(#[trigger] images@[i].subsystems@[j], start[i].subsystems@[j])
                        } else {
                            created_subsystem(images@[i].subsystems@[j])
                        }
                    } by {
                        if i != image_index {
                            assert(images@[i] == before_sub[i]);
                        } else {
                            assert forall|j: int| 0 <= j < images@[i].subsystems@.len() implies if j < start[i].subsystems@.len() {
                                same_but_membership(#[trigger] images@[i].subsystems@[j], start[i].subsystems@[j])
                            } else {
                                created_subsystem(images@[i].subsystems@[j])
                            } by {
                                if j < before_sub[i].subsystems@.len() {
                                    assert(images@[i].subsystems@[j] == before_sub[i].subsystems@[j]);
                                }
                            }
                        }
                    }
                    assert forall|i: int| start.len() <= i < images@.len() implies {
                        &&& created_image(#[trigger] images@[i], root@, archives@)
                        &&& forall|j: int| 0 <= j < images@[i].subsystems@.len() ==> created_subsystem(#[trigger] images@[i].subsystems@[j])
                    } by {
                        if i != image_index {
                            assert(images@[i] == before_sub[i]);
                        } else {
                            assert forall|j: int| 0 <= j < images@[i].subsystems@.len() implies created_subsystem(#[trigger] images@[i].subsystems@[j]) by {
                                if j < before_sub[i].subsystems@.len() {
                                    assert(images@[i].subsystems@[j] == before_sub[i].subsystems@[j]);
                                }
                            }
                        }
                    }
                }
                images[image_index].subsystems.len() - 1
            },
        };
        let ghost t2 = tree_shape(images@);
        let ghost before_attach = images@;
        assert(image_index < before_attach.len());
        assert(subsystem_index < before_attach[image_index as int].subsystems@.len());
        assert(before_attach[image_index as int].name@ == (entry.subsystem@.0, entry.subsystem@.1));
        assert(before_attach[image_index as int].subsystems@[subsystem_index as int].name@ == entry.subsystem@);
        images[image_index].subsystems[subsystem_index].presence.idb = true;
        images[image_index].subsystems[subsystem_index].entry_ids.push(entry.id);
        proof {
            let ss = t2[image_index as int].1;
            let sh = ss[subsystem_index as int];
            let sh2 = (sh.0, crate::descriptor::model::SubsystemPresence { descriptor: sh.1.descriptor, idb: true }, sh.2.push(entry.id));
            let shaped = tree_shape(images@);
            assert forall|k: int| 0 <= k < t2.len() && k != image_index implies shaped[k] == t2[k] by {
                assert(images@[k] == before_attach[k]);
            }
            let after_subs = images@[image_index as int].subsystems@;
            assert forall|j: int| 0 <= j < ss.len() && j != subsystem_index implies #[trigger] shaped[image_index as int].1[j] == ss[j] by {
                assert(after_subs[j] == before_attach[image_index as int].subsystems@[j]);
            }
            assert(after_subs[subsystem_index as int].entry_ids@ =~= sh.2.push(entry.id));
            assert(shaped[image_index as int].1[subsystem_index as int] == sh2);
            assert(shaped[image_index as int].1 =~= ss.update(subsystem_index as int, sh2));
            assert(shaped =~= t2.update(image_index as int, (t2[image_index as int].0, ss.update(subsystem_index as int, sh2))));
            assert(tree_shape(images@) == attach_one(t, *entry));
            assert(entries@.take(n + 1) =~= entries@.take(n as int).push(*entry));
        }
        assert(images@[image_index as int].name == before_attach[image_index as int].name);
        assert(images@[image_index as int].subsystems@[subsystem_index as int].name == before_attach[image_index as int].subsystems@[subsystem_index as int].name);
        assert(images@[image_index as int].subsystems@[subsystem_index as int].entry_ids@.last() == entry.id);
        assert(holds_entry(images@, image_index as int, subsystem_index as int, entries@[n as int]));
        assert forall|k: int| 0 <= k < n implies #[trigger] attached(images@, entries@[k]) by {
            assert(attached(before_attach, entries@[k]));
            let (i, j) = choose|i: int, j: int| #[trigger] holds_entry(before_attach, i, j, entries@[k]);
            if i != image_index {
                assert(images@[i] == before_attach[i]);
            } else if j != subsystem_index {
                assert(images@[i].subsystems@[j] == before_attach[i].subsystems@[j]);
            } else {
                assert(before_attach[i].subsystems@[j].entry_ids@.contains(entries@[k].id));
                let w = choose|w: int| 0 <= w < before_attach[i].subsystems@[j].entry_ids@.len()
                    && before_attach[i].subsystems@[j].entry_ids@[w] == entries@[k].id;
                assert(images@[i].subsystems@[j].entry_ids@[w] == entries@[k].id);
            }
            assert(holds_entry(images@, i, j, entries@[k]));
        }
        assert(attach_frame(start, images@, root@, archives@)) by {
            assert forall|i: int| 0 <= i < start.len() implies {
                &&& same_but_subsystems(#[trigger] images@[i], start[i])
                &&& images@[i].subsystems@.len() >= start[i].subsystems@.len()
                &&& forall|j: int| 0 <= j < images@[i].subsystems@.len() ==> if j < start[i].subsystems@.len() {
                    same_but_membership(#[trigger] images@[i].subsystems@[j], start[i].subsystems@[j])
                } else {
                    created_subsystem(images@[i].subsystems@[j])
                }
            } by {
                if i != image_index {
                    assert(images@[i] == before_attach[i]);
                } else {
                    assert forall|j: int| 0 <= j < images@[i].subsystems@.len() implies if j < start[i].subsystems@.len() {
                        same_but_membership(#[trigger] images@[i].subsystems@[j], start[i].subsystems@[j])
                    } else {
                        created_subsystem(images@[i].subsystems@[j])
                    } by {
                        if j != subsystem_index {
                            assert(images@[i].subsystems@[j] == before_attach[i].subsystems@[j]);
                        }
                    }
                }
            }
            assert forall|i: int| start.len() <= i < images@.len() implies {
                &&& created_image(#[trigger] images@[i], root@, archives@)
                &&& forall|j: int| 0 <= j < images@[i].subsystems@.len() ==> created_subsystem(#[trigger] images@[i].subsystems@[j])
            } by {
                if i != image_index {
                    assert(images@[i] == before_attach[i]);
                } else {
                    assert forall|j: int| 0 <= j < images@[i].subsystems@.len() implies created_subsystem(#[trigger] images@[i].subsystems@[j]) by {
                        if j != subsystem_index {
                            assert(images@[i].subsystems@[j] == before_attach[i].subsystems@[j]);
                        }
                    }
                }
            }
        }
        n += 1;
    }
}

} // verus!

verus! {

/// An entry with its payload locator replaced: every other field is
/// the same.
pub open spec fn same_but_payload(a: Entry, b: Entry) -> bool {
    a == Entry { payload: a.payload, ..b }
}

/// An image whose archive layout may have changed: every other field is
/// the same.
pub open spec fn same_but_layout(a: Image, b: Image) -> bool {
    &&& a.name == b.name
    &&& a.subsystems == b.subsystems
    &&& a.title == b.title
    &&& a.version == b.version
    &&& a.order == b.order
    &&& a.mach == b.mach
    &&& a.archive.path == b.archive.path
    &&& a.archive.file_size == b.archive.file_size
}

/// The image an entry names.
pub open spec fn entry_image(e: Entry) -> (Seq<char>, Seq<char>) {
    (e.subsystem@.0, e.subsystem@.1)
}

/// Whether an entry has a record in the archive of image `name`: it
/// names the image and carries a stored size.
pub open spec fn bears_payload(e: Entry, name: (Seq<char>, Seq<char>)) -> bool {
    entry_image(e) == name && crate::idb::first_stored_size(e.attrs()) is Some
}

/// The records the first `n` entries place in the archive of image
/// `name`, in IDB order: each record's name and stored size.
pub open spec fn records_before(es: Seq<Entry>, name: (Seq<char>, Seq<char>), n: int) -> Seq<(Seq<char>, Option<u64>)>
    decreases n,
{
    if n <= 0 {
        Seq::empty()
    } else {
        let rest = records_before(es, name, n - 1);
        if bears_payload(es[n - 1], name) {
            rest.push((es[n - 1].raw_path@, crate::idb::encoded_size_of(es[n - 1].attrs())))
        } else {
            rest
        }
    }
}

/// The offset right after a sequence of records: the archive header,
/// then each record's length prefix, name bytes and payload. `None` once
/// a size is unknown or an offset passes the largest 64-bit value.
pub open spec fn offset_after(recs: Seq<(Seq<char>, Option<u64>)>) -> Option<u64>
    decreases recs.len(),
{
    if recs.len() == 0 {
        Some(13)
    } else {
        match (offset_after(recs.drop_last()), recs.last().1) {
            (Some(o), Some(size)) => {
                let next = o + 2 + recs.last().0.len() + size;
                if next <= u64::MAX { Some(next as u64) } else { None }
            },
            _ => None,
        }
    }
}

/// Layout inputs as record names and sizes.
pub open spec fn inputs_view(v: Seq<crate::image::layout::LayoutInput>) -> Seq<(Seq<char>, Option<u64>)> {
    v.map_values(|x: crate::image::layout::LayoutInput| (x.raw_name@, x.encoded_size))
}

/// The expected offset of a record is the offset after the records
/// before it.
proof fn lemma_expected_is_offset_after(v: Seq<crate::image::layout::LayoutInput>, i: int)
    requires
        0 <= i <= v.len(),
    ensures
        crate::image::layout::expected_offset(v, i) == offset_after(inputs_view(v).take(i)),
    decreases i,
{
    if i > 0 {
        lemma_expected_is_offset_after(v, i - 1);
        assert(inputs_view(v).take(i).drop_last() =~= inputs_view(v).take(i - 1));
    }
}

/// The locator an entry gets: its image, its stored size, and the
/// offset after the records of the earlier entries of its image.
pub open spec fn locator_of(es: Seq<Entry>, k: int, loc: crate::image::PayloadLocator) -> bool {
    &&& loc.image@ == entry_image(es[k])
    &&& loc.encoded_size == crate::idb::encoded_size_of(es[k].attrs())
    &&& loc.expected_record_offset == offset_after(records_before(es, entry_image(es[k]), k))
}

/// The records entries place in an archive do not depend on their
/// payload locators.
proof fn lemma_records_ignore_payload(a: Seq<Entry>, b: Seq<Entry>, name: (Seq<char>, Seq<char>), n: int)
    requires
        a.len() == b.len(),
        0 <= n <= a.len(),
        forall|k: int| 0 <= k < a.len() ==> same_but_payload(#[trigger] b[k], a[k]),
    ensures
        records_before(a, name, n) == records_before(b, name, n),
    decreases n,
{
    if n > 0 {
        lemma_records_ignore_payload(a, b, name, n - 1);
        assert(same_but_payload(b[n - 1], a[n - 1]));
    }
}

/// Whether an entry carries the locator its record gets.
pub open spec fn has_locator(e: Entry, es: Seq<Entry>, k: int) -> bool {
    e.payload matches Some(loc) && locator_of(es, k, loc)
}

/// Whether some of the first `n` images is the one an entry has a
/// record in.
pub open spec fn laid_out_in(images: Seq<Image>, n: int, e: Entry) -> bool {
    exists|i: int| 0 <= i < n && bears_payload(e, #[trigger] images[i].name@)
}

/// Computes the layout of every image and attaches payload locators to
/// the payload-bearing entries: those that name the image and carry a
/// `cmpsize`, in IDB order.
pub fn compute_layouts(images: &mut Vec<Image>, entries: &mut Vec<Entry>)
    ensures
        final(images)@.len() == old(images)@.len(),
        forall|i: int| 0 <= i < old(images)@.len() ==> same_but_layout(#[trigger] final(images)@[i], old(images)@[i]),
        final(entries)@.len() == old(entries)@.len(),
        forall|k: int| 0 <= k < old(entries)@.len() ==> same_but_payload(#[trigger] final(entries)@[k], old(entries)@[k]),
        forall|k: int| 0 <= k < old(entries)@.len() ==> if laid_out_in(old(images)@, old(images)@.len() as int, old(entries)@[k]) {
            has_locator(#[trigger] final(entries)@[k], old(entries)@, k)
        } else {
            final(entries)@[k].payload == old(entries)@[k].payload
        },
        forall|k: int| 0 <= k < old(entries)@.len() && (#[trigger] final(entries)@[k]).payload != old(entries)@[k].payload
            ==> crate::idb::first_stored_size(old(entries)@[k].attrs()) is Some,
{
    let ghost images0 = images@;
    let ghost entries0 = entries@;
    let mut i: usize = 0;
    while i < images.len()
        invariant
            i <= images.len(),
            images@.len() == images0.len(),
            forall|q: int| 0 <= q < images0.len() ==> same_but_layout(#[trigger] images@[q], images0[q]),
            entries@.len() == entries0.len(),
            forall|k: int| 0 <= k < entries0.len() ==> same_but_payload(#[trigger] entries@[k], entries0[k]),
            forall|k: int| 0 <= k < entries0.len() ==> if laid_out_in(images0, i as int, entries0[k]) {
                has_locator(#[trigger] entries@[k], entries0, k)
            } else {
                entries@[k].payload == entries0[k].payload
            },
            forall|k: int| 0 <= k < entries0.len() && (#[trigger] entries@[k]).payload != entries0[k].payload
                ==> crate::idb::first_stored_size(entries0[k].attrs()) is Some,
        decreases images.len() - i,
    {
        let name = images[i].name.clone();
        assert(name@ == images0[i as int].name@);
        let mut bearing: Vec<usize> = Vec::new();
        let mut inputs: Vec<crate::image::layout::LayoutInput> = Vec::new();
        let mut k: usize = 0;
        while k < entries.len()
            invariant
                k <= entries.len(),
                entries@.len() == entries0.len(),
                forall|q: int| 0 <= q < entries0.len() ==> same_but_payload(#[trigger] entries@[q], entries0[q]),
                bearing@.len() == inputs@.len(),
                inputs_view(inputs@) == records_before(entries0, name@, k as int),
                forall|q: int| 0 <= q < bearing@.len() ==> #[trigger] bearing@[q] < k
                    && bears_payload(entries0[bearing@[q] as int], name@)
                    && records_before(entries0, name@, bearing@[q] as int) == inputs_view(inputs@).take(q),
                forall|q: int, w: int| 0 <= q < w < bearing@.len() ==> #[trigger] bearing@[q] < #[trigger] bearing@[w],
                forall|q: int| 0 <= q < bearing@.len() ==> (#[trigger] inputs@[q]).encoded_size
                    == crate::idb::encoded_size_of(entries0[bearing@[q] as int].attrs()),
                forall|x: int| 0 <= x < k && bears_payload(entries0[x], name@)
                    ==> exists|q: int| 0 <= q < bearing@.len() && #[trigger] bearing@[q] == x,
            decreases entries.len() - k,
        {
            let entry = &entries[k];
            assert(entry.attributes == entries0[k as int].attributes);
            assert(entry.subsystem == entries0[k as int].subsystem);
            assert(entry.raw_path == entries0[k as int].raw_path);
            let ghost before_inputs = inputs_view(inputs@);
            let ghost before_bearing = bearing@;
            if entry.subsystem.image_name() == name && entry.compressed_size().is_some() {
                bearing.push(k);
                inputs.push(crate::image::layout::LayoutInput {
                    raw_name: entry.raw_path.clone(),
                    encoded_size: entry.encoded_size(),
                });
                proof {
                    assert(inputs@[inputs@.len() - 1].encoded_size == crate::idb::encoded_size_of(entries0[k as int].attrs()));
                    assert(inputs_view(inputs@) =~= before_inputs.push((entries0[k as int].raw_path@, crate::idb::encoded_size_of(entries0[k as int].attrs()))));
                    assert forall|q: int| 0 <= q < bearing@.len() implies #[trigger] bearing@[q] < k + 1
                        && bears_payload(entries0[bearing@[q] as int], name@)
                        && records_before(entries0, name@, bearing@[q] as int) == inputs_view(inputs@).take(q) by {
                        if q < before_bearing.len() {
                            assert(bearing@[q] == before_bearing[q]);
                            assert(inputs_view(inputs@).take(q) =~= before_inputs.take(q));
                        } else {
                            assert(inputs_view(inputs@).take(q) =~= before_inputs);
                        }
                    }
                    assert forall|x: int| 0 <= x < k + 1 && bears_payload(entries0[x], name@)
                        implies exists|q: int| 0 <= q < bearing@.len() && #[trigger] bearing@[q] == x by {
                        if x < k {
                            let q = choose|q: int| 0 <= q < before_bearing.len() && before_bearing[q] == x;
                            assert(bearing@[q] == x);
                        } else {
                            assert(bearing@[bearing@.len() - 1] == x);
                        }
                    }
                }
            } else {
                proof {
                    assert forall|x: int| 0 <= x < k + 1 && bears_payload(entries0[x], name@)
                        implies exists|q: int| 0 <= q < bearing@.len() && #[trigger] bearing@[q] == x by {
                        if x == k {
                            assert(false);
                        }
                    }
                }
            }
            k += 1;
        }
        let locators = crate::image::layout::compute_layout(&name, inputs.as_slice());
        let ghost entries_mid = entries@;
        let mut m: usize = 0;
        while m < bearing.len()
            invariant
                m <= bearing.len() == locators@.len() == inputs@.len(),
                entries@.len() == entries0.len(),
                name@ == images0[i as int].name@,
                forall|q: int| 0 <= q < entries0.len() ==> same_but_payload(#[trigger] entries@[q], entries0[q]),
                forall|q: int| 0 <= q < bearing@.len() ==> #[trigger] bearing@[q] < entries@.len()
                    && bears_payload(entries0[bearing@[q] as int], name@)
                    && records_before(entries0, name@, bearing@[q] as int) == inputs_view(inputs@).take(q),
                forall|q: int, w: int| 0 <= q < w < bearing@.len() ==> #[trigger] bearing@[q] < #[trigger] bearing@[w],
                forall|q: int| 0 <= q < bearing@.len() ==> (#[trigger] inputs@[q]).encoded_size
                    == crate::idb::encoded_size_of(entries0[bearing@[q] as int].attrs()),
                forall|q: int| 0 <= q < m ==> has_locator(#[trigger] entries@[bearing@[q] as int], entries0, bearing@[q] as int),
                forall|x: int| 0 <= x < entries0.len() && !(exists|q: int| 0 <= q < m && #[trigger] bearing@[q] == x)
                    ==> #[trigger] entries@[x] == entries_mid[x],
                forall|j: int| 0 <= j < locators@.len() ==> {
                    &&& (#[trigger] locators@[j]).image@ == name@
                    &&& locators@[j].encoded_size == inputs@[j].encoded_size
                    &&& locators@[j].expected_record_offset == crate::image::layout::expected_offset(inputs@, j)
                },
            decreases bearing.len() - m,
        {
            let target = bearing[m];
            let locator = locators[m].clone();
            proof {
                lemma_expected_is_offset_after(inputs@, m as int);
                assert(inputs_view(inputs@)[m as int] == (inputs@[m as int].raw_name@, inputs@[m as int].encoded_size));
            }
            let ghost before = entries@;
            entries[target].payload = Some(locator);
            proof {
                assert forall|q: int| 0 <= q < m + 1 implies has_locator(#[trigger] entries@[bearing@[q] as int], entries0, bearing@[q] as int) by {
                    if q < m {
                        assert(bearing@[q] < bearing@[m as int]);
                        assert(entries@[bearing@[q] as int] == before[bearing@[q] as int]);
                    }
                }
                assert forall|x: int| 0 <= x < entries0.len() && !(exists|q: int| 0 <= q < m + 1 && #[trigger] bearing@[q] == x)
                    implies #[trigger] entries@[x] == entries_mid[x] by {
                    assert(bearing@[m as int] != x);
                    assert(!(exists|q: int| 0 <= q < m && #[trigger] bearing@[q] == x));
                }
            }
            m += 1;
        }
        images[i].archive.layout.payloads = locators;
        proof {
            assert forall|x: int| 0 <= x < entries0.len() implies if laid_out_in(images0, i + 1, entries0[x]) {
                has_locator(#[trigger] entries@[x], entries0, x)
            } else {
                entries@[x].payload == entries0[x].payload
            } by {
                if bears_payload(entries0[x], name@) {
                    let q = choose|q: int| 0 <= q < bearing@.len() && #[trigger] bearing@[q] == x;
                    assert(entries@[bearing@[q] as int].payload is Some);
                    assert(laid_out_in(images0, i + 1, entries0[x])) by {
                        assert(bears_payload(entries0[x], images0[i as int].name@));
                    }
                } else {
                    assert(!(exists|q: int| 0 <= q < bearing@.len() && #[trigger] bearing@[q] == x));
                    assert(entries@[x] == entries_mid[x]);
                    if laid_out_in(images0, i + 1, entries0[x]) {
                        let w = choose|w: int| 0 <= w < i + 1 && bears_payload(entries0[x], #[trigger] images0[w].name@);
                        assert(w != i);
                        assert(laid_out_in(images0, i as int, entries0[x]));
                    } else {
                        assert(!laid_out_in(images0, i as int, entries0[x]));
                    }
                }
            }
            assert forall|q: int| 0 <= q < images0.len() implies same_but_layout(#[trigger] images@[q], images0[q]) by {
            }
        }
        i += 1;
    }
}

} // verus!

verus! {

/// What was read from one file of the distribution directory.
#[derive(Debug, Clone)]
pub enum FileContent {
    /// There is no such file.
    Absent,
    /// The whole content of the file.
    Bytes(Vec<u8>),
    /// The file exists but could not be read.
    Unreadable(String),
}

/// The descriptor text a product takes its title from: the effective
/// text when it is not empty.
fn title_of(descriptor: &ProductDescriptor) -> (r: Option<String>)
    ensures
        match r {
            Some(t) => t@ == crate::descriptor::model::effective_text(descriptor.text) && t@.len() > 0,
            None => crate::descriptor::model::effective_text(descriptor.text).len() == 0,
        },
{
    non_empty(descriptor.text.effective())
}

/// Builds one product from its descriptor and IDB contents and the image
/// archives found next to them.
///
/// A descriptor that does not parse, a missing descriptor or a missing
/// IDB are reported as diagnostics; the tree then comes from the IDB
/// alone. Every IDB entry ends up attached to the subsystem it names.
///
/// # Errors
///
/// Returns [`crate::error::Error::UnsafePath`] when `stem` is not a valid
/// product name, and [`crate::error::Error::Io`] when the descriptor or
/// the IDB could not be read.
pub fn build_product(
    root: &str,
    stem: &str,
    descriptor_content: &FileContent,
    idb_content: &FileContent,
    archives: &[ArchiveFile],
) -> (r: Result<Product, crate::error::Error>)
    ensures
        !crate::names::valid_product_name(stem@) ==> r is Err,
        descriptor_content is Unreadable ==> r is Err,
        idb_content is Unreadable ==> r is Err,
        crate::names::valid_product_name(stem@) && !(descriptor_content is Unreadable) && !(idb_content is Unreadable)
            ==> r is Ok,
        r matches Ok(p) ==> {
            &&& p.name@ == stem@
            &&& p.descriptor_file@ == joined(root@, stem@)
            &&& p.idb_file is Some <==> idb_content is Bytes
            &&& (p.descriptor is Some <==> (descriptor_content matches FileContent::Bytes(b)
                && crate::descriptor::parser::descriptor_spec(b@) is Some))
            &&& (p.mach is Some <==> p.descriptor is Some)
            &&& forall|k: int| 0 <= k < p.entries@.len() ==> #[trigger] attached(p.images@, p.entries@[k])
            &&& forall|k: int| 0 <= k < p.entries@.len() ==> (#[trigger] p.entries@[k]).id == EntryId(k as usize)
            &&& (idb_content matches FileContent::Bytes(b) ==>
                p.entries@.len() == crate::idb::parser::entries_of_lines(crate::idb::parser::text_lines(crate::idb::parser::latin1_text(b@))).len())
            &&& (idb_content matches FileContent::Bytes(b) ==> {
                let spec = crate::idb::parser::entries_of_lines(crate::idb::parser::text_lines(crate::idb::parser::latin1_text(b@)));
                forall|k: int| 0 <= k < p.entries@.len() ==> {
                    &&& crate::idb::parser::entry_fields(#[trigger] p.entries@[k]) == spec[k].0
                    &&& p.entries@[k].origin.line_number == spec[k].1
                    &&& p.entries@[k].origin.raw_line@ == spec[k].2
                    &&& p.entries@[k].origin.idb_path@ == (p.idb_file->0)@
                }
            })
            &&& (idb_content is Absent ==> p.entries@.len() == 0)
            &&& p.descriptor matches Some(d) ==> (d.name@ != stem@ ==> exists|i: int| 0 <= i < p.diagnostics@.len()
                && #[trigger] name_mismatch(p.diagnostics@[i], d.name@, stem@, p.descriptor_file@))
            &&& forall|k: int| 0 <= k < p.entries@.len()
                ==> #[trigger] id_in_tree(tree_shape(p.images@), EntryId(k as usize), p.images@.len() as int) == 1
            &&& forall|k: int| 0 <= k < p.entries@.len() ==> if laid_out_in(p.images@, p.images@.len() as int, p.entries@[k]) {
                has_locator(#[trigger] p.entries@[k], p.entries@, k)
            } else {
                p.entries@[k].payload is None
            }
        },
{
    let name = ProductName::new(stem)?;
    let descriptor_file = join_path(root, stem);
    let mut diagnostics: Vec<Diagnostic> = Vec::new();
    let idb_file: Option<String> = match idb_content {
        FileContent::Bytes(_) => {
            let mut file = crate::text::string_of(&crate::text::chars_of(stem));
            crate::text::append_str(&mut file, ".idb");
            Some(join_path(root, file.as_str()))
        },
        _ => None,
    };
    let descriptor: Option<ProductDescriptor> = match descriptor_content {
        FileContent::Bytes(bytes) => match crate::descriptor::parser::parse(bytes.as_slice(), descriptor_file.as_str(), &mut diagnostics) {
            Ok(d) => Some(d),
            Err(error) => {
                diagnostics.push(Diagnostic::error(error.to_string(), Some(descriptor_file.clone())));
                None
            },
        },
        FileContent::Unreadable(message) => {
            return Err(crate::error::Error::Io { path: descriptor_file, message: message.clone() });
        },
        FileContent::Absent => {
            diagnostics.push(Diagnostic::warning(
                crate::text::string_of(&crate::text::chars_of("product has no descriptor file")),
                idb_file.clone(),
            ));
            None
        },
    };
    let mut entries: Vec<Entry> = match idb_content {
        FileContent::Bytes(bytes) => {
            let path = match &idb_file {
                Some(p) => p.clone(),
                None => String::new(),
            };
            match crate::idb::parser::parse(bytes.as_slice(), path.as_str(), &mut diagnostics) {
                Ok(es) => es,
                Err(error) => return Err(error),
            }
        },
        FileContent::Unreadable(message) => {
            let mut file = crate::text::string_of(&crate::text::chars_of(stem));
            crate::text::append_str(&mut file, ".idb");
            return Err(crate::error::Error::Io { path: join_path(root, file.as_str()), message: message.clone() });
        },
        FileContent::Absent => {
            diagnostics.push(Diagnostic::warning(
                crate::text::string_of(&crate::text::chars_of("product has a descriptor but no IDB file")),
                Some(descriptor_file.clone()),
            ));
            Vec::new()
        },
    };
    let ghost parsed_count = entries@.len();
    let ghost mut mismatch_at: int = -1;
    if let Some(d) = &descriptor {
        if !crate::mach::chars_eq(&crate::text::chars_of(d.name.as_str()), &crate::text::chars_of(name.as_str())) {
            let mut message = crate::text::string_of(&crate::text::chars_of("descriptor product name "));
            crate::text::push_debug(&mut message, d.name.as_str());
            crate::text::append_str(&mut message, " does not match file name ");
            crate::text::push_debug(&mut message, name.as_str());
            let w = Diagnostic::warning(message, Some(descriptor_file.clone()));
            assert(name_mismatch(w, d.name@, stem@, descriptor_file@));
            diagnostics.push(w);
            proof {
                mismatch_at = diagnostics@.len() - 1;
            }
        }
    }
    assert(descriptor is Some && descriptor->0.name@ != stem@ ==> 0 <= mismatch_at < diagnostics@.len()
        && name_mismatch(diagnostics@[mismatch_at], descriptor->0.name@, stem@, descriptor_file@));
    let ghost reported = diagnostics@;
    let mut images: Vec<Image> = match &descriptor {
        Some(d) => tree_from_descriptor(root, &name, d, archives, &mut diagnostics),
        None => Vec::new(),
    };
    let ghost initial_images = images@;
    assert forall|i: int, j: int| 0 <= i < tree_shape(initial_images).len() && 0 <= j < tree_shape(initial_images)[i].1.len()
        implies (#[trigger] tree_shape(initial_images)[i].1[j]).2.len() == 0 by {
        assert(tree_shape(initial_images)[i].1[j].2 == initial_images[i].subsystems@[j].entry_ids@);
        assert(fresh_declared(initial_images[i].subsystems@[j]));
    }
    attach_entries(root, &mut images, entries.as_slice(), descriptor.is_some(), archives, &mut diagnostics);
    let ghost attached_images = images@;
    let ghost parsed_entries = entries@;
    compute_layouts(&mut images, &mut entries);
    proof {
        assert forall|k: int| 0 <= k < entries@.len() implies if laid_out_in(images@, images@.len() as int, entries@[k]) {
            has_locator(#[trigger] entries@[k], entries@, k)
        } else {
            entries@[k].payload is None
        } by {
            assert(same_but_payload(entries@[k], parsed_entries[k]));
            assert(laid_out_in(images@, images@.len() as int, entries@[k]) == laid_out_in(attached_images, attached_images.len() as int, parsed_entries[k])) by {
                if laid_out_in(images@, images@.len() as int, entries@[k]) {
                    let i = choose|i: int| 0 <= i < images@.len() && bears_payload(entries@[k], #[trigger] images@[i].name@);
                    assert(same_but_layout(images@[i], attached_images[i]));
                    assert(bears_payload(parsed_entries[k], attached_images[i].name@));
                }
                if laid_out_in(attached_images, attached_images.len() as int, parsed_entries[k]) {
                    let i = choose|i: int| 0 <= i < attached_images.len() && bears_payload(parsed_entries[k], #[trigger] attached_images[i].name@);
                    assert(same_but_layout(images@[i], attached_images[i]));
                    assert(bears_payload(entries@[k], images@[i].name@));
                }
            }
            if laid_out_in(images@, images@.len() as int, entries@[k]) {
                lemma_records_ignore_payload(parsed_entries, entries@, entry_image(entries@[k]), k);
            }
        }
    }
    proof {
        assert(tree_shape(images@) =~= tree_shape(attached_images)) by {
            assert forall|i: int| 0 <= i < images@.len() implies tree_shape(images@)[i] == tree_shape(attached_images)[i] by {
                assert(same_but_layout(images@[i], attached_images[i]));
            }
        }
        assert forall|k: int| 0 <= k < entries@.len()
            implies #[trigger] id_in_tree(tree_shape(images@), EntryId(k as usize), images@.len() as int) == 1 by {
            let t0 = tree_shape(initial_images);
            lemma_tree_without_ids(t0, parsed_entries[k].id, t0.len() as int);
            lemma_attached_exactly_once(t0, parsed_entries, k);
            assert(parsed_entries[k].id == EntryId(k as usize));
        }
        if idb_content is Bytes {
            let b = idb_content->Bytes_0;
            let spec = crate::idb::parser::entries_of_lines(crate::idb::parser::text_lines(crate::idb::parser::latin1_text(b@)));
            assert forall|k: int| 0 <= k < entries@.len() implies {
                &&& crate::idb::parser::entry_fields(#[trigger] entries@[k]) == spec[k].0
                &&& entries@[k].origin.line_number == spec[k].1
                &&& entries@[k].origin.raw_line@ == spec[k].2
                &&& entries@[k].origin.idb_path@ == (idb_file->0)@
            } by {
                assert(same_but_payload(entries@[k], parsed_entries[k]));
            }
        }
    }
    assert forall|k: int| 0 <= k < entries@.len() implies #[trigger] attached(images@, entries@[k]) by {
        assert(attached(attached_images, parsed_entries[k]));
        let (i, j) = choose|i: int, j: int| #[trigger] holds_entry(attached_images, i, j, parsed_entries[k]);
        assert(same_but_layout(images@[i], attached_images[i]));
        assert(same_but_payload(entries@[k], parsed_entries[k]));
        assert(holds_entry(images@, i, j, entries@[k]));
    }
    let (title, mach, cutpoints) = match &descriptor {
        Some(d) => (
            title_of(d),
            Some(crate::descriptor::semantics::mach_expressions(d.attributes.as_slice(), descriptor_file.as_str(), &mut diagnostics)),
            crate::descriptor::semantics::cutpoints(d.attributes.as_slice(), descriptor_file.as_str(), &mut diagnostics),
        ),
        None => (None, None, Vec::new()),
    };
    proof {
        if descriptor is Some && descriptor->0.name@ != stem@ {
            let d = descriptor->0;
            assert(crate::diagnostic::keeps(reported, diagnostics@));
            assert(diagnostics@[mismatch_at] == reported[mismatch_at]);
            assert(name_mismatch(diagnostics@[mismatch_at], d.name@, stem@, descriptor_file@));
            assert(0 <= mismatch_at < diagnostics@.len());
        }
    }
    let product = Product { name, descriptor_file, descriptor, idb_file, title, mach, cutpoints, images, entries, diagnostics };
    proof {
        if product.descriptor is Some && product.descriptor->0.name@ != stem@ {
            assert(name_mismatch(product.diagnostics@[mismatch_at], product.descriptor->0.name@, stem@, product.descriptor_file@));
        }
    }
    Ok(product)
}

} // verus!

verus! {

impl Distribution {
    /// Selects the entries applicable to a hardware target, across all
    /// products.
    ///
    /// Selected entries and conflict candidates keep their
    /// owning-product identity; every selected entry satisfies what
    /// [`crate::selection::select_product`] promises for its product.
    pub fn select(&self, profile: &crate::mach::eval::HardwareProfile) -> (r: crate::selection::EntrySelection<'_>)
        ensures
            crate::selection::outcome_of(r) == crate::selection::products_outcome(self.products_spec(), profile@, self.products_spec().len() as int),
            forall|q: int| 0 <= q < r.selected@.len() ==> {
                let l = #[trigger] r.selected@[q];
                &&& l.key.product_index < self.products_spec().len()
                &&& crate::selection::sound_entry(l, l.key.product_index, self.products_spec()[l.key.product_index as int], profile@)
            },
    {
        let mut selection = crate::selection::EntrySelection { selected: Vec::new(), conflicts: Vec::new() };
        assert(crate::selection::outcome_of(selection) =~= crate::selection::no_outcome());
        let mut p: usize = 0;
        while p < self.products.len()
            invariant
                p <= self.products.len(),
                crate::selection::outcome_of(selection) == crate::selection::products_outcome(self.products@, profile@, p as int),
                forall|q: int| 0 <= q < selection.selected@.len() ==> {
                    let l = #[trigger] selection.selected@[q];
                    &&& l.key.product_index < self.products@.len()
                    &&& crate::selection::sound_entry(l, l.key.product_index, self.products@[l.key.product_index as int], profile@)
                },
            decreases self.products.len() - p,
        {
            let ghost before = crate::selection::outcome_of(selection);
            let mut part = crate::selection::select_product(p, &self.products[p], profile);
            let ghost part_out = crate::selection::outcome_of(part);
            let ghost part_out_conflicts = part.conflicts@;
            let ghost chosen = selection.selected@;
            let ghost held = selection.conflicts@;
            let mut k: usize = 0;
            while k < part.selected.len()
                invariant
                    k <= part.selected.len(),
                    p < self.products.len(),
                    selection.selected@ == chosen + part.selected@.take(k as int),
                    selection.conflicts@ == held,
                    part.conflicts@ == part_out_conflicts,
                    crate::selection::all_sound(part.selected@, p, self.products@[p as int], profile@),
                    forall|q: int| 0 <= q < selection.selected@.len() ==> {
                        let l = #[trigger] selection.selected@[q];
                        &&& l.key.product_index < self.products@.len()
                        &&& crate::selection::sound_entry(l, l.key.product_index, self.products@[l.key.product_index as int], profile@)
                    },
                decreases part.selected.len() - k,
            {
                let l = part.selected[k];
                assert(crate::selection::sound_entry(part.selected@[k as int], p, self.products@[p as int], profile@));
                selection.selected.push(l);
                k += 1;
                assert(selection.selected@ =~= chosen + part.selected@.take(k as int));
            }
            assert(part.selected@.take(part.selected@.len() as int) =~= part.selected@);
            let ghost conflicts_before = selection.conflicts@;
            let ghost part_conflicts = part.conflicts@;
            selection.conflicts.append(&mut part.conflicts);
            assert(selection.conflicts@ == conflicts_before + part_conflicts);
            assert(crate::selection::keys_of(selection.selected@) =~= before.0 + part_out.0);
            assert(crate::selection::conflicts_view(selection.conflicts@) =~= before.1 + part_out.1);
            p += 1;
        }
        selection
    }
}

} // verus!

verus! {

impl Distribution {
    /// The hardware attribute values the distribution's MACH expressions
    /// compare against, grouped by attribute, in first-appearance order.
    ///
    /// Candidates come exclusively from successfully parsed expressions
    /// (product, image, subsystem and entry level); payloads that could
    /// not be parsed contribute nothing.
    pub fn hardware_candidates(&self) -> (r: Vec<crate::mach::candidates::HardwareCandidateSet>)
        ensures
            crate::mach::candidates::sets_wf(crate::mach::candidates::sets_view(r@)),
            crate::mach::candidates::sets_view(r@) == crate::mach::candidates::add_all(
                Seq::empty(),
                crate::mach::candidates::products_pairs(self.products_spec(), self.products_spec().len() as int),
            ),
    {
        crate::mach::candidates::hardware_candidates(self)
    }
}

} // verus!
