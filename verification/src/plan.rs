//! Extraction planning: the shared fail-safe check every extraction goes
//! through before any bytes are written.
//!
//! The planner performs its checks in this exact order:
//!
//! 1. Project every requested entry to its output paths, holding static
//!    projection errors back instead of aborting.
//! 2. Drop deliberate omissions (entries producing no output at all:
//!    path-mode exclusions, devices, FIFOs, symbolic links without a
//!    recorded target).
//! 3. Run the hardware check: with a profile the hierarchical selection
//!    decides and any conflict touching the effective scope refuses the
//!    plan; without a profile any ambiguity in the effective scope
//!    refuses it.
//! 4. Propagate the held projection errors, but only for entries that
//!    passed the hardware check: a statically bad entry the hardware selection
//!    excludes anyway must not block the extraction.
//! 5. Refuse output collisions, unsafe output topology, unsafe existing
//!    ancestors, and existing output paths the options disallow.
//!
//! Planning never mutates the host: it only inspects paths through the
//! caller's probe, so a plan can be presented for confirmation before
//! anything is written. Entries are identified by their [`EntryKey`],
//! never by path or subsystem name.
use vstd::prelude::*;
use crate::descriptor::model::HardwareRestrictions;
use crate::distribution::{Distribution, EntryKey, LocatedEntry, Product};
use crate::error::Error;
use crate::extract::{extract, output_paths, outputs_spec, paths_view, ExistingOutputPolicy, ExtractOptions, ExtractReport, HostWrite};
use crate::image::resync::reads_exactly;
use crate::idb::{has_unparsed, Entry, FileType};
use crate::mach::chars_eq;
use crate::mach::eval::HardwareProfile;
use crate::names::dotted3;
use crate::output::{entry_mach, entry_mach_spec};
use crate::selection::{entry_admits, EntrySelection, SelectionConflict};
use crate::text::{append_str, chars_of, decimal};

verus! {

/// Counts describing a planned extraction, for user confirmation.
#[derive(Debug, Clone, Copy, PartialEq, Eq, Structural)]
pub struct ExtractionPlanSummary {
    /// Entries the frontend handed to the planner.
    pub requested_records: usize,
    /// Entries that deliberately produce no output (path-mode
    /// exclusions, devices, FIFOs, symbolic links without a recorded
    /// target).
    pub omitted_records: usize,
    /// Entries that would produce output but were excluded by the
    /// hardware profile selection. Zero without a profile.
    pub hardware_excluded_records: usize,
    /// Entries that will be handed to the extraction.
    pub planned_records: usize,
    /// Projected output paths of the planned entries; one entry can
    /// produce two paths (`keep_stored` adds a `.Z` sidecar).
    pub output_paths: usize,
    /// Existing regular files that will be overwritten under
    /// [`ExistingOutputPolicy::Allow`].
    pub existing_outputs: usize,
}

impl Default for ExtractionPlanSummary {
    fn default() -> (r: Self)
        ensures
            r.requested_records == 0,
            r.omitted_records == 0,
            r.hardware_excluded_records == 0,
            r.planned_records == 0,
            r.output_paths == 0,
            r.existing_outputs == 0,
    {
        ExtractionPlanSummary {
            requested_records: 0,
            omitted_records: 0,
            hardware_excluded_records: 0,
            planned_records: 0,
            output_paths: 0,
            existing_outputs: 0,
        }
    }
}

/// A confirmed extraction plan.
///
/// `entries` is the authoritative execution list, in requested order;
/// frontends must not re-derive it from the summary.
#[derive(Debug)]
pub struct ExtractionPlan<'a> {
    /// Entries to extract, after omissions and the hardware check.
    pub entries: Vec<LocatedEntry<'a>>,
    /// Counts describing the plan.
    pub summary: ExtractionPlanSummary,
}

/// The result of a checked extraction: the plan that was executed plus
/// the extraction outcome.
#[derive(Debug)]
pub struct CheckedExtractReport {
    /// The plan confirmed immediately before writing.
    pub plan: ExtractionPlanSummary,
    /// The extraction outcome.
    pub report: ExtractReport,
}

/// What the host filesystem holds at a path, as the caller's probe saw
/// it.
#[derive(Debug, Clone)]
pub enum PathKind {
    /// Nothing exists there.
    Missing,
    /// A real directory.
    Directory,
    /// A regular file.
    File,
    /// A symbolic link (only reported when links are not followed).
    Symlink,
    /// Any other object (device, FIFO, socket).
    Special,
    /// The path could not be inspected.
    Unreadable {
        /// Description of the failure.
        message: String,
    },
}

/// Wraps a refusal reason in the planner's error type.
fn plan_error(message: String) -> (e: Error)
    ensures
        e == (Error::ExtractionPlan { message }),
{
    Error::ExtractionPlan { message }
}

/// Whether an entry deliberately produces no output under the options.
pub open spec fn omitted<'a>(l: LocatedEntry<'a>, o: ExtractOptions) -> bool {
    outputs_spec(*l.entry, o) matches Some(ps) && ps.len() == 0
}

/// The requested entries that are not deliberate omissions, in order.
pub open spec fn effective_spec<'a>(req: Seq<LocatedEntry<'a>>, o: ExtractOptions) -> Seq<LocatedEntry<'a>>
    decreases req.len(),
{
    if req.len() == 0 {
        Seq::empty()
    } else {
        let rest = effective_spec(req.drop_last(), o);
        if omitted(req.last(), o) {
            rest
        } else {
            rest.push(req.last())
        }
    }
}

/// The effective entries are at most the requested ones.
proof fn lemma_effective_len<'a>(req: Seq<LocatedEntry<'a>>, o: ExtractOptions)
    ensures
        effective_spec(req, o).len() <= req.len(),
    decreases req.len(),
{
    if req.len() > 0 {
        lemma_effective_len(req.drop_last(), o);
    }
}

/// The effective entries: those that are not deliberate omissions.
fn effective_entries<'a>(requested: &[LocatedEntry<'a>], options: &ExtractOptions) -> (r: Vec<LocatedEntry<'a>>)
    ensures
        r@ == effective_spec(requested@, *options),
{
    let mut r: Vec<LocatedEntry<'a>> = Vec::new();
    let mut i: usize = 0;
    while i < requested.len()
        invariant
            i <= requested.len(),
            r@ == effective_spec(requested@.take(i as int), *options),
        decreases requested.len() - i,
    {
        let l = requested[i];
        let omit = match output_paths(l.entry, options) {
            Ok(v) => v.len() == 0,
            Err(_) => false,
        };
        proof {
            assert(requested@.take(i as int + 1).drop_last() =~= requested@.take(i as int));
            assert(requested@.take(i as int + 1).last() == l);
        }
        if !omit {
            r.push(l);
        }
        i += 1;
    }
    proof {
        assert(requested@.take(requested@.len() as int) =~= requested@);
    }
    r
}

/// Another effective position holds the same path as position `i`.
pub open spec fn shares_path_at<'a>(eff: Seq<LocatedEntry<'a>>, i: int) -> bool {
    exists|j: int| 0 <= j < eff.len() && j != i && (#[trigger] eff[j]).entry.path@ == eff[i].entry.path@
}

/// A non-directory effective entry shares its path with another
/// effective position: the scope holds several variants of one
/// pathname. (Several subsystems legitimately create the same
/// directory.)
pub open spec fn ambiguous<'a>(eff: Seq<LocatedEntry<'a>>) -> bool {
    exists|i: int| 0 <= i < eff.len() && eff[i].entry.file_type != FileType::Directory
        && #[trigger] shares_path_at(eff, i)
}

/// Some effective entry carries a `mach` attribute that could not be
/// parsed.
pub open spec fn unparsed_in<'a>(eff: Seq<LocatedEntry<'a>>) -> bool {
    exists|i: int| 0 <= i < eff.len() && has_unparsed((#[trigger] eff[i]).entry.attrs())
}

/// A hierarchy level carries hardware restrictions that could not be
/// decoded.
pub open spec fn level_unresolved(m: Option<HardwareRestrictions>) -> bool {
    m matches Some(r) && r.unresolved@.len() > 0
}

/// Subsystem `b` of image `a` of a product sits below a level (product,
/// image or subsystem) with undecodable hardware restrictions.
pub open spec fn subsystem_unresolved(p: Product, a: int, b: int) -> bool {
    level_unresolved(p.mach) || level_unresolved(p.images@[a].mach)
        || level_unresolved(p.images@[a].subsystems@[b].mach)
}

/// The entry identified by a key is listed by a subsystem whose
/// applicability cannot be fully decoded. Membership is by entry
/// identity within the owning product, never by subsystem name.
pub open spec fn key_unresolved(ps: Seq<Product>, k: EntryKey) -> bool {
    let p = ps[k.product_index as int];
    &&& k.product_index < ps.len()
    &&& k.entry_id.0 < p.entries@.len()
    &&& exists|a: int, b: int, c: int|
        0 <= a < p.images@.len() && 0 <= b < p.images@[a].subsystems@.len()
        && 0 <= c < p.images@[a].subsystems@[b].entry_ids@.len()
        && subsystem_unresolved(p, a, b)
        && #[trigger] p.images@[a].subsystems@[b].entry_ids@[c] == k.entry_id
}

/// Some effective entry has undecodable applicability.
pub open spec fn unknown_in<'a>(ps: Seq<Product>, eff: Seq<LocatedEntry<'a>>) -> bool {
    exists|i: int| 0 <= i < eff.len() && key_unresolved(ps, (#[trigger] eff[i]).key)
}

/// Whether a level's restrictions hold undecodable payloads.
fn has_unresolved(mach: &Option<HardwareRestrictions>) -> (r: bool)
    ensures
        r == level_unresolved(*mach),
{
    match mach {
        Some(m) => m.unresolved.len() > 0,
        None => false,
    }
}

/// Whether the entry a key identifies has undecodable applicability.
fn entry_unresolved(products: &[Product], key: EntryKey) -> (r: bool)
    ensures
        r == key_unresolved(products@, key),
{
    if key.product_index >= products.len() {
        return false;
    }
    let p = &products[key.product_index];
    if key.entry_id.0 >= p.entries.len() {
        return false;
    }
    let pu = has_unresolved(&p.mach);
    let mut a: usize = 0;
    while a < p.images.len()
        invariant
            a <= p.images.len(),
            *p == products@[key.product_index as int],
            key.product_index < products@.len(),
            key.entry_id.0 < p.entries@.len(),
            pu == level_unresolved(p.mach),
            forall|a2: int, b2: int, c2: int|
                0 <= a2 < a && 0 <= b2 < p.images@[a2].subsystems@.len()
                && 0 <= c2 < p.images@[a2].subsystems@[b2].entry_ids@.len()
                && subsystem_unresolved(*p, a2, b2)
                ==> #[trigger] p.images@[a2].subsystems@[b2].entry_ids@[c2] != key.entry_id,
        decreases p.images.len() - a,
    {
        let image = &p.images[a];
        let iu = pu || has_unresolved(&image.mach);
        let mut b: usize = 0;
        while b < image.subsystems.len()
            invariant
                b <= image.subsystems.len(),
                a < p.images@.len(),
                *image == p.images@[a as int],
                *p == products@[key.product_index as int],
                key.product_index < products@.len(),
                key.entry_id.0 < p.entries@.len(),
                iu == (level_unresolved(p.mach) || level_unresolved(image.mach)),
                forall|a2: int, b2: int, c2: int|
                    0 <= a2 < a && 0 <= b2 < p.images@[a2].subsystems@.len()
                    && 0 <= c2 < p.images@[a2].subsystems@[b2].entry_ids@.len()
                    && subsystem_unresolved(*p, a2, b2)
                    ==> #[trigger] p.images@[a2].subsystems@[b2].entry_ids@[c2] != key.entry_id,
                forall|b2: int, c2: int|
                    0 <= b2 < b && 0 <= c2 < p.images@[a as int].subsystems@[b2].entry_ids@.len()
                    && subsystem_unresolved(*p, a as int, b2)
                    ==> #[trigger] p.images@[a as int].subsystems@[b2].entry_ids@[c2] != key.entry_id,
            decreases image.subsystems.len() - b,
        {
            let subsystem = &image.subsystems[b];
            if iu || has_unresolved(&subsystem.mach) {
                let mut c: usize = 0;
                while c < subsystem.entry_ids.len()
                    invariant
                        c <= subsystem.entry_ids.len(),
                        b < image.subsystems@.len(),
                        *subsystem == image.subsystems@[b as int],
                        a < p.images@.len(),
                        *image == p.images@[a as int],
                        iu || level_unresolved(subsystem.mach),
                        *p == products@[key.product_index as int],
                        key.product_index < products@.len(),
                        key.entry_id.0 < p.entries@.len(),
                        iu == (level_unresolved(p.mach) || level_unresolved(image.mach)),
                        forall|c2: int| 0 <= c2 < c ==> #[trigger] subsystem.entry_ids@[c2] != key.entry_id,
                    decreases subsystem.entry_ids.len() - c,
                {
                    if subsystem.entry_ids[c].0 == key.entry_id.0 {
                        proof {
                            assert(subsystem_unresolved(*p, a as int, b as int));
                            assert(p.images@[a as int].subsystems@[b as int].entry_ids@[c as int] == key.entry_id);
                            assert(0 <= c < p.images@[a as int].subsystems@[b as int].entry_ids@.len());
                            assert(0 <= b < p.images@[a as int].subsystems@.len());
                            assert(key_unresolved(products@, key));
                        }
                        return true;
                    }
                    c += 1;
                }
            }
            b += 1;
        }
        a += 1;
    }
    false
}

/// The characters of each entry's path.
fn path_chars<'a>(v: &[LocatedEntry<'a>]) -> (r: Vec<Vec<char>>)
    ensures
        r@.len() == v@.len(),
        forall|q: int| 0 <= q < v@.len() ==> (#[trigger] r@[q])@ == v@[q].entry.path@,
{
    let mut r: Vec<Vec<char>> = Vec::new();
    let mut i: usize = 0;
    while i < v.len()
        invariant
            i <= v.len(),
            r@.len() == i,
            forall|q: int| 0 <= q < i ==> (#[trigger] r@[q])@ == v@[q].entry.path@,
        decreases v.len() - i,
    {
        r.push(chars_of(v[i].entry.path.as_str()));
        i += 1;
    }
    r
}

/// Whether another position holds the same path as position `i`.
fn shares_path<'a>(eff: &[LocatedEntry<'a>], paths: &Vec<Vec<char>>, i: usize) -> (r: bool)
    requires
        i < eff@.len(),
        paths@.len() == eff@.len(),
        forall|q: int| 0 <= q < eff@.len() ==> (#[trigger] paths@[q])@ == eff@[q].entry.path@,
    ensures
        r == shares_path_at(eff@, i as int),
{
    let mut j: usize = 0;
    while j < paths.len()
        invariant
            j <= paths.len(),
            i < eff@.len(),
            paths@.len() == eff@.len(),
            forall|q: int| 0 <= q < eff@.len() ==> (#[trigger] paths@[q])@ == eff@[q].entry.path@,
            forall|q: int| 0 <= q < j && q != i ==> (#[trigger] eff@[q]).entry.path@ != eff@[i as int].entry.path@,
        decreases paths.len() - j,
    {
        if j != i && chars_eq(&paths[j], &paths[i]) {
            assert(eff@[j as int].entry.path@ == eff@[i as int].entry.path@);
            return true;
        }
        j += 1;
    }
    false
}

/// Whether a list of paths holds the given one.
fn holds_path(list: &Vec<Vec<char>>, p: &Vec<char>) -> (r: bool)
    ensures
        r == exists|q: int| 0 <= q < list@.len() && (#[trigger] list@[q])@ == p@,
{
    let mut q: usize = 0;
    while q < list.len()
        invariant
            q <= list.len(),
            forall|k: int| 0 <= k < q ==> (#[trigger] list@[k])@ != p@,
        decreases list.len() - q,
    {
        if chars_eq(&list[q], p) {
            return true;
        }
        q += 1;
    }
    false
}

/// `y`/`ies` pluralization for the ambiguity message.
fn entry_plural(count: usize) -> (r: &'static str)
    ensures
        r@ == (if count == 1 { "y"@ } else { "ies"@ }),
{
    if count == 1 { "y" } else { "ies" }
}

/// Appends `text`, a count and `tail` to a message.
fn push_count(message: &mut String, text: &str, count: usize, tail: &str)
    ensures
        final(message)@ == old(message)@ + text@ + crate::text::decimal_spec(count as nat) + tail@,
{
    append_str(message, text);
    let d = decimal(count as u64);
    append_str(message, d.as_str());
    append_str(message, tail);
}

/// Without a hardware profile no expression can be evaluated, so the
/// only safe scopes are those with a single variant per path and no
/// unresolvable applicability anywhere.
///
/// Duplicate directory entries are not ambiguity: several subsystems
/// legitimately create the same directory, matching the collision
/// preflight's exemption for directories.
pub fn gate_without_profile<'a>(products: &[Product], effective: &[LocatedEntry<'a>]) -> (r: Result<(), Error>)
    ensures
        r is Ok <==> !ambiguous(effective@) && !unparsed_in(effective@) && !unknown_in(products@, effective@),
        r matches Err(e) ==> e is ExtractionPlan,
{
    let paths = path_chars(effective);
    let mut ambiguous_paths: Vec<Vec<char>> = Vec::new();
    let mut unparsed: usize = 0;
    let mut unknown: usize = 0;
    let mut i: usize = 0;
    while i < effective.len()
        invariant
            i <= effective.len(),
            paths@.len() == effective@.len(),
            forall|q: int| 0 <= q < effective@.len() ==> (#[trigger] paths@[q])@ == effective@[q].entry.path@,
            unparsed <= i,
            unknown <= i,
            (ambiguous_paths@.len() > 0) == exists|k: int| 0 <= k < i
                && effective@[k].entry.file_type != FileType::Directory && #[trigger] shares_path_at(effective@, k),
            (unparsed > 0) == exists|k: int| 0 <= k < i && has_unparsed((#[trigger] effective@[k]).entry.attrs()),
            (unknown > 0) == exists|k: int| 0 <= k < i && key_unresolved(products@, (#[trigger] effective@[k]).key),
        decreases effective.len() - i,
    {
        let l = effective[i];
        if l.entry.file_type != FileType::Directory && shares_path(effective, &paths, i) {
            if !holds_path(&ambiguous_paths, &paths[i]) {
                ambiguous_paths.push(paths[i].clone());
            }
        } else {
            assert(!(effective@[i as int].entry.file_type != FileType::Directory && shares_path_at(effective@, i as int)));
        }
        if l.entry.has_unparsed_mach() {
            unparsed += 1;
        }
        if entry_unresolved(products, l.key) {
            unknown += 1;
        }
        i += 1;
    }
    if ambiguous_paths.len() == 0 && unparsed == 0 && unknown == 0 {
        return Ok(());
    }
    let mut message = String::new();
    append_str(&mut message, "extraction is ambiguous\n");
    let mut k: usize = 0;
    while k < ambiguous_paths.len() && k < 5
        decreases ambiguous_paths.len() - k,
    {
        append_str(&mut message, "\n");
        let shown = crate::text::string_of(&ambiguous_paths[k]);
        append_str(&mut message, shown.as_str());
        append_str(&mut message, " has multiple applicable variants.");
        k += 1;
    }
    if ambiguous_paths.len() > 5 {
        push_count(&mut message, "\n... and ", ambiguous_paths.len() - 5, " more paths.");
    }
    if unparsed > 0 {
        push_count(&mut message, "\n\nThe applicability of ", unparsed, " entr");
        append_str(&mut message, entry_plural(unparsed));
        append_str(&mut message, " cannot be determined (unparsable mach expression).");
    }
    if unknown > 0 {
        push_count(&mut message, "\n\nThe applicability of ", unknown, " entr");
        append_str(&mut message, entry_plural(unknown));
        append_str(&mut message, " cannot be determined (undecodable descriptor hardware restriction).");
    }
    append_str(&mut message, "\n\nSpecify a hardware profile.");
    Err(plan_error(message))
}

/// Whether a list holds an entry with the given key.
pub open spec fn holds_key<'a>(v: Seq<LocatedEntry<'a>>, k: EntryKey) -> bool {
    exists|q: int| 0 <= q < v.len() && (#[trigger] v[q]).key == k
}

/// Some candidate of a conflict is an entry of the scope.
pub open spec fn touches<'a>(c: SelectionConflict<'a>, eff: Seq<LocatedEntry<'a>>) -> bool {
    exists|x: int| 0 <= x < c.candidates@.len() && holds_key(eff, (#[trigger] c.candidates@[x]).key)
}

/// Some conflict touches the scope.
pub open spec fn conflict_in_scope<'a>(cs: Seq<SelectionConflict<'a>>, eff: Seq<LocatedEntry<'a>>) -> bool {
    exists|q: int| 0 <= q < cs.len() && touches(#[trigger] cs[q], eff)
}

/// The scope entries the selection kept, in scope order.
pub open spec fn gated_spec<'a>(eff: Seq<LocatedEntry<'a>>, selected: Seq<LocatedEntry<'a>>) -> Seq<LocatedEntry<'a>>
    decreases eff.len(),
{
    if eff.len() == 0 {
        Seq::empty()
    } else {
        let rest = gated_spec(eff.drop_last(), selected);
        if holds_key(selected, eff.last().key) {
            rest.push(eff.last())
        } else {
            rest
        }
    }
}

/// Whether a list holds an entry with the given key.
pub(crate) fn has_key<'a>(v: &[LocatedEntry<'a>], k: EntryKey) -> (r: bool)
    ensures
        r == holds_key(v@, k),
{
    let mut q: usize = 0;
    while q < v.len()
        invariant
            q <= v.len(),
            forall|p: int| 0 <= p < q ==> (#[trigger] v@[p]).key != k,
        decreases v.len() - q,
    {
        if v[q].key == k {
            return true;
        }
        q += 1;
    }
    false
}

/// The lines a candidate adds to the ambiguity message: its subsystem
/// and its `mach` restriction.
spec fn candidate_text(e: Entry) -> Seq<char> {
    "\n  "@ + dotted3(e.subsystem@.0, e.subsystem@.1, e.subsystem@.2) + "\n  mach: "@ + entry_mach_spec(e)
}

/// The lines of the first `n` candidates.
spec fn candidates_text<'a>(cs: Seq<LocatedEntry<'a>>, n: int) -> Seq<char>
    decreases n,
{
    if n <= 0 {
        Seq::empty()
    } else {
        candidates_text(cs, n - 1) + candidate_text(*cs[n - 1].entry)
    }
}

/// The block of one conflict: its path, then its candidates.
spec fn conflict_text<'a>(c: SelectionConflict<'a>) -> Seq<char> {
    "\nCONFLICT "@ + c.path@ + candidates_text(c.candidates@, c.candidates@.len() as int)
}

/// The blocks of the first `n` conflicts.
spec fn conflicts_text<'a>(cs: Seq<&SelectionConflict<'a>>, n: int) -> Seq<char>
    decreases n,
{
    if n <= 0 {
        Seq::empty()
    } else {
        conflicts_text(cs, n - 1) + conflict_text(*cs[n - 1])
    }
}

/// The refusal message for hardware conflicts.
spec fn conflict_message_text<'a>(cs: Seq<&SelectionConflict<'a>>) -> Seq<char> {
    "extraction is ambiguous; no files were written\n"@ + "\n"@ + crate::text::decimal_spec(cs.len())
        + " hardware conflict(s) affect the requested entries:\n"@ + conflicts_text(cs, cs.len() as int)
}

/// The refusal message for hardware conflicts, carrying the contested
/// paths and their candidates.
fn conflict_message<'a>(conflicts: &Vec<&SelectionConflict<'a>>) -> (r: String)
    ensures
        r@ == conflict_message_text(conflicts@),
{
    let mut message = String::new();
    append_str(&mut message, "extraction is ambiguous; no files were written\n");
    push_count(&mut message, "\n", conflicts.len(), " hardware conflict(s) affect the requested entries:\n");
    let ghost head = message@;
    let mut q: usize = 0;
    while q < conflicts.len()
        invariant
            q <= conflicts.len(),
            message@ == head + conflicts_text(conflicts@, q as int),
        decreases conflicts.len() - q,
    {
        let conflict = conflicts[q];
        append_str(&mut message, "\nCONFLICT ");
        append_str(&mut message, conflict.path.as_str());
        let ghost block = message@;
        let mut x: usize = 0;
        while x < conflict.candidates.len()
            invariant
                x <= conflict.candidates.len(),
                message@ == block + candidates_text(conflict.candidates@, x as int),
            decreases conflict.candidates.len() - x,
        {
            let candidate = conflict.candidates[x].entry;
            append_str(&mut message, "\n  ");
            let subsystem = candidate.subsystem.to_string();
            append_str(&mut message, subsystem.as_str());
            append_str(&mut message, "\n  mach: ");
            let mach = entry_mach(candidate);
            append_str(&mut message, mach.as_str());
            proof {
                assert(message@ =~= block + candidates_text(conflict.candidates@, x + 1));
            }
            x += 1;
        }
        proof {
            assert(message@ =~= head + conflicts_text(conflicts@, q + 1));
        }
        q += 1;
    }
    proof {
        assert(message@ =~= conflict_message_text(conflicts@));
    }
    message
}

/// With a hardware profile the hierarchical selection decides; any
/// conflict touching the scope refuses the whole plan, while conflicts
/// entirely outside the scope do not block it. Returns the scope
/// entries the selection kept, in scope order, plus how many it
/// excluded; a selection that keeps nothing of the scope is refused.
pub fn gate_with_selection<'a>(effective: &[LocatedEntry<'a>], selection: &EntrySelection<'a>) -> (r: Result<(Vec<LocatedEntry<'a>>, usize), Error>)
    ensures
        conflict_in_scope(selection.conflicts@, effective@) ==> r is Err,
        !conflict_in_scope(selection.conflicts@, effective@) ==> match r {
            Ok((g, n)) => g@.len() > 0 && g@ == gated_spec(effective@, selection.selected@)
                && n == effective@.len() - g@.len(),
            Err(_) => gated_spec(effective@, selection.selected@).len() == 0,
        },
        r matches Err(e) ==> e is ExtractionPlan,
{
    let mut touching: Vec<&SelectionConflict<'a>> = Vec::new();
    let mut q: usize = 0;
    while q < selection.conflicts.len()
        invariant
            q <= selection.conflicts.len(),
            (touching@.len() > 0) == exists|k: int| 0 <= k < q && touches(#[trigger] selection.conflicts@[k], effective@),
        decreases selection.conflicts.len() - q,
    {
        let conflict = &selection.conflicts[q];
        let mut hit = false;
        let mut x: usize = 0;
        while x < conflict.candidates.len()
            invariant
                x <= conflict.candidates.len(),
                hit == exists|k: int| 0 <= k < x && holds_key(effective@, (#[trigger] conflict.candidates@[k]).key),
            decreases conflict.candidates.len() - x,
        {
            if has_key(effective, conflict.candidates[x].key) {
                hit = true;
            }
            x += 1;
        }
        assert(hit == touches(selection.conflicts@[q as int], effective@));
        if hit {
            touching.push(conflict);
        }
        q += 1;
    }
    if touching.len() > 0 {
        return Err(plan_error(conflict_message(&touching)));
    }
    let mut gated: Vec<LocatedEntry<'a>> = Vec::new();
    let mut i: usize = 0;
    while i < effective.len()
        invariant
            i <= effective.len(),
            gated@ == gated_spec(effective@.take(i as int), selection.selected@),
            gated@.len() <= i,
        decreases effective.len() - i,
    {
        proof {
            assert(effective@.take(i as int + 1).drop_last() =~= effective@.take(i as int));
            assert(effective@.take(i as int + 1).last() == effective@[i as int]);
        }
        if has_key(selection.selected.as_slice(), effective[i].key) {
            gated.push(effective[i]);
        }
        i += 1;
    }
    proof {
        assert(effective@.take(effective@.len() as int) =~= effective@);
    }
    if gated.len() == 0 {
        let mut message = String::new();
        append_str(&mut message, "no entries in scope apply to the given hardware profile");
        return Err(plan_error(message));
    }
    let excluded = effective.len() - gated.len();
    Ok((gated, excluded))
}

/// The entries that passed the hardware check, in requested order, each with
/// its projected outputs; `None` when one of them cannot be projected.
pub open spec fn producers_spec<'a>(
    req: Seq<LocatedEntry<'a>>,
    gated: Seq<LocatedEntry<'a>>,
    o: ExtractOptions,
) -> Option<Seq<(LocatedEntry<'a>, Seq<Seq<char>>)>>
    decreases req.len(),
{
    if req.len() == 0 {
        Some(Seq::empty())
    } else {
        match producers_spec(req.drop_last(), gated, o) {
            None => None,
            Some(rest) => if holds_key(gated, req.last().key) {
                match outputs_spec(*req.last().entry, o) {
                    Some(ps) => Some(rest.push((req.last(), ps))),
                    None => None,
                }
            } else {
                Some(rest)
            },
        }
    }
}

/// An entry of the request that the hardware check kept and that cannot
/// be projected to host paths.
pub open spec fn blocking_entry<'a>(req: Seq<LocatedEntry<'a>>, gated: Seq<LocatedEntry<'a>>, o: ExtractOptions, q: int) -> bool {
    &&& 0 <= q < req.len()
    &&& holds_key(gated, req[q].key)
    &&& outputs_spec(*req[q].entry, o) is None
}

/// A held projection error blocks the plan only when its entry passed
/// the hardware check: the producers are missing exactly when some kept
/// entry of the request cannot be projected, so an entry the selection
/// drops never blocks the extraction.
pub proof fn lemma_only_kept_entries_block<'a>(req: Seq<LocatedEntry<'a>>, gated: Seq<LocatedEntry<'a>>, o: ExtractOptions)
    ensures
        producers_spec(req, gated, o) is None <==> exists|q: int| #[trigger] blocking_entry(req, gated, o, q),
    decreases req.len(),
{
    if req.len() > 0 {
        let front = req.drop_last();
        let n = req.len() - 1;
        lemma_only_kept_entries_block(front, gated, o);
        if producers_spec(front, gated, o) is None {
            let q = choose|q: int| #[trigger] blocking_entry(front, gated, o, q);
            assert(req[q] == front[q]);
            assert(blocking_entry(req, gated, o, q));
        } else if blocking_entry(req, gated, o, n) {
        } else {
            assert forall|q: int| !#[trigger] blocking_entry(req, gated, o, q) by {
                if 0 <= q < n {
                    assert(req[q] == front[q]);
                    assert(!blocking_entry(front, gated, o, q));
                }
            }
        }
    }
}

/// Requested entries that share a key are the same entry.
pub open spec fn keys_consistent<'a>(req: Seq<LocatedEntry<'a>>) -> bool {
    forall|i: int, j: int| 0 <= i < req.len() && 0 <= j < req.len() && (#[trigger] req[i]).key == (#[trigger] req[j]).key
        ==> *req[i].entry == *req[j].entry
}

/// A key is held by the effective entries exactly when a requested entry
/// with that key is not omitted.
proof fn lemma_effective_holds<'a>(req: Seq<LocatedEntry<'a>>, o: ExtractOptions, k: EntryKey)
    ensures
        holds_key(effective_spec(req, o), k) <==> exists|i: int| 0 <= i < req.len() && (#[trigger] req[i]).key == k && !omitted(req[i], o),
    decreases req.len(),
{
    if req.len() > 0 {
        let front = req.drop_last();
        lemma_effective_holds(front, o, k);
        let ef = effective_spec(front, o);
        let e = effective_spec(req, o);
        if holds_key(e, k) {
            let q = choose|q: int| 0 <= q < e.len() && (#[trigger] e[q]).key == k;
            if q < ef.len() {
                assert(e[q] == ef[q]);
                let i = choose|i: int| 0 <= i < front.len() && (#[trigger] front[i]).key == k && !omitted(front[i], o);
                assert(req[i] == front[i]);
            } else {
                assert(req[req.len() - 1].key == k && !omitted(req[req.len() - 1], o));
            }
        }
        if exists|i: int| 0 <= i < req.len() && (#[trigger] req[i]).key == k && !omitted(req[i], o) {
            let i = choose|i: int| 0 <= i < req.len() && (#[trigger] req[i]).key == k && !omitted(req[i], o);
            if i < front.len() {
                assert(front[i] == req[i]);
                let q = choose|q: int| 0 <= q < ef.len() && (#[trigger] ef[q]).key == k;
                assert(e[q] == ef[q]);
            } else {
                assert(e[ef.len() as int] == req[i]);
            }
        }
    }
}

/// Over a prefix of a request whose keys name one entry each, the
/// entries the effective entries hold are exactly the effective ones.
proof fn lemma_producers_count<'a>(req: Seq<LocatedEntry<'a>>, o: ExtractOptions, n: int)
    requires
        keys_consistent(req),
        0 <= n <= req.len(),
        producers_spec(req.take(n), effective_spec(req, o), o) is Some,
    ensures
        producers_spec(req.take(n), effective_spec(req, o), o)->0.len() == effective_spec(req.take(n), o).len(),
    decreases n,
{
    if n > 0 {
        let t = req.take(n);
        assert(t.drop_last() =~= req.take(n - 1));
        assert(t.last() == req[n - 1]);
        lemma_producers_count(req, o, n - 1);
        lemma_effective_holds(req, o, req[n - 1].key);
        if exists|i: int| 0 <= i < req.len() && (#[trigger] req[i]).key == req[n - 1].key && !omitted(req[i], o) {
            let i = choose|i: int| 0 <= i < req.len() && (#[trigger] req[i]).key == req[n - 1].key && !omitted(req[i], o);
            assert(*req[i].entry == *req[n - 1].entry);
        }
    }
}

/// A key is held by the entries the hardware check kept exactly when a
/// requested entry with that key is not omitted and the selection holds
/// the key.
proof fn lemma_gated_holds<'a>(req: Seq<LocatedEntry<'a>>, o: ExtractOptions, sel: Seq<LocatedEntry<'a>>, k: EntryKey)
    ensures
        holds_key(gated_spec(effective_spec(req, o), sel), k) <==> holds_key(sel, k) && holds_key(effective_spec(req, o), k),
{
    lemma_gated_holds_eff(effective_spec(req, o), sel, k);
}

/// The kept entries hold a key exactly when the effective entries and
/// the selection both do.
proof fn lemma_gated_holds_eff<'a>(eff: Seq<LocatedEntry<'a>>, sel: Seq<LocatedEntry<'a>>, k: EntryKey)
    ensures
        holds_key(gated_spec(eff, sel), k) <==> holds_key(sel, k) && holds_key(eff, k),
    decreases eff.len(),
{
    if eff.len() > 0 {
        let front = eff.drop_last();
        lemma_gated_holds_eff(front, sel, k);
        let gf = gated_spec(front, sel);
        let g = gated_spec(eff, sel);
        if holds_key(g, k) {
            let q = choose|q: int| 0 <= q < g.len() && (#[trigger] g[q]).key == k;
            if q < gf.len() {
                assert(g[q] == gf[q]);
                let w = choose|w: int| 0 <= w < front.len() && (#[trigger] front[w]).key == k;
                assert(eff[w] == front[w]);
            } else {
                assert(eff[eff.len() - 1].key == k);
            }
        }
        if holds_key(sel, k) && holds_key(eff, k) {
            let w = choose|w: int| 0 <= w < eff.len() && (#[trigger] eff[w]).key == k;
            if w < front.len() {
                assert(front[w] == eff[w]);
                let q = choose|q: int| 0 <= q < gf.len() && (#[trigger] gf[q]).key == k;
                assert(g[q] == gf[q]);
            } else {
                assert(g[gf.len() as int] == eff[w]);
            }
        }
    }
}

/// Over a prefix of a request whose keys name one entry each, the
/// entries the kept entries hold are exactly the kept ones.
proof fn lemma_producers_count_gated<'a>(req: Seq<LocatedEntry<'a>>, o: ExtractOptions, sel: Seq<LocatedEntry<'a>>, n: int)
    requires
        keys_consistent(req),
        0 <= n <= req.len(),
        producers_spec(req.take(n), gated_spec(effective_spec(req, o), sel), o) is Some,
    ensures
        producers_spec(req.take(n), gated_spec(effective_spec(req, o), sel), o)->0.len()
            == gated_spec(effective_spec(req.take(n), o), sel).len(),
    decreases n,
{
    if n > 0 {
        let t = req.take(n);
        assert(t.drop_last() =~= req.take(n - 1));
        assert(t.last() == req[n - 1]);
        lemma_producers_count_gated(req, o, sel, n - 1);
        lemma_gated_holds(req, o, sel, req[n - 1].key);
        lemma_effective_holds(req, o, req[n - 1].key);
        if exists|i: int| 0 <= i < req.len() && (#[trigger] req[i]).key == req[n - 1].key && !omitted(req[i], o) {
            let i = choose|i: int| 0 <= i < req.len() && (#[trigger] req[i]).key == req[n - 1].key && !omitted(req[i], o);
            assert(*req[i].entry == *req[n - 1].entry);
        }
        let e0 = effective_spec(req.take(n - 1), o);
        let e1 = effective_spec(t, o);
        if !omitted(req[n - 1], o) {
            assert(e1.drop_last() == e0);
            assert(e1.last() == req[n - 1]);
        } else {
            assert(e1 == e0);
        }
    }
}

/// With a hardware profile a plan accounts for every requested entry
/// once: it is omitted, excluded by the hardware check or planned (when
/// requested entries sharing a key are the same entry).
pub proof fn lemma_plan_counts_add_up_with_profile<'a>(
    req: Seq<LocatedEntry<'a>>,
    o: ExtractOptions,
    sel: Seq<LocatedEntry<'a>>,
    plan: ExtractionPlan<'a>,
)
    requires
        keys_consistent(req),
        plan_matches(req, gated_spec(effective_spec(req, o), sel), o, plan),
        plan.summary.omitted_records == req.len() - effective_spec(req, o).len(),
        plan.summary.hardware_excluded_records == effective_spec(req, o).len() - gated_spec(effective_spec(req, o), sel).len(),
    ensures
        plan.summary.requested_records == plan.summary.omitted_records + plan.summary.hardware_excluded_records
            + plan.summary.planned_records,
{
    assert(req.take(req.len() as int) =~= req);
    lemma_producers_count_gated(req, o, sel, req.len() as int);
    lemma_effective_len(req, o);
    lemma_gated_len(effective_spec(req, o), sel);
}

/// The kept entries are at most the effective ones.
proof fn lemma_gated_len<'a>(eff: Seq<LocatedEntry<'a>>, sel: Seq<LocatedEntry<'a>>)
    ensures
        gated_spec(eff, sel).len() <= eff.len(),
    decreases eff.len(),
{
    if eff.len() > 0 {
        lemma_gated_len(eff.drop_last(), sel);
    }
}

/// Without a hardware profile a plan accounts for every requested entry
/// once: it is either a deliberate omission or planned, so the requested
/// count is the sum of the omitted, hardware-excluded and planned counts
/// (when requested entries sharing a key are the same entry).
pub proof fn lemma_plan_counts_add_up<'a>(req: Seq<LocatedEntry<'a>>, o: ExtractOptions, plan: ExtractionPlan<'a>)
    requires
        keys_consistent(req),
        plan_matches(req, effective_spec(req, o), o, plan),
        plan.summary.omitted_records == req.len() - effective_spec(req, o).len(),
        plan.summary.hardware_excluded_records == 0,
    ensures
        plan.summary.requested_records == plan.summary.omitted_records + plan.summary.hardware_excluded_records
            + plan.summary.planned_records,
{
    assert(req.take(req.len() as int) =~= req);
    lemma_producers_count(req, o, req.len() as int);
    lemma_effective_len(req, o);
}

/// Producers with their outputs as character sequences.
pub open spec fn producers_view<'a>(v: Seq<(LocatedEntry<'a>, Vec<String>)>) -> Seq<(LocatedEntry<'a>, Seq<Seq<char>>)> {
    v.map_values(|p: (LocatedEntry<'a>, Vec<String>)| (p.0, paths_view(p.1@)))
}

/// Projects the gated entries, in requested order, propagating the
/// first static projection failure among them.
fn producers<'a>(
    requested: &[LocatedEntry<'a>],
    gated: &[LocatedEntry<'a>],
    options: &ExtractOptions,
) -> (r: Result<Vec<(LocatedEntry<'a>, Vec<String>)>, Error>)
    ensures
        match producers_spec(requested@, gated@, *options) {
            Some(ps) => r matches Ok(v) && producers_view(v@) == ps,
            None => r matches Err(e) && (e is UnsafePath || e is PayloadNotFound),
        },
{
    let mut v: Vec<(LocatedEntry<'a>, Vec<String>)> = Vec::new();
    let mut i: usize = 0;
    while i < requested.len()
        invariant
            i <= requested.len(),
            producers_spec(requested@.take(i as int), gated@, *options) == Some(producers_view(v@)),
        decreases requested.len() - i,
    {
        let l = requested[i];
        proof {
            assert(requested@.take(i as int + 1).drop_last() =~= requested@.take(i as int));
            assert(requested@.take(i as int + 1).last() == l);
        }
        if has_key(gated, l.key) {
            match output_paths(l.entry, options) {
                Ok(paths) => {
                    let ghost before = v@;
                    v.push((l, paths));
                    proof {
                        assert(producers_view(v@) =~= producers_view(before).push((l, paths_view(paths@))));
                    }
                },
                Err(e) => {
                    proof {
                        lemma_producers_none(requested@, gated@, *options, i as int + 1);
                    }
                    return Err(e);
                },
            }
        }
        i += 1;
    }
    proof {
        assert(requested@.take(requested@.len() as int) =~= requested@);
    }
    Ok(v)
}

/// Once a prefix cannot be projected, no longer prefix can.
proof fn lemma_producers_none<'a>(req: Seq<LocatedEntry<'a>>, gated: Seq<LocatedEntry<'a>>, o: ExtractOptions, n: int)
    requires
        0 <= n <= req.len(),
        producers_spec(req.take(n), gated, o) is None,
    ensures
        producers_spec(req, gated, o) is None,
    decreases req.len() - n,
{
    if n < req.len() {
        assert(req.take(n + 1).drop_last() =~= req.take(n));
        lemma_producers_none(req, gated, o, n + 1);
    } else {
        assert(req.take(n) =~= req);
    }
}

/// Output `p` is also written by a producer with another key than
/// producer `i`.
pub open spec fn written_by_other<'a>(prods: Seq<(LocatedEntry<'a>, Seq<Seq<char>>)>, i: int, p: Seq<char>) -> bool {
    exists|j: int, y: int|
        0 <= j < prods.len() && 0 <= y < prods[j].1.len() && prods[j].0.key != prods[i].0.key
        && #[trigger] prods[j].1[y] == p
}

/// Two different entries would write the same output path, one of them
/// not a directory. (Several subsystems legitimately create the same
/// directory.)
pub open spec fn collides<'a>(prods: Seq<(LocatedEntry<'a>, Seq<Seq<char>>)>) -> bool {
    exists|i: int, x: int|
        0 <= i < prods.len() && 0 <= x < prods[i].1.len()
        && prods[i].0.entry.file_type != FileType::Directory
        && #[trigger] written_by_other(prods, i, prods[i].1[x])
}

/// The characters of every producer output.
fn output_chars<'a>(v: &Vec<(LocatedEntry<'a>, Vec<String>)>) -> (r: Vec<Vec<Vec<char>>>)
    ensures
        r@.len() == v@.len(),
        forall|i: int| 0 <= i < v@.len() ==> (#[trigger] r@[i])@.len() == v@[i].1@.len(),
        forall|i: int, x: int| 0 <= i < v@.len() && 0 <= x < v@[i].1@.len() ==> (#[trigger] r@[i]@[x])@ == producers_view(v@)[i].1[x],
{
    let mut r: Vec<Vec<Vec<char>>> = Vec::new();
    let mut i: usize = 0;
    while i < v.len()
        invariant
            i <= v.len(),
            r@.len() == i,
            forall|k: int| 0 <= k < i ==> (#[trigger] r@[k])@.len() == v@[k].1@.len(),
            forall|k: int, x: int| 0 <= k < i && 0 <= x < v@[k].1@.len() ==> (#[trigger] r@[k]@[x])@ == producers_view(v@)[k].1[x],
        decreases v.len() - i,
    {
        let paths = &v[i].1;
        let mut w: Vec<Vec<char>> = Vec::new();
        let mut x: usize = 0;
        while x < paths.len()
            invariant
                x <= paths.len(),
                i < v@.len(),
                *paths == v@[i as int].1,
                w@.len() == x,
                forall|y: int| 0 <= y < x ==> (#[trigger] w@[y])@ == producers_view(v@)[i as int].1[y],
            decreases paths.len() - x,
        {
            w.push(chars_of(paths[x].as_str()));
            x += 1;
        }
        r.push(w);
        i += 1;
    }
    r
}

/// Whether a producer with another key than producer `i` writes `p`.
fn other_writer<'a>(v: &Vec<(LocatedEntry<'a>, Vec<String>)>, outs: &Vec<Vec<Vec<char>>>, i: usize, p: &Vec<char>) -> (r: bool)
    requires
        i < v@.len(),
        outs@.len() == v@.len(),
        forall|k: int| 0 <= k < v@.len() ==> (#[trigger] outs@[k])@.len() == v@[k].1@.len(),
        forall|k: int, x: int| 0 <= k < v@.len() && 0 <= x < v@[k].1@.len() ==> (#[trigger] outs@[k]@[x])@ == producers_view(v@)[k].1[x],
    ensures
        r == written_by_other(producers_view(v@), i as int, p@),
{
    let ghost prods = producers_view(v@);
    let mut j: usize = 0;
    while j < v.len()
        invariant
            j <= v.len(),
            i < v@.len(),
            prods == producers_view(v@),
            outs@.len() == v@.len(),
            forall|k: int| 0 <= k < v@.len() ==> (#[trigger] outs@[k])@.len() == v@[k].1@.len(),
            forall|k: int, x: int| 0 <= k < v@.len() && 0 <= x < v@[k].1@.len() ==> (#[trigger] outs@[k]@[x])@ == producers_view(v@)[k].1[x],
            forall|k: int, y: int| 0 <= k < j && 0 <= y < prods[k].1.len() && prods[k].0.key != prods[i as int].0.key
                ==> #[trigger] prods[k].1[y] != p@,
        decreases v.len() - j,
    {
        if v[j].0.key != v[i].0.key {
            let mut y: usize = 0;
            while y < outs[j].len()
                invariant
                    y <= outs@[j as int]@.len(),
                    j < v@.len(),
                    i < v@.len(),
                    prods == producers_view(v@),
                    outs@.len() == v@.len(),
                    forall|k: int| 0 <= k < v@.len() ==> (#[trigger] outs@[k])@.len() == v@[k].1@.len(),
                    forall|k: int, x: int| 0 <= k < v@.len() && 0 <= x < v@[k].1@.len() ==> (#[trigger] outs@[k]@[x])@ == producers_view(v@)[k].1[x],
                    prods[j as int].0.key != prods[i as int].0.key,
                    forall|z: int| 0 <= z < y ==> #[trigger] prods[j as int].1[z] != p@,
                decreases outs@[j as int]@.len() - y,
            {
                if chars_eq(&outs[j][y], p) {
                    assert(prods[j as int].1[y as int] == p@);
                    return true;
                }
                y += 1;
            }
        }
        j += 1;
    }
    false
}

/// Refuses the plan when two different entries would write the same
/// output path.
///
/// The selection machinery arbitrates between variants of one pathname
/// within a subsystem; it does not cover collisions that only appear
/// once entries are mapped to host output paths: different subsystems
/// shipping the same pathname, flat mode merging different directories,
/// or raw/keep-stored `.Z` sidecars colliding with real files.
/// Directory entries are exempt: several subsystems legitimately create
/// the same directory.
pub fn preflight_output_collisions<'a>(producers: &Vec<(LocatedEntry<'a>, Vec<String>)>) -> (r: Result<(), Error>)
    ensures
        r is Ok <==> !collides(producers_view(producers@)),
        r matches Err(e) ==> e is ExtractionPlan,
{
    let ghost prods = producers_view(producers@);
    let outs = output_chars(producers);
    let mut found: Vec<Vec<char>> = Vec::new();
    let mut i: usize = 0;
    while i < producers.len()
        invariant
            i <= producers.len(),
            prods == producers_view(producers@),
            outs@.len() == producers@.len(),
            forall|k: int| 0 <= k < producers@.len() ==> (#[trigger] outs@[k])@.len() == producers@[k].1@.len(),
            forall|k: int, x: int| 0 <= k < producers@.len() && 0 <= x < producers@[k].1@.len() ==> (#[trigger] outs@[k]@[x])@ == producers_view(producers@)[k].1[x],
            (found@.len() > 0) == exists|k: int, x: int| 0 <= k < i && 0 <= x < prods[k].1.len()
                && prods[k].0.entry.file_type != FileType::Directory
                && #[trigger] written_by_other(prods, k, prods[k].1[x]),
        decreases producers.len() - i,
    {
        if producers[i].0.entry.file_type != FileType::Directory {
            let mut x: usize = 0;
            while x < outs[i].len()
                invariant
                    x <= outs@[i as int]@.len(),
                    i < producers@.len(),
                    prods == producers_view(producers@),
                    prods[i as int].0.entry.file_type != FileType::Directory,
                    outs@.len() == producers@.len(),
                    forall|k: int| 0 <= k < producers@.len() ==> (#[trigger] outs@[k])@.len() == producers@[k].1@.len(),
                    forall|k: int, x: int| 0 <= k < producers@.len() && 0 <= x < producers@[k].1@.len() ==> (#[trigger] outs@[k]@[x])@ == producers_view(producers@)[k].1[x],
                    (found@.len() > 0) == exists|k: int, x2: int| 0 <= k <= i && 0 <= x2 < prods[k].1.len()
                        && (k < i || x2 < x)
                        && prods[k].0.entry.file_type != FileType::Directory
                        && #[trigger] written_by_other(prods, k, prods[k].1[x2]),
                decreases outs@[i as int]@.len() - x,
            {
                let hit = other_writer(producers, &outs, i, &outs[i][x]);
                if hit && !holds_path(&found, &outs[i][x]) {
                    found.push(outs[i][x].clone());
                }
                x += 1;
            }
        } else {
            assert forall|x: int| 0 <= x < prods[i as int].1.len() implies !(prods[i as int].0.entry.file_type != FileType::Directory
                && #[trigger] written_by_other(prods, i as int, prods[i as int].1[x])) by {}
        }
        i += 1;
    }
    if found.len() == 0 {
        return Ok(());
    }
    let mut message = String::new();
    append_str(&mut message, "extraction would overwrite output files\n");
    let mut k: usize = 0;
    while k < found.len() && k < 5
        decreases found.len() - k,
    {
        append_str(&mut message, "\n");
        let shown = crate::text::string_of(&found[k]);
        append_str(&mut message, shown.as_str());
        let mut seen: Vec<EntryKey> = Vec::new();
        let mut j: usize = 0;
        while j < producers.len()
            invariant
                k < found@.len(),
            decreases producers.len() - j,
        {
            if j < outs.len() && holds_path(&outs[j], &found[k]) && !key_listed(&seen, producers[j].0.key) {
                seen.push(producers[j].0.key);
                let entry = producers[j].0.entry;
                append_str(&mut message, "\n  <- ");
                let subsystem = entry.subsystem.to_string();
                append_str(&mut message, subsystem.as_str());
                append_str(&mut message, ": ");
                append_str(&mut message, entry.path.as_str());
            }
            j += 1;
        }
        k += 1;
    }
    if found.len() > 5 {
        push_count(&mut message, "\n... and ", found.len() - 5, " more outputs.");
    }
    append_str(&mut message, "\n\nNo files were written.");
    Err(plan_error(message))
}

/// Whether a key is in a list of keys.
fn key_listed(keys: &Vec<EntryKey>, k: EntryKey) -> (r: bool)
    ensures
        r == keys@.contains(k),
{
    let mut q: usize = 0;
    while q < keys.len()
        invariant
            q <= keys.len(),
            forall|p: int| 0 <= p < q ==> keys@[p] != k,
        decreases keys.len() - q,
    {
        if keys[q] == k {
            assert(keys@[q as int] == k);
            return true;
        }
        q += 1;
    }
    false
}

/// `a` is a proper, non-empty ancestor of the relative path `p`.
pub open spec fn proper_ancestor(a: Seq<char>, p: Seq<char>) -> bool {
    &&& 0 < a.len() < p.len()
    &&& p[a.len() as int] == '/'
    &&& p.subrange(0, a.len() as int) == a
}

/// A non-directory entry maps to the output directory itself.
pub open spec fn maps_to_root<'a>(prods: Seq<(LocatedEntry<'a>, Seq<Seq<char>>)>) -> bool {
    exists|i: int, x: int|
        0 <= i < prods.len() && 0 <= x < prods[i].1.len()
        && prods[i].0.entry.file_type != FileType::Directory
        && (#[trigger] prods[i].1[x]).len() == 0
}

/// Some proper ancestor of `p` is an output of a non-directory entry.
pub open spec fn below_non_dir<'a>(prods: Seq<(LocatedEntry<'a>, Seq<Seq<char>>)>, p: Seq<char>) -> bool {
    exists|j: int, y: int|
        0 <= j < prods.len() && 0 <= y < prods[j].1.len()
        && prods[j].0.entry.file_type != FileType::Directory
        && proper_ancestor(#[trigger] prods[j].1[y], p)
}

/// Some planned output would be written through a planned output that
/// is not a directory.
pub open spec fn through_non_dir<'a>(prods: Seq<(LocatedEntry<'a>, Seq<Seq<char>>)>) -> bool {
    exists|i: int, x: int|
        0 <= i < prods.len() && 0 <= x < prods[i].1.len() && #[trigger] below_non_dir(prods, prods[i].1[x])
}

/// Whether `a` is a proper, non-empty ancestor of `p`.
fn is_proper_ancestor(a: &Vec<char>, p: &Vec<char>) -> (r: bool)
    ensures
        r == proper_ancestor(a@, p@),
{
    if a.len() == 0 || a.len() >= p.len() || p[a.len()] != '/' {
        return false;
    }
    let mut k: usize = 0;
    while k < a.len()
        invariant
            k <= a.len(),
            a.len() < p.len(),
            forall|q: int| 0 <= q < k ==> a@[q] == p@[q],
        decreases a.len() - k,
    {
        if a[k] != p[k] {
            assert(p@.subrange(0, a@.len() as int)[k as int] != a@[k as int]);
            return false;
        }
        k += 1;
    }
    assert(p@.subrange(0, a@.len() as int) =~= a@);
    true
}

/// The outputs of non-directory producers that are proper ancestors of
/// `p`, without repeats.
fn non_dir_ancestors<'a>(v: &Vec<(LocatedEntry<'a>, Vec<String>)>, outs: &Vec<Vec<Vec<char>>>, p: &Vec<char>) -> (r: Vec<Vec<char>>)
    requires
        outs@.len() == v@.len(),
        forall|k: int| 0 <= k < v@.len() ==> (#[trigger] outs@[k])@.len() == v@[k].1@.len(),
        forall|k: int, x: int| 0 <= k < v@.len() && 0 <= x < v@[k].1@.len() ==> (#[trigger] outs@[k]@[x])@ == producers_view(v@)[k].1[x],
    ensures
        (r@.len() > 0) == below_non_dir(producers_view(v@), p@),
{
    let ghost prods = producers_view(v@);
    let mut r: Vec<Vec<char>> = Vec::new();
    let mut j: usize = 0;
    while j < v.len()
        invariant
            j <= v.len(),
            prods == producers_view(v@),
            outs@.len() == v@.len(),
            forall|k: int| 0 <= k < v@.len() ==> (#[trigger] outs@[k])@.len() == v@[k].1@.len(),
            forall|k: int, x: int| 0 <= k < v@.len() && 0 <= x < v@[k].1@.len() ==> (#[trigger] outs@[k]@[x])@ == producers_view(v@)[k].1[x],
            (r@.len() > 0) == exists|k: int, y: int| 0 <= k < j && 0 <= y < prods[k].1.len()
                && prods[k].0.entry.file_type != FileType::Directory
                && proper_ancestor(#[trigger] prods[k].1[y], p@),
        decreases v.len() - j,
    {
        if v[j].0.entry.file_type != FileType::Directory {
            let mut y: usize = 0;
            while y < outs[j].len()
                invariant
                    y <= outs@[j as int]@.len(),
                    j < v@.len(),
                    prods == producers_view(v@),
                    prods[j as int].0.entry.file_type != FileType::Directory,
                    outs@.len() == v@.len(),
                    forall|k: int| 0 <= k < v@.len() ==> (#[trigger] outs@[k])@.len() == v@[k].1@.len(),
                    forall|k: int, x: int| 0 <= k < v@.len() && 0 <= x < v@[k].1@.len() ==> (#[trigger] outs@[k]@[x])@ == producers_view(v@)[k].1[x],
                    (r@.len() > 0) == exists|k: int, y2: int| 0 <= k <= j && 0 <= y2 < prods[k].1.len()
                        && (k < j || y2 < y)
                        && prods[k].0.entry.file_type != FileType::Directory
                        && proper_ancestor(#[trigger] prods[k].1[y2], p@),
                decreases outs@[j as int]@.len() - y,
            {
                if is_proper_ancestor(&outs[j][y], p) && !holds_path(&r, &outs[j][y]) {
                    r.push(outs[j][y].clone());
                }
                y += 1;
            }
        }
        j += 1;
    }
    r
}

/// Refuses outputs that would be written through another planned output
/// that is not a directory, and non-directory entries that map to the
/// output directory itself.
///
/// A planned symbolic link or regular file that is also an ancestor of
/// another planned output would redirect that output away from the
/// output directory: `usr -> /etc` followed by `usr/passwd` must never
/// be written. Planned directory ancestors are the normal case and stay
/// legal.
pub fn preflight_output_topology<'a>(producers: &Vec<(LocatedEntry<'a>, Vec<String>)>) -> (r: Result<(), Error>)
    ensures
        r is Ok <==> !maps_to_root(producers_view(producers@)) && !through_non_dir(producers_view(producers@)),
        r matches Err(e) ==> e is ExtractionPlan,
{
    let ghost prods = producers_view(producers@);
    let outs = output_chars(producers);
    let mut i: usize = 0;
    while i < producers.len()
        invariant
            i <= producers.len(),
            prods == producers_view(producers@),
            outs@.len() == producers@.len(),
            forall|k: int| 0 <= k < producers@.len() ==> (#[trigger] outs@[k])@.len() == producers@[k].1@.len(),
            forall|k: int, x: int| 0 <= k < producers@.len() && 0 <= x < producers@[k].1@.len() ==> (#[trigger] outs@[k]@[x])@ == producers_view(producers@)[k].1[x],
            forall|k: int, x: int| 0 <= k < i && 0 <= x < prods[k].1.len() && prods[k].0.entry.file_type != FileType::Directory
                ==> (#[trigger] prods[k].1[x]).len() != 0,
        decreases producers.len() - i,
    {
        let entry = producers[i].0.entry;
        if entry.file_type != FileType::Directory {
            let mut x: usize = 0;
            while x < outs[i].len()
                invariant
                    x <= outs@[i as int]@.len(),
                    i < producers@.len(),
                    prods == producers_view(producers@),
                    prods[i as int].0.entry == entry,
                    entry.file_type != FileType::Directory,
                    outs@.len() == producers@.len(),
                    forall|k: int| 0 <= k < producers@.len() ==> (#[trigger] outs@[k])@.len() == producers@[k].1@.len(),
                    forall|k: int, x: int| 0 <= k < producers@.len() && 0 <= x < producers@[k].1@.len() ==> (#[trigger] outs@[k]@[x])@ == producers_view(producers@)[k].1[x],
                    forall|k: int, x2: int| 0 <= k <= i && 0 <= x2 < prods[k].1.len() && (k < i || x2 < x)
                        && prods[k].0.entry.file_type != FileType::Directory
                        ==> (#[trigger] prods[k].1[x2]).len() != 0,
                decreases outs@[i as int]@.len() - x,
            {
                if outs[i][x].len() == 0 {
                    assert(prods[i as int].1[x as int].len() == 0);
                    let mut message = String::new();
                    append_str(&mut message, "invalid output topology\n\n");
                    let subsystem = entry.subsystem.to_string();
                    append_str(&mut message, subsystem.as_str());
                    append_str(&mut message, ": ");
                    append_str(&mut message, entry.path.as_str());
                    append_str(&mut message, " maps to the output directory itself\n\nNo files were written.");
                    return Err(plan_error(message));
                }
                x += 1;
            }
        }
        i += 1;
    }
    let mut blocked: Vec<(Vec<char>, Vec<char>)> = Vec::new();
    let mut done: Vec<Vec<char>> = Vec::new();
    let mut any = false;
    let mut i: usize = 0;
    while i < producers.len()
        invariant
            i <= producers.len(),
            prods == producers_view(producers@),
            outs@.len() == producers@.len(),
            forall|k: int| 0 <= k < producers@.len() ==> (#[trigger] outs@[k])@.len() == producers@[k].1@.len(),
            forall|k: int, x: int| 0 <= k < producers@.len() && 0 <= x < producers@[k].1@.len() ==> (#[trigger] outs@[k]@[x])@ == producers_view(producers@)[k].1[x],
            any == exists|k: int, x: int| 0 <= k < i && 0 <= x < prods[k].1.len() && #[trigger] below_non_dir(prods, prods[k].1[x]),
        decreases producers.len() - i,
    {
        let mut x: usize = 0;
        while x < outs[i].len()
            invariant
                x <= outs@[i as int]@.len(),
                i < producers@.len(),
                prods == producers_view(producers@),
                outs@.len() == producers@.len(),
                forall|k: int| 0 <= k < producers@.len() ==> (#[trigger] outs@[k])@.len() == producers@[k].1@.len(),
                forall|k: int, x: int| 0 <= k < producers@.len() && 0 <= x < producers@[k].1@.len() ==> (#[trigger] outs@[k]@[x])@ == producers_view(producers@)[k].1[x],
                any == exists|k: int, x2: int| 0 <= k <= i && 0 <= x2 < prods[k].1.len() && (k < i || x2 < x)
                    && #[trigger] below_non_dir(prods, prods[k].1[x2]),
            decreases outs@[i as int]@.len() - x,
        {
            let ancestors = non_dir_ancestors(producers, &outs, &outs[i][x]);
            if ancestors.len() > 0 {
                any = true;
                if !holds_path(&done, &outs[i][x]) {
                    done.push(outs[i][x].clone());
                    let here = outs[i][x].clone();
                    let mut q: usize = 0;
                    while q < ancestors.len()
                        decreases ancestors.len() - q,
                    {
                        blocked.push((ancestors[q].clone(), here.clone()));
                        q += 1;
                    }
                }
            }
            x += 1;
        }
        i += 1;
    }
    if !any {
        return Ok(());
    }
    let mut message = String::new();
    append_str(&mut message, "extraction would write through a non-directory output\n");
    let mut k: usize = 0;
    while k < blocked.len() && k < 5
        decreases blocked.len() - k,
    {
        append_str(&mut message, "\n");
        let ancestor = crate::text::string_of(&blocked[k].0);
        append_str(&mut message, ancestor.as_str());
        append_str(&mut message, " is not a directory but is an ancestor of ");
        let path = crate::text::string_of(&blocked[k].1);
        append_str(&mut message, path.as_str());
        k += 1;
    }
    if blocked.len() > 5 {
        push_count(&mut message, "\n... and ", blocked.len() - 5, " more.");
    }
    append_str(&mut message, "\n\nNo files were written.");
    Err(plan_error(message))
}

/// Decides the output root from what a link-following probe saw: it may
/// itself be a symbolic link to a directory, and it need not exist yet
/// (planning never creates it). It only must not exist as a
/// non-directory.
pub fn check_output_root(out_dir: &str, kind: PathKind) -> (r: Result<(), Error>)
    ensures
        match kind {
            PathKind::Missing => r is Ok,
            PathKind::Directory => r is Ok,
            PathKind::Unreadable { message } => r matches Err(Error::Io { path, message: m })
                && path@ == out_dir@ && m@ == message@,
            _ => r matches Err(e) && e is ExtractionPlan,
        },
{
    match kind {
        PathKind::Missing => Ok(()),
        PathKind::Directory => Ok(()),
        PathKind::Unreadable { message } => Err(Error::Io { path: crate::text::string_of(&chars_of(out_dir)), message }),
        _ => {
            let mut message = String::new();
            append_str(&mut message, "output directory ");
            append_str(&mut message, out_dir);
            append_str(&mut message, " exists and is not a directory");
            Err(plan_error(message))
        },
    }
}

/// Decides an existing ancestor below the output root from what a probe
/// that does not follow links saw: it must be a real directory, or not
/// exist at all. A symbolic link (or regular or special file) ancestor
/// would redirect writes outside the output root.
pub fn check_ancestor(host: &str, kind: PathKind) -> (r: Result<(), Error>)
    ensures
        match kind {
            PathKind::Missing => r is Ok,
            PathKind::Directory => r is Ok,
            PathKind::Unreadable { message } => r matches Err(Error::Io { path, message: m })
                && path@ == host@ && m@ == message@,
            _ => r matches Err(e) && e is ExtractionPlan,
        },
{
    match kind {
        PathKind::Missing => Ok(()),
        PathKind::Directory => Ok(()),
        PathKind::Unreadable { message } => Err(Error::Io { path: crate::text::string_of(&chars_of(host)), message }),
        _ => {
            let mut message = String::new();
            append_str(&mut message, "extraction would write through an existing non-directory\n\n");
            append_str(&mut message, host);
            append_str(&mut message, " already exists and is not a plain directory\n\nNo files were written.");
            Err(plan_error(message))
        },
    }
}

/// What an existing planned output target means for the plan.
#[derive(Debug)]
pub enum OutputVerdict {
    /// Nothing is in the way: the target does not exist, or a directory
    /// output merges into an existing real directory.
    Clear,
    /// The target exists and the policy refuses to overwrite anything.
    Refused,
    /// An existing regular file will be replaced by a regular-file
    /// output.
    Replaces,
    /// The existing object can never be replaced by this output.
    Conflict {
        /// Why.
        message: String,
    },
    /// The target could not be inspected.
    Failed {
        /// The inspection failure.
        error: Error,
    },
}

/// Appends `subsystem: path` of an entry.
fn push_entry(message: &mut String, entry: &Entry)
    ensures
        final(message)@ == old(message)@ + dotted3(entry.subsystem@.0, entry.subsystem@.1, entry.subsystem@.2) + ": "@ + entry.path@,
{
    let subsystem = entry.subsystem.to_string();
    append_str(message, subsystem.as_str());
    append_str(message, ": ");
    append_str(message, entry.path.as_str());
}

/// Classifies one planned output target from what a probe that does not
/// follow links saw.
///
/// A directory output merging into an existing real directory is always
/// legal. Everything else depends on the policy:
/// [`ExistingOutputPolicy::Refuse`] rejects any existing target, while
/// [`ExistingOutputPolicy::Allow`] only permits a regular-file output
/// replacing an existing regular file — never a symbolic link in either
/// direction (a naive write would follow an existing link elsewhere, and
/// a symbolic link output replacing a file would change the object type
/// rather than overwrite contents), never a directory, never a special
/// file.
pub fn check_existing_output(host: &str, entry: &Entry, kind: PathKind, policy: ExistingOutputPolicy) -> (r: OutputVerdict)
    ensures
        match kind {
            PathKind::Unreadable { message } => r matches OutputVerdict::Failed { error: Error::Io { path, message: m } }
                && path@ == host@ && m@ == message@,
            PathKind::Missing => r is Clear,
            _ => if entry.file_type == FileType::Directory {
                if kind is Directory { r is Clear } else { r is Conflict }
            } else {
                match policy {
                    ExistingOutputPolicy::Refuse => r is Refused,
                    ExistingOutputPolicy::Allow => if kind is File && entry.file_type != FileType::SymbolicLink {
                        r is Replaces
                    } else {
                        r is Conflict
                    },
                }
            },
        },
{
    match kind {
        PathKind::Unreadable { message } => {
            return OutputVerdict::Failed { error: Error::Io { path: crate::text::string_of(&chars_of(host)), message } };
        },
        PathKind::Missing => {
            return OutputVerdict::Clear;
        },
        _ => {},
    }
    let mut message = String::new();
    append_str(&mut message, host);
    if entry.file_type == FileType::Directory {
        if let PathKind::Directory = kind {
            return OutputVerdict::Clear;
        }
        append_str(&mut message, " exists and is not a directory; the directory ");
        push_entry(&mut message, entry);
        append_str(&mut message, " cannot replace it");
        return OutputVerdict::Conflict { message };
    }
    match policy {
        ExistingOutputPolicy::Refuse => OutputVerdict::Refused,
        ExistingOutputPolicy::Allow => match kind {
            PathKind::Symlink => {
                append_str(&mut message, " is an existing symbolic link; refusing to follow it");
                OutputVerdict::Conflict { message }
            },
            PathKind::Directory => {
                append_str(&mut message, " is an existing directory; the non-directory ");
                push_entry(&mut message, entry);
                append_str(&mut message, " cannot replace it");
                OutputVerdict::Conflict { message }
            },
            PathKind::File => {
                if entry.file_type == FileType::SymbolicLink {
                    append_str(&mut message, " is an existing regular file; the symbolic link ");
                    push_entry(&mut message, entry);
                    append_str(&mut message, " cannot replace it");
                    OutputVerdict::Conflict { message }
                } else {
                    OutputVerdict::Replaces
                }
            },
            _ => {
                append_str(&mut message, " is an existing special file; refusing to replace it");
                OutputVerdict::Conflict { message }
            },
        },
    }
}

/// The number of outputs of a list of producers.
pub open spec fn total_outputs<'a>(prods: Seq<(LocatedEntry<'a>, Seq<Seq<char>>)>) -> nat
    decreases prods.len(),
{
    if prods.len() == 0 {
        0
    } else {
        total_outputs(prods.drop_last()) + prods.last().1.len()
    }
}

/// No entry projects to more than two outputs.
proof fn lemma_outputs_small(e: Entry, o: ExtractOptions)
    ensures
        outputs_spec(e, o) matches Some(ps) ==> ps.len() <= 2,
{
}

/// The producers are entries of the request whose keys the hardware check kept,
/// each with at most two outputs.
proof fn lemma_producers_shape<'a>(req: Seq<LocatedEntry<'a>>, gated: Seq<LocatedEntry<'a>>, o: ExtractOptions)
    requires
        producers_spec(req, gated, o) is Some,
    ensures
        ({
            let prods = producers_spec(req, gated, o)->0;
            &&& prods.len() <= req.len()
            &&& forall|i: int| 0 <= i < prods.len() ==> (#[trigger] prods[i]).1.len() <= 2
                && holds_key(gated, prods[i].0.key)
        }),
    decreases req.len(),
{
    if req.len() > 0 {
        lemma_producers_shape(req.drop_last(), gated, o);
        lemma_outputs_small(*req.last().entry, o);
    }
}

/// The hardware check keeps only entries whose keys the selection holds.
proof fn lemma_gated_selected<'a>(eff: Seq<LocatedEntry<'a>>, selected: Seq<LocatedEntry<'a>>)
    ensures
        forall|i: int| 0 <= i < gated_spec(eff, selected).len() ==> holds_key(selected, (#[trigger] gated_spec(eff, selected)[i]).key),
    decreases eff.len(),
{
    if eff.len() > 0 {
        lemma_gated_selected(eff.drop_last(), selected);
    }
}

/// Whether the probe, asked without following links about the host path
/// `host`, may answer `kind`.
pub open spec fn probe_saw<F: Fn(String, bool) -> PathKind>(probe: F, host: Seq<char>, kind: PathKind) -> bool {
    exists|s: String| s@ == host && #[trigger] probe.ensures((s, false), kind)
}

/// Whether `k` cuts the output path `p` at a `/` past its first
/// character, naming an ancestor of the output.
pub open spec fn ancestor_cut(p: Seq<char>, k: int) -> bool {
    1 <= k < p.len() && p[k] == '/'
}

/// The host path of the ancestor `p[..k]` of an output below `out_dir`.
pub open spec fn ancestor_host(out_dir: Seq<char>, p: Seq<char>, k: int) -> Seq<char> {
    crate::distribution::joined(out_dir, p.subrange(0, k))
}

/// Whether the probe may report the ancestor `p[..k]` of an output as a
/// real directory or as missing.
pub open spec fn ancestor_clear<F: Fn(String, bool) -> PathKind>(probe: F, out_dir: Seq<char>, p: Seq<char>, k: int) -> bool {
    exists|kind: PathKind| #[trigger] probe_saw(probe, ancestor_host(out_dir, p, k), kind)
        && (kind is Missing || kind is Directory)
}

/// The refusal of an ancestor at `host` that the probe reported as
/// `kind`.
pub open spec fn ancestor_error(host: Seq<char>, kind: PathKind, e: Error) -> bool {
    match kind {
        PathKind::Missing => false,
        PathKind::Directory => false,
        PathKind::Unreadable { message } => e matches Error::Io { path, message: m } && path@ == host && m@ == message@,
        _ => e is ExtractionPlan,
    }
}

/// Every output of the producers lies below the output root only through
/// real directories or paths that do not exist yet, as the probe sees
/// them.
fn preflight_existing_ancestors<'a, F: Fn(String, bool) -> PathKind>(
    out_dir: &str,
    producers: &Vec<(LocatedEntry<'a>, Vec<String>)>,
    probe: &F,
) -> (r: Result<(), Error>)
    requires
        forall|s: String, follow: bool| #[trigger] probe.requires((s, follow)),
    ensures
        r matches Err(e) ==> e is ExtractionPlan || e is Io,
        ({
            let prods = producers_view(producers@);
            &&& r is Ok ==> forall|i: int, x: int, k: int| 0 <= i < prods.len() && 0 <= x < prods[i].1.len()
                && ancestor_cut(prods[i].1[x], k) ==> #[trigger] ancestor_clear(*probe, out_dir@, prods[i].1[x], k)
            &&& r matches Err(e) ==> exists|i: int, x: int, k: int, kind: PathKind| 0 <= i < prods.len()
                && 0 <= x < prods[i].1.len() && ancestor_cut(prods[i].1[x], k)
                && #[trigger] probe_saw(*probe, ancestor_host(out_dir@, prods[i].1[x], k), kind)
                && ancestor_error(ancestor_host(out_dir@, prods[i].1[x], k), kind, e)
        }),
{
    let ghost prods = producers_view(producers@);
    let mut i: usize = 0;
    while i < producers.len()
        invariant
            i <= producers.len(),
            prods == producers_view(producers@),
            forall|s: String, follow: bool| #[trigger] probe.requires((s, follow)),
            forall|i2: int, x2: int, k: int| 0 <= i2 < i && 0 <= x2 < prods[i2].1.len()
                && ancestor_cut(prods[i2].1[x2], k) ==> #[trigger] ancestor_clear(*probe, out_dir@, prods[i2].1[x2], k),
        decreases producers.len() - i,
    {
        let paths = &producers[i].1;
        assert(prods[i as int].1 == paths_view(paths@));
        let mut x: usize = 0;
        while x < paths.len()
            invariant
                x <= paths.len(),
                i < producers@.len(),
                *paths == producers@[i as int].1,
                prods == producers_view(producers@),
                prods[i as int].1 == paths_view(paths@),
                forall|s: String, follow: bool| #[trigger] probe.requires((s, follow)),
                forall|i2: int, x2: int, k: int| 0 <= i2 < i && 0 <= x2 < prods[i2].1.len()
                    && ancestor_cut(prods[i2].1[x2], k) ==> #[trigger] ancestor_clear(*probe, out_dir@, prods[i2].1[x2], k),
                forall|x2: int, k: int| 0 <= x2 < x && ancestor_cut(prods[i as int].1[x2], k)
                    ==> #[trigger] ancestor_clear(*probe, out_dir@, prods[i as int].1[x2], k),
            decreases paths.len() - x,
        {
            let p = chars_of(paths[x].as_str());
            let ghost path = prods[i as int].1[x as int];
            assert(p@ == path);
            let mut k: usize = p.len();
            while k > 1
                invariant
                    k <= p@.len(),
                    p@ == path,
                    x < paths.len(),
                    i < producers@.len(),
                    prods == producers_view(producers@),
                    prods[i as int].1 == paths_view(paths@),
                    path == prods[i as int].1[x as int],
                    forall|s: String, follow: bool| #[trigger] probe.requires((s, follow)),
                    forall|k2: int| k <= k2 && ancestor_cut(path, k2) ==> #[trigger] ancestor_clear(*probe, out_dir@, path, k2),
                decreases k,
            {
                k -= 1;
                if p[k] == '/' {
                    let ancestor = crate::text::string_of(&crate::text::subvec(&p, 0, k));
                    let host = crate::distribution::join_path(out_dir, ancestor.as_str());
                    let kind = probe(host.clone(), false);
                    assert(host@ == ancestor_host(out_dir@, path, k as int));
                    assert(probe_saw(*probe, ancestor_host(out_dir@, path, k as int), kind));
                    match check_ancestor(host.as_str(), kind) {
                        Ok(()) => {
                            assert(ancestor_clear(*probe, out_dir@, path, k as int));
                        },
                        Err(e) => {
                            assert(ancestor_error(ancestor_host(out_dir@, path, k as int), kind, e));
                            assert(ancestor_cut(prods[i as int].1[x as int], k as int));
                            return Err(e);
                        },
                    }
                }
            }
            x += 1;
        }
        i += 1;
    }
    Ok(())
}

/// The totals of prefixes grow towards the whole, one producer at a
/// time.
proof fn lemma_total_prefix<'a>(prods: Seq<(LocatedEntry<'a>, Seq<Seq<char>>)>, n: int)
    requires
        0 <= n <= prods.len(),
    ensures
        total_outputs(prods.take(n)) <= total_outputs(prods),
        n < prods.len() ==> total_outputs(prods.take(n + 1)) == total_outputs(prods.take(n)) + prods[n].1.len(),
    decreases prods.len() - n,
{
    if n < prods.len() {
        assert(prods.take(n + 1).drop_last() =~= prods.take(n));
        lemma_total_prefix(prods, n + 1);
    } else {
        assert(prods.take(n) =~= prods);
    }
}

/// With at most two outputs per producer, the total is at most twice
/// the number of producers.
proof fn lemma_total_bound<'a>(prods: Seq<(LocatedEntry<'a>, Seq<Seq<char>>)>)
    requires
        forall|i: int| 0 <= i < prods.len() ==> (#[trigger] prods[i]).1.len() <= 2,
    ensures
        total_outputs(prods) <= 2 * prods.len(),
    decreases prods.len(),
{
    if prods.len() > 0 {
        lemma_total_bound(prods.drop_last());
    }
}

/// The host path of output `x` of producer `i`.
pub open spec fn output_host<'a>(out_dir: Seq<char>, prods: Seq<(LocatedEntry<'a>, Seq<Seq<char>>)>, i: int, x: int) -> Seq<char> {
    crate::distribution::joined(out_dir, prods[i].1[x])
}

/// An output of `e` whose target the probe reported as `kind` needs no
/// change: nothing is there, or a directory output meets a directory.
pub open spec fn output_clear(e: Entry, kind: PathKind) -> bool {
    kind is Missing || (e.file_type == FileType::Directory && kind is Directory)
}

/// An output of `e` whose target the probe reported as `kind` replaces
/// an existing regular file, as the policy allows.
pub open spec fn output_replaces(e: Entry, kind: PathKind, policy: ExistingOutputPolicy) -> bool {
    &&& policy is Allow
    &&& kind is File
    &&& e.file_type != FileType::Directory
    &&& e.file_type != FileType::SymbolicLink
}

/// The refusal of an output of `e` at `host` that the probe reported as
/// `kind`: an inspection failure, or a target the policy forbids
/// touching.
pub open spec fn output_error(host: Seq<char>, e: Entry, kind: PathKind, policy: ExistingOutputPolicy, err: Error) -> bool {
    match kind {
        PathKind::Unreadable { message } => err matches Error::Io { path, message: m } && path@ == host && m@ == message@,
        _ => !output_clear(e, kind) && !output_replaces(e, kind, policy) && err is ExtractionPlan,
    }
}

/// How many of the answers for the outputs of `e` replace a file.
pub open spec fn replaced_in(e: Entry, row: Seq<PathKind>, policy: ExistingOutputPolicy) -> nat
    decreases row.len(),
{
    if row.len() == 0 {
        0
    } else {
        replaced_in(e, row.drop_last(), policy) + if output_replaces(e, row.last(), policy) { 1nat } else { 0nat }
    }
}

/// How many of the answers for the outputs of the first `n` producers
/// replace a file.
pub open spec fn replaced_total<'a>(prods: Seq<(LocatedEntry<'a>, Seq<Seq<char>>)>, ks: Seq<Seq<PathKind>>, policy: ExistingOutputPolicy, n: int) -> nat
    decreases n,
{
    if n <= 0 {
        0
    } else {
        replaced_total(prods, ks, policy, n - 1) + replaced_in(*prods[n - 1].0.entry, ks[n - 1], policy)
    }
}

/// Whether `ks` holds, for every output of the producers, an answer the
/// probe may give for its target, and every such answer is clear or a
/// permitted replacement.
pub open spec fn outputs_accepted<'a, F: Fn(String, bool) -> PathKind>(
    probe: F,
    out_dir: Seq<char>,
    prods: Seq<(LocatedEntry<'a>, Seq<Seq<char>>)>,
    ks: Seq<Seq<PathKind>>,
    policy: ExistingOutputPolicy,
) -> bool {
    &&& ks.len() == prods.len()
    &&& forall|i: int| 0 <= i < prods.len() ==> (#[trigger] ks[i]).len() == prods[i].1.len()
    &&& forall|i: int, x: int| 0 <= i < prods.len() && 0 <= x < prods[i].1.len() ==> {
        &&& probe_saw(probe, output_host(out_dir, prods, i, x), #[trigger] ks[i][x])
        &&& (output_clear(*prods[i].0.entry, ks[i][x]) || output_replaces(*prods[i].0.entry, ks[i][x], policy))
    }
}

/// Adding answers for further producers leaves the count over the first
/// `n` unchanged.
proof fn lemma_replaced_total_prefix<'a>(prods: Seq<(LocatedEntry<'a>, Seq<Seq<char>>)>, ks: Seq<Seq<PathKind>>, row: Seq<PathKind>, policy: ExistingOutputPolicy, n: int)
    requires
        n <= ks.len(),
    ensures
        replaced_total(prods, ks.push(row), policy, n) == replaced_total(prods, ks, policy, n),
    decreases n,
{
    if n > 0 {
        lemma_replaced_total_prefix(prods, ks, row, policy, n - 1);
        assert(ks.push(row)[n - 1] == ks[n - 1]);
    }
}

/// Classifies every planned output target that already exists, as the
/// probe sees it, and returns how many existing regular files will be
/// replaced.
///
/// An inspection failure refuses at once; otherwise any conflict, and
/// then any existing target the policy refuses to overwrite, refuses
/// the plan.
fn preflight_existing_outputs<'a, F: Fn(String, bool) -> PathKind>(
    out_dir: &str,
    producers: &Vec<(LocatedEntry<'a>, Vec<String>)>,
    policy: ExistingOutputPolicy,
    probe: &F,
) -> (r: Result<usize, Error>)
    requires
        forall|s: String, follow: bool| #[trigger] probe.requires((s, follow)),
        total_outputs(producers_view(producers@)) <= usize::MAX,
    ensures
        r matches Ok(n) ==> n <= total_outputs(producers_view(producers@)),
        r matches Err(e) ==> e is ExtractionPlan || e is Io,
        ({
            let prods = producers_view(producers@);
            &&& r matches Ok(n) ==> exists|ks: Seq<Seq<PathKind>>| #[trigger] outputs_accepted(*probe, out_dir@, prods, ks, policy)
                && n == replaced_total(prods, ks, policy, prods.len() as int)
            &&& r matches Err(e) ==> exists|i: int, x: int, kind: PathKind| 0 <= i < prods.len() && 0 <= x < prods[i].1.len()
                && #[trigger] probe_saw(*probe, output_host(out_dir@, prods, i, x), kind)
                && output_error(output_host(out_dir@, prods, i, x), *prods[i].0.entry, kind, policy, e)
        }),
{
    let ghost prods = producers_view(producers@);
    let mut overwrites: Vec<String> = Vec::new();
    let mut conflicts: Vec<String> = Vec::new();
    let mut existing_regular: usize = 0;
    let ghost mut ks: Seq<Seq<PathKind>> = Seq::empty();
    let mut i: usize = 0;
    while i < producers.len()
        invariant
            i <= producers.len(),
            prods == producers_view(producers@),
            forall|s: String, follow: bool| #[trigger] probe.requires((s, follow)),
            total_outputs(prods) <= usize::MAX,
            existing_regular <= total_outputs(prods.take(i as int)),
            ks.len() == i,
            existing_regular == replaced_total(prods, ks, policy, i as int),
            forall|i2: int| 0 <= i2 < i ==> (#[trigger] ks[i2]).len() == prods[i2].1.len(),
            forall|i2: int, x2: int| 0 <= i2 < i && 0 <= x2 < prods[i2].1.len()
                ==> probe_saw(*probe, output_host(out_dir@, prods, i2, x2), #[trigger] ks[i2][x2]),
            conflicts.len() == 0 && overwrites.len() == 0 ==> forall|i2: int, x2: int| 0 <= i2 < i && 0 <= x2 < prods[i2].1.len()
                ==> output_clear(*prods[i2].0.entry, #[trigger] ks[i2][x2]) || output_replaces(*prods[i2].0.entry, ks[i2][x2], policy),
            conflicts.len() > 0 || overwrites.len() > 0 ==> exists|i2: int, x2: int, kind: PathKind| 0 <= i2 < prods.len() && 0 <= x2 < prods[i2].1.len()
                && #[trigger] probe_saw(*probe, output_host(out_dir@, prods, i2, x2), kind)
                && !(kind is Unreadable) && !output_clear(*prods[i2].0.entry, kind) && !output_replaces(*prods[i2].0.entry, kind, policy),
        decreases producers.len() - i,
    {
        proof {
            lemma_total_prefix(prods, i as int);
            lemma_total_prefix(prods, i as int + 1);
        }
        let entry = producers[i].0.entry;
        let paths = &producers[i].1;
        let ghost mut row: Seq<PathKind> = Seq::empty();
        let mut x: usize = 0;
        while x < paths.len()
            invariant
                x <= paths.len(),
                i < producers@.len(),
                *paths == producers@[i as int].1,
                prods == producers_view(producers@),
                prods[i as int].1 == paths_view(paths@),
                *entry == *prods[i as int].0.entry,
                forall|s: String, follow: bool| #[trigger] probe.requires((s, follow)),
                total_outputs(prods.take(i as int + 1)) == total_outputs(prods.take(i as int)) + prods[i as int].1.len(),
                total_outputs(prods.take(i as int + 1)) <= usize::MAX,
                existing_regular <= total_outputs(prods.take(i as int)) + x,
                ks.len() == i,
                row.len() == x,
                existing_regular == replaced_total(prods, ks, policy, i as int) + replaced_in(*entry, row, policy),
                forall|i2: int| 0 <= i2 < i ==> (#[trigger] ks[i2]).len() == prods[i2].1.len(),
                forall|i2: int, x2: int| 0 <= i2 < i && 0 <= x2 < prods[i2].1.len()
                    ==> probe_saw(*probe, output_host(out_dir@, prods, i2, x2), #[trigger] ks[i2][x2]),
                forall|x2: int| 0 <= x2 < x ==> probe_saw(*probe, output_host(out_dir@, prods, i as int, x2), #[trigger] row[x2]),
                conflicts.len() == 0 && overwrites.len() == 0 ==> forall|i2: int, x2: int| 0 <= i2 < i && 0 <= x2 < prods[i2].1.len()
                    ==> output_clear(*prods[i2].0.entry, #[trigger] ks[i2][x2]) || output_replaces(*prods[i2].0.entry, ks[i2][x2], policy),
                conflicts.len() == 0 && overwrites.len() == 0 ==> forall|x2: int| 0 <= x2 < x
                    ==> output_clear(*entry, #[trigger] row[x2]) || output_replaces(*entry, row[x2], policy),
                conflicts.len() > 0 || overwrites.len() > 0 ==> exists|i2: int, x2: int, kind: PathKind| 0 <= i2 < prods.len() && 0 <= x2 < prods[i2].1.len()
                    && #[trigger] probe_saw(*probe, output_host(out_dir@, prods, i2, x2), kind)
                    && !(kind is Unreadable) && !output_clear(*prods[i2].0.entry, kind) && !output_replaces(*prods[i2].0.entry, kind, policy),
            decreases paths.len() - x,
        {
            let host = crate::distribution::join_path(out_dir, paths[x].as_str());
            let kind = probe(host.clone(), false);
            assert(host@ == output_host(out_dir@, prods, i as int, x as int));
            assert(probe_saw(*probe, output_host(out_dir@, prods, i as int, x as int), kind));
            let ghost before = row;
            proof {
                row = row.push(kind);
                assert(row.drop_last() =~= before);
            }
            match check_existing_output(host.as_str(), entry, kind, policy) {
                OutputVerdict::Clear => {},
                OutputVerdict::Refused => {
                    overwrites.push(host);
                },
                OutputVerdict::Replaces => {
                    existing_regular = existing_regular + 1;
                },
                OutputVerdict::Conflict { message } => {
                    conflicts.push(message);
                },
                OutputVerdict::Failed { error } => {
                    assert(output_error(output_host(out_dir@, prods, i as int, x as int), *prods[i as int].0.entry, kind, policy, error));
                    return Err(error);
                },
            }
            x += 1;
        }
        proof {
            lemma_replaced_total_prefix(prods, ks, row, policy, i as int);
            let old_ks = ks;
            ks = ks.push(row);
            assert(ks[i as int] == row);
            assert forall|i2: int| 0 <= i2 < i + 1 implies (#[trigger] ks[i2]).len() == prods[i2].1.len() by {
                if i2 < i {
                    assert(ks[i2] == old_ks[i2]);
                }
            }
            assert forall|i2: int, x2: int| 0 <= i2 < i + 1 && 0 <= x2 < prods[i2].1.len()
                implies probe_saw(*probe, output_host(out_dir@, prods, i2, x2), #[trigger] ks[i2][x2]) by {
                if i2 < i {
                    assert(ks[i2] == old_ks[i2]);
                }
            }
            if conflicts.len() == 0 && overwrites.len() == 0 {
                assert forall|i2: int, x2: int| 0 <= i2 < i + 1 && 0 <= x2 < prods[i2].1.len()
                    implies output_clear(*prods[i2].0.entry, #[trigger] ks[i2][x2]) || output_replaces(*prods[i2].0.entry, ks[i2][x2], policy) by {
                    if i2 < i {
                        assert(ks[i2] == old_ks[i2]);
                    }
                }
            }
        }
        i += 1;
    }
    proof {
        assert(prods.take(prods.len() as int) =~= prods);
    }
    if conflicts.len() > 0 {
        let mut message = String::new();
        append_str(&mut message, "extraction conflicts with existing filesystem objects\n");
        let mut k: usize = 0;
        while k < conflicts.len() && k < 5
            decreases conflicts.len() - k,
        {
            append_str(&mut message, "\n");
            append_str(&mut message, conflicts[k].as_str());
            k += 1;
        }
        if conflicts.len() > 5 {
            push_count(&mut message, "\n... and ", conflicts.len() - 5, " more.");
        }
        append_str(&mut message, "\n\nNo files were written.");
        return Err(plan_error(message));
    }
    if overwrites.len() > 0 {
        let mut message = String::new();
        append_str(&mut message, "extraction would overwrite existing files\n");
        let mut k: usize = 0;
        while k < overwrites.len() && k < 5
            decreases overwrites.len() - k,
        {
            append_str(&mut message, "\n");
            append_str(&mut message, overwrites[k].as_str());
            k += 1;
        }
        if overwrites.len() > 5 {
            push_count(&mut message, "\n... and ", overwrites.len() - 5, " more.");
        }
        append_str(&mut message, "\n\nNo files were written.");
        return Err(plan_error(message));
    }
    assert(outputs_accepted(*probe, out_dir@, prods, ks, policy));
    Ok(existing_regular)
}

/// The entries of a list of producers.
pub open spec fn producer_entries<'a>(prods: Seq<(LocatedEntry<'a>, Seq<Seq<char>>)>) -> Seq<LocatedEntry<'a>> {
    prods.map_values(|p: (LocatedEntry<'a>, Seq<Seq<char>>)| p.0)
}

/// A plan carries exactly the producers of the gated entries, in
/// requested order, passes the output checks, and counts consistently.
pub open spec fn plan_matches<'a>(
    req: Seq<LocatedEntry<'a>>,
    gated: Seq<LocatedEntry<'a>>,
    o: ExtractOptions,
    plan: ExtractionPlan<'a>,
) -> bool {
    &&& producers_spec(req, gated, o) is Some
    &&& ({
        let prods = producers_spec(req, gated, o)->0;
        &&& plan.entries@ == producer_entries(prods)
        &&& !collides(prods)
        &&& !maps_to_root(prods)
        &&& !through_non_dir(prods)
        &&& plan.summary.requested_records == req.len()
        &&& plan.summary.planned_records == prods.len()
        &&& plan.summary.output_paths == total_outputs(prods)
        &&& plan.summary.existing_outputs <= plan.summary.output_paths
    })
}

/// The entry a key identifies exists, has a parsed (or no) `mach`, and
/// its own `mach` admits the target.
pub open spec fn key_selectable(ps: Seq<Product>, k: EntryKey, profile: Map<Seq<char>, Set<Seq<char>>>) -> bool {
    &&& k.product_index < ps.len()
    &&& k.entry_id.0 < ps[k.product_index as int].entries@.len()
    &&& !has_unparsed(ps[k.product_index as int].entries@[k.entry_id.0 as int].attrs())
    &&& entry_admits(ps[k.product_index as int].entries@[k.entry_id.0 as int], profile)
}

/// Plans an extraction without writing anything.
///
/// `requested` is the frontend's scope already resolved to concrete
/// entries. `probe` reports what exists on the host at a path, following
/// symbolic links when its flag is set; planning calls it on the output
/// root (following links), on every existing ancestor of a planned
/// output below the root, and on every planned output (not following
/// links). All refusals are [`Error::ExtractionPlan`] except static
/// projection errors ([`Error::UnsafePath`], [`Error::PayloadNotFound`])
/// and inspection failures ([`Error::Io`]).
///
/// Without a profile, the plan is refused exactly when the effective
/// scope is empty or ambiguous, when a surviving entry cannot be
/// projected, or when the outputs collide or would be written through a
/// non-directory; the host checks may refuse it besides. With a profile,
/// only entries the hardware selection keeps are planned.
pub fn plan_extraction<'a, F: Fn(String, bool) -> PathKind>(
    distribution: &'a Distribution,
    requested: &[LocatedEntry<'a>],
    out_dir: &str,
    options: &ExtractOptions,
    profile: Option<&HardwareProfile>,
    probe: &F,
) -> (r: Result<ExtractionPlan<'a>, Error>)
    requires
        requested@.len() <= usize::MAX / 2,
        forall|s: String, follow: bool| #[trigger] probe.requires((s, follow)),
    ensures
        effective_spec(requested@, *options).len() == 0 ==> r is Err,
        profile is None ==> {
            let eff = effective_spec(requested@, *options);
            let ps = distribution.products_spec();
            &&& (ambiguous(eff) || unparsed_in(eff) || unknown_in(ps, eff)) ==> r is Err
            &&& (producers_spec(requested@, eff, *options) matches Some(prods)
                && (collides(prods) || maps_to_root(prods) || through_non_dir(prods))) ==> r is Err
            &&& (eff.len() > 0 && !ambiguous(eff) && !unparsed_in(eff) && !unknown_in(ps, eff)
                && producers_spec(requested@, eff, *options) is None)
                ==> (r matches Err(e) && (e is UnsafePath || e is PayloadNotFound))
            &&& r matches Ok(plan) ==> {
                &&& eff.len() > 0
                &&& !ambiguous(eff) && !unparsed_in(eff) && !unknown_in(ps, eff)
                &&& plan_matches(requested@, eff, *options, plan)
                &&& plan.summary.omitted_records == requested@.len() - eff.len()
                &&& plan.summary.hardware_excluded_records == 0
            }
        },
        match (profile, r) {
            (Some(pr), Ok(plan)) => {
                let eff = effective_spec(requested@, *options);
                let ps = distribution.products_spec();
                &&& eff.len() > 0
                &&& plan.summary.omitted_records == requested@.len() - eff.len()
                &&& exists|g: Seq<LocatedEntry<'a>>| {
                    &&& 0 < g.len() <= eff.len()
                    &&& plan_matches(requested@, g, *options, plan)
                    &&& plan.summary.hardware_excluded_records == eff.len() - g.len()
                    &&& exists|sel: Seq<LocatedEntry<'a>>| g == #[trigger] gated_spec(eff, sel)
                }
                &&& forall|q: int| 0 <= q < plan.entries@.len() ==> key_selectable(ps, (#[trigger] plan.entries@[q]).key, pr@)
            },
            _ => true,
        },
        r matches Err(e) ==> e is ExtractionPlan || e is Io || e is UnsafePath || e is PayloadNotFound,
{
    let effective = effective_entries(requested, options);
    proof {
        lemma_effective_len(requested@, *options);
    }
    if effective.len() == 0 {
        let mut message = String::new();
        append_str(&mut message, "no entries in the requested scope produce output with the given options");
        return Err(plan_error(message));
    }
    let effective_len = effective.len();
    let ghost ps = distribution.products_spec();
    let (gated, hardware_excluded) = match profile {
        Some(profile) => {
            let selection = distribution.select(profile);
            let (g, n) = gate_with_selection(effective.as_slice(), &selection)?;
            proof {
                lemma_gated_selected(effective@, selection.selected@);
                assert forall|q: int| 0 <= q < g@.len() implies key_selectable(ps, (#[trigger] g@[q]).key, profile@) by {
                    assert(holds_key(selection.selected@, g@[q].key));
                    let w = choose|w: int| 0 <= w < selection.selected@.len() && (#[trigger] selection.selected@[w]).key == g@[q].key;
                    let l = selection.selected@[w];
                    assert(crate::selection::sound_entry(l, l.key.product_index, ps[l.key.product_index as int], profile@));
                }
            }
            (g, n)
        },
        None => {
            gate_without_profile(distribution.products(), effective.as_slice())?;
            (effective, 0)
        },
    };
    assert(profile is Some ==> {
        &&& 0 < gated@.len() <= effective_len
        &&& hardware_excluded == effective_len - gated@.len()
        &&& forall|q: int| 0 <= q < gated@.len() ==> key_selectable(ps, (#[trigger] gated@[q]).key, profile.unwrap()@)
    });
    let producers = producers(requested, gated.as_slice(), options)?;
    let ghost prods = producers_view(producers@);
    proof {
        lemma_producers_shape(requested@, gated@, *options);
        lemma_total_bound(prods);
    }
    preflight_output_collisions(&producers)?;
    preflight_output_topology(&producers)?;
    let root_host = crate::text::string_of(&chars_of(out_dir));
    let root = probe(root_host, true);
    check_output_root(out_dir, root)?;
    preflight_existing_ancestors(out_dir, &producers, probe)?;
    let existing_outputs = preflight_existing_outputs(out_dir, &producers, options.existing_output, probe)?;
    let mut entries: Vec<LocatedEntry<'a>> = Vec::new();
    let mut output_count: usize = 0;
    let mut i: usize = 0;
    while i < producers.len()
        invariant
            i <= producers.len(),
            prods == producers_view(producers@),
            total_outputs(prods) <= usize::MAX,
            output_count == total_outputs(prods.take(i as int)),
            entries@ == producer_entries(prods.take(i as int)),
        decreases producers.len() - i,
    {
        proof {
            lemma_total_prefix(prods, i as int);
            lemma_total_prefix(prods, i as int + 1);
            assert(producer_entries(prods.take(i as int + 1)) =~= producer_entries(prods.take(i as int)).push(prods[i as int].0));
        }
        entries.push(producers[i].0);
        output_count = output_count + producers[i].1.len();
        i += 1;
    }
    proof {
        assert(prods.take(prods.len() as int) =~= prods);
    }
    let planned_records = entries.len();
    let requested_records = requested.len();
    let omitted_records = requested.len() - effective_len;
    let plan = ExtractionPlan {
        entries,
        summary: ExtractionPlanSummary {
            requested_records,
            omitted_records,
            hardware_excluded_records: hardware_excluded,
            planned_records,
            output_paths: output_count,
            existing_outputs,
        },
    };
    proof {
        assert(plan_matches(requested@, gated@, *options, plan));
        if profile is Some {
            assert forall|q: int| 0 <= q < plan.entries@.len() implies key_selectable(ps, (#[trigger] plan.entries@[q]).key, profile.unwrap()@) by {
                assert(plan.entries@[q] == prods[q].0);
                assert(holds_key(gated@, prods[q].0.key));
                let w = choose|w: int| 0 <= w < gated@.len() && (#[trigger] gated@[w]).key == prods[q].0.key;
                assert(key_selectable(ps, gated@[w].key, profile.unwrap()@));
            }
        }
    }
    Ok(plan)
}


/// The static reasons a plan without a hardware profile is refused:
/// nothing effective, ambiguity or undecidable hardware restrictions in
/// the effective scope, an entry that cannot be projected, or outputs
/// that collide or would be written through a non-directory.
pub open spec fn refused_without_profile<'a>(ps: Seq<Product>, req: Seq<LocatedEntry<'a>>, o: ExtractOptions) -> bool {
    let eff = effective_spec(req, o);
    ||| eff.len() == 0
    ||| ambiguous(eff) || unparsed_in(eff) || unknown_in(ps, eff)
    ||| producers_spec(req, eff, o) is None
    ||| (producers_spec(req, eff, o) matches Some(prods)
        && (collides(prods) || maps_to_root(prods) || through_non_dir(prods)))
}

/// Whether `es` are the entries a plan of `req` keeps after the check
/// that kept `gated`, and `summary` counts them.
pub open spec fn entries_planned<'a>(
    req: Seq<LocatedEntry<'a>>,
    gated: Seq<LocatedEntry<'a>>,
    o: ExtractOptions,
    es: Seq<LocatedEntry<'a>>,
    summary: ExtractionPlanSummary,
) -> bool {
    &&& producers_spec(req, gated, o) is Some
    &&& es == producer_entries(producers_spec(req, gated, o)->0)
    &&& summary.requested_records == req.len()
    &&& summary.planned_records == es.len()
    &&& summary.output_paths == total_outputs(producers_spec(req, gated, o)->0)
}

/// Whether `c` reports an extraction of exactly the entries a plan of
/// `req` kept, in order, by a reader over `d`: every entry written,
/// skipped or failed as [`crate::extract::outcomes_hold`] says, the
/// extracted count and the failures (path and message) as they came.
pub open spec fn checked_run<'a, F: Fn(&str, u64, usize) -> Result<Vec<u8>, Error>, W: Fn(HostWrite) -> Result<(), Error>>(
    read: F,
    write: W,
    d: Distribution,
    req: Seq<LocatedEntry<'a>>,
    out_dir: Seq<char>,
    o: ExtractOptions,
    c: CheckedExtractReport,
) -> bool {
    exists|g: Seq<LocatedEntry<'a>>, es: Seq<LocatedEntry<'a>>, rd: crate::image::reader::ImageReader<'a>, outs: Seq<Result<bool, Error>>|
        #![trigger entries_planned(req, g, o, es, c.plan), crate::extract::outcomes_hold(read, write, rd, es, out_dir, o, outs)]
        entries_planned(req, g, o, es, c.plan)
        && rd.distribution_spec() == d
        && crate::extract::outcomes_hold(read, write, rd, es, out_dir, o, outs)
        && c.report.extracted == crate::extract::written_count(outs, outs.len() as int)
        && crate::extract::failures_view(c.report.failures@) == crate::extract::failures_of(es, outs, outs.len() as int)
        && (o.continue_on_error ==> outs.len() == es.len())
}

/// Plans the extraction and, when the plan is confirmed, executes it
/// with the plan's entries through a fresh image reader.
///
/// The plan is made immediately before writing, so every fail-safe check
/// of [`plan_extraction`] applies; a refused plan writes nothing.
pub fn extract_checked<
    'a,
    P: Fn(String, bool) -> PathKind,
    F: Fn(&str, u64, usize) -> Result<Vec<u8>, Error>,
    W: Fn(HostWrite) -> Result<(), Error>,
>(
    distribution: &'a Distribution,
    requested: &[LocatedEntry<'a>],
    out_dir: &str,
    options: &ExtractOptions,
    profile: Option<&HardwareProfile>,
    probe: &P,
    read: &F,
    write: &W,
) -> (r: Result<CheckedExtractReport, Error>)
    requires
        requested@.len() <= usize::MAX / 2,
        forall|s: String, follow: bool| #[trigger] probe.requires((s, follow)),
        reads_exactly(*read),
        forall|op: HostWrite| #[trigger] write.requires((op,)),
    ensures
        effective_spec(requested@, *options).len() == 0 ==> r is Err,
        profile is None && refused_without_profile(distribution.products_spec(), requested@, *options) ==> r is Err,
        r matches Err(e) ==> e is ExtractionPlan || e is Io || e is UnsafePath || e is PayloadNotFound,
        r matches Ok(c) ==> {
            &&& c.plan.requested_records == requested@.len()
            &&& c.report.extracted + c.report.skipped + c.report.failures@.len() <= c.plan.planned_records
            &&& options.continue_on_error ==> c.report.extracted + c.report.skipped + c.report.failures@.len()
                == c.plan.planned_records
            &&& checked_run(*read, *write, *distribution, requested@, out_dir@, *options, c)
        },
{
    let plan = match plan_extraction(distribution, requested, out_dir, options, profile, probe) {
        Ok(p) => p,
        Err(e) => {
            return Err(e);
        },
    };
    let ghost gated: Seq<LocatedEntry<'a>> = if profile is None {
        effective_spec(requested@, *options)
    } else {
        choose|g: Seq<LocatedEntry<'a>>| {
            &&& 0 < g.len() <= effective_spec(requested@, *options).len()
            &&& plan_matches(requested@, g, *options, plan)
            &&& plan.summary.hardware_excluded_records == effective_spec(requested@, *options).len() - g.len()
        }
    };
    proof {
        let eff = effective_spec(requested@, *options);
        if profile is None {
            assert(plan_matches(requested@, eff, *options, plan));
        } else {
            let g = choose|g: Seq<LocatedEntry<'a>>| {
                &&& 0 < g.len() <= eff.len()
                &&& plan_matches(requested@, g, *options, plan)
                &&& plan.summary.hardware_excluded_records == eff.len() - g.len()
            };
            assert(plan_matches(requested@, g, *options, plan));
        }
    }
    assert(plan_matches(requested@, gated, *options, plan));
    let mut reader = distribution.image_reader();
    let ghost rd = reader;
    let report = extract(&mut reader, read, write, plan.entries.as_slice(), out_dir, options);
    assert(plan.entries@.len() == plan.summary.planned_records);
    assert(entries_planned(requested@, gated, *options, plan.entries@, plan.summary));
    let ghost outs = choose|outs: Seq<Result<bool, Error>>| #[trigger] crate::extract::outcomes_hold(*read, *write, rd, plan.entries@, out_dir@, *options, outs)
        && report.extracted == crate::extract::written_count(outs, outs.len() as int)
        && crate::extract::failures_view(report.failures@) == crate::extract::failures_of(plan.entries@, outs, outs.len() as int)
        && (options.continue_on_error || report.failures@.len() == 0 ==> outs.len() == plan.entries@.len());
    assert(crate::extract::outcomes_hold(*read, *write, rd, plan.entries@, out_dir@, *options, outs));
    let c = CheckedExtractReport { plan: plan.summary, report };
    assert(entries_planned(requested@, gated, *options, plan.entries@, c.plan));
    assert(checked_run(*read, *write, *distribution, requested@, out_dir@, *options, c));
    Ok(c)
}

} // verus!
