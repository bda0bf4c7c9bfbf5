//! Hardware-based entry selection, approximating what `inst` installs.
//!
//! An entry applies to a target only when the hardware expressions of
//! every level above it match:
//!
//! ```text
//! Product MACH && Image MACH && Subsystem MACH && Entry MACH
//! ```
//!
//! (multiple expressions on the same level are OR-ed). The descriptor is
//! the source of all three hierarchy levels; a level whose expressions
//! are not decoded (`None`, which only happens without a descriptor
//! record) is *unknown*, not "no restriction", and is therefore not used
//! to exclude anything. Within one subsystem, several entries may share
//! a path: a matching mach-specific entry wins over the mach-less
//! fallback.
//!
//! Evaluation is fail-safe: a level whose expressions could not be
//! parsed reports [`Applicability::Unknown`], and the affected entries
//! are reported as unresolved conflicts instead of being silently
//! selected (fail-open) or dropped (fail-closed data loss).
//!
//! Ambiguities are reported through [`SelectionConflict`] *and* the
//! candidates stay in `selected`, so nothing silently disappears; it is
//! the caller's job to resolve or reject conflicts before extraction.
//! Entries whose `mach` attribute could not be parsed are the exception:
//! their applicability is unknown, so they are reported as conflicts but
//! never selected.
use vstd::prelude::*;
use crate::descriptor::model::{restrictions_applicability, Applicability, HardwareRestrictions};
use crate::descriptor::model::Subsystem;
use crate::distribution::{EntryKey, LocatedEntry, Product};
use crate::image::Image;
use crate::idb::{has_unparsed, mach_attrs, Entry, EntryId};
use crate::mach::eval::{any_expr_matches, any_matches, HardwareProfile};
use crate::path::IrixPath;

verus! {

/// Several entries claim the same path and the selection rules cannot
/// pick between them, or the applicability of the candidates could not
/// be determined.
#[derive(Debug)]
pub struct SelectionConflict<'a> {
    /// The contested path.
    pub path: IrixPath,
    /// The competing candidates.
    pub candidates: Vec<LocatedEntry<'a>>,
}

/// The result of selecting the entries applicable to a target.
#[derive(Debug)]
pub struct EntrySelection<'a> {
    /// Entries that would be installed, in IDB order. Conflict
    /// candidates are included; check `conflicts` before extracting.
    pub selected: Vec<LocatedEntry<'a>>,
    /// Paths with ambiguous or unresolvable candidates.
    pub conflicts: Vec<SelectionConflict<'a>>,
}

/// What a hierarchy level's restrictions say of a target; a level
/// without decoded restrictions excludes nothing.
pub open spec fn level_applicability(mach: Option<HardwareRestrictions>, profile: Map<Seq<char>, Set<Seq<char>>>) -> Applicability {
    match mach {
        Some(r) => restrictions_applicability(r.expressions@, r.unresolved@.len(), profile),
        None => Applicability::Match,
    }
}

/// Evaluates a hierarchy level's hardware restrictions for the target.
///
/// `None` means the level has no descriptor record (its applicability
/// is unknown to us); the established policy is to not exclude anything
/// on that basis.
fn applicability(mach: &Option<HardwareRestrictions>, profile: &HardwareProfile) -> (r: Applicability)
    ensures
        r == level_applicability(*mach, profile@),
{
    match mach {
        Some(restrictions) => restrictions.evaluate(profile),
        None => Applicability::Match,
    }
}

/// Whether an entry's own `mach` expressions admit the target: it has
/// none (a fallback) or one of them matches.
pub open spec fn entry_admits(e: Entry, profile: Map<Seq<char>, Set<Seq<char>>>) -> bool {
    mach_attrs(e.attributes@).len() == 0 || any_expr_matches(mach_attrs(e.attributes@), profile)
}

/// Whether every located entry belongs to product `index`.
pub open spec fn owned_by<'a>(v: Seq<LocatedEntry<'a>>, index: usize, product: Product) -> bool {
    forall|q: int| 0 <= q < v.len() ==> {
        &&& (#[trigger] v[q]).key.product_index == index
        &&& v[q].key.entry_id.0 < product.entries@.len()
        &&& *v[q].entry == product.entries@[v[q].key.entry_id.0 as int]
    }
}

/// Whether every conflict's candidates belong to product `index`.
pub open spec fn conflicts_owned_by<'a>(v: Seq<SelectionConflict<'a>>, index: usize, product: Product) -> bool {
    forall|q: int| 0 <= q < v.len() ==> owned_by((#[trigger] v[q]).candidates@, index, product)
}

/// The keys of located entries.
pub open spec fn keys_of<'a>(v: Seq<LocatedEntry<'a>>) -> Seq<EntryKey> {
    v.map_values(|l: LocatedEntry<'a>| l.key)
}

/// A conflict as its path and the keys of its candidates.
pub open spec fn conflict_view<'a>(c: SelectionConflict<'a>) -> (Seq<char>, Seq<EntryKey>) {
    (c.path@, keys_of(c.candidates@))
}

/// Conflicts as paths and candidate keys.
pub open spec fn conflicts_view<'a>(cs: Seq<SelectionConflict<'a>>) -> Seq<(Seq<char>, Seq<EntryKey>)> {
    cs.map_values(|c: SelectionConflict<'a>| conflict_view(c))
}

/// What a selection produces: selected keys and conflicts.
pub type Outcome = (Seq<EntryKey>, Seq<(Seq<char>, Seq<EntryKey>)>);

/// Nothing selected, no conflict.
pub open spec fn no_outcome() -> Outcome {
    (Seq::empty(), Seq::empty())
}

/// Two outcomes one after the other.
pub open spec fn followed_by(a: Outcome, b: Outcome) -> Outcome {
    (a.0 + b.0, a.1 + b.1)
}

/// The positions of the listed entries that exist, in listed order.
pub open spec fn existing_positions(p: Product, ids: Seq<EntryId>) -> Seq<usize>
    decreases ids.len(),
{
    if ids.len() == 0 {
        Seq::empty()
    } else {
        let rest = existing_positions(p, ids.drop_last());
        if ids.last().0 < p.entries@.len() { rest.push(ids.last().0) } else { rest }
    }
}

/// The first group from `g` on whose path is that of position `k`, or
/// the number of groups.
pub open spec fn group_index(p: Product, groups: Seq<Seq<usize>>, k: usize, g: int) -> int
    decreases groups.len() - g,
{
    if g < 0 || g >= groups.len() {
        groups.len() as int
    } else if p.entries@[groups[g][0] as int].path@ == p.entries@[k as int].path@ {
        g
    } else {
        group_index(p, groups, k, g + 1)
    }
}

/// Positions grouped by the path of their entries: groups in order of
/// first appearance, each in order.
pub open spec fn groups_of(p: Product, pos: Seq<usize>) -> Seq<Seq<usize>>
    decreases pos.len(),
{
    if pos.len() == 0 {
        Seq::empty()
    } else {
        let gs = groups_of(p, pos.drop_last());
        let k = pos.last();
        let g = group_index(p, gs, k, 0);
        if g < gs.len() { gs.update(g, gs[g].push(k)) } else { gs.push(seq![k]) }
    }
}

/// The classes of entries sharing a path: 0 `mach` did not parse, 1
/// mach-less fallback, 2 mach-specific and matching, 3 any.
pub open spec fn in_class(e: Entry, class: int, profile: Map<Seq<char>, Set<Seq<char>>>) -> bool {
    if class == 0 {
        has_unparsed(e.attrs())
    } else if class == 1 {
        !has_unparsed(e.attrs()) && mach_attrs(e.attributes@).len() == 0
    } else if class == 2 {
        !has_unparsed(e.attrs()) && mach_attrs(e.attributes@).len() > 0
            && any_expr_matches(mach_attrs(e.attributes@), profile)
    } else {
        true
    }
}

/// The keys of the group's entries of a class, in order.
pub open spec fn keys_where(index: usize, p: Product, group: Seq<usize>, class: int, profile: Map<Seq<char>, Set<Seq<char>>>) -> Seq<EntryKey>
    decreases group.len(),
{
    if group.len() == 0 {
        Seq::empty()
    } else {
        let rest = keys_where(index, p, group.drop_last(), class, profile);
        if in_class(p.entries@[group.last() as int], class, profile) {
            rest.push(EntryKey { product_index: index, entry_id: EntryId(group.last()) })
        } else {
            rest
        }
    }
}

/// One path of a subsystem: matching mach-specific entries win over
/// mach-less fallbacks and are selected; several winners are a conflict;
/// entries whose `mach` did not parse are a conflict and never selected.
pub open spec fn group_outcome(index: usize, p: Product, profile: Map<Seq<char>, Set<Seq<char>>>, group: Seq<usize>) -> Outcome {
    let path = p.entries@[group[0] as int].path@;
    let unresolvable = keys_where(index, p, group, 0, profile);
    let fallback = keys_where(index, p, group, 1, profile);
    let specific = keys_where(index, p, group, 2, profile);
    let winners = if specific.len() == 0 { fallback } else { specific };
    (
        winners,
        (if unresolvable.len() > 0 { seq![(path, unresolvable)] } else { Seq::empty() })
            + (if winners.len() > 1 { seq![(path, winners)] } else { Seq::empty() }),
    )
}

/// The outcomes of groups one after the other.
pub open spec fn groups_outcome(index: usize, p: Product, profile: Map<Seq<char>, Set<Seq<char>>>, groups: Seq<Seq<usize>>) -> Outcome
    decreases groups.len(),
{
    if groups.len() == 0 {
        no_outcome()
    } else {
        followed_by(groups_outcome(index, p, profile, groups.drop_last()), group_outcome(index, p, profile, groups.last()))
    }
}

/// Every group reported as an unresolved conflict of all its entries.
pub open spec fn unresolved_conflicts(index: usize, p: Product, groups: Seq<Seq<usize>>) -> Seq<(Seq<char>, Seq<EntryKey>)>
    decreases groups.len(),
{
    if groups.len() == 0 {
        Seq::empty()
    } else {
        let g = groups.last();
        unresolved_conflicts(index, p, groups.drop_last())
            .push((p.entries@[g[0] as int].path@, keys_where(index, p, g, 3, Map::empty())))
    }
}

/// The entries of a level whose restrictions are unknown, as conflicts
/// by path.
pub open spec fn unresolved_outcome(index: usize, p: Product, pos: Seq<usize>) -> Outcome {
    (Seq::empty(), unresolved_conflicts(index, p, groups_of(p, pos)))
}

/// The class that wins a group: matching mach-specific entries when
/// there are any, else the mach-less fallbacks.
pub open spec fn winning_class(index: usize, p: Product, profile: Map<Seq<char>, Set<Seq<char>>>, group: Seq<usize>) -> int {
    if keys_where(index, p, group, 2, profile).len() == 0 { 1 } else { 2 }
}

/// Whether the entry at position `k` wins the group of its path.
pub open spec fn wins_group(index: usize, p: Product, profile: Map<Seq<char>, Set<Seq<char>>>, gs: Seq<Seq<usize>>, k: usize) -> bool {
    let g = group_index(p, gs, k, 0);
    0 <= g < gs.len() && in_class(p.entries@[k as int], winning_class(index, p, profile, gs[g]), profile)
}

/// The positions that win their path's group, as keys, in the order of
/// `pos`: the subsystem's IDB order.
pub open spec fn winners_in_order(index: usize, p: Product, profile: Map<Seq<char>, Set<Seq<char>>>, gs: Seq<Seq<usize>>, pos: Seq<usize>) -> Seq<EntryKey>
    decreases pos.len(),
{
    if pos.len() == 0 {
        Seq::empty()
    } else {
        let rest = winners_in_order(index, p, profile, gs, pos.drop_last());
        if wins_group(index, p, profile, gs, pos.last()) {
            rest.push(EntryKey { product_index: index, entry_id: EntryId(pos.last()) })
        } else {
            rest
        }
    }
}

/// What the entries at positions `pos` of a matching subsystem
/// contribute: the winners of every path, in IDB order, and the
/// conflicts of the paths in order of first appearance.
pub open spec fn matching_outcome(index: usize, p: Product, profile: Map<Seq<char>, Set<Seq<char>>>, pos: Seq<usize>) -> Outcome {
    let gs = groups_of(p, pos);
    (winners_in_order(index, p, profile, gs, pos), groups_outcome(index, p, profile, gs).1)
}

/// What one subsystem contributes to the selection.
pub open spec fn subsystem_outcome(index: usize, p: Product, profile: Map<Seq<char>, Set<Seq<char>>>, s: Subsystem) -> Outcome {
    let pos = existing_positions(p, s.entry_ids@);
    match level_applicability(s.mach, profile) {
        Applicability::NoMatch => no_outcome(),
        Applicability::Unknown => unresolved_outcome(index, p, pos),
        Applicability::Match => matching_outcome(index, p, profile, pos),
    }
}

/// The first `n` subsystems' contributions.
pub open spec fn subsystems_outcome(index: usize, p: Product, profile: Map<Seq<char>, Set<Seq<char>>>, ss: Seq<Subsystem>, n: int) -> Outcome
    decreases n,
{
    if n <= 0 {
        no_outcome()
    } else {
        followed_by(subsystems_outcome(index, p, profile, ss, n - 1), subsystem_outcome(index, p, profile, ss[n - 1]))
    }
}

/// The existing positions of the first `n` subsystems, one after the
/// other.
pub open spec fn subsystems_positions(p: Product, ss: Seq<Subsystem>, n: int) -> Seq<usize>
    decreases n,
{
    if n <= 0 {
        Seq::empty()
    } else {
        subsystems_positions(p, ss, n - 1) + existing_positions(p, ss[n - 1].entry_ids@)
    }
}

/// What one image contributes to the selection.
pub open spec fn image_outcome(index: usize, p: Product, profile: Map<Seq<char>, Set<Seq<char>>>, i: Image) -> Outcome {
    match level_applicability(i.mach, profile) {
        Applicability::NoMatch => no_outcome(),
        Applicability::Unknown => unresolved_outcome(index, p, subsystems_positions(p, i.subsystems@, i.subsystems@.len() as int)),
        Applicability::Match => subsystems_outcome(index, p, profile, i.subsystems@, i.subsystems@.len() as int),
    }
}

/// The first `n` images' contributions.
pub open spec fn images_outcome(index: usize, p: Product, profile: Map<Seq<char>, Set<Seq<char>>>, n: int) -> Outcome
    decreases n,
{
    if n <= 0 {
        no_outcome()
    } else {
        followed_by(images_outcome(index, p, profile, n - 1), image_outcome(index, p, profile, p.images@[n - 1]))
    }
}

/// What the product at `index` contributes to the selection: nothing when
/// its own restrictions exclude the target, all its entries as conflicts
/// by path when they are unknown, else its images in order.
pub open spec fn product_outcome(index: usize, p: Product, profile: Map<Seq<char>, Set<Seq<char>>>) -> Outcome {
    match level_applicability(p.mach, profile) {
        Applicability::NoMatch => no_outcome(),
        Applicability::Unknown => unresolved_outcome(index, p, Seq::new(p.entries@.len(), |k: int| k as usize)),
        Applicability::Match => images_outcome(index, p, profile, p.images@.len() as int),
    }
}

/// What the first `n` products contribute to a distribution's
/// selection, in product order.
pub open spec fn products_outcome(ps: Seq<Product>, profile: Map<Seq<char>, Set<Seq<char>>>, n: int) -> Outcome
    decreases n,
{
    if n <= 0 {
        no_outcome()
    } else {
        followed_by(products_outcome(ps, profile, n - 1), product_outcome((n - 1) as usize, ps[n - 1], profile))
    }
}

/// The outcome of a selection.
pub open spec fn outcome_of<'a>(s: EntrySelection<'a>) -> Outcome {
    (keys_of(s.selected@), conflicts_view(s.conflicts@))
}

/// The entry at a position of a product, located.
fn locate<'a>(index: usize, product: &'a Product, k: usize) -> (r: LocatedEntry<'a>)
    requires
        k < product.entries@.len(),
    ensures
        r.key == (EntryKey { product_index: index, entry_id: EntryId(k) }),
        *r.entry == product.entries@[k as int],
{
    LocatedEntry { key: EntryKey { product_index: index, entry_id: EntryId(k) }, entry: &product.entries[k] }
}

/// Groups as sequences.
pub open spec fn groups_view(groups: Seq<Vec<usize>>) -> Seq<Seq<usize>> {
    groups.map_values(|v: Vec<usize>| v@)
}

/// Skipping groups whose path differs does not change the first match.
proof fn lemma_group_index_skip(p: Product, gs: Seq<Seq<usize>>, k: usize, g: int)
    requires
        0 <= g <= gs.len(),
        forall|h: int| 0 <= h < g ==> p.entries@[(#[trigger] gs[h])[0] as int].path@ != p.entries@[k as int].path@,
    ensures
        group_index(p, gs, k, 0) == group_index(p, gs, k, g),
    decreases g,
{
    if g > 0 {
        lemma_group_index_skip(p, gs, k, g - 1);
        assert(p.entries@[gs[g - 1][0] as int].path@ != p.entries@[k as int].path@);
    }
}

/// Groups entry positions by path, in first-appearance order.
fn group_by_path(product: &Product, positions: &Vec<usize>) -> (groups: Vec<Vec<usize>>)
    requires
        forall|q: int| 0 <= q < positions@.len() ==> #[trigger] positions@[q] < product.entries@.len(),
    ensures
        groups_view(groups@) == groups_of(*product, positions@),
        forall|g: int, q: int| 0 <= g < groups@.len() && 0 <= q < groups@[g]@.len() ==> #[trigger] groups@[g]@[q] < product.entries@.len(),
        forall|g: int| 0 <= g < groups@.len() ==> (#[trigger] groups@[g])@.len() > 0,
{
    let mut groups: Vec<Vec<usize>> = Vec::new();
    let mut i: usize = 0;
    while i < positions.len()
        invariant
            i <= positions.len(),
            forall|q: int| 0 <= q < positions@.len() ==> #[trigger] positions@[q] < product.entries@.len(),
            groups_view(groups@) == groups_of(*product, positions@.take(i as int)),
            forall|g: int, q: int| 0 <= g < groups@.len() && 0 <= q < groups@[g]@.len() ==> #[trigger] groups@[g]@[q] < product.entries@.len(),
            forall|g: int| 0 <= g < groups@.len() ==> (#[trigger] groups@[g])@.len() > 0,
        decreases positions.len() - i,
    {
        let k = positions[i];
        let ghost gs = groups_view(groups@);
        proof {
            assert(positions@.take(i + 1).drop_last() =~= positions@.take(i as int));
            assert(positions@.take(i + 1).last() == k);
        }
        let mut found: Option<usize> = None;
        let mut g: usize = 0;
        while g < groups.len()
            invariant_except_break
                found is None,
            invariant
                g <= groups.len(),
                k < product.entries@.len(),
                gs == groups_view(groups@),
                forall|h: int| 0 <= h < groups@.len() ==> (#[trigger] groups@[h])@.len() > 0,
                forall|h: int, q: int| 0 <= h < groups@.len() && 0 <= q < groups@[h]@.len() ==> #[trigger] groups@[h]@[q] < product.entries@.len(),
                forall|h: int| 0 <= h < g ==> product.entries@[(#[trigger] gs[h])[0] as int].path@ != product.entries@[k as int].path@,
            ensures
                found matches Some(f) ==> f == g && f < groups.len()
                    && product.entries@[gs[f as int][0] as int].path@ == product.entries@[k as int].path@,
                found is None ==> g == groups.len(),
            decreases groups.len() - g,
        {
            let first = groups[g][0];
            assert(groups@[g as int]@[0] < product.entries@.len());
            assert(gs[g as int] == groups@[g as int]@);
            if product.entries[first].path == product.entries[k].path {
                found = Some(g);
                break;
            }
            g += 1;
        }
        proof {
            lemma_group_index_skip(*product, gs, k, g as int);
        }
        match found {
            Some(f) => {
                let ghost before = groups@;
                groups[f].push(k);
                assert(groups_view(groups@) =~= gs.update(f as int, gs[f as int].push(k)));
                assert forall|h: int, q: int| 0 <= h < groups@.len() && 0 <= q < groups@[h]@.len() implies #[trigger] groups@[h]@[q] < product.entries@.len() by {
                    if h != f {
                        assert(groups@[h] == before[h]);
                    } else if q < before[h]@.len() {
                        assert(groups@[h]@[q] == before[h]@[q]);
                    }
                }
                assert forall|h: int| 0 <= h < groups@.len() implies (#[trigger] groups@[h])@.len() > 0 by {
                    if h != f {
                        assert(groups@[h] == before[h]);
                    }
                }
            },
            None => {
                let single = vec![k];
                assert(single@ =~= seq![k]);
                groups.push(single);
                assert(groups_view(groups@) =~= gs.push(seq![k]));
            },
        }
        i += 1;
    }
    assert(positions@.take(positions@.len() as int) =~= positions@);
    groups
}

/// The keys of a group's entries of a class, located.
fn locate_class<'a>(
    index: usize,
    product: &'a Product,
    group: &Vec<usize>,
    class: u8,
    profile: &HardwareProfile,
) -> (r: Vec<LocatedEntry<'a>>)
    requires
        forall|q: int| 0 <= q < group@.len() ==> #[trigger] group@[q] < product.entries@.len(),
        class <= 3,
    ensures
        keys_of(r@) == keys_where(index, *product, group@, class as int, profile@),
        owned_by(r@, index, *product),
{
    let mut r: Vec<LocatedEntry<'a>> = Vec::new();
    let mut q: usize = 0;
    while q < group.len()
        invariant
            q <= group.len(),
            class <= 3,
            forall|x: int| 0 <= x < group@.len() ==> #[trigger] group@[x] < product.entries@.len(),
            keys_of(r@) == keys_where(index, *product, group@.take(q as int), class as int, profile@),
            owned_by(r@, index, *product),
        decreases group.len() - q,
    {
        proof {
            assert(group@.take(q + 1).drop_last() =~= group@.take(q as int));
            assert(group@.take(q + 1).last() == group@[q as int]);
        }
        assert(group@[q as int] < product.entries@.len());
        let located = locate(index, product, group[q]);
        let belongs = if class == 3 {
            true
        } else if located.entry.has_unparsed_mach() {
            class == 0
        } else {
            let (mach_less, matched) = entry_mach_matches(located.entry, profile);
            if mach_less { class == 1 } else { matched && class == 2 }
        };
        assert(belongs == in_class(product.entries@[group@[q as int] as int], class as int, profile@));
        let ghost before = r@;
        if belongs {
            r.push(located);
            assert(keys_of(r@) =~= keys_of(before).push(located.key));
        }
        q += 1;
    }
    assert(group@.take(group@.len() as int) =~= group@);
    r
}

/// Appends a conflict.
fn push_conflict<'a>(selection: &mut EntrySelection<'a>, index: usize, product: &'a Product, path: IrixPath, candidates: Vec<LocatedEntry<'a>>)
    requires
        conflicts_owned_by(old(selection).conflicts@, index, *product),
        owned_by(candidates@, index, *product),
    ensures
        final(selection).selected@ == old(selection).selected@,
        conflicts_view(final(selection).conflicts@) == conflicts_view(old(selection).conflicts@).push((path@, keys_of(candidates@))),
        conflicts_owned_by(final(selection).conflicts@, index, *product),
{
    let ghost before = selection.conflicts@;
    selection.conflicts.push(SelectionConflict { path, candidates });
    assert(conflicts_view(selection.conflicts@) =~= conflicts_view(before).push((path@, keys_of(candidates@))));
    assert forall|h: int| 0 <= h < selection.conflicts@.len() implies owned_by((#[trigger] selection.conflicts@[h]).candidates@, index, *product) by {
        if h < before.len() {
            assert(selection.conflicts@[h] == before[h]);
        }
    }
}

/// Reports entries whose applicability cannot be determined as
/// conflicts, grouped by path.
fn report_unresolved<'a>(index: usize, product: &'a Product, positions: &Vec<usize>, selection: &mut EntrySelection<'a>)
    requires
        forall|q: int| 0 <= q < positions@.len() ==> #[trigger] positions@[q] < product.entries@.len(),
        conflicts_owned_by(old(selection).conflicts@, index, *product),
    ensures
        final(selection).selected@ == old(selection).selected@,
        outcome_of(*final(selection)) == followed_by(outcome_of(*old(selection)), unresolved_outcome(index, *product, positions@)),
        conflicts_owned_by(final(selection).conflicts@, index, *product),
{
    let groups = group_by_path(product, positions);
    let ghost gs = groups_view(groups@);
    let ghost start = conflicts_view(selection.conflicts@);
    let no_profile = HardwareProfile::builder().build();
    let mut g: usize = 0;
    while g < groups.len()
        invariant
            g <= groups.len(),
            gs == groups_view(groups@),
            forall|h: int, q: int| 0 <= h < groups@.len() && 0 <= q < groups@[h]@.len() ==> #[trigger] groups@[h]@[q] < product.entries@.len(),
            forall|h: int| 0 <= h < groups@.len() ==> (#[trigger] groups@[h])@.len() > 0,
            selection.selected@ == old(selection).selected@,
            conflicts_view(selection.conflicts@) == start + unresolved_conflicts(index, *product, gs.take(g as int)),
            conflicts_owned_by(selection.conflicts@, index, *product),
        decreases groups.len() - g,
    {
        let group = &groups[g];
        assert(gs[g as int] == group@);
        proof {
            assert(gs.take(g + 1).drop_last() =~= gs.take(g as int));
            assert(gs.take(g + 1).last() == group@);
        }
        let candidates = locate_class(index, product, group, 3, &no_profile);
        proof {
            lemma_keys_where_any(index, *product, group@, no_profile@, Map::empty());
        }
        assert(group@[0] < product.entries@.len());
        let path = product.entries[group[0]].path.clone();
        push_conflict(selection, index, product, path, candidates);
        g += 1;
    }
    assert(gs.take(gs.len() as int) =~= gs);
}

/// Class 3 holds every entry whatever the profile.
proof fn lemma_keys_where_any(index: usize, p: Product, group: Seq<usize>, a: Map<Seq<char>, Set<Seq<char>>>, b: Map<Seq<char>, Set<Seq<char>>>)
    ensures
        keys_where(index, p, group, 3, a) == keys_where(index, p, group, 3, b),
    decreases group.len(),
{
    if group.len() > 0 {
        lemma_keys_where_any(index, p, group.drop_last(), a, b);
    }
}

} // verus!

verus! {

/// What every selected entry satisfies: it is owned by the product at
/// `index`, its `mach` is not unparsed, and its own `mach` admits the
/// target.
pub open spec fn sound_entry<'a>(l: LocatedEntry<'a>, index: usize, product: Product, profile: Map<Seq<char>, Set<Seq<char>>>) -> bool {
    &&& l.key.product_index == index
    &&& l.key.entry_id.0 < product.entries@.len()
    &&& *l.entry == product.entries@[l.key.entry_id.0 as int]
    &&& !has_unparsed(l.entry.attrs())
    &&& entry_admits(*l.entry, profile)
}

/// Whether every located entry is soundly selected.
pub open spec fn all_sound<'a>(v: Seq<LocatedEntry<'a>>, index: usize, product: Product, profile: Map<Seq<char>, Set<Seq<char>>>) -> bool {
    forall|q: int| 0 <= q < v.len() ==> sound_entry(#[trigger] v[q], index, product, profile)
}

/// Whether some of an entry's `mach` expressions match.
fn entry_mach_matches(entry: &Entry, profile: &HardwareProfile) -> (r: (bool, bool))
    ensures
        r.0 == (mach_attrs(entry.attributes@).len() == 0),
        r.1 == any_expr_matches(mach_attrs(entry.attributes@), profile@),
{
    let mach = entry.mach();
    let ghost exprs = mach@.map_values(|h: &crate::mach::HardwareExpr| *h);
    assert(exprs.len() == mach@.len());
    let mut i: usize = 0;
    while i < mach.len()
        invariant
            i <= mach.len(),
            exprs == mach@.map_values(|h: &crate::mach::HardwareExpr| *h),
            exprs == mach_attrs(entry.attributes@),
            forall|k: int| 0 <= k < i ==> !#[trigger] crate::mach::eval::eval_expr(exprs[k].expr, profile@),
        decreases mach.len() - i,
    {
        assert(exprs[i as int] == *mach@[i as int]);
        if mach[i].evaluate(profile) {
            return (false, true);
        }
        i += 1;
    }
    (mach.len() == 0, false)
}

/// The group of `k`'s path among `groups`, if there is one.
fn find_group(product: &Product, groups: &Vec<Vec<usize>>, k: usize) -> (r: Option<usize>)
    requires
        k < product.entries@.len(),
        forall|h: int, q: int| 0 <= h < groups@.len() && 0 <= q < groups@[h]@.len() ==> #[trigger] groups@[h]@[q] < product.entries@.len(),
        forall|h: int| 0 <= h < groups@.len() ==> (#[trigger] groups@[h])@.len() > 0,
    ensures
        match r {
            Some(f) => f < groups@.len() && f as int == group_index(*product, groups_view(groups@), k, 0),
            None => group_index(*product, groups_view(groups@), k, 0) == groups@.len(),
        },
{
    let ghost gs = groups_view(groups@);
    let mut g: usize = 0;
    while g < groups.len()
        invariant
            g <= groups.len(),
            k < product.entries@.len(),
            gs == groups_view(groups@),
            forall|h: int| 0 <= h < groups@.len() ==> (#[trigger] groups@[h])@.len() > 0,
            forall|h: int, q: int| 0 <= h < groups@.len() && 0 <= q < groups@[h]@.len() ==> #[trigger] groups@[h]@[q] < product.entries@.len(),
            group_index(*product, gs, k, 0) == group_index(*product, gs, k, g as int),
        decreases groups.len() - g,
    {
        let first = groups[g][0];
        assert(groups@[g as int]@[0] < product.entries@.len());
        assert(gs[g as int] == groups@[g as int]@);
        if product.entries[first].path == product.entries[k].path {
            return Some(g);
        }
        g += 1;
    }
    None
}

/// Selects among the entries of one subsystem, grouped by path: a
/// matching mach-specific entry wins over mach-less fallbacks; several
/// winners are a conflict; entries whose `mach` did not parse are
/// reported as a conflict and never selected. The winners are appended
/// in the subsystem's IDB order.
fn select_subsystem_entries<'a>(
    index: usize,
    product: &'a Product,
    entry_ids: &Vec<EntryId>,
    profile: &HardwareProfile,
    selection: &mut EntrySelection<'a>,
)
    requires
        all_sound(old(selection).selected@, index, *product, profile@),
        conflicts_owned_by(old(selection).conflicts@, index, *product),
    ensures
        outcome_of(*final(selection)) == followed_by(
            outcome_of(*old(selection)),
            matching_outcome(index, *product, profile@, existing_positions(*product, entry_ids@)),
        ),
        all_sound(final(selection).selected@, index, *product, profile@),
        conflicts_owned_by(final(selection).conflicts@, index, *product),
{
    let mut positions: Vec<usize> = Vec::new();
    subsystem_positions(product, entry_ids, &mut positions);
    assert(positions@ =~= existing_positions(*product, entry_ids@));
    let groups = group_by_path(product, &positions);
    let ghost gs = groups_view(groups@);
    let ghost start = outcome_of(*selection);
    let ghost chosen = selection.selected@;
    assert(gs.take(0) =~= Seq::<Seq<usize>>::empty());
    let mut classes: Vec<u8> = Vec::new();
    let mut g: usize = 0;
    while g < groups.len()
        invariant
            g <= groups.len(),
            gs == groups_view(groups@),
            forall|h: int, q: int| 0 <= h < groups@.len() && 0 <= q < groups@[h]@.len() ==> #[trigger] groups@[h]@[q] < product.entries@.len(),
            forall|h: int| 0 <= h < groups@.len() ==> (#[trigger] groups@[h])@.len() > 0,
            selection.selected@ == chosen,
            conflicts_view(selection.conflicts@) == start.1 + groups_outcome(index, *product, profile@, gs.take(g as int)).1,
            conflicts_owned_by(selection.conflicts@, index, *product),
            classes@.len() == g,
            forall|h: int| 0 <= h < g ==> (#[trigger] classes@[h]) as int == winning_class(index, *product, profile@, gs[h]),
        decreases groups.len() - g,
    {
        let group = &groups[g];
        assert(gs[g as int] == group@);
        proof {
            assert(gs.take(g + 1).drop_last() =~= gs.take(g as int));
            assert(gs.take(g + 1).last() == group@);
        }
        let ghost mid = conflicts_view(selection.conflicts@);
        let unresolvable = locate_class(index, product, group, 0, profile);
        let fallback = locate_class(index, product, group, 1, profile);
        let specific = locate_class(index, product, group, 2, profile);
        assert(group@[0] < product.entries@.len());
        let path = product.entries[group[0]].path.clone();
        let ghost out = group_outcome(index, *product, profile@, group@);
        if unresolvable.len() > 0 {
            push_conflict(selection, index, product, path.clone(), unresolvable);
        }
        let class: u8 = if specific.len() == 0 { 1 } else { 2 };
        let winners = if specific.len() == 0 { fallback } else { specific };
        if winners.len() > 1 {
            push_conflict(selection, index, product, path, winners);
        }
        assert(conflicts_view(selection.conflicts@) =~= mid + out.1);
        assert(conflicts_view(selection.conflicts@) =~= start.1 + groups_outcome(index, *product, profile@, gs.take(g + 1)).1);
        classes.push(class);
        g += 1;
    }
    assert(gs.take(gs.len() as int) =~= gs);
    let ghost contested = selection.conflicts@;
    let mut i: usize = 0;
    assert(positions@.take(0) =~= Seq::<usize>::empty());
    while i < positions.len()
        invariant
            i <= positions.len(),
            gs == groups_view(groups@),
            gs == groups_of(*product, positions@),
            forall|q: int| 0 <= q < positions@.len() ==> #[trigger] positions@[q] < product.entries@.len(),
            forall|h: int, q: int| 0 <= h < groups@.len() && 0 <= q < groups@[h]@.len() ==> #[trigger] groups@[h]@[q] < product.entries@.len(),
            forall|h: int| 0 <= h < groups@.len() ==> (#[trigger] groups@[h])@.len() > 0,
            classes@.len() == groups@.len(),
            forall|h: int| 0 <= h < groups@.len() ==> (#[trigger] classes@[h]) as int == winning_class(index, *product, profile@, gs[h]),
            selection.conflicts@ == contested,
            conflicts_owned_by(contested, index, *product),
            keys_of(selection.selected@) == keys_of(chosen) + winners_in_order(index, *product, profile@, gs, positions@.take(i as int)),
            all_sound(selection.selected@, index, *product, profile@),
        decreases positions.len() - i,
    {
        let k = positions[i];
        proof {
            assert(positions@.take(i + 1).drop_last() =~= positions@.take(i as int));
            assert(positions@.take(i + 1).last() == k);
        }
        let ghost before = selection.selected@;
        if let Some(f) = find_group(product, &groups, k) {
            let class = classes[f];
            let located = locate(index, product, k);
            let wins = if located.entry.has_unparsed_mach() {
                false
            } else {
                let (mach_less, matched) = entry_mach_matches(located.entry, profile);
                if class == 1 { mach_less } else { !mach_less && matched }
            };
            assert(wins == wins_group(index, *product, profile@, gs, k));
            if wins {
                selection.selected.push(located);
                assert(keys_of(selection.selected@) =~= keys_of(before).push(located.key));
                assert forall|q: int| 0 <= q < selection.selected@.len() implies sound_entry(#[trigger] selection.selected@[q], index, *product, profile@) by {
                    if q < before.len() {
                        assert(selection.selected@[q] == before[q]);
                    }
                }
            }
        }
        i += 1;
    }
    assert(positions@.take(positions@.len() as int) =~= positions@);
    assert(outcome_of(*selection) =~= followed_by(start, matching_outcome(index, *product, profile@, positions@)));
}

/// Within one path of a subsystem a matching mach-specific entry wins:
/// every entry a matching subsystem selects has a parsed (or no) `mach`,
/// and when its path has a matching mach-specific entry, it is one of
/// those, so no mach-less fallback is installed beside it.
pub proof fn lemma_specific_entry_wins(index: usize, p: Product, profile: Map<Seq<char>, Set<Seq<char>>>, pos: Seq<usize>)
    requires
        forall|q: int| 0 <= q < pos.len() ==> #[trigger] pos[q] < p.entries@.len(),
    ensures
        forall|q: int| 0 <= q < matching_outcome(index, p, profile, pos).0.len() ==> {
            let k = #[trigger] matching_outcome(index, p, profile, pos).0[q];
            let gs = groups_of(p, pos);
            let g = group_index(p, gs, k.entry_id.0, 0);
            &&& k.product_index == index
            &&& k.entry_id.0 < p.entries@.len()
            &&& !has_unparsed(p.entries@[k.entry_id.0 as int].attrs())
            &&& 0 <= g < gs.len()
            &&& keys_where(index, p, gs[g], 2, profile).len() > 0 ==> in_class(p.entries@[k.entry_id.0 as int], 2, profile)
        },
{
    lemma_winners_in_order(index, p, profile, groups_of(p, pos), pos);
}

/// Every key of `winners_in_order` is a position of `pos` that wins its
/// group.
proof fn lemma_winners_in_order(index: usize, p: Product, profile: Map<Seq<char>, Set<Seq<char>>>, gs: Seq<Seq<usize>>, pos: Seq<usize>)
    requires
        forall|q: int| 0 <= q < pos.len() ==> #[trigger] pos[q] < p.entries@.len(),
    ensures
        forall|q: int| 0 <= q < winners_in_order(index, p, profile, gs, pos).len() ==> {
            let k = #[trigger] winners_in_order(index, p, profile, gs, pos)[q];
            &&& k.product_index == index
            &&& k.entry_id.0 < p.entries@.len()
            &&& wins_group(index, p, profile, gs, k.entry_id.0)
        },
    decreases pos.len(),
{
    if pos.len() > 0 {
        let rest = pos.drop_last();
        assert forall|q: int| 0 <= q < rest.len() implies #[trigger] rest[q] < p.entries@.len() by {
            assert(rest[q] == pos[q]);
        }
        lemma_winners_in_order(index, p, profile, gs, rest);
        assert(pos.last() == pos[pos.len() - 1]);
        let prev = winners_in_order(index, p, profile, gs, rest);
        let all = winners_in_order(index, p, profile, gs, pos);
        assert forall|q: int| 0 <= q < all.len() implies {
            let k = #[trigger] all[q];
            &&& k.product_index == index
            &&& k.entry_id.0 < p.entries@.len()
            &&& wins_group(index, p, profile, gs, k.entry_id.0)
        } by {
            if q < prev.len() {
                assert(all[q] == prev[q]);
            }
        }
    }
}

/// The positions of the entries of one subsystem that exist.
fn subsystem_positions(product: &Product, entry_ids: &Vec<EntryId>, positions: &mut Vec<usize>)
    requires
        forall|q: int| 0 <= q < old(positions)@.len() ==> #[trigger] old(positions)@[q] < product.entries@.len(),
    ensures
        final(positions)@ == old(positions)@ + existing_positions(*product, entry_ids@),
        forall|q: int| 0 <= q < final(positions)@.len() ==> #[trigger] final(positions)@[q] < product.entries@.len(),
{
    let ghost start = positions@;
    let mut i: usize = 0;
    assert(entry_ids@.take(0) =~= Seq::<EntryId>::empty());
    assert(positions@ =~= start + existing_positions(*product, entry_ids@.take(0)));
    while i < entry_ids.len()
        invariant
            i <= entry_ids.len(),
            positions@ == start + existing_positions(*product, entry_ids@.take(i as int)),
            forall|q: int| 0 <= q < positions@.len() ==> #[trigger] positions@[q] < product.entries@.len(),
        decreases entry_ids.len() - i,
    {
        proof {
            assert(entry_ids@.take(i + 1).drop_last() =~= entry_ids@.take(i as int));
            assert(entry_ids@.take(i + 1).last() == entry_ids@[i as int]);
        }
        if entry_ids[i].0 < product.entries.len() {
            positions.push(entry_ids[i].0);
        }
        i += 1;
        assert(positions@ =~= start + existing_positions(*product, entry_ids@.take(i as int)));
    }
    assert(entry_ids@.take(entry_ids@.len() as int) =~= entry_ids@);
}

/// Selects the applicable entries of one product for a target.
///
/// Nothing is selected unless the product's own restrictions match; an
/// unknown level reports its entries as unresolved conflicts. Below
/// that, images and subsystems in order contribute what their own
/// restrictions admit, path by path (see [`group_outcome`]). Every
/// selected entry is owned by the product, has a parsed (or no) `mach`,
/// and its own `mach` admits the target.
pub fn select_product<'a>(index: usize, product: &'a Product, profile: &HardwareProfile) -> (r: EntrySelection<'a>)
    ensures
        outcome_of(r) == product_outcome(index, *product, profile@),
        all_sound(r.selected@, index, *product, profile@),
        conflicts_owned_by(r.conflicts@, index, *product),
        level_applicability(product.mach, profile@) != Applicability::Match ==> r.selected@.len() == 0,
        level_applicability(product.mach, profile@) == Applicability::NoMatch ==> r.conflicts@.len() == 0,
{
    let mut selection = EntrySelection { selected: Vec::new(), conflicts: Vec::new() };
    assert(outcome_of(selection) =~= no_outcome());
    match applicability(&product.mach, profile) {
        Applicability::NoMatch => return selection,
        Applicability::Unknown => {
            let mut all: Vec<usize> = Vec::new();
            let mut k: usize = 0;
            while k < product.entries.len()
                invariant
                    k <= product.entries.len(),
                    all@ == Seq::new(k as nat, |x: int| x as usize),
                decreases product.entries.len() - k,
            {
                all.push(k);
                k += 1;
                assert(all@ =~= Seq::new(k as nat, |x: int| x as usize));
            }
            report_unresolved(index, product, &all, &mut selection);
            assert(outcome_of(selection) =~= product_outcome(index, *product, profile@));
            return selection;
        },
        Applicability::Match => {},
    }
    let mut i: usize = 0;
    while i < product.images.len()
        invariant
            i <= product.images.len(),
            level_applicability(product.mach, profile@) == Applicability::Match,
            outcome_of(selection) == images_outcome(index, *product, profile@, i as int),
            all_sound(selection.selected@, index, *product, profile@),
            conflicts_owned_by(selection.conflicts@, index, *product),
        decreases product.images.len() - i,
    {
        let image = &product.images[i];
        let ghost before = outcome_of(selection);
        match applicability(&image.mach, profile) {
            Applicability::NoMatch => {
                assert(outcome_of(selection) =~= followed_by(before, no_outcome()));
            },
            Applicability::Unknown => {
                let mut positions: Vec<usize> = Vec::new();
                let mut s: usize = 0;
                while s < image.subsystems.len()
                    invariant
                        s <= image.subsystems.len(),
                        positions@ == subsystems_positions(*product, image.subsystems@, s as int),
                        forall|q: int| 0 <= q < positions@.len() ==> #[trigger] positions@[q] < product.entries@.len(),
                    decreases image.subsystems.len() - s,
                {
                    subsystem_positions(product, &image.subsystems[s].entry_ids, &mut positions);
                    s += 1;
                }
                report_unresolved(index, product, &positions, &mut selection);
            },
            Applicability::Match => {
                let mut s: usize = 0;
                assert(outcome_of(selection) =~= followed_by(before, no_outcome()));
                while s < image.subsystems.len()
                    invariant
                        s <= image.subsystems.len(),
                        outcome_of(selection) == followed_by(before, subsystems_outcome(index, *product, profile@, image.subsystems@, s as int)),
                        all_sound(selection.selected@, index, *product, profile@),
                        conflicts_owned_by(selection.conflicts@, index, *product),
                    decreases image.subsystems.len() - s,
                {
                    let subsystem = &image.subsystems[s];
                    let ghost mid = outcome_of(selection);
                    match applicability(&subsystem.mach, profile) {
                        Applicability::NoMatch => {
                            assert(outcome_of(selection) =~= followed_by(mid, no_outcome()));
                        },
                        Applicability::Unknown => {
                            let mut positions: Vec<usize> = Vec::new();
                            subsystem_positions(product, &subsystem.entry_ids, &mut positions);
                            assert(positions@ =~= existing_positions(*product, subsystem.entry_ids@));
                            report_unresolved(index, product, &positions, &mut selection);
                        },
                        Applicability::Match => {
                            select_subsystem_entries(index, product, &subsystem.entry_ids, profile, &mut selection);
                        },
                    }
                    assert(outcome_of(selection) =~= followed_by(mid, subsystem_outcome(index, *product, profile@, *subsystem)));
                    s += 1;
                }
            },
        }
        assert(outcome_of(selection) =~= followed_by(before, image_outcome(index, *product, profile@, *image)));
        i += 1;
    }
    selection
}

} // verus!
