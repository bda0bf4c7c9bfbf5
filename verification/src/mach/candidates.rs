//! Discovery of hardware attribute candidates in a distribution.
//!
//! Candidates come exclusively from the MACH expressions the
//! distribution actually carries — product, image and subsystem
//! descriptor restrictions plus entry `mach(...)` attributes. The parsed
//! expression trees are walked; payloads that could not be parsed are
//! never guessed at with textual tricks, so an unresolved expression
//! simply contributes no candidates. There is no built-in machine or
//! board database: the distribution metadata is the only authority.
use vstd::prelude::*;
use crate::descriptor::model::{HardwareRestrictions, Subsystem};
use crate::distribution::{Distribution, Product};
use crate::idb::{mach_attrs, Entry};
use crate::image::Image;
use crate::mach::{attribute_name_of, chars_eq, HardwareExpr, MachAttribute, MachExpr};
use crate::text::{chars_of, string_of};

verus! {

/// The candidate values of one hardware attribute: every value the
/// distribution's parsed MACH expressions compare the attribute
/// against.
#[derive(Debug, Clone, PartialEq, Eq)]
pub struct HardwareCandidateSet {
    /// The canonical attribute name, e.g. `CPUBOARD`; unknown
    /// attributes keep their verbatim name.
    pub attribute: String,
    /// Candidate values in first-appearance order, exact duplicates
    /// removed. An empty value is kept: the media carry restrictions
    /// like `GFXBOARD=` for headless boards.
    pub values: Vec<String>,
}

/// A candidate set as attribute name and values.
pub open spec fn set_view(s: HardwareCandidateSet) -> (Seq<char>, Seq<Seq<char>>) {
    (s.attribute@, s.values@.map_values(|v: String| v@))
}

/// The views of a list of candidate sets.
pub open spec fn sets_view(v: Seq<HardwareCandidateSet>) -> Seq<(Seq<char>, Seq<Seq<char>>)> {
    v.map_values(|s: HardwareCandidateSet| set_view(s))
}

/// The attribute/value pairs of an expression tree, in pre-order:
/// every comparison, whatever operator or nesting it appears under.
pub open spec fn expr_pairs(e: MachExpr) -> Seq<(Seq<char>, Seq<char>)>
    decreases e, 1nat,
{
    match e {
        MachExpr::Compare { attribute, value, .. } => seq![(attribute_name_of(attribute), value@)],
        MachExpr::And(operands) => exprs_pairs(operands@),
        MachExpr::Or(operands) => exprs_pairs(operands@),
        MachExpr::Not(operand) => expr_pairs(*operand),
    }
}

/// The pairs of a list of expression trees, in order.
pub open spec fn exprs_pairs(es: Seq<MachExpr>) -> Seq<(Seq<char>, Seq<char>)>
    decreases es, 0nat,
{
    if es.len() == 0 {
        Seq::empty()
    } else {
        expr_pairs(es[0]) + exprs_pairs(es.subrange(1, es.len() as int))
    }
}

/// The position of the set for attribute `a`, or the number of sets.
pub open spec fn set_index(sets: Seq<(Seq<char>, Seq<Seq<char>>)>, a: Seq<char>) -> int
    decreases sets.len(),
{
    if sets.len() == 0 {
        0
    } else {
        let r = set_index(sets.drop_last(), a);
        if r < sets.len() - 1 {
            r
        } else if sets.last().0 == a {
            sets.len() - 1
        } else {
            sets.len() as int
        }
    }
}

/// The set index is the first set of the attribute, or the end when no
/// set has it.
proof fn lemma_set_index(sets: Seq<(Seq<char>, Seq<Seq<char>>)>, a: Seq<char>)
    ensures
        0 <= set_index(sets, a) <= sets.len(),
        set_index(sets, a) < sets.len() ==> sets[set_index(sets, a)].0 == a,
        forall|i: int| 0 <= i < set_index(sets, a) ==> (#[trigger] sets[i]).0 != a,
    decreases sets.len(),
{
    if sets.len() > 0 {
        lemma_set_index(sets.drop_last(), a);
        assert forall|i: int| 0 <= i < set_index(sets, a) implies (#[trigger] sets[i]).0 != a by {
            if i < sets.len() - 1 {
                assert(sets[i] == sets.drop_last()[i]);
            }
        }
    }
}

/// Records one pair: a new value joins its attribute's set (a new set
/// when the attribute is new); an exact repeat changes nothing.
pub open spec fn add_candidate(sets: Seq<(Seq<char>, Seq<Seq<char>>)>, a: Seq<char>, v: Seq<char>) -> Seq<(Seq<char>, Seq<Seq<char>>)> {
    let k = set_index(sets, a);
    if k < sets.len() {
        if sets[k].1.contains(v) {
            sets
        } else {
            sets.update(k, (a, sets[k].1.push(v)))
        }
    } else {
        sets.push((a, seq![v]))
    }
}

/// Records a sequence of pairs, in order.
pub open spec fn add_all(sets: Seq<(Seq<char>, Seq<Seq<char>>)>, ps: Seq<(Seq<char>, Seq<char>)>) -> Seq<(Seq<char>, Seq<Seq<char>>)>
    decreases ps.len(),
{
    if ps.len() == 0 {
        sets
    } else {
        add_candidate(add_all(sets, ps.drop_last()), ps.last().0, ps.last().1)
    }
}

/// Candidate sets are well formed: attributes appear once, values once
/// per attribute, and no set is empty.
pub open spec fn sets_wf(sets: Seq<(Seq<char>, Seq<Seq<char>>)>) -> bool {
    &&& forall|i: int, j: int| 0 <= i < j < sets.len() ==> (#[trigger] sets[i]).0 != (#[trigger] sets[j]).0
    &&& forall|i: int| 0 <= i < sets.len() ==> (#[trigger] sets[i]).1.no_duplicates() && sets[i].1.len() > 0
}

/// Accumulates attribute/value pairs in first-appearance order,
/// deduplicating exact repeats.
struct CandidateCollector {
    sets: Vec<HardwareCandidateSet>,
}


/// Recording pairs one list after another records their concatenation.
proof fn lemma_add_all_append(sets: Seq<(Seq<char>, Seq<Seq<char>>)>, p: Seq<(Seq<char>, Seq<char>)>, q: Seq<(Seq<char>, Seq<char>)>)
    ensures
        add_all(sets, p + q) == add_all(add_all(sets, p), q),
    decreases q.len(),
{
    if q.len() == 0 {
        assert(p + q =~= p);
    } else {
        lemma_add_all_append(sets, p, q.drop_last());
        assert((p + q).drop_last() =~= p + q.drop_last());
        assert((p + q).last() == q.last());
    }
}

/// Recording a pair keeps the sets well formed.
proof fn lemma_add_keeps_wf(sets: Seq<(Seq<char>, Seq<Seq<char>>)>, a: Seq<char>, v: Seq<char>)
    requires
        sets_wf(sets),
    ensures
        sets_wf(add_candidate(sets, a, v)),
{
    lemma_set_index(sets, a);
    let k = set_index(sets, a);
    let r = add_candidate(sets, a, v);
    if k < sets.len() {
        if !sets[k].1.contains(v) {
            assert forall|i: int| 0 <= i < r.len() implies (#[trigger] r[i]).1.no_duplicates() && r[i].1.len() > 0 by {
                if i == k {
                    assert forall|x: int, y: int| 0 <= x < y < r[i].1.len() implies r[i].1[x] != r[i].1[y] by {
                        if y == r[i].1.len() - 1 {
                            assert(sets[k].1[x] == r[i].1[x]);
                        } else {
                            assert(sets[k].1[x] == r[i].1[x] && sets[k].1[y] == r[i].1[y]);
                        }
                    }
                }
            }
        }
    } else {
        assert forall|i: int, j: int| 0 <= i < j < r.len() implies (#[trigger] r[i]).0 != (#[trigger] r[j]).0 by {
            if j == sets.len() {
                assert(r[i] == sets[i]);
            }
        }
        assert forall|i: int| 0 <= i < r.len() implies (#[trigger] r[i]).1.no_duplicates() && r[i].1.len() > 0 by {
            if i < sets.len() {
                assert(r[i] == sets[i]);
            }
        }
    }
}

/// Recording pairs keeps the sets well formed.
proof fn lemma_add_all_keeps_wf(sets: Seq<(Seq<char>, Seq<Seq<char>>)>, ps: Seq<(Seq<char>, Seq<char>)>)
    requires
        sets_wf(sets),
    ensures
        sets_wf(add_all(sets, ps)),
    decreases ps.len(),
{
    if ps.len() > 0 {
        lemma_add_all_keeps_wf(sets, ps.drop_last());
        lemma_add_keeps_wf(add_all(sets, ps.drop_last()), ps.last().0, ps.last().1);
    }
}

impl CandidateCollector {
    /// The collected sets.
    spec fn view_sets(&self) -> Seq<(Seq<char>, Seq<Seq<char>>)> {
        sets_view(self.sets@)
    }

    /// Records one comparison's right-hand side as a candidate value of
    /// its attribute.
    fn record(&mut self, attribute: &MachAttribute, value: &str)
        ensures
            final(self).view_sets() == add_candidate(old(self).view_sets(), attribute_name_of(*attribute), value@),
    {
        let name = attribute.name();
        let name_chars = chars_of(name.as_str());
        let value_chars = chars_of(value);
        let ghost sets = self.view_sets();
        proof {
            lemma_set_index(sets, name@);
        }
        let mut k: usize = 0;
        let mut found = false;
        while k < self.sets.len() && !found
            invariant
                k <= self.sets.len(),
                sets == self.view_sets(),
                sets.len() == self.sets@.len(),
                name_chars@ == name@,
                0 <= set_index(sets, name@) <= sets.len(),
                set_index(sets, name@) < sets.len() ==> sets[set_index(sets, name@)].0 == name@,
                forall|i: int| 0 <= i < set_index(sets, name@) ==> (#[trigger] sets[i]).0 != name@,
                forall|i: int| 0 <= i < k ==> (#[trigger] sets[i]).0 != name@,
                found ==> k < sets.len() && sets[k as int].0 == name@,
            decreases self.sets.len() - k + (if found { 0int } else { 1int }),
        {
            assert(sets[k as int] == set_view(self.sets@[k as int]));
            if chars_eq(&chars_of(self.sets[k].attribute.as_str()), &name_chars) {
                found = true;
            } else {
                k += 1;
            }
        }
        if found {
            assert(set_index(sets, name@) == k as int);
            let values = &self.sets[k].values;
            let ghost vs = sets[k as int].1;
            assert(vs == values@.map_values(|v: String| v@));
            let mut j: usize = 0;
            while j < values.len()
                invariant
                    j <= values.len(),
                    k < sets.len(),
                    sets == self.view_sets(),
                    set_index(sets, name@) == k as int,
                    vs == sets[k as int].1,
                    vs == values@.map_values(|v: String| v@),
                    value_chars@ == value@,
                    name@ == attribute_name_of(*attribute),
                    forall|i: int| 0 <= i < j ==> vs[i] != value@,
                decreases values.len() - j,
            {
                if chars_eq(&chars_of(values[j].as_str()), &value_chars) {
                    assert(vs[j as int] == value@);
                    assert(vs.contains(value@));
                    return;
                }
                j += 1;
            }
            assert(!vs.contains(value@));
            let ghost old_set = self.sets@[k as int];
            self.sets[k].values.push(string_of(&value_chars));
            proof {
                let new_set = self.sets@[k as int];
                assert(new_set.attribute == old_set.attribute);
                assert(new_set.values@.map_values(|v: String| v@) =~= vs.push(value@));
                assert(self.view_sets() =~= sets.update(k as int, (name@, vs.push(value@))));
            }
        } else {
            let ghost old_sets = self.sets@;
            self.sets.push(HardwareCandidateSet { attribute: name, values: vec![string_of(&value_chars)] });
            proof {
                assert(self.sets@.last().values@.map_values(|v: String| v@) =~= seq![value@]);
                assert(self.view_sets() =~= sets.push((name@, seq![value@])));
            }
        }
    }

    /// Walks one expression tree, recording every comparison value,
    /// whatever operator or nesting it appears under: any value written
    /// on the media is a value the target machine might report.
    fn walk(&mut self, expr: &MachExpr)
        ensures
            final(self).view_sets() == add_all(old(self).view_sets(), expr_pairs(*expr)),
        decreases expr,
    {
        match expr {
            MachExpr::Compare { attribute, value, .. } => {
                self.record(attribute, value.as_str());
                assert(seq![(attribute_name_of(*attribute), value@)].drop_last() =~= Seq::<(Seq<char>, Seq<char>)>::empty());
                assert(add_all(old(self).view_sets(), seq![(attribute_name_of(*attribute), value@)]) == add_candidate(add_all(old(self).view_sets(), Seq::empty()), attribute_name_of(*attribute), value@));
            },
            MachExpr::And(operands) => {
                self.walk_all(operands);
            },
            MachExpr::Or(operands) => {
                self.walk_all(operands);
            },
            MachExpr::Not(operand) => {
                self.walk(operand);
            },
        }
    }

    /// Walks a list of expression trees in order.
    fn walk_all(&mut self, operands: &Vec<MachExpr>)
        ensures
            final(self).view_sets() == add_all(old(self).view_sets(), exprs_pairs(operands@)),
        decreases operands,
    {
        let ghost start = self.view_sets();
        let mut i: usize = 0;
        assert(operands@.subrange(0, 0) =~= Seq::<MachExpr>::empty());
        assert(exprs_pairs(Seq::<MachExpr>::empty()) =~= Seq::<(Seq<char>, Seq<char>)>::empty());
        while i < operands.len()
            invariant
                i <= operands.len(),
                self.view_sets() == add_all(start, exprs_pairs(operands@.subrange(0, i as int))),
            decreases operands.len() - i,
        {
            assert(decreases_to!(operands => operands@[i as int]));
            let ghost before = self.view_sets();
            self.walk(&operands[i]);
            proof {
                lemma_exprs_pairs_push(operands@.subrange(0, i as int), operands@[i as int]);
                assert(operands@.subrange(0, i + 1) =~= operands@.subrange(0, i as int).push(operands@[i as int]));
                lemma_add_all_append(start, exprs_pairs(operands@.subrange(0, i as int)), expr_pairs(operands@[i as int]));
            }
            i += 1;
        }
        assert(operands@.subrange(0, operands.len() as int) =~= operands@);
    }

    /// Walks one parsed expression.
    fn expression(&mut self, expression: &HardwareExpr)
        ensures
            final(self).view_sets() == add_all(old(self).view_sets(), expr_pairs(expression.expr)),
    {
        self.walk(&expression.expr);
    }
}

/// The pairs of a list with one more tree are the list's pairs followed
/// by the tree's.
proof fn lemma_exprs_pairs_push(es: Seq<MachExpr>, e: MachExpr)
    ensures
        exprs_pairs(es.push(e)) == exprs_pairs(es) + expr_pairs(e),
    decreases es.len(),
{
    if es.len() == 0 {
        assert(es.push(e).subrange(1, 1) =~= Seq::<MachExpr>::empty());
        assert(exprs_pairs(Seq::<MachExpr>::empty()) =~= Seq::<(Seq<char>, Seq<char>)>::empty());
        assert(expr_pairs(e) + Seq::<(Seq<char>, Seq<char>)>::empty() =~= expr_pairs(e));
        assert(Seq::<(Seq<char>, Seq<char>)>::empty() + expr_pairs(e) =~= expr_pairs(e));
    } else {
        lemma_exprs_pairs_push(es.subrange(1, es.len() as int), e);
        assert(es.push(e).subrange(1, es.len() as int + 1) =~= es.subrange(1, es.len() as int).push(e));
        assert(es.push(e)[0] == es[0]);
        assert(exprs_pairs(es.push(e)) =~= exprs_pairs(es) + expr_pairs(e));
    }
}

} // verus!

verus! {

/// The pairs of a list of parsed expressions, in order.
pub open spec fn hexprs_pairs(es: Seq<HardwareExpr>) -> Seq<(Seq<char>, Seq<char>)>
    decreases es.len(),
{
    if es.len() == 0 {
        Seq::empty()
    } else {
        hexprs_pairs(es.drop_last()) + expr_pairs(es.last().expr)
    }
}

/// The pairs of a hierarchy level's decoded restrictions; nothing
/// without them.
pub open spec fn level_pairs(m: Option<HardwareRestrictions>) -> Seq<(Seq<char>, Seq<char>)> {
    match m {
        Some(r) => hexprs_pairs(r.expressions@),
        None => Seq::empty(),
    }
}

/// The pairs of the first `n` subsystems.
pub open spec fn subsystems_pairs(ss: Seq<Subsystem>, n: int) -> Seq<(Seq<char>, Seq<char>)>
    decreases n,
{
    if n <= 0 { Seq::empty() } else { subsystems_pairs(ss, n - 1) + level_pairs(ss[n - 1].mach) }
}

/// The pairs of the first `n` images: each image's own, then its
/// subsystems'.
pub open spec fn images_pairs(is: Seq<Image>, n: int) -> Seq<(Seq<char>, Seq<char>)>
    decreases n,
{
    if n <= 0 {
        Seq::empty()
    } else {
        images_pairs(is, n - 1) + level_pairs(is[n - 1].mach) + subsystems_pairs(is[n - 1].subsystems@, is[n - 1].subsystems@.len() as int)
    }
}

/// The pairs of the first `n` entries' `mach(...)` attributes.
pub open spec fn entries_pairs(es: Seq<Entry>, n: int) -> Seq<(Seq<char>, Seq<char>)>
    decreases n,
{
    if n <= 0 { Seq::empty() } else { entries_pairs(es, n - 1) + hexprs_pairs(mach_attrs(es[n - 1].attributes@)) }
}

/// The pairs of a product: its own restrictions, its images with their
/// subsystems, then its entries in IDB order.
pub open spec fn product_pairs(p: Product) -> Seq<(Seq<char>, Seq<char>)> {
    level_pairs(p.mach) + images_pairs(p.images@, p.images@.len() as int) + entries_pairs(p.entries@, p.entries@.len() as int)
}

/// The pairs of the first `n` products.
pub open spec fn products_pairs(ps: Seq<Product>, n: int) -> Seq<(Seq<char>, Seq<char>)>
    decreases n,
{
    if n <= 0 { Seq::empty() } else { products_pairs(ps, n - 1) + product_pairs(ps[n - 1]) }
}

impl CandidateCollector {
    /// Walks every expression of a list, in order.
    fn expressions(&mut self, exprs: &Vec<HardwareExpr>)
        requires
            sets_wf(old(self).view_sets()),
        ensures
            sets_wf(final(self).view_sets()),
            final(self).view_sets() == add_all(old(self).view_sets(), hexprs_pairs(exprs@)),
    {
        let ghost start = self.view_sets();
        let mut i: usize = 0;
        assert(exprs@.take(0) =~= Seq::<HardwareExpr>::empty());
        while i < exprs.len()
            invariant
                i <= exprs.len(),
                sets_wf(self.view_sets()),
                self.view_sets() == add_all(start, hexprs_pairs(exprs@.take(i as int))),
            decreases exprs.len() - i,
        {
            let ghost before = self.view_sets();
            self.expression(&exprs[i]);
            proof {
                lemma_add_all_keeps_wf(before, expr_pairs(exprs@[i as int].expr));
                assert(exprs@.take(i + 1).drop_last() =~= exprs@.take(i as int));
                lemma_add_all_append(start, hexprs_pairs(exprs@.take(i as int)), expr_pairs(exprs@[i as int].expr));
            }
            i += 1;
        }
        assert(exprs@.take(exprs@.len() as int) =~= exprs@);
    }

    /// Walks the restrictions of a level, when decoded.
    fn level(&mut self, m: &Option<HardwareRestrictions>)
        requires
            sets_wf(old(self).view_sets()),
        ensures
            sets_wf(final(self).view_sets()),
            final(self).view_sets() == add_all(old(self).view_sets(), level_pairs(*m)),
    {
        if let Some(mach) = m {
            self.expressions(&mach.expressions);
        }
    }
}

/// The hardware attribute candidates of a distribution: every
/// attribute/value pair occurring in a successfully parsed MACH
/// expression, grouped by attribute, in first-appearance order, each
/// attribute once and each value once per attribute.
///
/// Sources per product, in order: the product restrictions, then each
/// image with its subsystems, then the entry `mach(...)` attributes in
/// IDB order. Unparsed expression payloads contribute nothing.
pub fn hardware_candidates(distribution: &Distribution) -> (r: Vec<HardwareCandidateSet>)
    ensures
        sets_wf(sets_view(r@)),
        sets_view(r@) == add_all(Seq::empty(), products_pairs(distribution.products_spec(), distribution.products_spec().len() as int)),
{
    let mut collector = CandidateCollector { sets: Vec::new() };
    assert(sets_view(collector.sets@) =~= Seq::<(Seq<char>, Seq<Seq<char>>)>::empty());
    let ghost empty = Seq::<(Seq<char>, Seq<Seq<char>>)>::empty();
    let products = distribution.products();
    let mut p: usize = 0;
    while p < products.len()
        invariant
            p <= products.len(),
            products@ == distribution.products_spec(),
            sets_wf(collector.view_sets()),
            collector.view_sets() == add_all(empty, products_pairs(products@, p as int)),
        decreases products.len() - p,
    {
        let product = &products[p];
        let ghost base = products_pairs(products@, p as int);
        collector.level(&product.mach);
        proof {
            lemma_add_all_append(empty, base, level_pairs(product.mach));
        }
        let mut i: usize = 0;
        while i < product.images.len()
            invariant
                i <= product.images.len(),
                sets_wf(collector.view_sets()),
                collector.view_sets() == add_all(empty, base + level_pairs(product.mach) + images_pairs(product.images@, i as int)),
            decreases product.images.len() - i,
        {
            let image = &product.images[i];
            let ghost done = base + level_pairs(product.mach) + images_pairs(product.images@, i as int);
            proof {
                assert(done + Seq::<(Seq<char>, Seq<char>)>::empty() =~= done);
            }
            collector.level(&image.mach);
            proof {
                lemma_add_all_append(empty, done, level_pairs(image.mach));
            }
            let mut s: usize = 0;
            while s < image.subsystems.len()
                invariant
                    s <= image.subsystems.len(),
                    sets_wf(collector.view_sets()),
                    collector.view_sets() == add_all(empty, done + level_pairs(image.mach) + subsystems_pairs(image.subsystems@, s as int)),
                decreases image.subsystems.len() - s,
            {
                let ghost so_far = done + level_pairs(image.mach) + subsystems_pairs(image.subsystems@, s as int);
                collector.level(&image.subsystems[s].mach);
                proof {
                    lemma_add_all_append(empty, so_far, level_pairs(image.subsystems@[s as int].mach));
                    assert(so_far + level_pairs(image.subsystems@[s as int].mach)
                        =~= done + level_pairs(image.mach) + subsystems_pairs(image.subsystems@, s + 1));
                }
                s += 1;
            }
            proof {
                assert(done + level_pairs(image.mach) + subsystems_pairs(image.subsystems@, image.subsystems@.len() as int)
                    =~= base + level_pairs(product.mach) + images_pairs(product.images@, i + 1));
            }
            i += 1;
        }
        let mut e: usize = 0;
        while e < product.entries.len()
            invariant
                e <= product.entries.len(),
                sets_wf(collector.view_sets()),
                collector.view_sets() == add_all(empty, base + level_pairs(product.mach)
                    + images_pairs(product.images@, product.images@.len() as int) + entries_pairs(product.entries@, e as int)),
            decreases product.entries.len() - e,
        {
            let ghost so_far = base + level_pairs(product.mach) + images_pairs(product.images@, product.images@.len() as int)
                + entries_pairs(product.entries@, e as int);
            let mach = product.entries[e].mach();
            let ghost exprs = mach@.map_values(|h: &HardwareExpr| *h);
            let ghost entry_start = collector.view_sets();
            let mut m: usize = 0;
            assert(exprs.take(0) =~= Seq::<HardwareExpr>::empty());
            while m < mach.len()
                invariant
                    m <= mach.len(),
                    exprs == mach@.map_values(|h: &HardwareExpr| *h),
                    sets_wf(collector.view_sets()),
                    collector.view_sets() == add_all(entry_start, hexprs_pairs(exprs.take(m as int))),
                decreases mach.len() - m,
            {
                let ghost before = collector.view_sets();
                collector.expression(mach[m]);
                proof {
                    lemma_add_all_keeps_wf(before, expr_pairs(mach@[m as int].expr));
                    assert(exprs.take(m + 1).drop_last() =~= exprs.take(m as int));
                    assert(exprs[m as int] == *mach@[m as int]);
                    lemma_add_all_append(entry_start, hexprs_pairs(exprs.take(m as int)), expr_pairs(mach@[m as int].expr));
                }
                m += 1;
            }
            proof {
                assert(exprs.take(exprs.len() as int) =~= exprs);
                lemma_add_all_append(empty, so_far, hexprs_pairs(exprs));
                assert(so_far + hexprs_pairs(exprs) =~= base + level_pairs(product.mach)
                    + images_pairs(product.images@, product.images@.len() as int) + entries_pairs(product.entries@, e + 1));
            }
            e += 1;
        }
        proof {
            assert(base + level_pairs(product.mach) + images_pairs(product.images@, product.images@.len() as int)
                + entries_pairs(product.entries@, product.entries@.len() as int) =~= products_pairs(products@, p + 1));
        }
        p += 1;
    }
    collector.sets
}

} // verus!
