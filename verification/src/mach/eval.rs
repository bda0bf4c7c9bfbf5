//! Evaluation of hardware expressions against a [`HardwareProfile`].
use vstd::prelude::*;
use super::{attribute_name_of, chars_eq, CompareOp, HardwareExpr, MachAttribute, MachExpr};
use crate::num::{parse_i64, parse_i64_spec};
use crate::text::chars_of;

verus! {

/// The values of one attribute as a set of character sequences.
pub open spec fn value_set(vs: Seq<String>) -> Set<Seq<char>> {
    Set::new(|v: Seq<char>| exists|i: int| 0 <= i < vs.len() && #[trigger] vs[i]@ == v)
}

/// The attribute map a list of attribute entries describes: a later
/// entry for the same attribute name replaces an earlier one.
pub open spec fn profile_map(es: Seq<(MachAttribute, Vec<String>)>) -> Map<Seq<char>, Set<Seq<char>>>
    decreases es.len(),
{
    if es.len() == 0 {
        Map::empty()
    } else {
        profile_map(es.drop_last()).insert(attribute_name_of(es.last().0), value_set(es.last().1@))
    }
}

/// A simulated installation target.
///
/// One attribute can carry several values: IRIX itself may report e.g.
/// both `CPUARCH=MIPS2` and `CPUARCH=R4000` for a single machine.
///
/// The library deliberately does not ship a "machine model to
/// attributes" database; the caller describes the target and the
/// distribution data alone decides which files apply. Attributes are
/// identified by their canonical name.
#[derive(Debug)]
pub struct HardwareProfile {
    values: Vec<(MachAttribute, Vec<String>)>,
}

impl View for HardwareProfile {
    type V = Map<Seq<char>, Set<Seq<char>>>;

    closed spec fn view(&self) -> Map<Seq<char>, Set<Seq<char>>> {
        profile_map(self.values@)
    }
}

/// Builder for [`HardwareProfile`].
#[derive(Debug)]
pub struct HardwareProfileBuilder {
    values: Vec<(MachAttribute, Vec<String>)>,
}

impl View for HardwareProfileBuilder {
    type V = Map<Seq<char>, Set<Seq<char>>>;

    closed spec fn view(&self) -> Map<Seq<char>, Set<Seq<char>>> {
        profile_map(self.values@)
    }
}

/// The position of the last entry named `name`, if any.
fn find_last(values: &Vec<(MachAttribute, Vec<String>)>, name: &[char]) -> (r: Option<usize>)
    ensures
        r is None ==> !profile_map(values@).contains_key(name@),
        r matches Some(i) ==> i < values@.len() && profile_map(values@).contains_key(name@)
            && profile_map(values@)[name@] == value_set(values@[i as int].1@),
{
    let mut i = values.len();
    while i > 0
        invariant
            i <= values.len(),
            forall|k: int| i <= k < values.len() ==> attribute_name_of(#[trigger] values@[k].0) != name@,
        decreases i,
    {
        let n = values[i - 1].0.name();
        let nv = chars_of(n.as_str());
        if chars_eq(&nv, name) {
            proof {
                lemma_profile_map_last(values@, (i - 1) as int);
            }
            return Some(i - 1);
        }
        i -= 1;
    }
    proof {
        lemma_profile_map_absent(values@, name@);
    }
    None
}

/// The map holds the entry of the last position with a given name.
proof fn lemma_profile_map_last(es: Seq<(MachAttribute, Vec<String>)>, i: int)
    requires
        0 <= i < es.len(),
        forall|k: int| i < k < es.len() ==> attribute_name_of(#[trigger] es[k].0) != attribute_name_of(es[i].0),
    ensures
        profile_map(es).contains_key(attribute_name_of(es[i].0)),
        profile_map(es)[attribute_name_of(es[i].0)] == value_set(es[i].1@),
    decreases es.len(),
{
    if i < es.len() - 1 {
        let init = es.drop_last();
        assert forall|k: int| i < k < init.len() implies attribute_name_of(#[trigger] init[k].0) != attribute_name_of(init[i].0) by {
            assert(attribute_name_of(es[k].0) != attribute_name_of(es[i].0));
        }
        lemma_profile_map_last(init, i);
        assert(attribute_name_of(es[es.len() - 1].0) != attribute_name_of(es[i].0));
    }
}

/// A name no entry carries is absent from the map.
proof fn lemma_profile_map_absent(es: Seq<(MachAttribute, Vec<String>)>, name: Seq<char>)
    requires
        forall|k: int| 0 <= k < es.len() ==> attribute_name_of(#[trigger] es[k].0) != name,
    ensures
        !profile_map(es).contains_key(name),
    decreases es.len(),
{
    if es.len() > 0 {
        let init = es.drop_last();
        assert forall|k: int| 0 <= k < init.len() implies attribute_name_of(#[trigger] init[k].0) != name by {
            assert(attribute_name_of(es[k].0) != name);
        }
        lemma_profile_map_absent(init, name);
        assert(attribute_name_of(es[es.len() - 1].0) != name);
    }
}

/// Whether a string list holds a value.
fn holds_value(vs: &Vec<String>, value: &[char]) -> (r: bool)
    ensures
        r == value_set(vs@).contains(value@),
{
    let mut i: usize = 0;
    while i < vs.len()
        invariant
            i <= vs.len(),
            forall|k: int| 0 <= k < i ==> (#[trigger] vs@[k])@ != value@,
        decreases vs.len() - i,
    {
        let cv = chars_of(vs[i].as_str());
        if chars_eq(&cv, value) {
            assert(vs@[i as int]@ == value@);
            return true;
        }
        i += 1;
    }
    false
}

impl HardwareProfile {
    /// Starts building a profile.
    pub fn builder() -> (b: HardwareProfileBuilder)
        ensures
            b@ == Map::<Seq<char>, Set<Seq<char>>>::empty(),
    {
        HardwareProfileBuilder { values: Vec::new() }
    }

    /// Looks up the values of an attribute.
    pub fn get(&self, attribute: &MachAttribute) -> (r: Option<&Vec<String>>)
        ensures
            r is Some <==> self@.contains_key(attribute_name_of(*attribute)),
            r matches Some(vs) ==> value_set(vs@) == self@[attribute_name_of(*attribute)],
    {
        let n = attribute.name();
        let nv = chars_of(n.as_str());
        match find_last(&self.values, &nv) {
            Some(i) => Some(&self.values[i].1),
            None => None,
        }
    }
}

impl HardwareProfileBuilder {
    /// Sets an attribute to a single value, replacing previous values.
    pub fn set(self, attribute: &str, value: &str) -> (r: Self)
        ensures
            r@ == self@.insert(attribute@, set![value@]),
    {
        let mut values = self.values;
        let a = MachAttribute::from_name(attribute);
        let mut vs: Vec<String> = Vec::new();
        vs.push(crate::text::string_of(&chars_of(value)));
        let ghost old_values = values@;
        values.push((a, vs));
        proof {
            assert(values@.drop_last() == old_values);
            assert(value_set(vs@) =~= set![value@]) by {
                assert(vs@[0]@ == value@);
            }
        }
        HardwareProfileBuilder { values }
    }

    /// Adds a value to an attribute, keeping previous values.
    pub fn add(self, attribute: &str, value: &str) -> (r: Self)
        ensures
            r@ == self@.insert(
                attribute@,
                if self@.contains_key(attribute@) {
                    self@[attribute@].insert(value@)
                } else {
                    set![value@]
                },
            ),
    {
        let mut values = self.values;
        let a = MachAttribute::from_name(attribute);
        let av = chars_of(attribute);
        let value_chars = chars_of(value);
        let mut vs: Vec<String> = Vec::new();
        match find_last(&values, &av) {
            Some(i) => {
                let mut k: usize = 0;
                let existing = &values[i].1;
                while k < existing.len()
                    invariant
                        k <= existing.len(),
                        vs@ == existing@.take(k as int),
                    decreases existing.len() - k,
                {
                    vs.push(existing[k].clone());
                    k += 1;
                    assert(existing@.take(k as int) == existing@.take(k - 1).push(existing@[k - 1]));
                }
                assert(existing@.take(existing.len() as int) == existing@);
            },
            None => {},
        }
        let ghost before = vs@;
        if !holds_value(&vs, &value_chars) {
            vs.push(crate::text::string_of(&value_chars));
        }
        proof {
            if value_set(before).contains(value@) {
                assert(value_set(vs@) =~= value_set(before).insert(value@));
            } else {
                assert forall|v: Seq<char>| #[trigger] value_set(vs@).contains(v) == value_set(before).insert(value@).contains(v) by {
                    if value_set(before).contains(v) {
                        let j = choose|j: int| 0 <= j < before.len() && #[trigger] before[j]@ == v;
                        assert(vs@[j]@ == v);
                    }
                    if v == value@ {
                        assert(vs@[before.len() as int]@ == v);
                    }
                }
                assert(value_set(vs@) =~= value_set(before).insert(value@));
            }
            if before.len() == 0 {
                assert(value_set(before) =~= Set::<Seq<char>>::empty());
                assert(value_set(vs@) =~= set![value@]);
            }
        }
        let ghost old_values = values@;
        values.push((a, vs));
        assert(values@.drop_last() == old_values);
        HardwareProfileBuilder { values }
    }

    /// Finishes the profile.
    pub fn build(self) -> (p: HardwareProfile)
        ensures
            p@ == self@,
    {
        HardwareProfile { values: self.values }
    }
}

/// Lexicographic order of character sequences by code point, which is
/// the byte order of their UTF-8 encodings: negative, zero or positive.
pub open spec fn lex_order(a: Seq<char>, b: Seq<char>) -> int
    decreases a.len(),
{
    if a.len() == 0 {
        if b.len() == 0 {
            0
        } else {
            -1
        }
    } else if b.len() == 0 {
        1
    } else if (a[0] as u32) < (b[0] as u32) {
        -1
    } else if (a[0] as u32) > (b[0] as u32) {
        1
    } else {
        lex_order(a.drop_first(), b.drop_first())
    }
}

/// Numeric comparison when both sides parse as `i64`, else
/// lexicographic: negative, zero or positive.
pub open spec fn compare_one_spec(actual: Seq<char>, expected: Seq<char>) -> int {
    match (parse_i64_spec(actual), parse_i64_spec(expected)) {
        (Some(a), Some(b)) => if a < b {
            -1
        } else if a > b {
            1
        } else {
            0
        },
        _ => lex_order(actual, expected),
    }
}

/// Whether `order` (negative, zero, positive) satisfies an ordering
/// operator.
pub open spec fn order_satisfies(order: int, op: CompareOp) -> bool {
    match op {
        CompareOp::Lt => order < 0,
        CompareOp::Le => order <= 0,
        CompareOp::Gt => order > 0,
        CompareOp::Ge => order >= 0,
        CompareOp::Eq => order == 0,
        CompareOp::Ne => order != 0,
    }
}

/// A comparison against the values of one attribute: equality holds
/// when any value matches, inequality when no value matches, and
/// ordering operators when any value satisfies them.
pub open spec fn compare_spec(actual: Set<Seq<char>>, op: CompareOp, expected: Seq<char>) -> bool {
    match op {
        CompareOp::Eq => actual.contains(expected),
        CompareOp::Ne => !actual.contains(expected),
        _ => exists|a: Seq<char>| actual.contains(a) && order_satisfies(#[trigger] compare_one_spec(a, expected), op),
    }
}

/// The truth of an expression tree for a profile. A comparison whose
/// attribute is absent from the profile is false, for every operator.
pub open spec fn eval_expr(e: MachExpr, profile: Map<Seq<char>, Set<Seq<char>>>) -> bool
    decreases e, 1nat,
{
    match e {
        MachExpr::Compare { attribute, op, value } => {
            let n = attribute_name_of(attribute);
            profile.contains_key(n) && compare_spec(profile[n], op, value@)
        },
        MachExpr::And(operands) => eval_all(operands@, profile),
        MachExpr::Or(operands) => eval_any(operands@, profile),
        MachExpr::Not(operand) => !eval_expr(*operand, profile),
    }
}

/// Every expression of the list holds.
pub open spec fn eval_all(es: Seq<MachExpr>, profile: Map<Seq<char>, Set<Seq<char>>>) -> bool
    decreases es, 0nat,
{
    if es.len() == 0 {
        true
    } else {
        eval_expr(es[0], profile) && eval_all(es.subrange(1, es.len() as int), profile)
    }
}

/// Some expression of the list holds.
pub open spec fn eval_any(es: Seq<MachExpr>, profile: Map<Seq<char>, Set<Seq<char>>>) -> bool
    decreases es, 0nat,
{
    if es.len() == 0 {
        false
    } else {
        eval_expr(es[0], profile) || eval_any(es.subrange(1, es.len() as int), profile)
    }
}

impl HardwareExpr {
    /// Evaluates this expression against a hardware profile.
    ///
    /// Equality holds when *any* value of the attribute matches,
    /// inequality when *no* value matches, and ordering operators when
    /// any value satisfies them. A comparison whose attribute is absent
    /// from the profile evaluates to `false`, for every operator.
    pub fn evaluate(&self, profile: &HardwareProfile) -> (r: bool)
        ensures
            r == eval_expr(self.expr, profile@),
    {
        evaluate(&self.expr, profile)
    }
}

/// Evaluates an expression tree against a hardware profile.
#[verifier::loop_isolation(false)]
pub fn evaluate(expr: &MachExpr, profile: &HardwareProfile) -> (r: bool)
    ensures
        r == eval_expr(*expr, profile@),
    decreases expr,
{
    match expr {
        MachExpr::Compare { attribute, op, value } => match profile.get(attribute) {
            Some(actual) => compare(actual, *op, value.as_str()),
            None => false,
        },
        MachExpr::And(operands) => {
            assert(eval_expr(*expr, profile@) == eval_all(operands@, profile@));
            let mut i: usize = 0;
            assert(operands@.subrange(0, operands@.len() as int) =~= operands@);
            while i < operands.len()
                invariant
                    i <= operands.len(),
                    eval_all(operands@, profile@) == eval_all(operands@.subrange(i as int, operands@.len() as int), profile@),
                decreases operands.len() - i,
            {
                let ghost rest = operands@.subrange(i as int, operands@.len() as int);
                assert(rest.subrange(1, rest.len() as int) =~= operands@.subrange(i + 1, operands@.len() as int));
                assert(rest[0] == operands@[i as int]);
                assert(decreases_to!(*expr => operands@[i as int]));
                if !evaluate(&operands[i], profile) {
                    return false;
                }
                i += 1;
            }
            assert(operands@.subrange(i as int, operands@.len() as int) =~= Seq::<MachExpr>::empty());
            true
        },
        MachExpr::Or(operands) => {
            assert(eval_expr(*expr, profile@) == eval_any(operands@, profile@));
            let mut i: usize = 0;
            assert(operands@.subrange(0, operands@.len() as int) =~= operands@);
            while i < operands.len()
                invariant
                    i <= operands.len(),
                    eval_any(operands@, profile@) == eval_any(operands@.subrange(i as int, operands@.len() as int), profile@),
                decreases operands.len() - i,
            {
                let ghost rest = operands@.subrange(i as int, operands@.len() as int);
                assert(rest.subrange(1, rest.len() as int) =~= operands@.subrange(i + 1, operands@.len() as int));
                assert(rest[0] == operands@[i as int]);
                assert(decreases_to!(*expr => operands@[i as int]));
                if evaluate(&operands[i], profile) {
                    return true;
                }
                i += 1;
            }
            assert(operands@.subrange(i as int, operands@.len() as int) =~= Seq::<MachExpr>::empty());
            false
        },
        MachExpr::Not(operand) => !evaluate(operand, profile),
    }
}

/// Whether some expression of a node applies: multiple expressions on
/// the same node are OR-ed.
pub open spec fn any_expr_matches(exprs: Seq<HardwareExpr>, profile: Map<Seq<char>, Set<Seq<char>>>) -> bool {
    exists|i: int| 0 <= i < exprs.len() && #[trigger] eval_expr(exprs[i].expr, profile)
}

/// Whether a node carrying several `mach` expressions applies to a
/// target.
///
/// Per SGI semantics, multiple expressions on the same node are OR-ed. A
/// node without any expression applies to every target.
pub fn matches_any(exprs: &[HardwareExpr], profile: &HardwareProfile) -> (r: bool)
    ensures
        r == (exprs@.len() == 0 || any_expr_matches(exprs@, profile@)),
{
    exprs.len() == 0 || any_matches(exprs, profile)
}

/// Whether some expression of the list matches.
pub fn any_matches(exprs: &[HardwareExpr], profile: &HardwareProfile) -> (r: bool)
    ensures
        r == any_expr_matches(exprs@, profile@),
{
    let mut i: usize = 0;
    while i < exprs.len()
        invariant
            i <= exprs.len(),
            forall|k: int| 0 <= k < i ==> !#[trigger] eval_expr(exprs@[k].expr, profile@),
        decreases exprs.len() - i,
    {
        if exprs[i].evaluate(profile) {
            return true;
        }
        i += 1;
    }
    false
}

fn compare(actual: &Vec<String>, op: CompareOp, expected: &str) -> (r: bool)
    ensures
        r == compare_spec(value_set(actual@), op, expected@),
{
    let ev = chars_of(expected);
    match op {
        CompareOp::Eq => holds_value(actual, &ev),
        CompareOp::Ne => !holds_value(actual, &ev),
        _ => {
            let mut i: usize = 0;
            while i < actual.len()
                invariant
                    i <= actual.len(),
                    ev@ == expected@,
                    op != CompareOp::Eq && op != CompareOp::Ne,
                    forall|k: int| 0 <= k < i ==> !order_satisfies(#[trigger] compare_one_spec(actual@[k]@, expected@), op),
                decreases actual.len() - i,
            {
                let av = chars_of(actual[i].as_str());
                let o = compare_one(&av, &ev);
                let hit = match op {
                    CompareOp::Lt => o < 0,
                    CompareOp::Le => o <= 0,
                    CompareOp::Gt => o > 0,
                    _ => o >= 0,
                };
                if hit {
                    assert(value_set(actual@).contains(actual@[i as int]@));
                    return true;
                }
                i += 1;
            }
            proof {
                if exists|a: Seq<char>| value_set(actual@).contains(a) && order_satisfies(#[trigger] compare_one_spec(a, expected@), op) {
                    let a = choose|a: Seq<char>| value_set(actual@).contains(a) && order_satisfies(#[trigger] compare_one_spec(a, expected@), op);
                    let j = choose|j: int| 0 <= j < actual@.len() && #[trigger] actual@[j]@ == a;
                    assert(!order_satisfies(compare_one_spec(actual@[j]@, expected@), op));
                }
            }
            false
        },
    }
}

/// Numeric comparison when both sides parse as integers, else
/// lexicographic: `-1`, `0` or `1`.
fn compare_one(actual: &Vec<char>, expected: &Vec<char>) -> (r: i8)
    ensures
        r as int == compare_one_spec(actual@, expected@),
{
    match (parse_i64(actual), parse_i64(expected)) {
        (Some(a), Some(b)) => if a < b {
            -1
        } else if a > b {
            1
        } else {
            0
        },
        _ => lex_compare(actual, expected),
    }
}

/// Lexicographic comparison by code point.
fn lex_compare(a: &Vec<char>, b: &Vec<char>) -> (r: i8)
    ensures
        r as int == lex_order(a@, b@),
{
    let mut i: usize = 0;
    assert(a@.subrange(0, a@.len() as int) =~= a@);
    assert(b@.subrange(0, b@.len() as int) =~= b@);
    while i < a.len() && i < b.len()
        invariant
            i <= a.len(),
            i <= b.len(),
            lex_order(a@, b@) == lex_order(a@.subrange(i as int, a@.len() as int), b@.subrange(i as int, b@.len() as int)),
        decreases a.len() - i,
    {
        let x = a[i] as u32;
        let y = b[i] as u32;
        let ghost sa = a@.subrange(i as int, a@.len() as int);
        let ghost sb = b@.subrange(i as int, b@.len() as int);
        assert(sa.drop_first() =~= a@.subrange(i + 1, a@.len() as int));
        assert(sb.drop_first() =~= b@.subrange(i + 1, b@.len() as int));
        if x < y {
            return -1;
        }
        if x > y {
            return 1;
        }
        i += 1;
    }
    if a.len() == i && b.len() == i {
        0
    } else if a.len() == i {
        -1
    } else {
        1
    }
}

} // verus!
