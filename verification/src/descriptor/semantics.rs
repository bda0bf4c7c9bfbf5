//! Decodes physical descriptor records into logical semantics.
//!
//! The attribute tags and flag bits interpreted here are the ones the
//! descriptor writer produces:
//!
//! * attribute tags `m`, `R`, `D`, `M` carry hardware expressions
//!   (`mach` and conditional `required`/`default`/`miniroot`);
//! * tag `A` carries an `autominiroot` rule as `name low high`;
//! * tag `C` carries a product cut point as `path`, a `0x01` separator
//!   and a sequence number;
//! * the subsystem flag word carries `required` (`0x0001`), `default`
//!   (`0x0002`), `patch` (`0x0400`), `inplace` (`0x0800`, cleared for
//!   miniroot subsystems), `clientonly` (`0x2000`), overlay member
//!   (`0x4000`) and `overlays` (`0x8000`).
//!
//! A conditional flag's bit is set whether or not the spec statement
//! had a hardware expression, so the blobs decide between
//! [`ConditionalFlag::Always`] and [`ConditionalFlag::When`].
//!
//! Everything here is fail-safe: an expression that cannot be parsed is
//! preserved as *unresolved* so evaluation can report "unknown" instead
//! of silently treating the restriction as absent.
use vstd::prelude::*;
use crate::descriptor::model::{
    follows_range_of, limit_of, ordinary_range_of, version_limit, ConditionalFlag, Cutpoint,
    DescriptorAttribute, DescriptorRange, DescriptorSubsystem, HardwareRestrictions,
    PrerequisiteClause, SubsystemFlags, SubsystemRange, SubsystemRules, Version, VersionRange,
};
use crate::diagnostic::Diagnostic;
use crate::mach::parser::hardware_spec;
use crate::mach::{expr_view, ExprSpec, HardwareExpr, HardwareSyntax};
use crate::num::{parse_unsigned, parse_unsigned_spec};
use crate::path::{normalize, IrixPath};
use crate::text::{
    append_str, chars_of, push_debug, seqs_of, split_chars, split_on, split_words, string_of,
    ws_words,
};

verus! {

/// A parsed hardware expression as raw text, syntax and expression.
pub open spec fn hexpr_view(h: HardwareExpr) -> (Seq<char>, HardwareSyntax, ExprSpec) {
    (h.raw@, h.syntax, expr_view(h.expr))
}

/// The views of a list of parsed hardware expressions.
pub open spec fn hexprs_view(v: Seq<HardwareExpr>) -> Seq<(Seq<char>, HardwareSyntax, ExprSpec)> {
    v.map_values(|h: HardwareExpr| hexpr_view(h))
}

/// The character sequences of a list of strings.
pub open spec fn texts_view(v: Seq<String>) -> Seq<Seq<char>> {
    v.map_values(|s: String| s@)
}

/// The expressions of the attributes with `tag` that parse, in order.
pub open spec fn tagged_parsed(attrs: Seq<DescriptorAttribute>, tag: u8) -> Seq<(Seq<char>, HardwareSyntax, ExprSpec)>
    decreases attrs.len(),
{
    if attrs.len() == 0 {
        Seq::empty()
    } else {
        let rest = tagged_parsed(attrs.drop_last(), tag);
        let a = attrs.last();
        if a.tag == tag && hardware_spec(a.text@) is Some {
            let (syntax, e) = hardware_spec(a.text@)->0;
            rest.push((a.text@, syntax, e))
        } else {
            rest
        }
    }
}

/// The texts of the attributes with `tag` that do not parse, in order.
pub open spec fn tagged_unresolved(attrs: Seq<DescriptorAttribute>, tag: u8) -> Seq<Seq<char>>
    decreases attrs.len(),
{
    if attrs.len() == 0 {
        Seq::empty()
    } else {
        let rest = tagged_unresolved(attrs.drop_last(), tag);
        let a = attrs.last();
        if a.tag == tag && hardware_spec(a.text@) is None {
            rest.push(a.text@)
        } else {
            rest
        }
    }
}

/// Parses the hardware expressions of every attribute with the given
/// tag, reporting unparsable ones as warnings and returning them
/// alongside the parsed expressions.
fn tagged_expressions(
    attributes: &[DescriptorAttribute],
    tag: u8,
    what: &str,
    origin: &str,
    diagnostics: &mut Vec<Diagnostic>,
) -> (r: (Vec<HardwareExpr>, Vec<String>))
    ensures
        crate::diagnostic::keeps(old(diagnostics)@, final(diagnostics)@),
        hexprs_view(r.0@) == tagged_parsed(attributes@, tag),
        texts_view(r.1@) == tagged_unresolved(attributes@, tag),
{
    let ghost diagnostics0 = diagnostics@;
    let mut expressions: Vec<HardwareExpr> = Vec::new();
    let mut unresolved: Vec<String> = Vec::new();
    let mut i: usize = 0;
    while i < attributes.len()
        invariant
            crate::diagnostic::keeps(diagnostics0, diagnostics@),
            i <= attributes.len(),
            hexprs_view(expressions@) == tagged_parsed(attributes@.take(i as int), tag),
            texts_view(unresolved@) == tagged_unresolved(attributes@.take(i as int), tag),
        decreases attributes.len() - i,
    {
        let attribute = &attributes[i];
        assert(attributes@.take(i + 1).drop_last() == attributes@.take(i as int));
        assert(attributes@.take(i + 1).last() == *attribute);
        if attribute.tag == tag {
            match HardwareExpr::parse(attribute.text.as_str()) {
                Ok(expression) => {
                    assert(hexprs_view(expressions@.push(expression)) =~= hexprs_view(expressions@).push(hexpr_view(expression)));
                    expressions.push(expression);
                },
                Err(error) => {
                    let mut message = string_of(&chars_of("unparsable "));
                    append_str(&mut message, what);
                    append_str(&mut message, " expression ");
                    push_debug(&mut message, attribute.text.as_str());
                    append_str(&mut message, ": ");
                    append_str(&mut message, error.to_string().as_str());
                    diagnostics.push(Diagnostic::warning(message, Some(string_of(&chars_of(origin)))));
                    let text = attribute.text.clone();
                    assert(texts_view(unresolved@.push(text)) =~= texts_view(unresolved@).push(text@));
                    unresolved.push(text);
                },
            }
        }
        i += 1;
    }
    assert(attributes@.take(attributes.len() as int) == attributes@);
    (expressions, unresolved)
}

/// Collects the hardware expressions of every `mach` attribute.
/// Unparsable expressions are reported as warnings *and* preserved in
/// the result's `unresolved` list, so applicability stays fail-safe.
pub fn mach_expressions(
    attributes: &[DescriptorAttribute],
    origin: &str,
    diagnostics: &mut Vec<Diagnostic>,
) -> (r: HardwareRestrictions)
    ensures
        crate::diagnostic::keeps(old(diagnostics)@, final(diagnostics)@),
        hexprs_view(r.expressions@) == tagged_parsed(attributes@, 0x6d),
        texts_view(r.unresolved@) == tagged_unresolved(attributes@, 0x6d),
{
    let ghost diagnostics0 = diagnostics@;
    let (expressions, unresolved) = tagged_expressions(attributes, 0x6d, "mach", origin, diagnostics);
    HardwareRestrictions { expressions, unresolved }
}

/// The mathematical form of a conditional flag.
pub enum FlagSpec {
    /// Not set.
    No,
    /// Set unconditionally.
    Always,
    /// Set under these expressions.
    When(Seq<(Seq<char>, HardwareSyntax, ExprSpec)>),
    /// Set under these expressions and these unparsed payloads.
    WhenUnresolved(Seq<(Seq<char>, HardwareSyntax, ExprSpec)>, Seq<Seq<char>>),
}

/// The mathematical form of a conditional flag.
pub open spec fn flag_view(f: ConditionalFlag) -> FlagSpec {
    match f {
        ConditionalFlag::No => FlagSpec::No,
        ConditionalFlag::Always => FlagSpec::Always,
        ConditionalFlag::When(es) => FlagSpec::When(hexprs_view(es@)),
        ConditionalFlag::WhenUnresolved { expressions, unresolved } => FlagSpec::WhenUnresolved(
            hexprs_view(expressions@),
            texts_view(unresolved@),
        ),
    }
}

/// A flag decoded from its bit and its condition blobs: not set without
/// the bit; unresolved when a condition did not parse; conditional when
/// conditions parsed; unconditional otherwise.
pub open spec fn conditional_spec(
    bit_set: bool,
    parsed: Seq<(Seq<char>, HardwareSyntax, ExprSpec)>,
    unresolved: Seq<Seq<char>>,
) -> FlagSpec {
    if !bit_set {
        FlagSpec::No
    } else if unresolved.len() > 0 {
        FlagSpec::WhenUnresolved(parsed, unresolved)
    } else if parsed.len() == 0 {
        FlagSpec::Always
    } else {
        FlagSpec::When(parsed)
    }
}

/// Decodes a plain (`bit` only), hardware-conditional (bit plus
/// expression blobs) or unresolved (unparsable blobs) flag.
fn conditional_flag(bit_set: bool, expressions: Vec<HardwareExpr>, unresolved: Vec<String>) -> (r: ConditionalFlag)
    ensures
        flag_view(r) == conditional_spec(bit_set, hexprs_view(expressions@), texts_view(unresolved@)),
{
    if !bit_set {
        ConditionalFlag::No
    } else if unresolved.len() > 0 {
        ConditionalFlag::WhenUnresolved { expressions, unresolved }
    } else if expressions.len() == 0 {
        ConditionalFlag::Always
    } else {
        ConditionalFlag::When(expressions)
    }
}

/// The flag decoded from a flag-word bit and the blobs of `tag`.
pub open spec fn decoded_flag(bit_set: bool, attrs: Seq<DescriptorAttribute>, tag: u8) -> FlagSpec {
    conditional_spec(bit_set, tagged_parsed(attrs, tag), tagged_unresolved(attrs, tag))
}

/// Decodes the installation flags of a subsystem from its raw flag word
/// and its conditional flag attributes (`R`, `D`, `M`).
pub fn decode_flags(
    flags_raw: u16,
    attributes: &[DescriptorAttribute],
    origin: &str,
    diagnostics: &mut Vec<Diagnostic>,
) -> (r: SubsystemFlags)
    ensures
        crate::diagnostic::keeps(old(diagnostics)@, final(diagnostics)@),
        flag_view(r.required) == decoded_flag(flags_raw & 0x0001 != 0, attributes@, 0x52),
        flag_view(r.default) == decoded_flag(flags_raw & 0x0002 != 0, attributes@, 0x44),
        flag_view(r.miniroot) == decoded_flag(flags_raw & 0x0800 == 0, attributes@, 0x4d),
        r.inplace == (flags_raw & 0x0800 != 0),
        r.patch == (flags_raw & 0x0400 != 0),
        r.client_only == (flags_raw & 0x2000 != 0),
        r.overlay == (flags_raw & 0x8000 != 0),
        r.overlay_member == (flags_raw & 0x4000 != 0),
{
    let ghost diagnostics0 = diagnostics@;
    let (required, required_bad) = tagged_expressions(attributes, 0x52, "required", origin, diagnostics);
    let (default, default_bad) = tagged_expressions(attributes, 0x44, "default", origin, diagnostics);
    let (miniroot, miniroot_bad) = tagged_expressions(attributes, 0x4d, "miniroot", origin, diagnostics);
    let inplace = flags_raw & 0x0800 != 0;
    SubsystemFlags {
        required: conditional_flag(flags_raw & 0x0001 != 0, required, required_bad),
        default: conditional_flag(flags_raw & 0x0002 != 0, default, default_bad),
        // The wire default is "inplace"; `miniroot` clears the bit.
        miniroot: conditional_flag(!inplace, miniroot, miniroot_bad),
        inplace,
        patch: flags_raw & 0x0400 != 0,
        client_only: flags_raw & 0x2000 != 0,
        overlay: flags_raw & 0x8000 != 0,
        overlay_member: flags_raw & 0x4000 != 0,
    }
}

} // verus!

verus! {

/// A logical range as product, image, subsystem and versions.
pub open spec fn logical_view(r: SubsystemRange) -> (Seq<char>, Seq<char>, Seq<char>, VersionRange) {
    (r.product@, r.image@, r.subsystem@, r.versions)
}

/// The views of a list of logical ranges.
pub open spec fn logicals_view(v: Seq<SubsystemRange>) -> Seq<(Seq<char>, Seq<char>, Seq<char>, VersionRange)> {
    v.map_values(|r: SubsystemRange| logical_view(r))
}

/// The ranges whose raw bounds form an ordinary range, decoded, in
/// order.
pub open spec fn ordinary_ranges(rs: Seq<DescriptorRange>) -> Seq<(Seq<char>, Seq<char>, Seq<char>, VersionRange)>
    decreases rs.len(),
{
    if rs.len() == 0 {
        Seq::empty()
    } else {
        let rest = ordinary_ranges(rs.drop_last());
        let r = rs.last();
        match ordinary_range_of(r.low_raw, r.high_raw) {
            Some(v) => rest.push((r.product@, r.image@, r.subsystem@, v)),
            None => rest,
        }
    }
}

/// The `follows` records, decoded, in order.
pub open spec fn follows_ranges(rs: Seq<DescriptorRange>) -> Seq<(Seq<char>, Seq<char>, Seq<char>, VersionRange)>
    decreases rs.len(),
{
    if rs.len() == 0 {
        Seq::empty()
    } else {
        let rest = follows_ranges(rs.drop_last());
        let r = rs.last();
        match follows_range_of(r.low_raw, r.high_raw) {
            Some(v) => rest.push((r.product@, r.image@, r.subsystem@, v)),
            None => rest,
        }
    }
}

/// Whether every range of a clause decodes as an ordinary range.
pub open spec fn all_ordinary(rs: Seq<DescriptorRange>) -> bool {
    forall|k: int| 0 <= k < rs.len() ==> #[trigger] ordinary_range_of(rs[k].low_raw, rs[k].high_raw) is Some
}

/// The prerequisite clauses kept: those that are non-empty and whose
/// ranges all decode, each decoded.
pub open spec fn kept_clauses(cs: Seq<Vec<DescriptorRange>>) -> Seq<Seq<(Seq<char>, Seq<char>, Seq<char>, VersionRange)>>
    decreases cs.len(),
{
    if cs.len() == 0 {
        Seq::empty()
    } else {
        let rest = kept_clauses(cs.drop_last());
        let c = cs.last()@;
        if c.len() > 0 && all_ordinary(c) {
            rest.push(ordinary_ranges(c))
        } else {
            rest
        }
    }
}

/// The views of a list of prerequisite clauses.
pub open spec fn clauses_view(v: Seq<PrerequisiteClause>) -> Seq<Seq<(Seq<char>, Seq<char>, Seq<char>, VersionRange)>> {
    v.map_values(|c: PrerequisiteClause| logicals_view(c.all_of@))
}

/// Decodes an ordinary range, warning about the (unexpected) case where
/// the raw bounds do not form one.
fn decode_ordinary(range: &DescriptorRange, origin: &str, diagnostics: &mut Vec<Diagnostic>) -> (r: Option<VersionRange>)
    ensures
        crate::diagnostic::keeps(old(diagnostics)@, final(diagnostics)@),
        r == ordinary_range_of(range.low_raw, range.high_raw),
{
    let ghost diagnostics0 = diagnostics@;
    match range.ordinary_version_range() {
        Some(versions) => Some(versions),
        None => {
            let mut message = string_of(&chars_of("rule range "));
            append_str(&mut message, range.target().as_str());
            append_str(&mut message, " has undecodable bounds ");
            append_str(&mut message, crate::text::hex(range.low_raw as u64, 1).as_str());
            append_str(&mut message, "..");
            append_str(&mut message, crate::text::hex(range.high_raw as u64, 1).as_str());
            append_str(&mut message, ", skipped");
            diagnostics.push(Diagnostic::warning(message, Some(string_of(&chars_of(origin)))));
            None
        },
    }
}

/// Decodes the ordinary ranges of a list, skipping (with a warning)
/// those whose bounds do not form one.
fn decode_ordinary_list(ranges: &Vec<DescriptorRange>, origin: &str, diagnostics: &mut Vec<Diagnostic>) -> (r: Vec<SubsystemRange>)
    ensures
        crate::diagnostic::keeps(old(diagnostics)@, final(diagnostics)@),
        logicals_view(r@) == ordinary_ranges(ranges@),
{
    let ghost diagnostics0 = diagnostics@;
    let mut out: Vec<SubsystemRange> = Vec::new();
    let mut i: usize = 0;
    while i < ranges.len()
        invariant
            crate::diagnostic::keeps(diagnostics0, diagnostics@),
            i <= ranges.len(),
            logicals_view(out@) == ordinary_ranges(ranges@.take(i as int)),
        decreases ranges.len() - i,
    {
        let range = &ranges[i];
        assert(ranges@.take(i + 1).drop_last() == ranges@.take(i as int));
        assert(ranges@.take(i + 1).last() == *range);
        if let Some(versions) = decode_ordinary(range, origin, diagnostics) {
            let l = range.to_logical(versions);
            assert(logicals_view(out@.push(l)) =~= logicals_view(out@).push(logical_view(l)));
            out.push(l);
        }
        i += 1;
    }
    assert(ranges@.take(ranges.len() as int) == ranges@);
    out
}

/// Decodes the prerequisite clauses, dropping a clause (with a warning)
/// when one of its ranges is not an ordinary range.
fn decode_prerequisites(clauses: &Vec<Vec<DescriptorRange>>, origin: &str, diagnostics: &mut Vec<Diagnostic>) -> (r: Vec<PrerequisiteClause>)
    ensures
        crate::diagnostic::keeps(old(diagnostics)@, final(diagnostics)@),
        clauses_view(r@) == kept_clauses(clauses@),
{
    let ghost diagnostics0 = diagnostics@;
    let mut decoded: Vec<PrerequisiteClause> = Vec::new();
    let mut i: usize = 0;
    while i < clauses.len()
        invariant
            crate::diagnostic::keeps(diagnostics0, diagnostics@),
            i <= clauses.len(),
            clauses_view(decoded@) == kept_clauses(clauses@.take(i as int)),
        decreases clauses.len() - i,
    {
        let clause = &clauses[i];
        assert(clauses@.take(i + 1).drop_last() == clauses@.take(i as int));
        assert(clauses@.take(i + 1).last() == *clause);
        let mut all_of: Vec<SubsystemRange> = Vec::new();
        let mut ok = true;
        let mut j: usize = 0;
        while j < clause.len() && ok
            invariant
                crate::diagnostic::keeps(diagnostics0, diagnostics@),
                j <= clause.len(),
                ok ==> logicals_view(all_of@) == ordinary_ranges(clause@.take(j as int)) && all_ordinary(clause@.take(j as int)),
                !ok ==> !all_ordinary(clause@),
            decreases clause.len() - j + (if ok { 1int } else { 0int }),
        {
            let range = &clause[j];
            assert(clause@.take(j + 1).drop_last() == clause@.take(j as int));
            assert(clause@.take(j + 1).last() == *range);
            match decode_ordinary(range, origin, diagnostics) {
                Some(versions) => {
                    let l = range.to_logical(versions);
                    assert(logicals_view(all_of@.push(l)) =~= logicals_view(all_of@).push(logical_view(l)));
                    all_of.push(l);
                    j += 1;
                    assert forall|k: int| 0 <= k < clause@.take(j as int).len() implies #[trigger] ordinary_range_of(clause@.take(j as int)[k].low_raw, clause@.take(j as int)[k].high_raw) is Some by {
                        if k < j - 1 {
                            assert(clause@.take(j as int)[k] == clause@.take(j - 1)[k]);
                        }
                    }
                },
                None => {
                    assert(ordinary_range_of(clause@[j as int].low_raw, clause@[j as int].high_raw) is None);
                    all_of = Vec::new();
                    ok = false;
                },
            }
        }
        if ok {
            assert(clause@.take(clause.len() as int) == clause@);
        }
        if ok && all_of.len() > 0 {
            let c = PrerequisiteClause { all_of };
            assert(clauses_view(decoded@.push(c)) =~= clauses_view(decoded@).push(logicals_view(c.all_of@)));
            decoded.push(c);
        }
        i += 1;
    }
    assert(clauses@.take(clauses.len() as int) == clauses@);
    decoded
}

/// Decodes the dependency rules of a subsystem record.
///
/// The `replaces` list is split into `follows` records (negative low
/// bound encoding) and ordinary `replaces`/`obsoletes` ranges; ranges
/// whose bounds are neither are skipped with a warning, and so is a
/// prerequisite clause holding one.
pub fn decode_rules(record: &DescriptorSubsystem, origin: &str, diagnostics: &mut Vec<Diagnostic>) -> (r: SubsystemRules)
    ensures
        crate::diagnostic::keeps(old(diagnostics)@, final(diagnostics)@),
        clauses_view(r.prerequisites@) == kept_clauses(record.prerequisites@),
        logicals_view(r.replaces@) == ordinary_ranges(record.replaces@),
        logicals_view(r.follows@) == follows_ranges(record.replaces@),
        logicals_view(r.incompatibilities@) == ordinary_ranges(record.incompatibilities@),
        logicals_view(r.updates@) == ordinary_ranges(record.updates@),
{
    let ghost diagnostics0 = diagnostics@;
    let prerequisites = decode_prerequisites(&record.prerequisites, origin, diagnostics);
    let mut follows: Vec<SubsystemRange> = Vec::new();
    let mut replaces: Vec<SubsystemRange> = Vec::new();
    let ranges = &record.replaces;
    let mut i: usize = 0;
    while i < ranges.len()
        invariant
            crate::diagnostic::keeps(diagnostics0, diagnostics@),
            i <= ranges.len(),
            logicals_view(replaces@) == ordinary_ranges(ranges@.take(i as int)),
            logicals_view(follows@) == follows_ranges(ranges@.take(i as int)),
        decreases ranges.len() - i,
    {
        let range = &ranges[i];
        assert(ranges@.take(i + 1).drop_last() == ranges@.take(i as int));
        assert(ranges@.take(i + 1).last() == *range);
        if let Some(versions) = range.follows_version_range() {
            let l = range.to_logical(versions);
            assert(logicals_view(follows@.push(l)) =~= logicals_view(follows@).push(logical_view(l)));
            follows.push(l);
        } else if let Some(versions) = decode_ordinary(range, origin, diagnostics) {
            let l = range.to_logical(versions);
            assert(logicals_view(replaces@.push(l)) =~= logicals_view(replaces@).push(logical_view(l)));
            replaces.push(l);
        }
        i += 1;
    }
    assert(ranges@.take(ranges.len() as int) == ranges@);
    let incompatibilities = decode_ordinary_list(&record.incompatibilities, origin, diagnostics);
    let updates = decode_ordinary_list(&record.updates, origin, diagnostics);
    SubsystemRules { prerequisites, replaces, incompatibilities, updates, follows }
}

/// Every raw range of a `replaces` list lands in at most one of the
/// decoded `follows` and `replaces` lists: the two are disjoint
/// selections, and a range with unordered, non-`follows` bounds in
/// neither.
pub proof fn lemma_replaces_split(rs: Seq<DescriptorRange>)
    ensures
        ordinary_ranges(rs).len() + follows_ranges(rs).len() <= rs.len(),
    decreases rs.len(),
{
    if rs.len() > 0 {
        lemma_replaces_split(rs.drop_last());
        crate::descriptor::model::lemma_range_kinds_exclusive(rs.last().low_raw, rs.last().high_raw);
    }
}

} // verus!

verus! {

/// An `autominiroot` payload: a dotted subsystem name (patterns
/// allowed, exactly three parts) followed by decimal low and high
/// version bounds, nothing more.
pub open spec fn autominiroot_spec(text: Seq<char>) -> Option<(Seq<char>, Seq<char>, Seq<char>, VersionRange)> {
    let ws = ws_words(text);
    if ws.len() != 3 {
        None
    } else {
        match (parse_unsigned_spec(ws[1], 10, 0xffff_ffff), parse_unsigned_spec(ws[2], 10, 0xffff_ffff)) {
            (Some(low), Some(high)) => {
                let parts = split_on(ws[0], '.');
                if parts.len() != 3 {
                    None
                } else {
                    Some((parts[0], parts[1], parts[2], VersionRange { min: Version(low as u64), max: limit_of(high as u32) }))
                }
            },
            _ => None,
        }
    }
}

/// The ranges of the `A` attributes that decode, in order.
pub open spec fn autominiroot_ranges(attrs: Seq<DescriptorAttribute>) -> Seq<(Seq<char>, Seq<char>, Seq<char>, VersionRange)>
    decreases attrs.len(),
{
    if attrs.len() == 0 {
        Seq::empty()
    } else {
        let rest = autominiroot_ranges(attrs.drop_last());
        let a = attrs.last();
        if a.tag == 0x41 && autominiroot_spec(a.text@) is Some {
            rest.push(autominiroot_spec(a.text@)->0)
        } else {
            rest
        }
    }
}

/// Parses an `autominiroot` attribute payload.
fn parse_autominiroot(text: &str) -> (r: Option<SubsystemRange>)
    ensures
        match autominiroot_spec(text@) {
            None => r is None,
            Some(v) => r matches Some(x) && logical_view(x) == v,
        },
{
    let words = split_words(&chars_of(text));
    if words.len() != 3 {
        return None;
    }
    assert(seqs_of(words@)[1] == words@[1]@ && seqs_of(words@)[2] == words@[2]@ && seqs_of(words@)[0] == words@[0]@);
    let low = match parse_unsigned(&words[1], 10, 0xffff_ffff) {
        Some(v) => v,
        None => return None,
    };
    let high = match parse_unsigned(&words[2], 10, 0xffff_ffff) {
        Some(v) => v,
        None => return None,
    };
    let parts = split_chars(&words[0], '.');
    if parts.len() != 3 {
        return None;
    }
    assert(seqs_of(parts@)[0] == parts@[0]@ && seqs_of(parts@)[1] == parts@[1]@ && seqs_of(parts@)[2] == parts@[2]@);
    Some(SubsystemRange {
        product: string_of(&parts[0]),
        image: string_of(&parts[1]),
        subsystem: string_of(&parts[2]),
        versions: VersionRange { min: Version(low), max: version_limit(high as u32) },
    })
}

/// Decodes the `autominiroot` attributes (`A` blobs, `name low high`)
/// into ranges; payloads that do not decode are skipped with a warning.
pub fn autominiroot(attributes: &[DescriptorAttribute], origin: &str, diagnostics: &mut Vec<Diagnostic>) -> (r: Vec<SubsystemRange>)
    ensures
        crate::diagnostic::keeps(old(diagnostics)@, final(diagnostics)@),
        logicals_view(r@) == autominiroot_ranges(attributes@),
{
    let ghost diagnostics0 = diagnostics@;
    let mut ranges: Vec<SubsystemRange> = Vec::new();
    let mut i: usize = 0;
    while i < attributes.len()
        invariant
            crate::diagnostic::keeps(diagnostics0, diagnostics@),
            i <= attributes.len(),
            logicals_view(ranges@) == autominiroot_ranges(attributes@.take(i as int)),
        decreases attributes.len() - i,
    {
        let attribute = &attributes[i];
        assert(attributes@.take(i + 1).drop_last() == attributes@.take(i as int));
        assert(attributes@.take(i + 1).last() == *attribute);
        if attribute.tag == 0x41 {
            match parse_autominiroot(attribute.text.as_str()) {
                Some(range) => {
                    assert(logicals_view(ranges@.push(range)) =~= logicals_view(ranges@).push(logical_view(range)));
                    ranges.push(range);
                },
                None => {
                    let mut message = string_of(&chars_of("unparsable autominiroot attribute "));
                    push_debug(&mut message, attribute.text.as_str());
                    diagnostics.push(Diagnostic::warning(message, Some(string_of(&chars_of(origin)))));
                },
            }
        }
        i += 1;
    }
    assert(attributes@.take(attributes.len() as int) == attributes@);
    ranges
}

/// A cut point payload: the text before the first `0x01` is a path
/// (normalized), the text after it a decimal sequence number.
pub open spec fn cutpoint_spec(text: Seq<char>) -> Option<(Seq<char>, u32)> {
    let k = crate::mach::parser::first_index_from(text, '\u{1}', 0);
    if k >= text.len() {
        None
    } else {
        match (normalize(text.take(k)), parse_unsigned_spec(text.skip(k + 1), 10, 0xffff_ffff)) {
            (Some(path), Some(sequence)) => Some((path, sequence as u32)),
            _ => None,
        }
    }
}

/// The cut points of the `C` attributes that decode, in order.
pub open spec fn cutpoint_list(attrs: Seq<DescriptorAttribute>) -> Seq<(Seq<char>, u32)>
    decreases attrs.len(),
{
    if attrs.len() == 0 {
        Seq::empty()
    } else {
        let rest = cutpoint_list(attrs.drop_last());
        let a = attrs.last();
        if a.tag == 0x43 && cutpoint_spec(a.text@) is Some {
            rest.push(cutpoint_spec(a.text@)->0)
        } else {
            rest
        }
    }
}

/// The views of a list of cut points.
pub open spec fn cutpoints_view(v: Seq<Cutpoint>) -> Seq<(Seq<char>, u32)> {
    v.map_values(|c: Cutpoint| (c.path@, c.sequence))
}

/// Parses a cut point attribute payload.
fn parse_cutpoint(text: &str) -> (r: Option<Cutpoint>)
    ensures
        match cutpoint_spec(text@) {
            None => r is None,
            Some(v) => r matches Some(c) && (c.path@, c.sequence) == v,
        },
{
    let chars = chars_of(text);
    let k = crate::mach::parser::find_char(&chars, '\u{1}');
    if k >= chars.len() {
        return None;
    }
    let before = crate::text::subvec(&chars, 0, k);
    let after = crate::text::subvec(&chars, k + 1, chars.len());
    assert(before@ =~= text@.take(k as int));
    assert(after@ =~= text@.skip(k + 1));
    let path = match IrixPath::new(string_of(&before).as_str()) {
        Ok(p) => p,
        Err(_) => return None,
    };
    let sequence = match parse_unsigned(&after, 10, 0xffff_ffff) {
        Some(v) => v as u32,
        None => return None,
    };
    Some(Cutpoint { path, sequence })
}

/// Decodes the product cut point attributes (`C` blobs: a path, a
/// `0x01` separator and a sequence number); payloads that do not decode
/// are skipped with a warning.
pub fn cutpoints(attributes: &[DescriptorAttribute], origin: &str, diagnostics: &mut Vec<Diagnostic>) -> (r: Vec<Cutpoint>)
    ensures
        crate::diagnostic::keeps(old(diagnostics)@, final(diagnostics)@),
        cutpoints_view(r@) == cutpoint_list(attributes@),
{
    let ghost diagnostics0 = diagnostics@;
    let mut paths: Vec<Cutpoint> = Vec::new();
    let mut i: usize = 0;
    while i < attributes.len()
        invariant
            crate::diagnostic::keeps(diagnostics0, diagnostics@),
            i <= attributes.len(),
            cutpoints_view(paths@) == cutpoint_list(attributes@.take(i as int)),
        decreases attributes.len() - i,
    {
        let attribute = &attributes[i];
        assert(attributes@.take(i + 1).drop_last() == attributes@.take(i as int));
        assert(attributes@.take(i + 1).last() == *attribute);
        if attribute.tag == 0x43 {
            match parse_cutpoint(attribute.text.as_str()) {
                Some(cutpoint) => {
                    assert(cutpoints_view(paths@.push(cutpoint)) =~= cutpoints_view(paths@).push((cutpoint.path@, cutpoint.sequence)));
                    paths.push(cutpoint);
                },
                None => {
                    let mut message = string_of(&chars_of("unparsable cut point attribute "));
                    push_debug(&mut message, attribute.text.as_str());
                    diagnostics.push(Diagnostic::warning(message, Some(string_of(&chars_of(origin)))));
                },
            }
        }
        i += 1;
    }
    assert(attributes@.take(attributes.len() as int) == attributes@);
    paths
}

} // verus!
