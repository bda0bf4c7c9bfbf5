//! Model of product descriptor data.
//!
//! IRIX `inst` uses its own integer version numbers (the ten-digit
//! numbers seen in installation conflict messages), not semantic
//! versions.
//!
//! This module holds two layers:
//!
//! * the *physical* records ([`ProductDescriptor`], [`DescriptorImage`],
//!   [`DescriptorSubsystem`]), which mirror the binary `pd001` grammar
//!   field by field, exactly as `gendist` writes them;
//! * the *logical* tree types ([`Subsystem`], [`SubsystemFlags`],
//!   [`SubsystemRules`]) that the distribution model is built from.
//!
//! The logical layer carries *compiled* descriptor semantics: `gendist`
//! rewrites parts of the specification when it writes a descriptor (for
//! example `replaces ... maxint` becomes `version - 1`, and patch
//! subsystems lose their `required`/`default` flags), so a descriptor
//! is not a lossless decompilation of the source spec.
//!
//! Binary strings are length-prefixed Latin-1; they are decoded one
//! character per byte.
use vstd::prelude::*;
use crate::error::Error;
use crate::idb::EntryId;
use crate::mach::eval::{any_expr_matches, any_matches, HardwareProfile};
use crate::mach::parser::hardware_spec;
use crate::mach::{expr_view, HardwareExpr};
use crate::names::SubsystemName;
use crate::path::IrixPath;
use crate::text::{append_str, push_char};

verus! {

/// The result of evaluating hardware-dependent semantics for a target.
#[derive(Debug, Clone, Copy, PartialEq, Eq, Structural)]
pub enum Applicability {
    /// Confirmed applicable.
    Match,
    /// Confirmed not applicable.
    NoMatch,
    /// Cannot be determined: at least one hardware expression could not
    /// be parsed, and none of the parsed ones matched.
    Unknown,
}

/// Hardware applicability of a product, image or subsystem: the
/// OR-ed `mach` expressions, plus any expression payloads that could
/// not be parsed.
///
/// The unresolved payloads are kept so that evaluation can be
/// fail-safe: an applicability that cannot be determined must never be
/// treated as "matches everything".
#[derive(Debug, Clone, PartialEq)]
pub struct HardwareRestrictions {
    /// Parsed expressions (OR-ed).
    pub expressions: Vec<HardwareExpr>,
    /// Raw expression payloads that could not be parsed.
    pub unresolved: Vec<String>,
}

/// What restrictions say of a target: a match when a parsed expression
/// matches or nothing was declared at all, unknown when only
/// unparseable payloads could have matched, no match otherwise.
pub open spec fn restrictions_applicability(
    expressions: Seq<HardwareExpr>,
    unresolved_count: nat,
    profile: Map<Seq<char>, Set<Seq<char>>>,
) -> Applicability {
    if any_expr_matches(expressions, profile) || (expressions.len() == 0 && unresolved_count == 0) {
        Applicability::Match
    } else if unresolved_count > 0 {
        Applicability::Unknown
    } else {
        Applicability::NoMatch
    }
}

impl Default for HardwareRestrictions {
    fn default() -> (r: Self)
        ensures
            r.expressions@.len() == 0,
            r.unresolved@.len() == 0,
    {
        HardwareRestrictions { expressions: Vec::new(), unresolved: Vec::new() }
    }
}

impl HardwareRestrictions {
    /// Whether nothing was declared at all (no restriction).
    pub fn is_empty(&self) -> (r: bool)
        ensures
            r == (self.expressions@.len() == 0 && self.unresolved@.len() == 0),
    {
        self.expressions.len() == 0 && self.unresolved.len() == 0
    }

    /// Evaluates the restrictions for a target.
    pub fn evaluate(&self, profile: &HardwareProfile) -> (r: Applicability)
        ensures
            r == restrictions_applicability(self.expressions@, self.unresolved@.len(), profile@),
    {
        if any_matches(self.expressions.as_slice(), profile) || self.is_empty() {
            Applicability::Match
        } else if self.unresolved.len() > 0 {
            Applicability::Unknown
        } else {
            Applicability::NoMatch
        }
    }
}

/// Restrictions with an unparseable payload never count as a match
/// unless a parsed expression actually matches: an applicability that
/// cannot be determined is never "matches everything".
pub proof fn lemma_unresolved_is_fail_safe(
    expressions: Seq<HardwareExpr>,
    unresolved_count: nat,
    profile: Map<Seq<char>, Set<Seq<char>>>,
)
    requires
        unresolved_count > 0,
        !any_expr_matches(expressions, profile),
    ensures
        restrictions_applicability(expressions, unresolved_count, profile) == Applicability::Unknown,
{
}

/// An SGI product version number.
#[derive(Debug, Clone, Copy, PartialEq, Eq, Structural, PartialOrd, Ord, Hash)]
pub struct Version(pub u64);

/// The raw wire value meaning "no upper version bound" (SGI `maxint`).
pub const VERSION_UNBOUNDED_RAW: u32 = 0x7fff_ffff;

/// Upper bound of a version range.
#[derive(Debug, Clone, Copy, PartialEq, Eq, Structural)]
pub enum VersionLimit {
    /// Inclusive upper bound.
    Exact(Version),
    /// No upper bound (SGI `maxint`, raw value
    /// [`VERSION_UNBOUNDED_RAW`]).
    Maximum,
}

/// An inclusive version range used by subsystem rules.
#[derive(Debug, Clone, Copy, PartialEq, Eq, Structural)]
pub struct VersionRange {
    /// Lower bound.
    pub min: Version,
    /// Upper bound, or unbounded.
    pub max: VersionLimit,
}

/// The upper bound a raw field stands for.
pub open spec fn limit_of(high_raw: u32) -> VersionLimit {
    if high_raw == VERSION_UNBOUNDED_RAW {
        VersionLimit::Maximum
    } else {
        VersionLimit::Exact(Version(high_raw as u64))
    }
}

/// Converts a raw upper bound field into a [`VersionLimit`].
pub fn version_limit(high_raw: u32) -> (r: VersionLimit)
    ensures
        r == limit_of(high_raw),
{
    if high_raw == VERSION_UNBOUNDED_RAW {
        VersionLimit::Maximum
    } else {
        VersionLimit::Exact(Version(high_raw as u64))
    }
}

/// `product.image.subsystem`
pub open spec fn dotted_target(product: Seq<char>, image: Seq<char>, subsystem: Seq<char>) -> Seq<char> {
    product + seq!['.'] + image + seq!['.'] + subsystem
}

/// Builds `product.image.subsystem`.
fn dotted(product: &String, image: &String, subsystem: &String) -> (r: String)
    ensures
        r@ == dotted_target(product@, image@, subsystem@),
{
    let mut r = String::new();
    append_str(&mut r, product.as_str());
    push_char(&mut r, '.');
    append_str(&mut r, image.as_str());
    push_char(&mut r, '.');
    append_str(&mut r, subsystem.as_str());
    assert(r@ =~= dotted_target(product@, image@, subsystem@));
    r
}

/// A subsystem reference plus the versions it applies to, at the
/// *logical* level: the bounds are confirmed to be an ordinary
/// inclusive range.
///
/// The descriptor serializes the target as three independent fields, so
/// they are kept separate; each field may hold a wildcard pattern such
/// as product `patch*` or image `*`.
#[derive(Debug, Clone, PartialEq)]
pub struct SubsystemRange {
    /// Product name or pattern, e.g. `eoe1` or `patch*`.
    pub product: String,
    /// Image name or pattern, e.g. `sw`.
    pub image: String,
    /// Subsystem name or pattern, e.g. `unix`.
    pub subsystem: String,
    /// Which versions the rule covers.
    pub versions: VersionRange,
}

impl SubsystemRange {
    /// The dotted target as written in SGI documentation, e.g.
    /// `patch*.sw.unix`.
    pub fn target(&self) -> (r: String)
        ensures
            r@ == dotted_target(self.product@, self.image@, self.subsystem@),
    {
        dotted(&self.product, &self.image, &self.subsystem)
    }
}

/// One raw range record exactly as stored in a descriptor:
/// `LP16 product, LP16 image, LP16 subsystem, BE32 low, BE32 high`.
///
/// The bounds are deliberately kept raw: `gendist` encodes patch
/// `follows` rules inside the `replaces` list by writing the low bound
/// as a *negative* signed 32-bit value, so an unsigned `low > high`
/// comparison is not corruption — it is the wire tag for `follows`.
#[derive(Debug, Clone, PartialEq)]
pub struct DescriptorRange {
    /// Product name or pattern, e.g. `eoe1` or `patch*`.
    pub product: String,
    /// Image name or pattern, e.g. `sw`.
    pub image: String,
    /// Subsystem name or pattern, e.g. `unix`.
    pub subsystem: String,
    /// The raw lower bound field.
    pub low_raw: u32,
    /// The raw upper bound field; [`VERSION_UNBOUNDED_RAW`] is SGI
    /// `maxint`.
    pub high_raw: u32,
}

/// Whether a raw low bound, read as a signed 32-bit value, is negative:
/// the wire tag of a `follows` record.
pub open spec fn is_follows_raw(low_raw: u32) -> bool {
    low_raw >= 0x8000_0000
}

/// The ordinary inclusive range of raw bounds: `None` for `follows`
/// records and for bounds that are not ordered.
pub open spec fn ordinary_range_of(low_raw: u32, high_raw: u32) -> Option<VersionRange> {
    if is_follows_raw(low_raw) || low_raw > high_raw {
        None
    } else {
        Some(VersionRange { min: Version(low_raw as u64), max: limit_of(high_raw) })
    }
}

/// The decoded range of a `follows` record: the low bound re-negated
/// from its wire encoding; `None` for other records.
pub open spec fn follows_range_of(low_raw: u32, high_raw: u32) -> Option<VersionRange> {
    if !is_follows_raw(low_raw) {
        None
    } else {
        Some(VersionRange { min: Version((0x1_0000_0000 - low_raw) as u64), max: limit_of(high_raw) })
    }
}

impl DescriptorRange {
    /// The dotted target as written in SGI documentation, e.g.
    /// `patch*.sw.unix`.
    pub fn target(&self) -> (r: String)
        ensures
            r@ == dotted_target(self.product@, self.image@, self.subsystem@),
    {
        dotted(&self.product, &self.image, &self.subsystem)
    }

    /// Whether the raw upper bound is SGI `maxint` (unbounded).
    pub fn high_is_maxint(&self) -> (r: bool)
        ensures
            r == (self.high_raw == VERSION_UNBOUNDED_RAW),
    {
        self.high_raw == VERSION_UNBOUNDED_RAW
    }

    /// Whether this record is a `follows` entry: `gendist` writes the
    /// low bound of a patch `follows` rule as `-max(abs(low), 1)`, so
    /// the field interpreted as *signed* is negative.
    pub fn is_follows(&self) -> (r: bool)
        ensures
            r == is_follows_raw(self.low_raw),
    {
        self.low_raw >= 0x8000_0000
    }

    /// The range as an ordinary inclusive [`VersionRange`], or `None`
    /// for `follows` records and for any other record whose raw bounds
    /// do not form an ordinary `low <= high` range.
    pub fn ordinary_version_range(&self) -> (r: Option<VersionRange>)
        ensures
            r == ordinary_range_of(self.low_raw, self.high_raw),
    {
        if self.is_follows() || self.low_raw > self.high_raw {
            return None;
        }
        Some(VersionRange { min: Version(self.low_raw as u64), max: version_limit(self.high_raw) })
    }

    /// The decoded bounds of a `follows` record, or `None` when this is
    /// not one. The low bound is re-negated from its wire encoding.
    pub fn follows_version_range(&self) -> (r: Option<VersionRange>)
        ensures
            r == follows_range_of(self.low_raw, self.high_raw),
    {
        if !self.is_follows() {
            return None;
        }
        let low: u64 = 0x1_0000_0000u64 - (self.low_raw as u64);
        Some(VersionRange { min: Version(low), max: version_limit(self.high_raw) })
    }

    /// Builds the logical form of this range with the decoded bounds.
    pub fn to_logical(&self, versions: VersionRange) -> (r: SubsystemRange)
        ensures
            r.product@ == self.product@,
            r.image@ == self.image@,
            r.subsystem@ == self.subsystem@,
            r.versions == versions,
    {
        SubsystemRange {
            product: self.product.clone(),
            image: self.image.clone(),
            subsystem: self.subsystem.clone(),
            versions,
        }
    }
}

/// A raw range is either a `follows` record or has its bounds decoded
/// as an ordinary range (when they are ordered), never both.
pub proof fn lemma_range_kinds_exclusive(low_raw: u32, high_raw: u32)
    ensures
        !(ordinary_range_of(low_raw, high_raw) is Some && follows_range_of(low_raw, high_raw) is Some),
        is_follows_raw(low_raw) <==> follows_range_of(low_raw, high_raw) is Some,
        follows_range_of(low_raw, high_raw) matches Some(v) ==> 1 <= v.min.0 <= 0x8000_0000,
{
}

} // verus!

verus! {

/// One `prereq` clause at the logical level.
///
/// SGI prerequisite semantics are two-level: several ranges inside one
/// clause are AND-ed, while separate clauses are OR-ed:
///
/// ```text
/// prereq(A B)
/// prereq(C)
/// ```
///
/// means `(A AND B) OR C`, which is exactly a list of clauses where each
/// clause holds `all_of`.
#[derive(Debug, Clone, PartialEq)]
pub struct PrerequisiteClause {
    /// Ranges that must all be satisfied together.
    pub all_of: Vec<SubsystemRange>,
}

/// Dependency rules attached to a subsystem.
///
/// Every list is decoded from the descriptor record; an empty list
/// means the rule is confirmed absent. Note that `replaces` and
/// `obsoletes` compile into the same list and cannot be told apart
/// afterwards.
///
/// The overlay/rule inheritance modifiers are *not* decoded here; they
/// remain available as raw [`DescriptorAttribute`]s on the physical
/// records.
#[derive(Debug, Clone, PartialEq)]
pub struct SubsystemRules {
    /// OR-ed prerequisite clauses; each clause is AND-ed internally.
    pub prerequisites: Vec<PrerequisiteClause>,
    /// Subsystems this one replaces (spec `replaces` and `obsoletes`).
    pub replaces: Vec<SubsystemRange>,
    /// Subsystems this one cannot coexist with (spec `incompat`).
    pub incompatibilities: Vec<SubsystemRange>,
    /// Subsystems this one updates (spec `updates`).
    pub updates: Vec<SubsystemRange>,
    /// The base subsystem a patch follows (spec `follows`).
    pub follows: Vec<SubsystemRange>,
}

impl Default for SubsystemRules {
    fn default() -> (r: Self)
        ensures
            r.prerequisites@.len() == 0,
            r.replaces@.len() == 0,
            r.incompatibilities@.len() == 0,
            r.updates@.len() == 0,
            r.follows@.len() == 0,
    {
        SubsystemRules {
            prerequisites: Vec::new(),
            replaces: Vec::new(),
            incompatibilities: Vec::new(),
            updates: Vec::new(),
            follows: Vec::new(),
        }
    }
}

/// A flag that can be plain (`default`) or hardware-conditional
/// (`default(CPUBOARD=IP22)`).
#[derive(Debug, Clone, PartialEq)]
pub enum ConditionalFlag {
    /// Not set.
    No,
    /// Set unconditionally.
    Always,
    /// Set when any of these hardware expressions matches (OR-ed).
    When(Vec<HardwareExpr>),
    /// Set, but at least one condition expression could not be parsed,
    /// so whether the flag is active cannot always be determined.
    WhenUnresolved {
        /// Condition expressions that did parse (OR-ed).
        expressions: Vec<HardwareExpr>,
        /// Raw condition payloads that could not be parsed.
        unresolved: Vec<String>,
    },
}

impl Default for ConditionalFlag {
    fn default() -> (r: Self)
        ensures
            r is No,
    {
        ConditionalFlag::No
    }
}

/// Whether a flag is set for a target: plain flags are set or not, a
/// conditional flag when one of its parsed expressions matches, and
/// unknown when none does but a condition could not be parsed.
pub open spec fn flag_activity(flag: ConditionalFlag, profile: Map<Seq<char>, Set<Seq<char>>>) -> Applicability {
    match flag {
        ConditionalFlag::No => Applicability::NoMatch,
        ConditionalFlag::Always => Applicability::Match,
        ConditionalFlag::When(expressions) => if any_expr_matches(expressions@, profile) {
            Applicability::Match
        } else {
            Applicability::NoMatch
        },
        ConditionalFlag::WhenUnresolved { expressions, unresolved } => if any_expr_matches(expressions@, profile) {
            Applicability::Match
        } else if unresolved@.len() == 0 {
            Applicability::NoMatch
        } else {
            Applicability::Unknown
        },
    }
}

impl ConditionalFlag {
    /// Whether the flag is set for a given installation target.
    pub fn is_active(&self, profile: &HardwareProfile) -> (r: Applicability)
        ensures
            r == flag_activity(*self, profile@),
    {
        match self {
            ConditionalFlag::No => Applicability::NoMatch,
            ConditionalFlag::Always => Applicability::Match,
            ConditionalFlag::When(expressions) => {
                if any_matches(expressions.as_slice(), profile) {
                    Applicability::Match
                } else {
                    Applicability::NoMatch
                }
            },
            ConditionalFlag::WhenUnresolved { expressions, unresolved } => {
                if any_matches(expressions.as_slice(), profile) {
                    Applicability::Match
                } else if unresolved.len() == 0 {
                    Applicability::NoMatch
                } else {
                    Applicability::Unknown
                }
            },
        }
    }
}

/// Installation flags of a subsystem, decoded from the raw flag word
/// and the conditional flag attribute blobs.
///
/// These are compiled semantics: `gendist` strips `required` and
/// `default` from patch subsystems when writing the descriptor, so a
/// patch's flags on disk are not necessarily what its spec declared.
#[derive(Debug, Clone, PartialEq)]
pub struct SubsystemFlags {
    /// Must always be installed.
    pub required: ConditionalFlag,
    /// Selected for installation by default.
    pub default: ConditionalFlag,
    /// Part of the miniroot.
    pub miniroot: ConditionalFlag,
    /// Installed in place on the target disk. This is the on-disk
    /// default; the bit is cleared for miniroot subsystems.
    pub inplace: bool,
    /// This subsystem is a patch.
    pub patch: bool,
    /// Installed on clients only (`clientonly`).
    pub client_only: bool,
    /// Overlay subsystem (`overlays`).
    pub overlay: bool,
    /// Member of an overlay product, skipped unless overlays are being
    /// processed.
    pub overlay_member: bool,
}

/// Which authorities a subsystem was found in.
///
/// Real media can declare a subsystem in the descriptor without shipping
/// any of its entries in the IDB (e.g. unshipped hardware support), and
/// in principle an IDB could reference a subsystem the descriptor does
/// not declare. Both are kept, not "fixed".
#[derive(Debug, Clone, Copy, PartialEq, Eq, Structural)]
pub struct SubsystemPresence {
    /// Declared by the product descriptor.
    pub descriptor: bool,
    /// Referenced by at least one IDB entry.
    pub idb: bool,
}

/// The smallest installable unit of a product.
///
/// Subsystems reference their entries by [`EntryId`]; the entries
/// themselves live in the product's entry list.
#[derive(Debug, Clone)]
pub struct Subsystem {
    /// Fully qualified name, e.g. `eoe.sw.unix`.
    pub name: SubsystemName,
    /// Human-readable title from the descriptor.
    pub title: Option<String>,
    /// Mapping expression selecting which IDB records belong to this
    /// subsystem, from the descriptor; `None` for IDB-only subsystems.
    pub mapping: Option<String>,
    /// Which authorities declare this subsystem.
    pub presence: SubsystemPresence,
    /// Hardware applicability; `None` only for IDB-only subsystems,
    /// which have no descriptor record.
    pub mach: Option<HardwareRestrictions>,
    /// Installation flags; `None` only for IDB-only subsystems.
    pub flags: Option<SubsystemFlags>,
    /// `autominiroot` rule ranges; `None` only for IDB-only subsystems.
    pub autominiroot: Option<Vec<SubsystemRange>>,
    /// Dependency rules; `None` only for IDB-only subsystems, which have
    /// no descriptor record to decode rules from.
    pub rules: Option<SubsystemRules>,
    /// Entries belonging to this subsystem, in IDB order.
    pub entry_ids: Vec<EntryId>,
}

/// A decoded product descriptor header.
///
/// The generation id is the format generation the writing `gendist`
/// claimed (e.g. `pd001V630P00`); it is *not* the body layout version
/// and not the IRIX release of the CD the descriptor sits on — a single
/// distribution mixes several header variants. Readers dispatch on
/// [`ProductDescriptor::layout_level`] only.
#[derive(Debug, Clone, PartialEq, Eq)]
pub struct DescriptorHeader {
    /// The generation id, e.g. `pd001V630P00`.
    pub generation_id: String,
}

/// The two text fields every product, image and subsystem record
/// carries: the `id` one-liner and the long `desc`.
#[derive(Debug, Clone, PartialEq)]
pub struct DescriptorText {
    /// The one-line title (the spec `id` statement).
    pub id: String,
    /// The long description (the spec `desc` statement); empty on all
    /// observed media.
    pub description: String,
}

/// The text a reader displays: the description, or the id when the
/// description is empty.
pub open spec fn effective_text(t: DescriptorText) -> Seq<char> {
    if t.description@.len() == 0 {
        t.id@
    } else {
        t.description@
    }
}

impl Default for DescriptorText {
    fn default() -> (r: Self)
        ensures
            r.id@.len() == 0,
            r.description@.len() == 0,
    {
        DescriptorText { id: String::new(), description: String::new() }
    }
}

impl DescriptorText {
    /// The text a reader actually displays: `description`, falling back
    /// to `id` when it is empty.
    pub fn effective(&self) -> (r: &str)
        ensures
            r@ == effective_text(*self),
    {
        if self.description.as_str().unicode_len() == 0 {
            self.id.as_str()
        } else {
            self.description.as_str()
        }
    }
}

/// One tagged attribute blob from a product, image or subsystem record,
/// exactly as stored: a single tag byte plus tag-specific text.
///
/// Confirmed tags: `m` = hardware (`mach`) expression, `R`/`D`/`M` =
/// conditional `required`/`default`/`miniroot` expressions,
/// `A` = `autominiroot` range, `T` = disk-space accounting,
/// `C` = product cut point, `I` = inplace content marker, `P` = product
/// id. Unknown tags are preserved uninterpreted.
#[derive(Debug, Clone, PartialEq, Eq)]
pub struct DescriptorAttribute {
    /// The tag byte identifying the attribute kind.
    pub tag: u8,
    /// The tag payload.
    pub text: String,
}

impl DescriptorAttribute {
    /// The hardware expression this attribute carries, if it is a `mach`
    /// attribute (`m` tag, e.g. `mCPUBOARD=IP19 CPUBOARD=IP21`).
    pub fn mach(&self) -> (r: Option<Result<HardwareExpr, Error>>)
        ensures
            r is Some <==> self.tag == 0x6d,
            r matches Some(Ok(h)) ==> hardware_spec(self.text@) == Some((h.syntax, expr_view(h.expr))) && h.raw@ == self.text@,
            r matches Some(Err(_)) ==> hardware_spec(self.text@) is None,
    {
        if self.tag == 0x6d {
            Some(HardwareExpr::parse(self.text.as_str()))
        } else {
            None
        }
    }
}

/// A product cut point: a filesystem tree where installation may be
/// split, decoded from a `C` attribute blob.
#[derive(Debug, Clone, PartialEq)]
pub struct Cutpoint {
    /// Root of the splittable tree, e.g. `/usr/share/catman`.
    pub path: IrixPath,
    /// The sequence number recorded with the cut point.
    pub sequence: u32,
}

/// A subsystem record of a product descriptor.
#[derive(Debug, Clone, PartialEq)]
pub struct DescriptorSubsystem {
    /// Subsystem flag word, as stored. Known bits: `0x0001` required,
    /// `0x0002` default, `0x0400` patch, `0x0800` inplace (cleared for
    /// miniroot), `0x2000` clientonly, `0x4000` overlay member,
    /// `0x8000` overlays; older tools leave additional transient bits.
    pub flags_raw: u16,
    /// Short subsystem name, e.g. `unix`.
    pub name: String,
    /// Subsystem title and long description.
    pub text: DescriptorText,
    /// Mapping expression selecting which IDB records belong to this
    /// subsystem, e.g. `!noship && audio.data.sounds` or a plain tag
    /// such as `EOE`.
    pub mapping: String,
    /// Legacy per-subsystem ordinal. Current writers always store 0,
    /// but readers still consume the value, so it is a genuine wire
    /// field and is preserved as stored.
    pub legacy_ordinal: u32,
    /// The `replaces`/`obsoletes` list; on patch subsystems the
    /// `follows` records are mixed in front, encoded with a negated low
    /// bound (see [`DescriptorRange::is_follows`]).
    pub replaces: Vec<DescriptorRange>,
    /// `prereq` clauses; each inner list is one AND-ed clause.
    pub prerequisites: Vec<Vec<DescriptorRange>>,
    /// `incompat` ranges (layout level 6 and later).
    pub incompatibilities: Vec<DescriptorRange>,
    /// Tagged attribute blobs (layout level 8 and later).
    pub attributes: Vec<DescriptorAttribute>,
    /// `updates` ranges (layout level 9 and later).
    pub updates: Vec<DescriptorRange>,
}

/// An image record of a product descriptor.
#[derive(Debug, Clone, PartialEq)]
pub struct DescriptorImage {
    /// Image flag word; known bits: `0x0800` inplace, `0x4000`
    /// overlay-member.
    pub flags_raw: u16,
    /// Short image name, e.g. `sw`.
    pub name: String,
    /// Image title and long description.
    pub text: DescriptorText,
    /// Legacy field, always 2 on all observed media; its meaning is
    /// unknown.
    pub legacy_field: u16,
    /// Installation order (the spec `order` statement; default 9999).
    pub order: u16,
    /// Image version. Confirmed: replacement records targeting the
    /// subsystem itself use `version - 1` as their upper bound, matching
    /// the documented `oldvers` semantics.
    pub version: Version,
    /// Tagged attribute blobs (layout level 8 and later).
    pub attributes: Vec<DescriptorAttribute>,
    /// Subsystem records, in descriptor order.
    pub subsystems: Vec<DescriptorSubsystem>,
}

/// A fully parsed product descriptor.
///
/// The descriptor is the authoritative source of the
/// product → image → subsystem hierarchy; the IDB only contributes the
/// file entries attached to that tree.
#[derive(Debug, Clone, PartialEq)]
pub struct ProductDescriptor {
    /// Decoded header.
    pub header: DescriptorHeader,
    /// Body layout level (5 to 9): the minimum format level the
    /// product's features required when the descriptor was written.
    pub layout_level: u16,
    /// Product name as stored, e.g. `eoe`.
    pub name: String,
    /// Product title and long description.
    pub text: DescriptorText,
    /// Product flag word; known bits: `0x0800` inplace, `0x8000`
    /// overlay product.
    pub flags_raw: u16,
    /// Product stamp. Correlates with `P<stamp>_<n>` attribute blobs;
    /// the exact meaning is not confirmed, so this is deliberately not
    /// called a version.
    pub stamp: u32,
    /// Tagged attribute blobs (layout level 7 and later; level 7 carries
    /// `mach` blobs only).
    pub attributes: Vec<DescriptorAttribute>,
    /// Image records, in descriptor order.
    pub images: Vec<DescriptorImage>,
}

} // verus!
