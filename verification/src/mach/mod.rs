//! Hardware applicability expressions (`mach`).
//!
//! SGI defines two hardware expression syntaxes that must not be mixed:
//!
//! *Legacy list* syntax, a whitespace-separated list of
//! `ATTRIBUTE=VALUE` pairs. Values of the same attribute are OR-ed,
//! different attributes are AND-ed:
//! `CPUBOARD=IP12 GFXBOARD=LIGHT GFXBOARD=EXPRESS` means
//! `CPUBOARD=IP12 AND (GFXBOARD=LIGHT OR GFXBOARD=EXPRESS)`.
//!
//! *Boolean* syntax, a full expression language:
//! `CPUBOARD=IP22 && (GFXBOARD=EXPRESS || GFXBOARD=NEWPRESS)`,
//! supporting `&&`, `||`, `!`, `=`, `!=`, `<`, `<=`, `>`, `>=` and
//! parentheses.
//!
//! In both syntaxes a bare value with no attribute is shorthand for a
//! `CPUBOARD` comparison, per `gendist(1M)`.
pub mod candidates;
pub mod eval;
pub mod lexer;
pub mod parser;

use vstd::prelude::*;
use crate::text::{chars_of, string_of};

verus! {

/// Which of the two hardware expression syntaxes an expression uses.
#[derive(Debug, Clone, Copy, PartialEq, Eq, Structural)]
pub enum HardwareSyntax {
    /// Whitespace-separated `ATTRIBUTE=VALUE` list.
    LegacyList,
    /// Boolean expression with `&&`, `||`, `!` and parentheses.
    Boolean,
}

/// A parsed hardware expression, keeping its source text for display.
#[derive(Debug, PartialEq)]
pub struct HardwareExpr {
    /// The expression text as written.
    pub raw: String,
    /// Which syntax the expression was parsed as.
    pub syntax: HardwareSyntax,
    /// The parsed expression tree.
    pub expr: MachExpr,
}

/// Hardware expression AST.
#[derive(Debug, PartialEq)]
pub enum MachExpr {
    /// A single attribute comparison, e.g. `CPUBOARD=IP22`.
    Compare {
        /// The hardware attribute being compared.
        attribute: MachAttribute,
        /// The comparison operator.
        op: CompareOp,
        /// The right-hand side value, e.g. `IP22`.
        value: String,
    },
    /// All sub-expressions must match.
    And(Vec<MachExpr>),
    /// At least one sub-expression must match.
    Or(Vec<MachExpr>),
    /// The sub-expression must not match.
    Not(Box<MachExpr>),
}

/// Hardware attributes defined by SGI for `mach` expressions.
///
/// `Unknown` preserves attributes not (yet) known to this library, so
/// that no information is lost when the format evolves.
#[derive(Debug, PartialEq, Eq, Hash)]
pub enum MachAttribute {
    /// CPU board, e.g. `IP22`.
    CpuBoard,
    /// CPU architecture, e.g. `R4000`.
    CpuArch,
    /// Graphics board, e.g. `EXPRESS`.
    GfxBoard,
    /// Graphics sub-group.
    Subgr,
    /// Video hardware.
    Video,
    /// Addressing mode, e.g. `32bit` / `64bit`.
    Mode,
    /// Target operating system.
    TargetOs,
    /// Distribution operating system.
    DistributionOs,
    /// Any other attribute name, preserved verbatim.
    Unknown(String),
}

/// Comparison operators of the boolean hardware syntax.
#[derive(Debug, Clone, Copy, PartialEq, Eq, Structural)]
pub enum CompareOp {
    /// `=`
    Eq,
    /// `!=`
    Ne,
    /// `<`
    Lt,
    /// `<=`
    Le,
    /// `>`
    Gt,
    /// `>=`
    Ge,
}

/// `CPUBOARD`
pub open spec fn name_cpuboard() -> Seq<char> { seq!['C', 'P', 'U', 'B', 'O', 'A', 'R', 'D'] }
/// `CPUARCH`
pub open spec fn name_cpuarch() -> Seq<char> { seq!['C', 'P', 'U', 'A', 'R', 'C', 'H'] }
/// `GFXBOARD`
pub open spec fn name_gfxboard() -> Seq<char> { seq!['G', 'F', 'X', 'B', 'O', 'A', 'R', 'D'] }
/// `SUBGR`
pub open spec fn name_subgr() -> Seq<char> { seq!['S', 'U', 'B', 'G', 'R'] }
/// `VIDEO`
pub open spec fn name_video() -> Seq<char> { seq!['V', 'I', 'D', 'E', 'O'] }
/// `MODE`
pub open spec fn name_mode() -> Seq<char> { seq!['M', 'O', 'D', 'E'] }
/// `TARGOS`
pub open spec fn name_targos() -> Seq<char> { seq!['T', 'A', 'R', 'G', 'O', 'S'] }
/// `DISTOS`
pub open spec fn name_distos() -> Seq<char> { seq!['D', 'I', 'S', 'T', 'O', 'S'] }

/// Whether `s` is the name of one of the known attributes.
pub open spec fn known_attribute_name(s: Seq<char>) -> bool {
    s == name_cpuboard() || s == name_cpuarch() || s == name_gfxboard() || s == name_subgr()
        || s == name_video() || s == name_mode() || s == name_targos() || s == name_distos()
}

/// The canonical name of an attribute; unknown attributes keep their
/// verbatim name.
pub open spec fn attribute_name_of(a: MachAttribute) -> Seq<char> {
    match a {
        MachAttribute::CpuBoard => name_cpuboard(),
        MachAttribute::CpuArch => name_cpuarch(),
        MachAttribute::GfxBoard => name_gfxboard(),
        MachAttribute::Subgr => name_subgr(),
        MachAttribute::Video => name_video(),
        MachAttribute::Mode => name_mode(),
        MachAttribute::TargetOs => name_targos(),
        MachAttribute::DistributionOs => name_distos(),
        MachAttribute::Unknown(s) => s@,
    }
}

/// Whether two character sequences are equal.
pub fn chars_eq(a: &[char], b: &[char]) -> (r: bool)
    ensures
        r == (a@ == b@),
{
    if a.len() != b.len() {
        return false;
    }
    let mut i: usize = 0;
    while i < a.len()
        invariant
            i <= a.len() == b.len(),
            forall|k: int| 0 <= k < i ==> a@[k] == b@[k],
        decreases a.len() - i,
    {
        if a[i] != b[i] {
            return false;
        }
        i += 1;
    }
    assert(a@ =~= b@);
    true
}

impl MachAttribute {
    /// Maps an attribute name to its known variant, preserving unknown
    /// names.
    pub fn from_name(name: &str) -> (r: Self)
        ensures
            attribute_name_of(r) == name@,
            r is Unknown <==> !known_attribute_name(name@),
    {
        let v = chars_of(name);
        if chars_eq(&v, &['C', 'P', 'U', 'B', 'O', 'A', 'R', 'D']) {
            MachAttribute::CpuBoard
        } else if chars_eq(&v, &['C', 'P', 'U', 'A', 'R', 'C', 'H']) {
            MachAttribute::CpuArch
        } else if chars_eq(&v, &['G', 'F', 'X', 'B', 'O', 'A', 'R', 'D']) {
            MachAttribute::GfxBoard
        } else if chars_eq(&v, &['S', 'U', 'B', 'G', 'R']) {
            MachAttribute::Subgr
        } else if chars_eq(&v, &['V', 'I', 'D', 'E', 'O']) {
            MachAttribute::Video
        } else if chars_eq(&v, &['M', 'O', 'D', 'E']) {
            MachAttribute::Mode
        } else if chars_eq(&v, &['T', 'A', 'R', 'G', 'O', 'S']) {
            MachAttribute::TargetOs
        } else if chars_eq(&v, &['D', 'I', 'S', 'T', 'O', 'S']) {
            MachAttribute::DistributionOs
        } else {
            MachAttribute::Unknown(string_of(&v))
        }
    }

    /// The canonical name under which the attribute is reported.
    pub fn name(&self) -> (r: String)
        ensures
            r@ == attribute_name_of(*self),
    {
        match self {
            MachAttribute::CpuBoard => string_of(&['C', 'P', 'U', 'B', 'O', 'A', 'R', 'D']),
            MachAttribute::CpuArch => string_of(&['C', 'P', 'U', 'A', 'R', 'C', 'H']),
            MachAttribute::GfxBoard => string_of(&['G', 'F', 'X', 'B', 'O', 'A', 'R', 'D']),
            MachAttribute::Subgr => string_of(&['S', 'U', 'B', 'G', 'R']),
            MachAttribute::Video => string_of(&['V', 'I', 'D', 'E', 'O']),
            MachAttribute::Mode => string_of(&['M', 'O', 'D', 'E']),
            MachAttribute::TargetOs => string_of(&['T', 'A', 'R', 'G', 'O', 'S']),
            MachAttribute::DistributionOs => string_of(&['D', 'I', 'S', 'T', 'O', 'S']),
            MachAttribute::Unknown(s) => s.clone(),
        }
    }
}

impl Clone for MachAttribute {
    fn clone(&self) -> (r: Self)
        ensures
            attribute_name_of(r) == attribute_name_of(*self),
            r is Unknown <==> self is Unknown,
    {
        match self {
            MachAttribute::CpuBoard => MachAttribute::CpuBoard,
            MachAttribute::CpuArch => MachAttribute::CpuArch,
            MachAttribute::GfxBoard => MachAttribute::GfxBoard,
            MachAttribute::Subgr => MachAttribute::Subgr,
            MachAttribute::Video => MachAttribute::Video,
            MachAttribute::Mode => MachAttribute::Mode,
            MachAttribute::TargetOs => MachAttribute::TargetOs,
            MachAttribute::DistributionOs => MachAttribute::DistributionOs,
            MachAttribute::Unknown(s) => MachAttribute::Unknown(s.clone()),
        }
    }
}

} // verus!

verus! {

/// The mathematical form of an expression tree: attributes by their
/// canonical name, values by their characters.
pub enum ExprSpec {
    /// `attribute op value`
    Compare(Seq<char>, CompareOp, Seq<char>),
    /// All operands hold.
    And(Seq<ExprSpec>),
    /// Some operand holds.
    Or(Seq<ExprSpec>),
    /// The operand does not hold.
    Not(Box<ExprSpec>),
}

/// The mathematical form of an expression tree.
pub open spec fn expr_view(e: MachExpr) -> ExprSpec
    decreases e, 1nat,
{
    match e {
        MachExpr::Compare { attribute, op, value } => ExprSpec::Compare(attribute_name_of(attribute), op, value@),
        MachExpr::And(operands) => ExprSpec::And(exprs_view(operands@)),
        MachExpr::Or(operands) => ExprSpec::Or(exprs_view(operands@)),
        MachExpr::Not(operand) => ExprSpec::Not(Box::new(expr_view(*operand))),
    }
}

/// The mathematical forms of a list of expression trees.
pub open spec fn exprs_view(es: Seq<MachExpr>) -> Seq<ExprSpec>
    decreases es, 0nat,
{
    if es.len() == 0 {
        Seq::<ExprSpec>::empty()
    } else {
        seq![expr_view(es[0])] + exprs_view(es.subrange(1, es.len() as int))
    }
}

/// Appending an expression appends its view.
pub proof fn lemma_exprs_view_push(es: Seq<MachExpr>, e: MachExpr)
    ensures
        exprs_view(es.push(e)) == exprs_view(es).push(expr_view(e)),
    decreases es.len(),
{
    if es.len() == 0 {
        assert(es.push(e).subrange(1, 1) =~= Seq::<MachExpr>::empty());
        assert(exprs_view(es.push(e).subrange(1, 1)) =~= Seq::<ExprSpec>::empty());
        assert(es.push(e)[0] == e);
        assert(exprs_view(es.push(e)) =~= seq![expr_view(e)]);
    } else {
        lemma_exprs_view_push(es.subrange(1, es.len() as int), e);
        assert(es.push(e).subrange(1, es.len() as int + 1) =~= es.subrange(1, es.len() as int).push(e));
        assert(exprs_view(es.push(e)) =~= exprs_view(es).push(expr_view(e)));
    }
}

/// The views of a list have its length.
pub proof fn lemma_exprs_view_len(es: Seq<MachExpr>)
    ensures
        exprs_view(es).len() == es.len(),
        forall|i: int| 0 <= i < es.len() ==> #[trigger] exprs_view(es)[i] == expr_view(es[i]),
    decreases es.len(),
{
    if es.len() > 0 {
        lemma_exprs_view_len(es.subrange(1, es.len() as int));
        assert forall|i: int| 0 <= i < es.len() implies #[trigger] exprs_view(es)[i] == expr_view(es[i]) by {
            if i > 0 {
                assert(exprs_view(es.subrange(1, es.len() as int))[i - 1] == expr_view(es.subrange(1, es.len() as int)[i - 1]));
            }
        }
    }
}

} // verus!

verus! {

impl Clone for MachExpr {
    fn clone(&self) -> (r: Self)
        ensures
            expr_view(r) == expr_view(*self),
        decreases self,
    {
        match self {
            MachExpr::Compare { attribute, op, value } => MachExpr::Compare {
                attribute: attribute.clone(),
                op: *op,
                value: value.clone(),
            },
            MachExpr::And(operands) => MachExpr::And(clone_exprs(operands)),
            MachExpr::Or(operands) => MachExpr::Or(clone_exprs(operands)),
            MachExpr::Not(operand) => MachExpr::Not(Box::new((**operand).clone())),
        }
    }
}

/// Copies a list of expression trees.
fn clone_exprs(es: &Vec<MachExpr>) -> (r: Vec<MachExpr>)
    ensures
        exprs_view(r@) == exprs_view(es@),
    decreases es,
{
    let mut r: Vec<MachExpr> = Vec::new();
    let mut i: usize = 0;
    while i < es.len()
        invariant
            i <= es.len(),
            exprs_view(r@) == exprs_view(es@.take(i as int)),
        decreases es.len() - i,
    {
        assert(decreases_to!(es => es@[i as int]));
        let e = es[i].clone();
        proof {
            lemma_exprs_view_push(r@, e);
            lemma_exprs_view_push(es@.take(i as int), es@[i as int]);
            assert(es@.take(i + 1) == es@.take(i as int).push(es@[i as int]));
        }
        r.push(e);
        i += 1;
    }
    assert(es@.take(es.len() as int) == es@);
    r
}

impl Clone for HardwareExpr {
    fn clone(&self) -> (r: Self)
        ensures
            r.raw@ == self.raw@,
            r.syntax == self.syntax,
            expr_view(r.expr) == expr_view(self.expr),
    {
        HardwareExpr { raw: self.raw.clone(), syntax: self.syntax, expr: self.expr.clone() }
    }
}

} // verus!
