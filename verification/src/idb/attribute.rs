//! IDB entry attributes.
//!
//! Attributes appear at the end of each IDB line as a free-form list, for
//! example:
//!
//! ```text
//! sum(61435) size(601) f(940005084) config(suggest) cmpsize(465)
//! ```
//!
//! They are numerous, may repeat, and their order can matter, so the
//! attribute list — not a fixed set of struct fields — is the source of
//! truth. Attributes this library does not understand are preserved
//! verbatim as [`IdbAttribute::Unknown`].
use vstd::prelude::*;
use crate::diagnostic::{Diagnostic, Severity};
use crate::mach::parser::hardware_spec;
use crate::mach::{expr_view, ExprSpec, HardwareExpr, HardwareSyntax};
use crate::num::{parse_unsigned, parse_unsigned_spec};
use crate::text::{
    append_str, chars_of, is_whitespace, is_ws, seqs_of, split_words, string_of, trim_chars,
    trim_spec, ws_words,
};
use crate::mach::chars_eq;

verus! {

/// One IDB attribute.
#[derive(Debug, PartialEq)]
pub enum IdbAttribute {
    /// `sum(n)` — checksum of the installed file.
    Checksum(u64),
    /// `size(n)` — uncompressed size in bytes.
    Size(u64),
    /// `cmpsize(n)` — size as stored in the image archive; zero means the
    /// file is stored uncompressed.
    CompressedSize(u64),
    /// `config(mode)` — configuration file handling.
    Config(ConfigMode),
    /// `nohist` — do not record installation history.
    NoHistory,
    /// `delhist` — delete installation history.
    DeleteHistory,
    /// `dev(major minor)` — device numbers for special files.
    Device {
        /// Major device number.
        major: u32,
        /// Minor device number.
        minor: u32,
    },
    /// `symval(target)` — symbolic link target.
    SymlinkValue(String),
    /// `mach(expr)` — hardware applicability expression.
    Mach(HardwareExpr),
    /// A `mach(expr)` whose expression could not be parsed.
    ///
    /// Kept separate from [`IdbAttribute::Unknown`] so that selection can
    /// never mistake an unparseable hardware restriction for a mach-less
    /// entry (which would make it a common fallback — a fail-open).
    MachUnparsed {
        /// Raw attribute argument text.
        raw: String,
        /// Why parsing failed.
        error: String,
    },
    /// `exitop(cmd)` — command run after installation completes.
    ExitOp(String),
    /// `preop(cmd)` — command run before installing the file.
    PreOp(String),
    /// `postop(cmd)` — command run after installing the file.
    PostOp(String),
    /// `removeop(cmd)` — command run when the file is removed.
    RemoveOp(String),
    /// `shadow` — shadow file semantics.
    Shadow,
    /// `nostrip` — do not strip the binary.
    NoStrip,
    /// `stripdso` — strip a shared object.
    StripDso,
    /// `norqs` — do not run `rqs` on the binary.
    NoRqs,
    /// Any other attribute, preserved verbatim.
    Unknown {
        /// Attribute name.
        name: String,
        /// Whitespace-separated argument tokens inside the parentheses.
        args: Vec<String>,
        /// Raw attribute text, e.g. `f(940005084)`.
        raw: String,
    },
}

/// Modes of the `config(...)` attribute.
#[derive(Debug, PartialEq, Eq)]
pub enum ConfigMode {
    /// `config(suggest)`
    Suggest,
    /// `config(noupdate)`
    NoUpdate,
    /// `config(update)`
    Update,
    /// Any other mode, preserved verbatim.
    Unknown(String),
}

/// `suggest`
pub open spec fn word_suggest() -> Seq<char> { seq!['s', 'u', 'g', 'g', 'e', 's', 't'] }
/// `noupdate`
pub open spec fn word_noupdate() -> Seq<char> { seq!['n', 'o', 'u', 'p', 'd', 'a', 't', 'e'] }
/// `update`
pub open spec fn word_update() -> Seq<char> { seq!['u', 'p', 'd', 'a', 't', 'e'] }

/// The text a configuration mode stands for.
pub open spec fn config_text(m: ConfigMode) -> Seq<char> {
    match m {
        ConfigMode::Suggest => word_suggest(),
        ConfigMode::NoUpdate => word_noupdate(),
        ConfigMode::Update => word_update(),
        ConfigMode::Unknown(s) => s@,
    }
}

impl Clone for ConfigMode {
    fn clone(&self) -> (r: Self)
        ensures
            r == *self,
    {
        match self {
            ConfigMode::Suggest => ConfigMode::Suggest,
            ConfigMode::NoUpdate => ConfigMode::NoUpdate,
            ConfigMode::Update => ConfigMode::Update,
            ConfigMode::Unknown(s) => ConfigMode::Unknown(s.clone()),
        }
    }
}

/// The mathematical form of an [`IdbAttribute`]: texts by their
/// characters, a parsed `mach` by its raw text, syntax and expression.
pub enum AttrSpec {
    /// `sum(n)`
    Checksum(u64),
    /// `size(n)`
    Size(u64),
    /// `cmpsize(n)`
    CompressedSize(u64),
    /// `config(mode)`, by the mode's text.
    Config(Seq<char>),
    /// `nohist`
    NoHistory,
    /// `delhist`
    DeleteHistory,
    /// `dev(major minor)`
    Device(u32, u32),
    /// `symval(target)`
    SymlinkValue(Seq<char>),
    /// A parsed `mach(expr)`.
    Mach(Seq<char>, HardwareSyntax, ExprSpec),
    /// An unparsed `mach(expr)`, by its raw text.
    MachUnparsed(Seq<char>),
    /// `exitop(cmd)`
    ExitOp(Seq<char>),
    /// `preop(cmd)`
    PreOp(Seq<char>),
    /// `postop(cmd)`
    PostOp(Seq<char>),
    /// `removeop(cmd)`
    RemoveOp(Seq<char>),
    /// `shadow`
    Shadow,
    /// `nostrip`
    NoStrip,
    /// `stripdso`
    StripDso,
    /// `norqs`
    NoRqs,
    /// Any other attribute: name, argument words and raw text.
    Unknown(Seq<char>, Seq<Seq<char>>, Seq<char>),
}

/// The mathematical form of an attribute.
pub open spec fn attr_view(a: IdbAttribute) -> AttrSpec {
    match a {
        IdbAttribute::Checksum(n) => AttrSpec::Checksum(n),
        IdbAttribute::Size(n) => AttrSpec::Size(n),
        IdbAttribute::CompressedSize(n) => AttrSpec::CompressedSize(n),
        IdbAttribute::Config(m) => AttrSpec::Config(config_text(m)),
        IdbAttribute::NoHistory => AttrSpec::NoHistory,
        IdbAttribute::DeleteHistory => AttrSpec::DeleteHistory,
        IdbAttribute::Device { major, minor } => AttrSpec::Device(major, minor),
        IdbAttribute::SymlinkValue(s) => AttrSpec::SymlinkValue(s@),
        IdbAttribute::Mach(h) => AttrSpec::Mach(h.raw@, h.syntax, expr_view(h.expr)),
        IdbAttribute::MachUnparsed { raw, .. } => AttrSpec::MachUnparsed(raw@),
        IdbAttribute::ExitOp(s) => AttrSpec::ExitOp(s@),
        IdbAttribute::PreOp(s) => AttrSpec::PreOp(s@),
        IdbAttribute::PostOp(s) => AttrSpec::PostOp(s@),
        IdbAttribute::RemoveOp(s) => AttrSpec::RemoveOp(s@),
        IdbAttribute::Shadow => AttrSpec::Shadow,
        IdbAttribute::NoStrip => AttrSpec::NoStrip,
        IdbAttribute::StripDso => AttrSpec::StripDso,
        IdbAttribute::NoRqs => AttrSpec::NoRqs,
        IdbAttribute::Unknown { name, args, raw } => AttrSpec::Unknown(name@, seqs_of_strings(args@), raw@),
    }
}

/// The character sequences of a list of strings.
pub open spec fn seqs_of_strings(v: Seq<String>) -> Seq<Seq<char>> {
    v.map_values(|s: String| s@)
}

/// The mathematical forms of a list of attributes.
pub open spec fn attrs_view(v: Seq<IdbAttribute>) -> Seq<AttrSpec> {
    v.map_values(|a: IdbAttribute| attr_view(a))
}

impl Clone for IdbAttribute {
    fn clone(&self) -> (r: Self)
        ensures
            attr_view(r) == attr_view(*self),
    {
        match self {
            IdbAttribute::Checksum(n) => IdbAttribute::Checksum(*n),
            IdbAttribute::Size(n) => IdbAttribute::Size(*n),
            IdbAttribute::CompressedSize(n) => IdbAttribute::CompressedSize(*n),
            IdbAttribute::Config(m) => IdbAttribute::Config(m.clone()),
            IdbAttribute::NoHistory => IdbAttribute::NoHistory,
            IdbAttribute::DeleteHistory => IdbAttribute::DeleteHistory,
            IdbAttribute::Device { major, minor } => IdbAttribute::Device { major: *major, minor: *minor },
            IdbAttribute::SymlinkValue(s) => IdbAttribute::SymlinkValue(s.clone()),
            IdbAttribute::Mach(h) => IdbAttribute::Mach(h.clone()),
            IdbAttribute::MachUnparsed { raw, error } => IdbAttribute::MachUnparsed {
                raw: raw.clone(),
                error: error.clone(),
            },
            IdbAttribute::ExitOp(s) => IdbAttribute::ExitOp(s.clone()),
            IdbAttribute::PreOp(s) => IdbAttribute::PreOp(s.clone()),
            IdbAttribute::PostOp(s) => IdbAttribute::PostOp(s.clone()),
            IdbAttribute::RemoveOp(s) => IdbAttribute::RemoveOp(s.clone()),
            IdbAttribute::Shadow => IdbAttribute::Shadow,
            IdbAttribute::NoStrip => IdbAttribute::NoStrip,
            IdbAttribute::StripDso => IdbAttribute::StripDso,
            IdbAttribute::NoRqs => IdbAttribute::NoRqs,
            IdbAttribute::Unknown { name, args, raw } => IdbAttribute::Unknown {
                name: name.clone(),
                args: clone_strings(args),
                raw: raw.clone(),
            },
        }
    }
}

/// Copies a list of strings.
pub fn clone_strings(v: &Vec<String>) -> (r: Vec<String>)
    ensures
        seqs_of_strings(r@) == seqs_of_strings(v@),
{
    let mut r: Vec<String> = Vec::new();
    let mut i: usize = 0;
    while i < v.len()
        invariant
            i <= v.len(),
            seqs_of_strings(r@) == seqs_of_strings(v@.take(i as int)),
        decreases v.len() - i,
    {
        let c = v[i].clone();
        proof {
            assert(v@.take(i + 1) == v@.take(i as int).push(v@[i as int]));
            assert(seqs_of_strings(r@.push(c)) =~= seqs_of_strings(r@).push(c@));
            assert(seqs_of_strings(v@.take(i as int).push(v@[i as int])) =~= seqs_of_strings(v@.take(i as int)).push(v@[i as int]@));
        }
        r.push(c);
        i += 1;
    }
    assert(v@.take(v.len() as int) == v@);
    r
}

} // verus!

verus! {

// ---------------------------------------------------------------------
// Tokenizing the attribute region
// ---------------------------------------------------------------------

/// One raw attribute token: `name` plus optional parenthesized argument.
#[derive(Debug)]
pub struct AttributeToken {
    /// Attribute name, e.g. `cmpsize`.
    pub name: String,
    /// Argument text inside the parentheses, if any.
    pub args: Option<String>,
    /// Raw token text.
    pub raw: String,
}

impl AttributeToken {
    /// Whether the token carries a parenthesized argument list.
    pub fn has_args(&self) -> (r: bool)
        ensures
            r == self.args is Some,
    {
        self.args.is_some()
    }
}

/// A token as name, argument text and raw text.
pub open spec fn token_view(t: AttributeToken) -> (Seq<char>, Option<Seq<char>>, Seq<char>) {
    (t.name@, match t.args { Some(a) => Some(a@), None => None }, t.raw@)
}

/// The views of a list of tokens.
pub open spec fn tokens_view(v: Seq<AttributeToken>) -> Seq<(Seq<char>, Option<Seq<char>>, Seq<char>)> {
    v.map_values(|t: AttributeToken| token_view(t))
}

/// The first index at or after `i` that is not whitespace, or the end.
pub open spec fn skip_ws_from(s: Seq<char>, i: int) -> int
    decreases s.len() - i,
{
    if i < 0 || i >= s.len() {
        i
    } else if is_ws(s[i]) {
        skip_ws_from(s, i + 1)
    } else {
        i
    }
}

/// The end of an attribute name starting at `i`: the first whitespace
/// or `(`, or the end.
pub open spec fn name_end_from(s: Seq<char>, i: int) -> int
    decreases s.len() - i,
{
    if i < 0 || i >= s.len() {
        i
    } else if is_ws(s[i]) || s[i] == '(' {
        i
    } else {
        name_end_from(s, i + 1)
    }
}

/// The index of the parenthesis that closes an argument list, scanning
/// from `j` at nesting `depth`, inside double quotes or not; the end of
/// `s` when the list is never closed. Parentheses inside quotes do not
/// count.
pub open spec fn args_close(s: Seq<char>, j: int, depth: int, in_quotes: bool) -> int
    decreases s.len() - j,
{
    if j < 0 || j >= s.len() {
        s.len() as int
    } else if s[j] == '"' {
        args_close(s, j + 1, depth, !in_quotes)
    } else if s[j] == '(' && !in_quotes {
        args_close(s, j + 1, depth + 1, in_quotes)
    } else if s[j] == ')' && !in_quotes {
        if depth - 1 == 0 {
            j
        } else {
            args_close(s, j + 1, depth - 1, in_quotes)
        }
    } else {
        args_close(s, j + 1, depth, in_quotes)
    }
}

/// Whether the token starting at `k` has an argument list.
pub open spec fn token_has_args(s: Seq<char>, k: int) -> bool {
    let ne = name_end_from(s, k);
    ne < s.len() && s[ne] == '('
}

/// Whether the token starting at `k` has an argument list that is never
/// closed.
pub open spec fn token_unclosed(s: Seq<char>, k: int) -> bool {
    token_has_args(s, k) && args_close(s, name_end_from(s, k), 0, false) >= s.len()
}

/// Where the token starting at `k` ends: after its closing parenthesis,
/// at the end of an unclosed list, or at the end of its name.
pub open spec fn token_end(s: Seq<char>, k: int) -> int {
    let ne = name_end_from(s, k);
    if token_has_args(s, k) {
        let c = args_close(s, ne, 0, false);
        if c < s.len() { c + 1 } else { s.len() as int }
    } else {
        ne
    }
}

/// The token starting at `k`: name, argument text and raw text.
pub open spec fn token_at(s: Seq<char>, k: int) -> (Seq<char>, Option<Seq<char>>, Seq<char>) {
    let ne = name_end_from(s, k);
    let args = if token_has_args(s, k) {
        Some(s.subrange(ne + 1, args_close(s, ne, 0, false)))
    } else {
        None
    };
    (s.subrange(k, ne), args, s.subrange(k, token_end(s, k)))
}

/// The tokens of `s` from index `i` on.
pub open spec fn tokens_from(s: Seq<char>, i: int) -> Seq<(Seq<char>, Option<Seq<char>>, Seq<char>)>
    decreases s.len() - i,
{
    let k = skip_ws_from(s, i);
    if i < 0 || k < i || k >= s.len() || token_end(s, k) <= i || token_end(s, k) > s.len() {
        Seq::empty()
    } else {
        seq![token_at(s, k)] + tokens_from(s, token_end(s, k))
    }
}

/// The number of tokens from index `i` on whose argument list is never
/// closed.
pub open spec fn unclosed_from(s: Seq<char>, i: int) -> nat
    decreases s.len() - i,
{
    let k = skip_ws_from(s, i);
    if i < 0 || k < i || k >= s.len() || token_end(s, k) <= i || token_end(s, k) > s.len() {
        0
    } else {
        (if token_unclosed(s, k) { 1nat } else { 0nat }) + unclosed_from(s, token_end(s, k))
    }
}

/// The characters `v[a..b]` as a string.
pub fn substring(v: &Vec<char>, a: usize, b: usize) -> (s: String)
    requires
        a <= b <= v.len(),
    ensures
        s@ == v@.subrange(a as int, b as int),
{
    let mut r: Vec<char> = Vec::new();
    let mut i: usize = a;
    while i < b
        invariant
            a <= i <= b <= v.len(),
            r@ == v@.subrange(a as int, i as int),
        decreases b - i,
    {
        r.push(v[i]);
        i += 1;
        assert(r@ == v@.subrange(a as int, i as int));
    }
    string_of(&r)
}

/// Splits an attribute region into tokens.
///
/// The tokenizer is parenthesis- and quote-aware, so tokens like
/// `mach(CPUBOARD=IP19 CPUBOARD=IP21)` and `exitop("rm -rf ...")` stay
/// intact. An argument list that is never closed runs to the end of the
/// input and is reported with a warning.
pub fn tokenize(input: &str, origin: &str, diagnostics: &mut Vec<Diagnostic>) -> (tokens: Vec<AttributeToken>)
    ensures
        tokens_view(tokens@) == tokens_from(input@, 0),
        final(diagnostics)@.len() == old(diagnostics)@.len() + unclosed_from(input@, 0),
        final(diagnostics)@.take(old(diagnostics)@.len() as int) == old(diagnostics)@,
        forall|i: int| old(diagnostics)@.len() <= i < final(diagnostics)@.len() ==>
            (#[trigger] final(diagnostics)@[i]).severity == Severity::Warning,
{
    let chars = chars_of(input);
    let n = chars.len();
    let ghost s = input@;
    let ghost d0 = diagnostics@;
    let mut out: Vec<AttributeToken> = Vec::new();
    let mut pos: usize = 0;
    let mut done = false;
    while !done
        invariant
            chars@ == s,
            n == s.len(),
            pos <= n,
            tokens_from(s, 0) == tokens_view(out@) + (if done { Seq::empty() } else { tokens_from(s, pos as int) }),
            unclosed_from(s, 0) == diagnostics@.len() - d0.len() + (if done { 0nat } else { unclosed_from(s, pos as int) }),
            diagnostics@.len() >= d0.len(),
            diagnostics@.take(d0.len() as int) == d0,
            forall|i: int| d0.len() <= i < diagnostics@.len() ==> (#[trigger] diagnostics@[i]).severity == Severity::Warning,
        decreases n - pos + (if done { 0int } else { 1int }),
    {
        let ghost start_pos = pos as int;
        while pos < n && is_whitespace(chars[pos])
            invariant
                chars@ == s,
                n == s.len(),
                start_pos <= pos <= n,
                skip_ws_from(s, start_pos) == skip_ws_from(s, pos as int),
            decreases n - pos,
        {
            pos += 1;
        }
        if pos >= n {
            done = true;
        } else {
            let k = pos;
            assert(skip_ws_from(s, k as int) == k as int);
            while pos < n && !is_whitespace(chars[pos]) && chars[pos] != '('
                invariant
                    chars@ == s,
                    n == s.len(),
                    k <= pos <= n,
                    name_end_from(s, k as int) == name_end_from(s, pos as int),
                decreases n - pos,
            {
                pos += 1;
            }
            let name_end = pos;
            assert(name_end_from(s, name_end as int) == name_end as int);
            let mut args: Option<String> = None;
            if pos < n && chars[pos] == '(' {
                let args_start = pos + 1;
                let mut depth: usize = 0;
                let mut in_quotes = false;
                let mut closed = false;
                while pos < n && !closed
                    invariant
                        chars@ == s,
                        n == s.len(),
                        name_end <= pos <= n,
                        name_end < n && s[name_end as int] == '(',
                        closed ==> args_close(s, name_end as int, 0, false) == pos && pos < n,
                        !closed ==> args_close(s, name_end as int, 0, false) == args_close(s, pos as int, depth as int, in_quotes),
                        pos == name_end ==> depth == 0 && !in_quotes && !closed,
                        pos > name_end && !closed ==> depth >= 1,
                        depth <= pos - name_end,
                    decreases n - pos + (if closed { 0int } else { 1int }),
                {
                    let c = chars[pos];
                    if c == '"' {
                        in_quotes = !in_quotes;
                        pos += 1;
                    } else if c == '(' && !in_quotes {
                        depth += 1;
                        pos += 1;
                    } else if c == ')' && !in_quotes {
                        depth -= 1;
                        if depth == 0 {
                            closed = true;
                        } else {
                            pos += 1;
                        }
                    } else {
                        pos += 1;
                    }
                }
                if !closed {
                    diagnostics.push(Diagnostic::warning(
                        string_of(&['u', 'n', 't', 'e', 'r', 'm', 'i', 'n', 'a', 't', 'e', 'd', ' ', 'a', 't', 't', 'r', 'i', 'b', 'u', 't', 'e', ' ', 'a', 'r', 'g', 'u', 'm', 'e', 'n', 't', ' ', 'l', 'i', 's', 't']),
                        Some(string_of(&chars_of(origin))),
                    ));
                }
                args = Some(substring(&chars, args_start, pos));
                if closed {
                    pos += 1;
                }
            }
            let token = AttributeToken {
                name: substring(&chars, k, name_end),
                args,
                raw: substring(&chars, k, pos),
            };
            proof {
                assert(token_end(s, k as int) == pos as int);
                assert(token_view(token) == token_at(s, k as int));
                assert(pos > start_pos);
                assert(tokens_view(out@.push(token)) =~= tokens_view(out@).push(token_view(token)));
            }
            out.push(token);
            assert(diagnostics@.take(d0.len() as int) =~= d0);
        }
    }
    out
}

} // verus!

verus! {

// ---------------------------------------------------------------------
// Classifying tokens
// ---------------------------------------------------------------------

/// The number at word `i` of an argument text, as `u64::from_str` reads
/// it.
pub open spec fn numeric_arg_spec(args: Seq<char>, i: int) -> Option<nat> {
    let words = ws_words(args);
    if 0 <= i < words.len() {
        parse_unsigned_spec(words[i], 10, 0xffff_ffff_ffff_ffff)
    } else {
        None
    }
}

/// The trimmed text without one layer of surrounding double quotes, if
/// it has them.
pub open spec fn unquote_spec(a: Seq<char>) -> Seq<char> {
    let t = trim_spec(a);
    if t.len() >= 2 && t[0] == '"' && t.last() == '"' {
        t.subrange(1, t.len() - 1)
    } else {
        t
    }
}

/// `sum`
pub open spec fn w_sum() -> Seq<char> { seq!['s', 'u', 'm'] }
/// `size`
pub open spec fn w_size() -> Seq<char> { seq!['s', 'i', 'z', 'e'] }
/// `cmpsize`
pub open spec fn w_stored_size() -> Seq<char> { seq!['c', 'm', 'p', 's', 'i', 'z', 'e'] }
/// `config`
pub open spec fn w_config() -> Seq<char> { seq!['c', 'o', 'n', 'f', 'i', 'g'] }
/// `nohist`
pub open spec fn w_nohist() -> Seq<char> { seq!['n', 'o', 'h', 'i', 's', 't'] }
/// `delhist`
pub open spec fn w_delhist() -> Seq<char> { seq!['d', 'e', 'l', 'h', 'i', 's', 't'] }
/// `dev`
pub open spec fn w_dev() -> Seq<char> { seq!['d', 'e', 'v'] }
/// `symval`
pub open spec fn w_symval() -> Seq<char> { seq!['s', 'y', 'm', 'v', 'a', 'l'] }
/// `mach`
pub open spec fn w_mach() -> Seq<char> { seq!['m', 'a', 'c', 'h'] }
/// `exitop`
pub open spec fn w_exitop() -> Seq<char> { seq!['e', 'x', 'i', 't', 'o', 'p'] }
/// `preop`
pub open spec fn w_preop() -> Seq<char> { seq!['p', 'r', 'e', 'o', 'p'] }
/// `postop`
pub open spec fn w_postop() -> Seq<char> { seq!['p', 'o', 's', 't', 'o', 'p'] }
/// `removeop`
pub open spec fn w_removeop() -> Seq<char> { seq!['r', 'e', 'm', 'o', 'v', 'e', 'o', 'p'] }
/// `shadow`
pub open spec fn w_shadow() -> Seq<char> { seq!['s', 'h', 'a', 'd', 'o', 'w'] }
/// `nostrip`
pub open spec fn w_nostrip() -> Seq<char> { seq!['n', 'o', 's', 't', 'r', 'i', 'p'] }
/// `stripdso`
pub open spec fn w_stripdso() -> Seq<char> { seq!['s', 't', 'r', 'i', 'p', 'd', 's', 'o'] }
/// `norqs`
pub open spec fn w_norqs() -> Seq<char> { seq!['n', 'o', 'r', 'q', 's'] }

/// What a token with an argument list means.
pub open spec fn classify_with_args(name: Seq<char>, a: Seq<char>, raw: Seq<char>) -> AttrSpec {
    let unknown = AttrSpec::Unknown(name, ws_words(a), raw);
    if name == w_sum() {
        match numeric_arg_spec(a, 0) { Some(n) => AttrSpec::Checksum(n as u64), None => unknown }
    } else if name == w_size() {
        match numeric_arg_spec(a, 0) { Some(n) => AttrSpec::Size(n as u64), None => unknown }
    } else if name == w_stored_size() {
        match numeric_arg_spec(a, 0) { Some(n) => AttrSpec::CompressedSize(n as u64), None => unknown }
    } else if name == w_config() {
        AttrSpec::Config(trim_spec(a))
    } else if name == w_dev() {
        match (numeric_arg_spec(a, 0), numeric_arg_spec(a, 1)) {
            (Some(major), Some(minor)) => AttrSpec::Device((major as u64) as u32, (minor as u64) as u32),
            _ => unknown,
        }
    } else if name == w_symval() {
        AttrSpec::SymlinkValue(unquote_spec(a))
    } else if name == w_mach() {
        match hardware_spec(a) {
            Some((syntax, e)) => AttrSpec::Mach(a, syntax, e),
            None => AttrSpec::MachUnparsed(a),
        }
    } else if name == w_exitop() {
        AttrSpec::ExitOp(unquote_spec(a))
    } else if name == w_preop() {
        AttrSpec::PreOp(unquote_spec(a))
    } else if name == w_postop() {
        AttrSpec::PostOp(unquote_spec(a))
    } else if name == w_removeop() {
        AttrSpec::RemoveOp(unquote_spec(a))
    } else {
        unknown
    }
}

/// What a bare token (no argument list) means.
pub open spec fn classify_bare(name: Seq<char>, raw: Seq<char>) -> AttrSpec {
    if name == w_nohist() {
        AttrSpec::NoHistory
    } else if name == w_delhist() {
        AttrSpec::DeleteHistory
    } else if name == w_shadow() {
        AttrSpec::Shadow
    } else if name == w_nostrip() {
        AttrSpec::NoStrip
    } else if name == w_stripdso() {
        AttrSpec::StripDso
    } else if name == w_norqs() {
        AttrSpec::NoRqs
    } else {
        AttrSpec::Unknown(name, Seq::empty(), raw)
    }
}

/// What a token means: known attributes by name (a known name with the
/// wrong shape, or a numeric argument that does not parse, is kept as
/// unknown).
pub open spec fn classify_spec(t: (Seq<char>, Option<Seq<char>>, Seq<char>)) -> AttrSpec {
    match t.1 {
        Some(a) => classify_with_args(t.0, a, t.2),
        None => classify_bare(t.0, t.2),
    }
}

/// A `size(N)` attribute records the file size `N`, a `cmpsize(N)`
/// attribute the stored size `N`, and a `sum(N)` attribute the checksum
/// `N`.
pub proof fn lemma_size_attributes(a: Seq<char>, raw: Seq<char>, n: nat)
    requires
        numeric_arg_spec(a, 0) == Some(n),
    ensures
        classify_spec(("size"@, Some(a), raw)) == AttrSpec::Size(n as u64),
        classify_spec(("cmpsize"@, Some(a), raw)) == AttrSpec::CompressedSize(n as u64),
        classify_spec(("sum"@, Some(a), raw)) == AttrSpec::Checksum(n as u64),
{
    reveal_strlit("size");
    reveal_strlit("cmpsize");
    reveal_strlit("sum");
    assert("size"@ =~= w_size());
    assert("cmpsize"@ =~= w_stored_size());
    assert("sum"@ =~= w_sum());
    assert(w_size() != w_sum() && w_stored_size() != w_sum() && w_stored_size() != w_size());
}

/// Whether a token is a `mach(...)` whose expression does not parse.
pub open spec fn is_unparsed_mach(t: (Seq<char>, Option<Seq<char>>, Seq<char>)) -> bool {
    t.1 is Some && t.0 == w_mach() && hardware_spec(t.1->0) is None
}

/// The number at word `i` of an argument text.
fn numeric_arg(args: &str, i: usize) -> (r: Option<u64>)
    ensures
        r matches Some(n) ==> numeric_arg_spec(args@, i as int) == Some(n as nat),
        r is None ==> numeric_arg_spec(args@, i as int) is None,
{
    let words = split_words(&chars_of(args));
    if i < words.len() {
        assert(seqs_of(words@)[i as int] == words@[i as int]@);
        parse_unsigned(&words[i], 10, 0xffff_ffff_ffff_ffff)
    } else {
        None
    }
}

/// Removes one layer of surrounding double quotes, if present.
pub fn unquote(args: &str) -> (r: String)
    ensures
        r@ == unquote_spec(args@),
{
    let t = trim_chars(&chars_of(args));
    if t.len() >= 2 && t[0] == '"' && t[t.len() - 1] == '"' {
        substring(&t, 1, t.len() - 1)
    } else {
        string_of(&t)
    }
}

/// The whitespace-separated words of an argument text.
fn arg_words(args: &Option<String>) -> (r: Vec<String>)
    ensures
        seqs_of_strings(r@) == (match *args { Some(a) => ws_words(a@), None => Seq::<Seq<char>>::empty() }),
{
    let mut r: Vec<String> = Vec::new();
    match args {
        Some(a) => {
            let words = split_words(&chars_of(a.as_str()));
            let mut i: usize = 0;
            while i < words.len()
                invariant
                    i <= words.len(),
                    seqs_of_strings(r@) == seqs_of(words@).take(i as int),
                decreases words.len() - i,
            {
                let w = string_of(&words[i]);
                proof {
                    assert(seqs_of_strings(r@.push(w)) =~= seqs_of_strings(r@).push(w@));
                    assert(seqs_of(words@).take(i + 1) =~= seqs_of(words@).take(i as int).push(words@[i as int]@));
                }
                r.push(w);
                i += 1;
            }
            assert(seqs_of(words@).take(words.len() as int) == seqs_of(words@));
        },
        None => {
            assert(seqs_of_strings(r@) =~= Seq::<Seq<char>>::empty());
        },
    }
    r
}

/// Classifies one token into an attribute.
///
/// Unparseable pieces are kept as [`IdbAttribute::Unknown`]; a `mach`
/// expression that does not parse is kept as
/// [`IdbAttribute::MachUnparsed`] and reported with a warning.
pub fn classify(token: AttributeToken, origin: &str, diagnostics: &mut Vec<Diagnostic>) -> (r: IdbAttribute)
    ensures
        attr_view(r) == classify_spec(token_view(token)),
        is_unparsed_mach(token_view(token)) ==> final(diagnostics)@.len() == old(diagnostics)@.len() + 1
            && final(diagnostics)@.drop_last() == old(diagnostics)@
            && final(diagnostics)@.last().severity == Severity::Warning
            && (final(diagnostics)@.last().origin matches Some(o) && o@ == origin@),
        !is_unparsed_mach(token_view(token)) ==> final(diagnostics)@ == old(diagnostics)@,
{
    let name = chars_of(token.name.as_str());
    let unknown_words = arg_words(&token.args);
    match &token.args {
        Some(a) => {
            let args = a.as_str();
            if chars_eq(&name, &['s', 'u', 'm']) {
                match numeric_arg(args, 0) {
                    Some(n) => IdbAttribute::Checksum(n),
                    None => IdbAttribute::Unknown { name: token.name, args: unknown_words, raw: token.raw },
                }
            } else if chars_eq(&name, &['s', 'i', 'z', 'e']) {
                match numeric_arg(args, 0) {
                    Some(n) => IdbAttribute::Size(n),
                    None => IdbAttribute::Unknown { name: token.name, args: unknown_words, raw: token.raw },
                }
            } else if chars_eq(&name, &['c', 'm', 'p', 's', 'i', 'z', 'e']) {
                match numeric_arg(args, 0) {
                    Some(n) => IdbAttribute::CompressedSize(n),
                    None => IdbAttribute::Unknown { name: token.name, args: unknown_words, raw: token.raw },
                }
            } else if chars_eq(&name, &['c', 'o', 'n', 'f', 'i', 'g']) {
                let mode = trim_chars(&chars_of(args));
                if chars_eq(&mode, &['s', 'u', 'g', 'g', 'e', 's', 't']) {
                    IdbAttribute::Config(ConfigMode::Suggest)
                } else if chars_eq(&mode, &['n', 'o', 'u', 'p', 'd', 'a', 't', 'e']) {
                    IdbAttribute::Config(ConfigMode::NoUpdate)
                } else if chars_eq(&mode, &['u', 'p', 'd', 'a', 't', 'e']) {
                    IdbAttribute::Config(ConfigMode::Update)
                } else {
                    IdbAttribute::Config(ConfigMode::Unknown(string_of(&mode)))
                }
            } else if chars_eq(&name, &['d', 'e', 'v']) {
                match (numeric_arg(args, 0), numeric_arg(args, 1)) {
                    (Some(major), Some(minor)) => IdbAttribute::Device {
                        major: #[verifier::truncate] (major as u32),
                        minor: #[verifier::truncate] (minor as u32),
                    },
                    _ => IdbAttribute::Unknown { name: token.name, args: unknown_words, raw: token.raw },
                }
            } else if chars_eq(&name, &['s', 'y', 'm', 'v', 'a', 'l']) {
                IdbAttribute::SymlinkValue(unquote(args))
            } else if chars_eq(&name, &['m', 'a', 'c', 'h']) {
                match HardwareExpr::parse(args) {
                    Ok(expr) => IdbAttribute::Mach(expr),
                    Err(error) => {
                        let mut message = string_of(&['m', 'a', 'l', 'f', 'o', 'r', 'm', 'e', 'd', ' ', 'm', 'a', 'c', 'h', ' ', 'a', 't', 't', 'r', 'i', 'b', 'u', 't', 'e', ':', ' ']);
                        let text = error.to_string();
                        append_str(&mut message, text.as_str());
                        diagnostics.push(Diagnostic::warning(message, Some(string_of(&chars_of(origin)))));
                        IdbAttribute::MachUnparsed { raw: string_of(&chars_of(args)), error: text }
                    },
                }
            } else if chars_eq(&name, &['e', 'x', 'i', 't', 'o', 'p']) {
                IdbAttribute::ExitOp(unquote(args))
            } else if chars_eq(&name, &['p', 'r', 'e', 'o', 'p']) {
                IdbAttribute::PreOp(unquote(args))
            } else if chars_eq(&name, &['p', 'o', 's', 't', 'o', 'p']) {
                IdbAttribute::PostOp(unquote(args))
            } else if chars_eq(&name, &['r', 'e', 'm', 'o', 'v', 'e', 'o', 'p']) {
                IdbAttribute::RemoveOp(unquote(args))
            } else {
                IdbAttribute::Unknown { name: token.name, args: unknown_words, raw: token.raw }
            }
        },
        None => {
            if chars_eq(&name, &['n', 'o', 'h', 'i', 's', 't']) {
                IdbAttribute::NoHistory
            } else if chars_eq(&name, &['d', 'e', 'l', 'h', 'i', 's', 't']) {
                IdbAttribute::DeleteHistory
            } else if chars_eq(&name, &['s', 'h', 'a', 'd', 'o', 'w']) {
                IdbAttribute::Shadow
            } else if chars_eq(&name, &['n', 'o', 's', 't', 'r', 'i', 'p']) {
                IdbAttribute::NoStrip
            } else if chars_eq(&name, &['s', 't', 'r', 'i', 'p', 'd', 's', 'o']) {
                IdbAttribute::StripDso
            } else if chars_eq(&name, &['n', 'o', 'r', 'q', 's']) {
                IdbAttribute::NoRqs
            } else {
                IdbAttribute::Unknown { name: token.name, args: unknown_words, raw: token.raw }
            }
        },
    }
}

} // verus!
