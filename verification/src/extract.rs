//! Extraction of selected entries to the host filesystem: the decisions.
//!
//! All paths are [`crate::path::IrixPath`] values, which are normalized
//! and traversal-free by construction; extraction cannot escape the
//! output directory. On top of that, [`host_path_with`] validates every
//! component against the host filesystem's naming rules (which matter
//! once IRIX file names meet Windows). Host paths are written relative
//! to the output directory, with `/` between components.
use vstd::prelude::*;
use crate::error::Error;
use crate::idb::{encoded_size_of, first_size, first_stored_size, first_symlink, Entry, FileType};
use crate::image::{Payload, PayloadResolution};
use crate::path::{file_name_of, normalize, strip_prefix_of, IrixPath};
use crate::text::{append_str, chars_of, join_on, push_char, push_debug, split_chars, split_on, string_of};

verus! {

/// How entry paths are mapped below the output directory.
#[derive(Debug, Clone)]
pub enum PathMode {
    /// Rebuild the full IRIX hierarchy below the output directory.
    Full,
    /// Write every entry directly into the output directory, using only
    /// its file name; later entries with the same name overwrite earlier
    /// ones.
    Flat,
    /// Strip the given prefix from entry paths. Entries outside the
    /// prefix are skipped.
    RelativeTo(IrixPath),
}

impl Default for PathMode {
    fn default() -> (r: Self)
        ensures
            r is Full,
    {
        PathMode::Full
    }
}

/// Whether compressed payloads are decoded during extraction.
#[derive(Debug, Clone, Copy, PartialEq, Eq, Structural)]
pub enum DecodeMode {
    /// Decode `.Z` payloads to their plain contents.
    Auto,
    /// Write payloads exactly as stored. Compressed payloads are written
    /// with `.Z` appended to the file name (e.g. `foo` becomes `foo.Z`);
    /// uncompressed payloads keep their plain name.
    Never,
}

impl Default for DecodeMode {
    fn default() -> (r: Self)
        ensures
            r == DecodeMode::Auto,
    {
        DecodeMode::Auto
    }
}

/// How extraction treats output paths that already exist on the host.
#[derive(Debug, Clone, Copy, PartialEq, Eq, Structural)]
pub enum ExistingOutputPolicy {
    /// Existing regular files may be overwritten by regular-file
    /// outputs. Symbolic links still never replace an existing path:
    /// that would change the filesystem object type, not overwrite its
    /// contents.
    Allow,
    /// Refuse to overwrite or remove anything that already exists.
    Refuse,
}

impl Default for ExistingOutputPolicy {
    fn default() -> (r: Self)
        ensures
            r == ExistingOutputPolicy::Allow,
    {
        ExistingOutputPolicy::Allow
    }
}

/// Options controlling extraction.
///
/// The defaults continue the historical behavior: full paths, decoded
/// payloads, continuing past individual failures, and overwriting
/// existing regular files.
#[derive(Debug, Clone)]
pub struct ExtractOptions {
    /// How entry paths are mapped below the output directory.
    pub path_mode: PathMode,
    /// Whether compressed payloads are decoded.
    pub decode: DecodeMode,
    /// With [`DecodeMode::Auto`], additionally write the stored
    /// bytes of compressed payloads to `<name>.Z`.
    pub keep_stored: bool,
    /// Continue past individual failures instead of aborting.
    pub continue_on_error: bool,
    /// How output paths that already exist on the host are treated.
    pub existing_output: ExistingOutputPolicy,
}

impl Default for ExtractOptions {
    fn default() -> (r: Self)
        ensures
            r.path_mode is Full,
            r.decode == DecodeMode::Auto,
            !r.keep_stored,
            r.continue_on_error,
            r.existing_output == ExistingOutputPolicy::Allow,
    {
        ExtractOptions {
            path_mode: PathMode::Full,
            decode: DecodeMode::Auto,
            keep_stored: false,
            continue_on_error: true,
            existing_output: ExistingOutputPolicy::Allow,
        }
    }
}

/// A single entry that failed to extract.
#[derive(Debug, Clone)]
pub struct ExtractFailure {
    /// Entry path.
    pub path: String,
    /// What went wrong.
    pub message: String,
}

/// A payload that was not found exactly at its expected offset.
///
/// Recoveries are honest successes — the bytes were located and written
/// — but the reader had to deviate from the computed layout to find
/// them, which callers must surface instead of silently accepting.
#[derive(Debug, Clone)]
pub struct ExtractRecovery {
    /// Entry path.
    pub path: String,
    /// Expected record offset, if the layout provided one.
    pub expected_record_offset: Option<u64>,
    /// Offset the record was actually found at.
    pub actual_record_offset: u64,
    /// How the record was located.
    pub resolution: PayloadResolution,
}

/// Outcome of an extraction run.
#[derive(Debug, Clone)]
pub struct ExtractReport {
    /// Entries successfully written.
    pub extracted: usize,
    /// Entries deliberately not written (devices, FIFOs, ...).
    pub skipped: usize,
    /// Entries that failed.
    pub failures: Vec<ExtractFailure>,
    /// Payloads that needed recovery to be located.
    pub recoveries: Vec<ExtractRecovery>,
}

impl Default for ExtractReport {
    fn default() -> (r: Self)
        ensures
            r.extracted == 0,
            r.skipped == 0,
            r.failures@.len() == 0,
            r.recoveries@.len() == 0,
    {
        ExtractReport { extracted: 0, skipped: 0, failures: Vec::new(), recoveries: Vec::new() }
    }
}

/// The path an entry maps to under a path mode, or `None` when the mode
/// excludes it: the full path; the file name alone (when there is one);
/// the path below the prefix (when it lies below it).
pub open spec fn resolved_spec(path: Seq<char>, mode: PathMode) -> Option<Seq<char>> {
    match mode {
        PathMode::Full => Some(path),
        PathMode::Flat => match file_name_of(path) {
            Some(name) => normalize(name),
            None => None,
        },
        PathMode::RelativeTo(prefix) => strip_prefix_of(path, prefix@),
    }
}

/// Resolves an entry path against the path mode.
///
/// Returns `None` for entries the mode excludes (outside the
/// [`PathMode::RelativeTo`] prefix, or nameless under
/// [`PathMode::Flat`]).
pub fn resolve_relative(entry: &Entry, mode: &PathMode) -> (r: Option<IrixPath>)
    ensures
        match r {
            Some(p) => resolved_spec(entry.path@, *mode) == Some(p@),
            None => resolved_spec(entry.path@, *mode) is None,
        },
{
    match mode {
        PathMode::Full => Some(entry.path.clone()),
        PathMode::Flat => match entry.path.file_name() {
            Some(name) => match IrixPath::new(name) {
                Ok(p) => Some(p),
                Err(_) => None,
            },
            None => None,
        },
        PathMode::RelativeTo(prefix) => entry.path.strip_prefix(prefix),
    }
}

/// `path` with `suffix` appended to its file name; an empty path (the
/// output directory itself) stays as it is.
pub open spec fn with_suffix(path: Seq<char>, suffix: Seq<char>) -> Seq<char> {
    if path.len() == 0 { path } else { path + suffix }
}

/// The path a payload's stored (still compressed) bytes are written to:
/// the file name with `.Z` appended, e.g. `libfoo.so` becomes
/// `libfoo.so.Z`.
pub fn stored_target(target: &str) -> (r: String)
    ensures
        r@ == with_suffix(target@, seq!['.', 'Z']),
{
    let mut r = string_of(&chars_of(target));
    if chars_of(target).len() > 0 {
        append_str(&mut r, ".Z");
        assert(".Z"@ =~= seq!['.', 'Z']) by {
            reveal_strlit(".Z");
        }
    }
    r
}

/// The breadcrumb path used when a symbolic link cannot be created:
/// the link path with `.link.txt` appended, e.g. `libfoo.so` becomes
/// `libfoo.so.link.txt`.
pub fn link_breadcrumb(link: &str) -> (r: String)
    ensures
        r@ == with_suffix(link@, ".link.txt"@),
{
    let mut r = string_of(&chars_of(link));
    if chars_of(link).len() > 0 {
        append_str(&mut r, ".link.txt");
    }
    r
}

/// Host filesystem naming rules for [`host_path_with`] validation.
#[derive(Debug, Clone, Copy, PartialEq, Eq, Structural)]
pub enum HostRules {
    /// Unix: every IRIX component is representable.
    Unix,
    /// Windows: reserved characters, device names and trailing dots or
    /// spaces are not.
    Windows,
}

/// A character Windows does not allow in a file name.
pub open spec fn windows_reserved_char(c: char) -> bool {
    c == '\u{3c}' || c == '\u{3e}' || c == ':' || c == '"' || c == '\\' || c == '|' || c == '?' || c == '*' || c < ' '
}

/// The upper-case form of an ASCII letter; other characters unchanged.
pub open spec fn ascii_upper(c: char) -> char {
    if 'a' <= c && c <= 'z' { ((c as u32) - 32) as char } else { c }
}

/// The Windows device names.
pub open spec fn device_names() -> Seq<Seq<char>> {
    seq![
        seq!['C', 'O', 'N'],
        seq!['P', 'R', 'N'],
        seq!['A', 'U', 'X'],
        seq!['N', 'U', 'L'],
        seq!['C', 'O', 'M', '1'],
        seq!['C', 'O', 'M', '2'],
        seq!['C', 'O', 'M', '3'],
        seq!['C', 'O', 'M', '4'],
        seq!['C', 'O', 'M', '5'],
        seq!['C', 'O', 'M', '6'],
        seq!['C', 'O', 'M', '7'],
        seq!['C', 'O', 'M', '8'],
        seq!['C', 'O', 'M', '9'],
        seq!['L', 'P', 'T', '1'],
        seq!['L', 'P', 'T', '2'],
        seq!['L', 'P', 'T', '3'],
        seq!['L', 'P', 'T', '4'],
        seq!['L', 'P', 'T', '5'],
        seq!['L', 'P', 'T', '6'],
        seq!['L', 'P', 'T', '7'],
        seq!['L', 'P', 'T', '8'],
        seq!['L', 'P', 'T', '9'],
    ]
}

/// Whether a path component is representable on the host: always on
/// Unix; on Windows without reserved characters, without a trailing dot
/// or space, and without a device name before its first dot.
pub open spec fn valid_component_spec(c: Seq<char>, rules: HostRules) -> bool {
    match rules {
        HostRules::Unix => true,
        HostRules::Windows => {
            &&& forall|k: int| 0 <= k < c.len() ==> !#[trigger] windows_reserved_char(c[k])
            &&& !(c.len() > 0 && (c.last() == '.' || c.last() == ' '))
            &&& !device_names().contains(split_on(c, '.')[0].map_values(|x: char| ascii_upper(x)))
        },
    }
}


/// Whether the characters are a Windows device name.
fn is_device_name(s: &[char]) -> (r: bool)
    ensures
        r == device_names().contains(s@),
{
    let r = crate::mach::chars_eq(s, &['C', 'O', 'N'])
        || crate::mach::chars_eq(s, &['P', 'R', 'N'])
        || crate::mach::chars_eq(s, &['A', 'U', 'X'])
        || crate::mach::chars_eq(s, &['N', 'U', 'L'])
        || crate::mach::chars_eq(s, &['C', 'O', 'M', '1'])
        || crate::mach::chars_eq(s, &['C', 'O', 'M', '2'])
        || crate::mach::chars_eq(s, &['C', 'O', 'M', '3'])
        || crate::mach::chars_eq(s, &['C', 'O', 'M', '4'])
        || crate::mach::chars_eq(s, &['C', 'O', 'M', '5'])
        || crate::mach::chars_eq(s, &['C', 'O', 'M', '6'])
        || crate::mach::chars_eq(s, &['C', 'O', 'M', '7'])
        || crate::mach::chars_eq(s, &['C', 'O', 'M', '8'])
        || crate::mach::chars_eq(s, &['C', 'O', 'M', '9'])
        || crate::mach::chars_eq(s, &['L', 'P', 'T', '1'])
        || crate::mach::chars_eq(s, &['L', 'P', 'T', '2'])
        || crate::mach::chars_eq(s, &['L', 'P', 'T', '3'])
        || crate::mach::chars_eq(s, &['L', 'P', 'T', '4'])
        || crate::mach::chars_eq(s, &['L', 'P', 'T', '5'])
        || crate::mach::chars_eq(s, &['L', 'P', 'T', '6'])
        || crate::mach::chars_eq(s, &['L', 'P', 'T', '7'])
        || crate::mach::chars_eq(s, &['L', 'P', 'T', '8'])
        || crate::mach::chars_eq(s, &['L', 'P', 'T', '9']);
    proof {
        let names = device_names();
        if r {
            assert(exists|i: int| 0 <= i < names.len() && names[i] == s@);
        } else {
            assert forall|i: int| 0 <= i < names.len() implies names[i] != s@ by {}
        }
    }
    r
}

/// Whether a path component is representable under the host rules.
pub fn valid_component(component: &str, rules: HostRules) -> (r: bool)
    ensures
        r == valid_component_spec(component@, rules),
{
    match rules {
        HostRules::Unix => true,
        HostRules::Windows => {
            let c = chars_of(component);
            let mut i: usize = 0;
            while i < c.len()
                invariant
                    i <= c.len(),
                    c@ == component@,
                    rules == HostRules::Windows,
                    forall|k: int| 0 <= k < i ==> !#[trigger] windows_reserved_char(c@[k]),
                decreases c.len() - i,
            {
                let x = c[i];
                if x == '\u{3c}' || x == '\u{3e}' || x == ':' || x == '"' || x == '\\' || x == '|' || x == '?' || x == '*' || ' ' > x {
                    assert(windows_reserved_char(component@[i as int]));

                    return false;
                }
                i += 1;
            }
            if c.len() > 0 && (c[c.len() - 1] == '.' || c[c.len() - 1] == ' ') {
                return false;
            }
            let parts = split_chars(&c, '.');
            proof {
                crate::text::lemma_split_on_shape(c@, '.');
            }
            let stem = &parts[0];
            let mut upper: Vec<char> = Vec::new();
            let mut k: usize = 0;
            while k < stem.len()
                invariant
                    k <= stem.len(),
                    upper@ == stem@.take(k as int).map_values(|x: char| ascii_upper(x)),
                decreases stem.len() - k,
            {
                let x = stem[k];
                let u = if 'a' <= x && x <= 'z' { ((x as u32) - 32) as u8 as char } else { x };
                upper.push(u);
                k += 1;
                assert(upper@ =~= stem@.take(k as int).map_values(|x: char| ascii_upper(x)));
            }
            assert(stem@.take(stem@.len() as int) == stem@);
            assert(crate::text::seqs_of(parts@)[0] == stem@);
            !is_device_name(&upper)
        },
    }
}

} // verus!

verus! {

/// The non-empty pieces, in order.
pub open spec fn non_empty_pieces(ps: Seq<Seq<char>>) -> Seq<Seq<char>>
    decreases ps.len(),
{
    if ps.len() == 0 {
        Seq::empty()
    } else {
        let rest = non_empty_pieces(ps.drop_last());
        if ps.last().len() == 0 { rest } else { rest.push(ps.last()) }
    }
}

/// The host-relative path of an IRIX path under the host rules: its
/// non-empty components joined with `/`; `None` when a component is not
/// representable.
pub open spec fn host_spec(s: Seq<char>, rules: HostRules) -> Option<Seq<char>> {
    let comps = non_empty_pieces(split_on(s, '/'));
    if forall|k: int| 0 <= k < comps.len() ==> #[trigger] valid_component_spec(comps[k], rules) {
        Some(join_on(comps, '/'))
    } else {
        None
    }
}

/// Converts a normalized IRIX path into a host-relative path, validating
/// every component against the given host filesystem's naming rules.
///
/// # Errors
///
/// Returns [`Error::UnsafePath`] if a component violates the host rules.
pub fn host_path_with(path: &IrixPath, rules: HostRules) -> (r: Result<String, Error>)
    ensures
        match host_spec(path@, rules) {
            Some(h) => r matches Ok(x) && x@ == h,
            None => r matches Err(Error::UnsafePath { .. }),
        },
{
    let v = chars_of(path.as_str());
    let parts = split_chars(&v, '/');
    let ghost ps = crate::text::seqs_of(parts@);
    let mut comps: Vec<Vec<char>> = Vec::new();
    let mut i: usize = 0;
    while i < parts.len()
        invariant
            i <= parts.len(),
            ps == crate::text::seqs_of(parts@),
            ps == split_on(path@, '/'),
            crate::text::seqs_of(comps@) == non_empty_pieces(ps.take(i as int)),
            forall|k: int| 0 <= k < comps@.len() ==> #[trigger] valid_component_spec(crate::text::seqs_of(comps@)[k], rules),
        decreases parts.len() - i,
    {
        let part = &parts[i];
        assert(ps.take(i + 1).drop_last() == ps.take(i as int));
        assert(ps.take(i + 1).last() == part@);
        if part.len() > 0 {
            let text = string_of(part);
            if !valid_component(text.as_str(), rules) {
                let mut message = path.to_string();
                append_str(&mut message, " (component ");
                push_debug(&mut message, text.as_str());
                append_str(&mut message, " is invalid on this host)");
                proof {
                    lemma_non_empty_contains(ps, i as int);
                }
                return Err(Error::UnsafePath { path: message });
            }
            let ghost old_comps = crate::text::seqs_of(comps@);
            comps.push(part.clone());
            assert(crate::text::seqs_of(comps@) =~= old_comps.push(part@));
        }
        i += 1;
    }
    assert(ps.take(parts.len() as int) == ps);
    let joined = crate::text::join_chars(&comps, '/');
    Ok(string_of(&joined))
}

/// A non-empty piece of a split is one of the non-empty pieces.
proof fn lemma_non_empty_contains(ps: Seq<Seq<char>>, i: int)
    requires
        0 <= i < ps.len(),
        ps[i].len() > 0,
    ensures
        non_empty_pieces(ps).contains(ps[i]),
    decreases ps.len(),
{
    if i < ps.len() - 1 {
        lemma_non_empty_contains(ps.drop_last(), i);
        let rest = non_empty_pieces(ps.drop_last());
        let w = choose|w: int| 0 <= w < rest.len() && rest[w] == ps[i];
        if ps.last().len() > 0 {
            assert(rest.push(ps.last())[w] == ps[i]);
        }
    } else {
        let rest = non_empty_pieces(ps.drop_last());
        assert(rest.push(ps.last())[rest.len() as int] == ps[i]);
    }
}

/// Converts a normalized IRIX path into a host-relative path under the
/// Unix naming rules, which represent every IRIX component.
///
/// # Errors
///
/// Returns [`Error::UnsafePath`] if a component violates the host rules.
pub fn host_path(path: &IrixPath) -> (r: Result<String, Error>)
    ensures
        match host_spec(path@, HostRules::Unix) {
            Some(h) => r matches Ok(x) && x@ == h,
            None => r matches Err(Error::UnsafePath { .. }),
        },
{
    host_path_with(path, HostRules::Unix)
}

/// Whether an entry is stored compressed: its `cmpsize` is non-zero.
pub open spec fn stored_compressed(e: Entry) -> bool {
    first_stored_size(e.attrs()) matches Some(c) && c > 0
}

/// The host-relative paths an extraction writes for an entry: `Some` of
/// the list (empty when the entry is skipped), `None` when the entry is
/// statically known to fail (a host path that cannot be represented, a
/// regular file without a payload that is not recorded as empty).
pub open spec fn outputs_spec(e: Entry, o: ExtractOptions) -> Option<Seq<Seq<char>>> {
    match resolved_spec(e.path@, o.path_mode) {
        None => Some(Seq::empty()),
        Some(rel) => match host_spec(rel, HostRules::Unix) {
            None => None,
            Some(t) => match e.file_type {
                FileType::Directory => Some(seq![t]),
                FileType::Regular => if e.payload is Some {
                    match o.decode {
                        DecodeMode::Auto => if o.keep_stored && stored_compressed(e) {
                            Some(seq![t, with_suffix(t, seq!['.', 'Z'])])
                        } else {
                            Some(seq![t])
                        },
                        DecodeMode::Never => if stored_compressed(e) {
                            Some(seq![with_suffix(t, seq!['.', 'Z'])])
                        } else {
                            Some(seq![t])
                        },
                    }
                } else if first_size(e.attrs()) == Some(0u64) && first_stored_size(e.attrs()) is None {
                    Some(seq![t])
                } else {
                    None
                },
                FileType::SymbolicLink => if first_symlink(e.attrs()) is None { Some(Seq::empty()) } else { Some(seq![t]) },
                _ => Some(Seq::empty()),
            },
        },
    }
}

/// The character sequences of a list of strings.
pub open spec fn paths_view(v: Seq<String>) -> Seq<Seq<char>> {
    v.map_values(|s: String| s@)
}

/// Projects an entry to the host-relative paths an extraction would
/// write for it under `options`, without writing anything.
///
/// An empty list means extraction would deliberately skip the entry:
/// excluded by the path mode, a device or FIFO, or a symbolic link
/// without a recorded target. Failures that are already known
/// statically — a host path that cannot be represented, a regular file
/// without a payload — are returned as errors, so a caller preflighting
/// with this projection fails before any bytes hit the disk.
///
/// # Errors
///
/// Returns [`Error::UnsafePath`] or [`Error::PayloadNotFound`] for
/// entries extraction is statically known to fail on.
pub fn output_paths(entry: &Entry, options: &ExtractOptions) -> (r: Result<Vec<String>, Error>)
    ensures
        match outputs_spec(*entry, *options) {
            Some(ps) => r matches Ok(v) && paths_view(v@) == ps,
            None => r matches Err(e) && (e is UnsafePath || e is PayloadNotFound),
        },
        outputs_spec(*entry, *options) is None ==> (resolved_spec(entry.path@, options.path_mode) matches Some(rel)
            && if host_spec(rel, HostRules::Unix) is None {
                r matches Err(Error::UnsafePath { .. })
            } else {
                r matches Err(Error::PayloadNotFound { entry: n }) && n@ == entry.path@
            }),
{
    let relative = match resolve_relative(entry, &options.path_mode) {
        Some(r) => r,
        None => {
            let v: Vec<String> = Vec::new();
            assert(paths_view(v@) =~= Seq::<Seq<char>>::empty());
            return Ok(v);
        },
    };
    let target = host_path(&relative)?;
    let mut v: Vec<String> = Vec::new();
    match entry.file_type {
        FileType::Directory => {
            v.push(target);
        },
        FileType::Regular => {
            let compressed = match entry.compressed_size() {
                Some(size) => size > 0,
                None => false,
            };
            if entry.payload.is_some() {
                match options.decode {
                    DecodeMode::Auto => {
                        let stored = stored_target(target.as_str());
                        v.push(target);
                        if options.keep_stored && compressed {
                            v.push(stored);
                        }
                    },
                    DecodeMode::Never => {
                        if compressed {
                            v.push(stored_target(target.as_str()));
                        } else {
                            v.push(target);
                        }
                    },
                }
            } else if entry.size() == Some(0u64) && entry.compressed_size().is_none() {
                v.push(target);
            } else {
                return Err(Error::PayloadNotFound { entry: entry.path.to_string() });
            }
        },
        FileType::SymbolicLink => {
            if entry.symlink_target().is_some() {
                v.push(target);
            }
        },
        _ => {},
    }
    assert(paths_view(v@) == outputs_spec(*entry, *options)->0);
    Ok(v)
}


/// A host filesystem operation an extraction asks for.
#[derive(Debug)]
pub enum HostWrite {
    /// Create a directory and its missing parents, then apply the mode.
    CreateDir {
        /// Host path of the directory.
        path: String,
        /// Permission bits from the entry.
        mode: u32,
    },
    /// Create the missing parent directories of a path.
    CreateParents {
        /// Host path whose parents are needed.
        path: String,
    },
    /// Write a regular file, then apply the mode. Under
    /// [`ExistingOutputPolicy::Refuse`] the file must not exist yet: the
    /// write fails instead of truncating it.
    WriteFile {
        /// Host path of the file.
        path: String,
        /// The file contents.
        bytes: Vec<u8>,
        /// Permission bits from the entry.
        mode: u32,
        /// How an existing file is treated.
        existing: ExistingOutputPolicy,
    },
    /// Recreate a symbolic link; where the host cannot create one, a
    /// breadcrumb file at [`link_breadcrumb`] of the link path holds the
    /// target instead. A link never replaces an existing path.
    Symlink {
        /// The recorded link target.
        target: String,
        /// Host path of the link.
        link: String,
        /// How an existing breadcrumb file is treated.
        existing: ExistingOutputPolicy,
    },
}

/// What extracting one entry did.
#[derive(Debug)]
pub enum ExtractOutcome {
    /// The entry was written, possibly after a payload recovery.
    Written(Option<ExtractRecovery>),
    /// The entry was deliberately not written.
    Skipped,
}

/// An entry an extraction deliberately does not write: the path mode
/// excludes it, or its host path is valid and it is a device, a FIFO,
/// an unknown kind, or a symbolic link without a recorded target.
pub open spec fn skipped_entry(e: Entry, o: ExtractOptions) -> bool {
    match resolved_spec(e.path@, o.path_mode) {
        None => true,
        Some(rel) => host_spec(rel, HostRules::Unix) is Some && match e.file_type {
            FileType::Directory => false,
            FileType::Regular => false,
            FileType::SymbolicLink => first_symlink(e.attrs()) is None,
            _ => true,
        },
    }
}

/// The host path an entry is written to below `out_dir`, when its path
/// mode keeps it and its host path is valid.
pub open spec fn target_of(e: Entry, out_dir: Seq<char>, o: ExtractOptions) -> Option<Seq<char>> {
    match resolved_spec(e.path@, o.path_mode) {
        None => None,
        Some(rel) => match host_spec(rel, HostRules::Unix) {
            Some(h) => Some(crate::distribution::joined(out_dir, h)),
            None => None,
        },
    }
}

/// Whether `write` carried out `op` successfully.
pub open spec fn wrote<W: Fn(HostWrite) -> Result<(), Error>>(write: W, op: HostWrite) -> bool {
    call_ensures(write, (op,), Ok::<(), Error>(()))
}

/// Whether an operation creates the directory `path` with `mode`.
pub open spec fn is_create_dir(op: HostWrite, path: Seq<char>, mode: u32) -> bool {
    match op {
        HostWrite::CreateDir { path: p, mode: m } => p@ == path && m == mode,
        _ => false,
    }
}

/// Whether an operation writes `bytes` to the file `path`.
pub open spec fn is_write_file(op: HostWrite, path: Seq<char>, bytes: Seq<u8>, mode: u32, existing: ExistingOutputPolicy) -> bool {
    match op {
        HostWrite::WriteFile { path: p, bytes: b, mode: m, existing: x } => p@ == path && b@ == bytes && m == mode && x == existing,
        _ => false,
    }
}

/// Whether an operation creates the parent directories of `path`.
pub open spec fn is_create_parents(op: HostWrite, path: Seq<char>) -> bool {
    match op {
        HostWrite::CreateParents { path: p } => p@ == path,
        _ => false,
    }
}

/// Whether an operation creates the symbolic link `link` to `target`.
pub open spec fn is_symlink(op: HostWrite, target: Seq<char>, link: Seq<char>, existing: ExistingOutputPolicy) -> bool {
    match op {
        HostWrite::Symlink { target: t, link: l, existing: x } => t@ == target && l@ == link && x == existing,
        _ => false,
    }
}

/// Whether `write` wrote `bytes` to the file `path`.
pub open spec fn file_written<W: Fn(HostWrite) -> Result<(), Error>>(write: W, path: Seq<char>, bytes: Seq<u8>, mode: u32, existing: ExistingOutputPolicy) -> bool {
    exists|op: HostWrite| #[trigger] wrote(write, op) && is_write_file(op, path, bytes, mode, existing)
}

/// The files a regular file's payload is written to: with decoding, the
/// decoded bytes at `target` (plus the stored bytes at `target.Z` when
/// kept); without, the stored bytes at `target.Z` when stored
/// compressed, else at `target`.
pub open spec fn payload_written<W: Fn(HostWrite) -> Result<(), Error>>(write: W, target: Seq<char>, p: Payload, mode: u32, o: ExtractOptions) -> bool {
    let stored = with_suffix(target, seq!['.', 'Z']);
    match o.decode {
        DecodeMode::Auto => {
            &&& p.stored_compressed ==> (crate::compress::decoded(p.bytes@) matches Some(d) && file_written(write, target, d, mode, o.existing_output))
            &&& !p.stored_compressed ==> file_written(write, target, p.bytes@, mode, o.existing_output)
            &&& o.keep_stored && p.stored_compressed ==> file_written(write, stored, p.bytes@, mode, o.existing_output)
        },
        DecodeMode::Never => if p.stored_compressed {
            file_written(write, stored, p.bytes@, mode, o.existing_output)
        } else {
            file_written(write, target, p.bytes@, mode, o.existing_output)
        },
    }
}

/// What a successful extraction of an entry wrote through `write`.
pub open spec fn entry_written<'a, W: Fn(HostWrite) -> Result<(), Error>>(
    write: W,
    reader: crate::image::reader::ImageReader<'a>,
    located: crate::distribution::LocatedEntry<'_>,
    out_dir: Seq<char>,
    o: ExtractOptions,
) -> bool {
    let e = *located.entry;
    let t = target_of(e, out_dir, o)->0;
    &&& target_of(e, out_dir, o) is Some
    &&& match e.file_type {
        FileType::Directory => exists|op: HostWrite| #[trigger] wrote(write, op) && is_create_dir(op, t, e.mode),
        FileType::Regular => if e.payload is Some {
            let ps = reader.distribution_spec().products_spec();
            let stored = ps[located.key.product_index as int].entries@[located.key.entry_id.0 as int];
            let img = crate::image::reader::attached_image(ps, located.key)->0;
            exists|p: Payload| crate::image::reader::payload_agrees(stored, p, reader.delta_spec(img.name@))
                && #[trigger] payload_written(write, t, p, e.mode, o)
        } else {
            file_written(write, t, Seq::empty(), e.mode, o.existing_output)
        },
        FileType::SymbolicLink => {
            &&& exists|op: HostWrite| #[trigger] wrote(write, op) && is_create_parents(op, t)
            &&& exists|op: HostWrite| #[trigger] wrote(write, op) && is_symlink(op, first_symlink(e.attrs())->0, t, o.existing_output)
        },
        _ => false,
    }
}

/// Whether the host operation `write` may have failed with `err`.
pub open spec fn write_failed<W: Fn(HostWrite) -> Result<(), Error>>(write: W, err: Error) -> bool {
    exists|op: HostWrite| #[trigger] write.ensures((op,), Err::<(), Error>(err))
}

/// Whether some archive read through `read` may have failed with `err`.
pub open spec fn read_error<F: Fn(&str, u64, usize) -> Result<Vec<u8>, Error>>(read: F, err: Error) -> bool {
    exists|a: &str, o: u64, n: usize| #[trigger] crate::image::resync::read_gave(read, a, o, n, Err(err))
}

/// The errors extracting entry `e` can end in: its host path cannot be
/// represented, a regular file has no payload and is not empty, reading
/// or decoding its payload failed, or a host operation failed.
pub open spec fn extract_error<F: Fn(&str, u64, usize) -> Result<Vec<u8>, Error>, W: Fn(HostWrite) -> Result<(), Error>>(
    read: F,
    write: W,
    e: Entry,
    o: ExtractOptions,
    err: Error,
) -> bool {
    match resolved_spec(e.path@, o.path_mode) {
        None => false,
        Some(rel) => if host_spec(rel, HostRules::Unix) is None {
            err is UnsafePath
        } else {
            ||| write_failed(write, err)
            ||| (e.file_type == FileType::Regular && e.payload is None
                && !(first_size(e.attrs()) == Some(0u64) && first_stored_size(e.attrs()) is None)
                && (err matches Error::PayloadNotFound { entry } && entry@ == e.path@))
            ||| (e.file_type == FileType::Regular && e.payload is Some && {
                ||| read_error(read, err)
                ||| err is EntryNotFound
                ||| err is PayloadNotFound
                ||| err is PayloadSizeUnknown
                ||| err is ResyncFailed
                ||| err is AmbiguousPayloadRecord
                ||| err is Compress
            })
        },
    }
}

/// Performs one host operation.
fn perform<W: Fn(HostWrite) -> Result<(), Error>>(write: &W, op: HostWrite) -> (r: Result<(), Error>)
    requires
        write.requires((op,)),
    ensures
        match r {
            Ok(()) => wrote(*write, op),
            Err(e) => write_failed(*write, e),
        },
{
    let ghost g = op;
    match write(op) {
        Ok(u) => {
            assert(call_ensures(*write, (g,), Ok::<(), Error>(u)));
            assert(wrote(*write, g));
            Ok(())
        },
        Err(e) => {
            assert(write.ensures((g,), Err::<(), Error>(e)));
            Err(e)
        },
    }
}

/// Extracts one entry below `out_dir`, performing its host operations
/// through `write`.
///
/// Directories are created, regular files are written (decoding `.Z`
/// payloads according to [`ExtractOptions::decode`]), and symbolic links
/// are recreated. A payload that was not found exactly at its expected
/// offset is reported as a recovery.
pub fn extract_one<'a, F: Fn(&str, u64, usize) -> Result<Vec<u8>, Error>, W: Fn(HostWrite) -> Result<(), Error>>(
    reader: &mut crate::image::reader::ImageReader<'a>,
    read: &F,
    write: &W,
    located: crate::distribution::LocatedEntry<'_>,
    out_dir: &str,
    options: &ExtractOptions,
) -> (r: Result<ExtractOutcome, Error>)
    requires
        crate::image::resync::reads_exactly(*read),
        forall|op: HostWrite| #[trigger] write.requires((op,)),
    ensures
        skipped_entry(*located.entry, *options) <==> r matches Ok(ExtractOutcome::Skipped),
        r matches Ok(ExtractOutcome::Written(Some(rec))) ==> rec.path@ == located.entry.path@
            && rec.resolution != PayloadResolution::Exact,
        r matches Ok(ExtractOutcome::Written(_)) ==> entry_written(*write, *old(reader), located, out_dir@, *options),
        final(reader).distribution_spec() == old(reader).distribution_spec(),
        r matches Err(err) ==> extract_error(*read, *write, *located.entry, *options, err),
        (resolved_spec(located.entry.path@, options.path_mode) matches Some(rel) && host_spec(rel, HostRules::Unix) is None)
            ==> r matches Err(Error::UnsafePath { .. }),
{
    let entry = located.entry;
    let relative = match resolve_relative(entry, &options.path_mode) {
        Some(r) => r,
        None => {
            return Ok(ExtractOutcome::Skipped);
        },
    };
    let host = match host_path(&relative) {
        Ok(h) => h,
        Err(e) => {
            return Err(e);
        },
    };
    let target = crate::distribution::join_path(out_dir, host.as_str());
    match entry.file_type {
        FileType::Directory => {
            let op = HostWrite::CreateDir { path: target, mode: entry.mode };
            let ghost g = op;
            match perform(write, op) {
                Ok(()) => {},
                Err(e) => {
                    return Err(e);
                },
            }
            assert(wrote(*write, g) && is_create_dir(g, target_of(*entry, out_dir@, *options)->0, entry.mode));
            Ok(ExtractOutcome::Written(None))
        },
        FileType::Regular => {
            match perform(write, HostWrite::CreateParents { path: target.clone() }) {
                Ok(()) => {},
                Err(e) => {
                    return Err(e);
                },
            }
            if entry.payload.is_some() {
                let payload = match reader.read(located.key, read) {
                    Ok(p) => p,
                    Err(e) => {
                        proof {
                            let ps = old(reader).distribution_spec().products_spec();
                            let img = crate::image::reader::attached_image(ps, located.key)->0;
                            if crate::image::reader::read_failed(*read, img.archive.path@, e) {
                                assert(read_error(*read, e));
                            }
                        }
                        return Err(e);
                    },
                };
                let recovery = if payload.location.resolution != PayloadResolution::Exact {
                    Some(ExtractRecovery {
                        path: entry.path.to_string(),
                        expected_record_offset: payload.location.expected_record_offset,
                        actual_record_offset: payload.location.actual_record_offset,
                        resolution: payload.location.resolution,
                    })
                } else {
                    None
                };
                let ghost t = target@;
                let ghost p = payload;
                proof {
                    let ps = old(reader).distribution_spec().products_spec();
                    let stored_entry = ps[located.key.product_index as int].entries@[located.key.entry_id.0 as int];
                    let img = crate::image::reader::attached_image(ps, located.key)->0;
                    assert(crate::image::reader::payload_agrees(stored_entry, p, old(reader).delta_spec(img.name@)));
                    assert(t == target_of(*entry, out_dir@, *options)->0);
                }
                match options.decode {
                    DecodeMode::Auto => {
                        let decoded = match payload.decode() {
                            Ok(d) => d,
                            Err(e) => {
                                return Err(e);
                            },
                        };
                        let stored = stored_target(target.as_str());
                        let op = HostWrite::WriteFile { path: target, bytes: decoded, mode: entry.mode, existing: options.existing_output };
                        let ghost g = op;
                        match perform(write, op) {
                Ok(()) => {},
                Err(e) => {
                    return Err(e);
                },
            }
                        assert(wrote(*write, g) && is_write_file(g, t, decoded@, entry.mode, options.existing_output));
                        if options.keep_stored && payload.stored_compressed {
                            let op2 = HostWrite::WriteFile { path: stored, bytes: payload.bytes, mode: entry.mode, existing: options.existing_output };
                            let ghost g2 = op2;
                            match perform(write, op2) {
                Ok(()) => {},
                Err(e) => {
                    return Err(e);
                },
            }
                            assert(wrote(*write, g2) && is_write_file(g2, with_suffix(t, seq!['.', 'Z']), p.bytes@, entry.mode, options.existing_output));
                        }
                    },
                    DecodeMode::Never => {
                        if payload.stored_compressed {
                            let stored = stored_target(target.as_str());
                            let op = HostWrite::WriteFile { path: stored, bytes: payload.bytes, mode: entry.mode, existing: options.existing_output };
                            let ghost g = op;
                            match perform(write, op) {
                Ok(()) => {},
                Err(e) => {
                    return Err(e);
                },
            }
                            assert(wrote(*write, g) && is_write_file(g, with_suffix(t, seq!['.', 'Z']), p.bytes@, entry.mode, options.existing_output));
                        } else {
                            let op = HostWrite::WriteFile { path: target, bytes: payload.bytes, mode: entry.mode, existing: options.existing_output };
                            let ghost g = op;
                            match perform(write, op) {
                Ok(()) => {},
                Err(e) => {
                    return Err(e);
                },
            }
                            assert(wrote(*write, g) && is_write_file(g, t, p.bytes@, entry.mode, options.existing_output));
                        }
                    },
                }
                assert(payload_written(*write, t, p, entry.mode, *options));
                Ok(ExtractOutcome::Written(recovery))
            } else if entry.size() == Some(0u64) && entry.compressed_size().is_none() {
                let ghost t = target@;
                let op = HostWrite::WriteFile { path: target, bytes: Vec::new(), mode: entry.mode, existing: options.existing_output };
                let ghost g = op;
                match perform(write, op) {
                Ok(()) => {},
                Err(e) => {
                    return Err(e);
                },
            }
                assert(wrote(*write, g) && is_write_file(g, t, Seq::empty(), entry.mode, options.existing_output));
                Ok(ExtractOutcome::Written(None))
            } else {
                Err(Error::PayloadNotFound { entry: entry.path.to_string() })
            }
        },
        FileType::SymbolicLink => {
            let link_target = match entry.symlink_target() {
                Some(t) => t,
                None => {
                    return Ok(ExtractOutcome::Skipped);
                },
            };
            let ghost t = target@;
            let op = HostWrite::CreateParents { path: target.clone() };
            let ghost g = op;
            match perform(write, op) {
                Ok(()) => {},
                Err(e) => {
                    return Err(e);
                },
            }
            assert(wrote(*write, g) && is_create_parents(g, t));
            let op2 = HostWrite::Symlink {
                target: string_of(&chars_of(link_target)),
                link: target,
                existing: options.existing_output,
            };
            let ghost g2 = op2;
            match perform(write, op2) {
                Ok(()) => {},
                Err(e) => {
                    return Err(e);
                },
            }
            assert(wrote(*write, g2) && is_symlink(g2, first_symlink(entry.attrs())->0, t, options.existing_output));
            Ok(ExtractOutcome::Written(None))
        },
        _ => Ok(ExtractOutcome::Skipped),
    }
}

/// The number of entries among the first `n` that an extraction skips.
pub open spec fn skipped_count<'a>(es: Seq<crate::distribution::LocatedEntry<'a>>, o: ExtractOptions, n: int) -> nat
    decreases n,
{
    if n <= 0 {
        0
    } else {
        skipped_count(es, o, n - 1) + if skipped_entry(*es[n - 1].entry, o) { 1nat } else { 0nat }
    }
}

/// Every failure names the path of one of the entries.
pub open spec fn failures_name_entries<'a>(fs: Seq<ExtractFailure>, es: Seq<crate::distribution::LocatedEntry<'a>>) -> bool {
    forall|q: int| 0 <= q < fs.len() ==> exists|k: int| 0 <= k < es.len()
        && (#[trigger] fs[q]).path@ == (#[trigger] es[k]).entry.path@
}

/// How extracting each of a run's entries ended, in order: `Ok(true)`
/// written, `Ok(false)` skipped, `Err(e)` failed with `e`. Each written
/// entry was written as [`entry_written`] says (by a reader over the same
/// distribution), each skipped one is one [`skipped_entry`] names, and
/// each error is one its extraction can end in.
pub open spec fn outcomes_hold<'a, F: Fn(&str, u64, usize) -> Result<Vec<u8>, Error>, W: Fn(HostWrite) -> Result<(), Error>>(
    read: F,
    write: W,
    start: crate::image::reader::ImageReader<'a>,
    entries: Seq<crate::distribution::LocatedEntry<'_>>,
    out_dir: Seq<char>,
    o: ExtractOptions,
    outs: Seq<Result<bool, Error>>,
) -> bool {
    &&& outs.len() <= entries.len()
    &&& forall|k: int| 0 <= k < outs.len() ==> match #[trigger] outs[k] {
        Ok(true) => exists|rd: crate::image::reader::ImageReader<'a>| rd.distribution_spec() == start.distribution_spec()
            && #[trigger] entry_written(write, rd, entries[k], out_dir, o),
        Ok(false) => skipped_entry(*entries[k].entry, o),
        Err(e) => extract_error(read, write, *entries[k].entry, o, e),
    }
}

/// How many of the first `n` outcomes are writes.
pub open spec fn written_count(outs: Seq<Result<bool, Error>>, n: int) -> nat
    decreases n,
{
    if n <= 0 {
        0
    } else {
        written_count(outs, n - 1) + if outs[n - 1] == Ok::<bool, Error>(true) { 1nat } else { 0nat }
    }
}

/// The failures among the first `n` outcomes: the entry's path and the
/// error's text.
pub open spec fn failures_of<'a>(entries: Seq<crate::distribution::LocatedEntry<'a>>, outs: Seq<Result<bool, Error>>, n: int) -> Seq<(Seq<char>, Seq<char>)>
    decreases n,
{
    if n <= 0 {
        Seq::empty()
    } else {
        let rest = failures_of(entries, outs, n - 1);
        match outs[n - 1] {
            Err(e) => rest.push((entries[n - 1].entry.path@, crate::error::error_text(e))),
            Ok(_) => rest,
        }
    }
}

/// Failures as paths and messages.
pub open spec fn failures_view(fs: Seq<ExtractFailure>) -> Seq<(Seq<char>, Seq<char>)> {
    fs.map_values(|f: ExtractFailure| (f.path@, f.message@))
}

/// Changing the outcome after the first `n` leaves the counts over the
/// first `n` unchanged.
proof fn lemma_outcome_prefix<'a>(es: Seq<crate::distribution::LocatedEntry<'a>>, outs: Seq<Result<bool, Error>>, out: Result<bool, Error>, n: int)
    requires
        0 <= n <= outs.len(),
    ensures
        written_count(outs.push(out), n) == written_count(outs, n),
        failures_of(es, outs.push(out), n) == failures_of(es, outs, n),
    decreases n,
{
    if n > 0 {
        lemma_outcome_prefix(es, outs, out, n - 1);
        assert(outs.push(out)[n - 1] == outs[n - 1]);
    }
}

/// Extracts entries below `out_dir`, in order, performing the host
/// operations through `write`.
///
/// Every entry is counted once: as extracted, skipped or failed. After
/// a failure the run goes on only with
/// [`ExtractOptions::continue_on_error`]; then every entry is counted,
/// and the skipped ones are exactly those [`skipped_entry`] names.
/// Callers that need the fail-safe checks (ambiguity, collisions,
/// existing output classification) should plan first with
/// [`crate::plan::plan_extraction`].
pub fn extract<'a, F: Fn(&str, u64, usize) -> Result<Vec<u8>, Error>, W: Fn(HostWrite) -> Result<(), Error>>(
    reader: &mut crate::image::reader::ImageReader<'a>,
    read: &F,
    write: &W,
    entries: &[crate::distribution::LocatedEntry<'_>],
    out_dir: &str,
    options: &ExtractOptions,
) -> (r: ExtractReport)
    requires
        crate::image::resync::reads_exactly(*read),
        forall|op: HostWrite| #[trigger] write.requires((op,)),
    ensures
        r.extracted + r.skipped + r.failures@.len() <= entries@.len(),
        r.recoveries@.len() <= r.extracted,
        options.continue_on_error ==> r.extracted + r.skipped + r.failures@.len() == entries@.len()
            && r.skipped == skipped_count(entries@, *options, entries@.len() as int),
        !options.continue_on_error ==> r.failures@.len() <= 1
            && (r.failures@.len() == 0 ==> r.extracted + r.skipped == entries@.len()),
        failures_name_entries(r.failures@, entries@),
        final(reader).distribution_spec() == old(reader).distribution_spec(),
        exists|outs: Seq<Result<bool, Error>>| #[trigger] outcomes_hold(*read, *write, *old(reader), entries@, out_dir@, *options, outs)
            && r.extracted == written_count(outs, outs.len() as int)
            && failures_view(r.failures@) == failures_of(entries@, outs, outs.len() as int)
            && (options.continue_on_error || r.failures@.len() == 0 ==> outs.len() == entries@.len()),
{
    let mut report = ExtractReport { extracted: 0, skipped: 0, failures: Vec::new(), recoveries: Vec::new() };
    let ghost mut outs: Seq<Result<bool, Error>> = Seq::empty();
    let ghost start = *reader;
    let mut i: usize = 0;
    while i < entries.len()
        invariant_except_break
            !options.continue_on_error ==> report.failures@.len() == 0,
        invariant
            i <= entries.len(),
            crate::image::resync::reads_exactly(*read),
            forall|op: HostWrite| #[trigger] write.requires((op,)),
            report.extracted + report.skipped + report.failures@.len() == i,
            report.recoveries@.len() <= report.extracted,
            options.continue_on_error ==> report.skipped == skipped_count(entries@, *options, i as int),
            failures_name_entries(report.failures@, entries@),
            reader.distribution_spec() == old(reader).distribution_spec(),
            start == *old(reader),
            outs.len() == i,
            outcomes_hold(*read, *write, start, entries@, out_dir@, *options, outs),
            report.extracted == written_count(outs, i as int),
            failures_view(report.failures@) == failures_of(entries@, outs, i as int),
        ensures
            i <= entries.len(),
            outs.len() == i,
            outcomes_hold(*read, *write, start, entries@, out_dir@, *options, outs),
            report.extracted == written_count(outs, i as int),
            failures_view(report.failures@) == failures_of(entries@, outs, i as int),
            failures_name_entries(report.failures@, entries@),
            options.continue_on_error ==> i == entries.len(),
            !options.continue_on_error ==> report.failures@.len() <= 1
                && (report.failures@.len() == 0 ==> i == entries.len()),
        decreases entries.len() - i,
    {
        let located = entries[i];
        let ghost before = *reader;
        let ghost fails = report.failures@;
        let result = extract_one(reader, read, write, located, out_dir, options);
        let ghost out: Result<bool, Error> = if result is Err {
            Err(result->Err_0)
        } else {
            Ok(result->Ok_0 is Written)
        };
        proof {
            let prev = outs;
            outs = outs.push(out);
            assert(outs[i as int] == out);
            assert forall|k: int| 0 <= k < outs.len() implies match #[trigger] outs[k] {
                Ok(true) => exists|rd: crate::image::reader::ImageReader<'a>| rd.distribution_spec() == start.distribution_spec()
                    && #[trigger] entry_written(*write, rd, entries@[k], out_dir@, *options),
                Ok(false) => skipped_entry(*entries@[k].entry, *options),
                Err(e) => extract_error(*read, *write, *entries@[k].entry, *options, e),
            } by {
                if k < i {
                    assert(outs[k] == prev[k]);
                } else {
                    assert(entries@[k] == located);
                    if out == Ok::<bool, Error>(true) {
                        assert(entry_written(*write, before, located, out_dir@, *options));
                    }
                }
            }
            assert(outs.take(i as int) =~= prev);
            assert(written_count(outs, i as int) == written_count(prev, i as int)) by {
                lemma_outcome_prefix(entries@, prev, out, i as int);
            }
            assert(failures_of(entries@, outs, i as int) == failures_of(entries@, prev, i as int)) by {
                lemma_outcome_prefix(entries@, prev, out, i as int);
            }
        }
        match result {
            Ok(ExtractOutcome::Written(recovery)) => {
                report.extracted = report.extracted + 1;
                match recovery {
                    Some(rec) => report.recoveries.push(rec),
                    None => {},
                }
            },
            Ok(ExtractOutcome::Skipped) => {
                report.skipped = report.skipped + 1;
            },
            Err(error) => {
                let path = located.entry.path.to_string();
                assert(path@ == entries@[i as int].entry.path@);
                let message = error.to_string();
                report.failures.push(ExtractFailure { path, message });
                assert(failures_view(report.failures@) =~= failures_view(fails).push((path@, message@)));
                if !options.continue_on_error {
                    i += 1;
                    break;
                }
            },
        }
        i += 1;
    }
    report
}

} // verus!
