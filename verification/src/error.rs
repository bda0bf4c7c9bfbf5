//! Structured error type for all fallible operations of the library.
use vstd::prelude::*;
use crate::text::{append_str, decimal, decimal_spec, debug_spec, push_debug};

verus! {

/// Errors produced by the library.
///
/// Non-fatal problems (a single malformed IDB line, an undecoded
/// descriptor body, ...) are reported through
/// [`crate::diagnostic::Diagnostic`] instead of aborting the whole
/// operation. Host paths are carried as text.
#[derive(Debug, Clone, PartialEq, Eq)]
pub enum Error {
    /// An underlying I/O operation failed.
    Io {
        /// Path of the file being accessed.
        path: String,
        /// Description of the I/O failure.
        message: String,
    },
    /// The given path is not a readable SGI distribution directory.
    NotADistribution {
        /// Path that failed the check.
        path: String,
    },
    /// A product with the requested name does not exist.
    ProductNotFound {
        /// Requested product name.
        name: String,
    },
    /// An IDB line could not be parsed at all.
    IdbSyntax {
        /// IDB file containing the bad line.
        path: String,
        /// 1-based line number.
        line: usize,
        /// Human-readable description.
        message: String,
    },
    /// A `mach` hardware expression is malformed.
    MachSyntax {
        /// The raw expression text.
        raw: String,
        /// Human-readable description.
        message: String,
    },
    /// A product descriptor file is malformed or unreadable.
    Descriptor {
        /// Descriptor file path.
        path: String,
        /// Human-readable description.
        message: String,
    },
    /// An image archive header is malformed.
    ImageFormat {
        /// Archive file path.
        path: String,
        /// Human-readable description.
        message: String,
    },
    /// An entry has no payload locator, so its bytes cannot be read.
    PayloadNotFound {
        /// Entry path.
        entry: String,
    },
    /// The stored size of a payload is unknown.
    PayloadSizeUnknown {
        /// Entry path.
        entry: String,
    },
    /// The payload record could not be found in the image archive.
    ResyncFailed {
        /// Entry path.
        entry: String,
    },
    /// Several equally plausible payload records were found.
    AmbiguousPayloadRecord {
        /// Entry path.
        entry: String,
        /// Offsets of the equally scored candidates.
        candidates: Vec<u64>,
    },
    /// A `.Z` (Unix compress / LZW) stream is malformed.
    Compress {
        /// Human-readable description.
        message: String,
    },
    /// A path from the distribution cannot be represented safely.
    UnsafePath {
        /// The offending path.
        path: String,
    },
    /// An extraction plan refused to run.
    ExtractionPlan {
        /// Human-readable description of the refusal.
        message: String,
    },
    /// An entry key does not resolve in the distribution it was used
    /// with.
    EntryNotFound {
        /// The unresolved key.
        key: crate::distribution::EntryKey,
    },
}

/// `[a, b, ...]`, as `{:?}` writes a list of integers.
pub open spec fn list_body(v: Seq<u64>) -> Seq<char>
    decreases v.len(),
{
    if v.len() == 0 {
        Seq::<char>::empty()
    } else if v.len() == 1 {
        decimal_spec(v[0] as nat)
    } else {
        list_body(v.drop_last()) + ", "@ + decimal_spec(v.last() as nat)
    }
}

/// The text of an error, as it is reported to users.
pub open spec fn error_text(e: Error) -> Seq<char> {
    match e {
        Error::Io { path, message } => "I/O error on "@ + path@ + ": "@ + message@,
        Error::NotADistribution { path } => "not a distribution directory: "@ + path@,
        Error::ProductNotFound { name } => "product not found: "@ + name@,
        Error::IdbSyntax { path, line, message } => "IDB syntax error in "@ + path@ + " line "@
            + decimal_spec(line as nat) + ": "@ + message@,
        Error::MachSyntax { raw, message } => "mach expression syntax error in "@ + debug_spec(raw@)
            + ": "@ + message@,
        Error::Descriptor { path, message } => "descriptor error in "@ + path@ + ": "@ + message@,
        Error::ImageFormat { path, message } => "invalid image archive header in "@ + path@ + ": "@
            + message@,
        Error::PayloadNotFound { entry } => "entry has no payload: "@ + entry@,
        Error::PayloadSizeUnknown { entry } => "stored payload size is unknown: "@ + entry@,
        Error::ResyncFailed { entry } => "payload record not found for "@ + entry@,
        Error::AmbiguousPayloadRecord { entry, candidates } => "ambiguous payload record for "@
            + entry@ + ": candidates at ["@ + list_body(candidates@) + "]"@,
        Error::Compress { message } => "compress stream error: "@ + message@,
        Error::UnsafePath { path } => "unsafe or invalid path: "@ + path@,
        Error::ExtractionPlan { message } => message@,
        Error::EntryNotFound { key } => "entry not found: product "@ + decimal_spec(key.product_index as nat)
            + ", entry "@ + decimal_spec(key.entry_id.0 as nat),
    }
}

impl Error {
    /// The error's text, as it is reported to users.
    pub fn to_string(&self) -> (r: String)
        ensures
            r@ == error_text(*self),
    {
        let mut r = String::new();
        match self {
            Error::Io { path, message } => {
                append_str(&mut r, "I/O error on ");
                append_str(&mut r, path.as_str());
                append_str(&mut r, ": ");
                append_str(&mut r, message.as_str());
            },
            Error::NotADistribution { path } => {
                append_str(&mut r, "not a distribution directory: ");
                append_str(&mut r, path.as_str());
            },
            Error::ProductNotFound { name } => {
                append_str(&mut r, "product not found: ");
                append_str(&mut r, name.as_str());
            },
            Error::IdbSyntax { path, line, message } => {
                append_str(&mut r, "IDB syntax error in ");
                append_str(&mut r, path.as_str());
                append_str(&mut r, " line ");
                append_str(&mut r, decimal(*line as u64).as_str());
                append_str(&mut r, ": ");
                append_str(&mut r, message.as_str());
            },
            Error::MachSyntax { raw, message } => {
                append_str(&mut r, "mach expression syntax error in ");
                push_debug(&mut r, raw.as_str());
                append_str(&mut r, ": ");
                append_str(&mut r, message.as_str());
            },
            Error::Descriptor { path, message } => {
                append_str(&mut r, "descriptor error in ");
                append_str(&mut r, path.as_str());
                append_str(&mut r, ": ");
                append_str(&mut r, message.as_str());
            },
            Error::ImageFormat { path, message } => {
                append_str(&mut r, "invalid image archive header in ");
                append_str(&mut r, path.as_str());
                append_str(&mut r, ": ");
                append_str(&mut r, message.as_str());
            },
            Error::PayloadNotFound { entry } => {
                append_str(&mut r, "entry has no payload: ");
                append_str(&mut r, entry.as_str());
            },
            Error::PayloadSizeUnknown { entry } => {
                append_str(&mut r, "stored payload size is unknown: ");
                append_str(&mut r, entry.as_str());
            },
            Error::ResyncFailed { entry } => {
                append_str(&mut r, "payload record not found for ");
                append_str(&mut r, entry.as_str());
            },
            Error::AmbiguousPayloadRecord { entry, candidates } => {
                append_str(&mut r, "ambiguous payload record for ");
                append_str(&mut r, entry.as_str());
                append_str(&mut r, ": candidates at [");
                let mut i: usize = 0;
                let ghost head = r@;
                while i < candidates.len()
                    invariant
                        i <= candidates.len(),
                        r@ == head + list_body(candidates@.take(i as int)),
                    decreases candidates.len() - i,
                {
                    assert(candidates@.take(i + 1).drop_last() == candidates@.take(i as int));
                    if i > 0 {
                        append_str(&mut r, ", ");
                    }
                    append_str(&mut r, decimal(candidates[i]).as_str());
                    i += 1;
                    assert(r@ =~= head + list_body(candidates@.take(i as int)));
                }
                assert(candidates@.take(candidates.len() as int) == candidates@);
                append_str(&mut r, "]");
            },
            Error::Compress { message } => {
                append_str(&mut r, "compress stream error: ");
                append_str(&mut r, message.as_str());
            },
            Error::UnsafePath { path } => {
                append_str(&mut r, "unsafe or invalid path: ");
                append_str(&mut r, path.as_str());
            },
            Error::ExtractionPlan { message } => {
                append_str(&mut r, message.as_str());
            },
            Error::EntryNotFound { key } => {
                append_str(&mut r, "entry not found: product ");
                append_str(&mut r, decimal(key.product_index as u64).as_str());
                append_str(&mut r, ", entry ");
                append_str(&mut r, decimal(key.entry_id.0 as u64).as_str());
            },
        }
        r
    }

    /// Builds the I/O error variant.
    pub fn io(path: String, message: String) -> (e: Error)
        ensures
            e == (Error::Io { path, message }),
    {
        Error::Io { path, message }
    }
}

} // verus!
