//! The product installation database (IDB).
//!
//! Each line of a `product.idb` file describes one filesystem object:
//!
//! ```text
//! f 0755 root sys .cshrc work/irix/cmd/adm/root.cshrc eoe1.sw.unix sum(61435) size(601) cmpsize(465)
//! ```
//!
//! The fields are: entry type, octal mode, owner, group, destination
//! path, source path, subsystem, and a free-form attribute list parsed by
//! [`attribute`].
pub mod attribute;
pub mod parser;

use vstd::prelude::*;
use crate::idb::attribute::{attr_view, attrs_view, config_text, AttrSpec, ConfigMode, IdbAttribute};
use crate::image::PayloadLocator;
use crate::mach::HardwareExpr;
use crate::names::SubsystemName;
use crate::path::IrixPath;

verus! {

/// Stable identifier of an [`Entry`] within its product.
///
/// Subsystems reference entries through `EntryId` instead of copying
/// them; all entries live in the product's entry list.
#[derive(Debug, Clone, Copy, PartialEq, Eq, Structural, Hash, PartialOrd, Ord)]
pub struct EntryId(pub usize);

/// The kind of filesystem object an IDB record describes.
#[derive(Debug, Clone, Copy, PartialEq, Eq, Structural)]
pub enum FileType {
    /// `f` — a regular file.
    Regular,
    /// `d` — a directory.
    Directory,
    /// `l` — a symbolic link.
    SymbolicLink,
    /// `b` — a block special device.
    BlockDevice,
    /// `c` — a character special device.
    CharacterDevice,
    /// `p` — a named pipe (FIFO).
    Fifo,
    /// Any other type letter, preserved for forward compatibility.
    Unknown(char),
}

/// The file type an IDB type letter stands for.
pub open spec fn file_type_of(letter: char) -> FileType {
    if letter == 'f' {
        FileType::Regular
    } else if letter == 'd' {
        FileType::Directory
    } else if letter == 'l' {
        FileType::SymbolicLink
    } else if letter == 'b' {
        FileType::BlockDevice
    } else if letter == 'c' {
        FileType::CharacterDevice
    } else if letter == 'p' {
        FileType::Fifo
    } else {
        FileType::Unknown(letter)
    }
}

impl FileType {
    /// Maps an IDB type letter to a file type.
    pub fn from_letter(letter: char) -> (r: Self)
        ensures
            r == file_type_of(letter),
    {
        match letter {
            'f' => FileType::Regular,
            'd' => FileType::Directory,
            'l' => FileType::SymbolicLink,
            'b' => FileType::BlockDevice,
            'c' => FileType::CharacterDevice,
            'p' => FileType::Fifo,
            other => FileType::Unknown(other),
        }
    }
}

/// Where an entry came from, for diagnostics and format research.
#[derive(Debug, Clone, PartialEq, Eq)]
pub struct EntryOrigin {
    /// The IDB file the entry was parsed from.
    pub idb_path: String,
    /// 1-based line number within that file.
    pub line_number: usize,
    /// The line as written, Latin-1 decoded.
    pub raw_line: String,
}

/// One IDB record: a file, directory, link or similar object.
#[derive(Debug)]
pub struct Entry {
    /// Stable identifier within the owning product.
    pub id: EntryId,
    /// Kind of filesystem object.
    pub file_type: FileType,
    /// Permission bits, parsed from the octal IDB field.
    pub mode: u32,
    /// Owner name, e.g. `root`.
    pub owner: String,
    /// Group name, e.g. `sys`.
    pub group: String,
    /// Normalized destination path, used for browsing and safe
    /// extraction.
    pub path: IrixPath,
    /// Destination path exactly as written in the IDB, used for image
    /// record matching.
    pub raw_path: String,
    /// Build-tree source path recorded by `gendist`.
    pub source_path: String,
    /// The subsystem this entry belongs to.
    pub subsystem: SubsystemName,
    /// Ordered attribute list; the lossless source of truth.
    pub attributes: Vec<IdbAttribute>,
    /// Where the entry's bytes live in its image archive, if it carries
    /// payload data.
    pub payload: Option<PayloadLocator>,
    /// Parse origin of this entry.
    pub origin: EntryOrigin,
}

/// The first `size(...)` value of an attribute list.
pub open spec fn first_size(v: Seq<AttrSpec>) -> Option<u64>
    decreases v.len(),
{
    if v.len() == 0 {
        None
    } else {
        match v[0] {
            AttrSpec::Size(n) => Some(n),
            _ => first_size(v.skip(1)),
        }
    }
}

/// The first `cmpsize(...)` value of an attribute list.
pub open spec fn first_stored_size(v: Seq<AttrSpec>) -> Option<u64>
    decreases v.len(),
{
    if v.len() == 0 {
        None
    } else {
        match v[0] {
            AttrSpec::CompressedSize(n) => Some(n),
            _ => first_stored_size(v.skip(1)),
        }
    }
}

/// The first `symval(...)` target of an attribute list.
pub open spec fn first_symlink(v: Seq<AttrSpec>) -> Option<Seq<char>>
    decreases v.len(),
{
    if v.len() == 0 {
        None
    } else {
        match v[0] {
            AttrSpec::SymlinkValue(t) => Some(t),
            _ => first_symlink(v.skip(1)),
        }
    }
}

/// The first `dev(...)` numbers of an attribute list.
pub open spec fn first_device(v: Seq<AttrSpec>) -> Option<(u32, u32)>
    decreases v.len(),
{
    if v.len() == 0 {
        None
    } else {
        match v[0] {
            AttrSpec::Device(major, minor) => Some((major, minor)),
            _ => first_device(v.skip(1)),
        }
    }
}

/// The first `config(...)` mode text of an attribute list.
pub open spec fn first_config(v: Seq<AttrSpec>) -> Option<Seq<char>>
    decreases v.len(),
{
    if v.len() == 0 {
        None
    } else {
        match v[0] {
            AttrSpec::Config(m) => Some(m),
            _ => first_config(v.skip(1)),
        }
    }
}

/// The `mach(...)` expressions of an attribute list, in order.
pub open spec fn mach_attrs(v: Seq<IdbAttribute>) -> Seq<HardwareExpr>
    decreases v.len(),
{
    if v.len() == 0 {
        Seq::empty()
    } else {
        let rest = mach_attrs(v.drop_last());
        match v.last() {
            IdbAttribute::Mach(h) => rest.push(h),
            _ => rest,
        }
    }
}

/// Whether an attribute list holds a `mach(...)` that could not be
/// parsed.
pub open spec fn has_unparsed(v: Seq<AttrSpec>) -> bool {
    exists|i: int| 0 <= i < v.len() && #[trigger] v[i] is MachUnparsed
}

/// The stored payload size: `cmpsize` when non-zero, `size` when
/// `cmpsize` is zero, unknown without `cmpsize`.
pub open spec fn encoded_size_of(v: Seq<AttrSpec>) -> Option<u64> {
    match first_stored_size(v) {
        Some(c) => if c > 0 { Some(c) } else { first_size(v) },
        None => None,
    }
}

/// Dropping the first `i + 1` attributes is dropping `i`, then one more.
proof fn lemma_skip_step(v: Seq<AttrSpec>, i: int)
    requires
        0 <= i < v.len(),
    ensures
        v.skip(i).skip(1) == v.skip(i + 1),
        v.skip(i)[0] == v[i],
        v.skip(i).len() > 0,
{
    assert(v.skip(i).skip(1) =~= v.skip(i + 1));
}

impl Entry {
    /// The mathematical form of the attribute list.
    pub open spec fn attrs(&self) -> Seq<AttrSpec> {
        attrs_view(self.attributes@)
    }

    /// `size(...)` attribute, if present.
    pub fn size(&self) -> (r: Option<u64>)
        ensures
            r == first_size(self.attrs()),
    {
        let ghost v = self.attrs();
        assert(v.skip(0) =~= v);
        let mut i: usize = 0;
        while i < self.attributes.len()
            invariant
                i <= self.attributes.len(),
                v == self.attrs(),
                v.len() == self.attributes.len(),
                first_size(v) == first_size(v.skip(i as int)),
            decreases self.attributes.len() - i,
        {
            proof {
                lemma_skip_step(v, i as int);
            }
            if let IdbAttribute::Size(n) = &self.attributes[i] {
                return Some(*n);
            }
            i += 1;
        }
        None
    }

    /// `cmpsize(...)` attribute, if present.
    pub fn compressed_size(&self) -> (r: Option<u64>)
        ensures
            r == first_stored_size(self.attrs()),
    {
        let ghost v = self.attrs();
        assert(v.skip(0) =~= v);
        let mut i: usize = 0;
        while i < self.attributes.len()
            invariant
                i <= self.attributes.len(),
                v == self.attrs(),
                v.len() == self.attributes.len(),
                first_stored_size(v) == first_stored_size(v.skip(i as int)),
            decreases self.attributes.len() - i,
        {
            proof {
                lemma_skip_step(v, i as int);
            }
            if let IdbAttribute::CompressedSize(n) = &self.attributes[i] {
                return Some(*n);
            }
            i += 1;
        }
        None
    }

    /// All `mach(...)` hardware expressions on this entry, in attribute
    /// order.
    pub fn mach(&self) -> (r: Vec<&HardwareExpr>)
        ensures
            r@.map_values(|h: &HardwareExpr| *h) == mach_attrs(self.attributes@),
    {
        let mut r: Vec<&HardwareExpr> = Vec::new();
        let mut i: usize = 0;
        while i < self.attributes.len()
            invariant
                i <= self.attributes.len(),
                r@.map_values(|h: &HardwareExpr| *h) == mach_attrs(self.attributes@.take(i as int)),
            decreases self.attributes.len() - i,
        {
            assert(self.attributes@.take(i + 1).drop_last() == self.attributes@.take(i as int));
            if let IdbAttribute::Mach(expr) = &self.attributes[i] {
                r.push(expr);
            }
            i += 1;
            assert(r@.map_values(|h: &HardwareExpr| *h) =~= mach_attrs(self.attributes@.take(i as int)));
        }
        assert(self.attributes@.take(self.attributes.len() as int) == self.attributes@);
        r
    }

    /// Whether the entry carries a `mach(...)` attribute that could not
    /// be parsed.
    ///
    /// Such entries must never be treated as mach-less fallbacks during
    /// selection; their hardware applicability is simply unknown.
    pub fn has_unparsed_mach(&self) -> (r: bool)
        ensures
            r == has_unparsed(self.attrs()),
    {
        let ghost v = self.attrs();
        assert(v.skip(0) =~= v);
        let mut i: usize = 0;
        while i < self.attributes.len()
            invariant
                i <= self.attributes.len(),
                v == self.attrs(),
                v.len() == self.attributes.len(),
                forall|k: int| 0 <= k < i ==> !(#[trigger] v[k] is MachUnparsed),
            decreases self.attributes.len() - i,
        {
            if let IdbAttribute::MachUnparsed { .. } = &self.attributes[i] {
                assert(v[i as int] is MachUnparsed);
                return true;
            }
            i += 1;
        }
        false
    }

    /// `symval(...)` symlink target, if present.
    pub fn symlink_target(&self) -> (r: Option<&str>)
        ensures
            match r {
                Some(t) => first_symlink(self.attrs()) == Some(t@),
                None => first_symlink(self.attrs()) is None,
            },
    {
        let ghost v = self.attrs();
        assert(v.skip(0) =~= v);
        let mut i: usize = 0;
        while i < self.attributes.len()
            invariant
                i <= self.attributes.len(),
                v == self.attrs(),
                v.len() == self.attributes.len(),
                first_symlink(v) == first_symlink(v.skip(i as int)),
            decreases self.attributes.len() - i,
        {
            proof {
                lemma_skip_step(v, i as int);
            }
            if let IdbAttribute::SymlinkValue(target) = &self.attributes[i] {
                return Some(target.as_str());
            }
            i += 1;
        }
        None
    }

    /// `dev(major minor)` numbers, if present.
    pub fn device(&self) -> (r: Option<(u32, u32)>)
        ensures
            r == first_device(self.attrs()),
    {
        let ghost v = self.attrs();
        assert(v.skip(0) =~= v);
        let mut i: usize = 0;
        while i < self.attributes.len()
            invariant
                i <= self.attributes.len(),
                v == self.attrs(),
                v.len() == self.attributes.len(),
                first_device(v) == first_device(v.skip(i as int)),
            decreases self.attributes.len() - i,
        {
            proof {
                lemma_skip_step(v, i as int);
            }
            if let IdbAttribute::Device { major, minor } = &self.attributes[i] {
                return Some((*major, *minor));
            }
            i += 1;
        }
        None
    }

    /// `config(...)` mode, if present.
    pub fn config_mode(&self) -> (r: Option<ConfigMode>)
        ensures
            match r {
                Some(m) => first_config(self.attrs()) == Some(config_text(m)),
                None => first_config(self.attrs()) is None,
            },
    {
        let ghost v = self.attrs();
        assert(v.skip(0) =~= v);
        let mut i: usize = 0;
        while i < self.attributes.len()
            invariant
                i <= self.attributes.len(),
                v == self.attrs(),
                v.len() == self.attributes.len(),
                first_config(v) == first_config(v.skip(i as int)),
            decreases self.attributes.len() - i,
        {
            proof {
                lemma_skip_step(v, i as int);
            }
            if let IdbAttribute::Config(mode) = &self.attributes[i] {
                return Some(mode.clone());
            }
            i += 1;
        }
        None
    }

    /// The size of the payload as stored in the image archive.
    ///
    /// SGI stores a file compressed when `cmpsize` is non-zero, and
    /// uncompressed otherwise; an entry with `cmpsize(0)` still occupies
    /// `size` bytes in the archive.
    pub fn encoded_size(&self) -> (r: Option<u64>)
        ensures
            r == encoded_size_of(self.attrs()),
    {
        match self.compressed_size() {
            Some(cmpsize) => if cmpsize > 0 { Some(cmpsize) } else { self.size() },
            None => None,
        }
    }
}

} // verus!
