//! SGI product / image / subsystem naming.
//!
//! SGI names are dot-separated with a fixed arity:
//!
//! ```text
//! eoe             product       (one segment)
//! eoe.sw          image         (two segments)
//! eoe.sw.unix     subsystem     (three segments)
//! ```
//!
//! Because the arity is fixed, the image an entry belongs to is always
//! derivable from its subsystem name; no filesystem probing is needed.
use vstd::prelude::*;
use crate::error::Error;
use crate::text::{
    chars_of, contains_char, is_whitespace, is_ws, join_on, lemma_join_split,
    lemma_split_on_shape, seqs_of, split_chars, split_on, string_of,
};

verus! {

/// A segment is non-empty and free of `/` and NUL.
pub open spec fn valid_segment(s: Seq<char>) -> bool {
    s.len() > 0 && !s.contains('/') && !s.contains('\0')
}

/// A product (or image) segment: a valid segment without `.`.
pub open spec fn valid_product_name(s: Seq<char>) -> bool {
    valid_segment(s) && !s.contains('.')
}

/// Characters a subsystem name segment may not hold besides `/`, NUL and
/// `.`: whitespace, parentheses and `=` (attribute syntax).
pub open spec fn attribute_char(c: char) -> bool {
    is_ws(c) || c == '(' || c == ')' || c == '/' || c == '='
}

/// One segment of a subsystem name.
pub open spec fn valid_subsystem_segment(s: Seq<char>) -> bool {
    valid_segment(s) && forall|k: int| 0 <= k < s.len() ==> !#[trigger] attribute_char(s[k])
}

/// A full subsystem name: exactly three valid dot-separated segments.
pub open spec fn valid_subsystem_name(s: Seq<char>) -> bool {
    let parts = split_on(s, '.');
    parts.len() == 3 && forall|i: int| 0 <= i < 3 ==> #[trigger] valid_subsystem_segment(parts[i])
}

/// The path an invalid subsystem name is reported with: the first
/// segment (from `i` on) that is not a valid segment at all, or the
/// whole name when the first failing segment only holds attribute
/// syntax.
pub open spec fn subsystem_error_path(parts: Seq<Seq<char>>, name: Seq<char>, i: int) -> Seq<char>
    decreases parts.len() - i,
{
    if i < 0 || i >= parts.len() {
        name
    } else if !valid_segment(parts[i]) {
        parts[i]
    } else if !valid_subsystem_segment(parts[i]) {
        name
    } else {
        subsystem_error_path(parts, name, i + 1)
    }
}

/// Validates one dotted-name segment: non-empty, no `/`, no NUL.
fn validate_segment(segment: &str) -> (r: Result<(), Error>)
    ensures
        r is Ok <==> valid_segment(segment@),
        r matches Err(e) ==> e matches Error::UnsafePath { path } && path@ == segment@,
{
    let v = chars_of(segment);
    if v.len() == 0 || contains_char(&v, '/') || contains_char(&v, '\0') {
        return Err(Error::UnsafePath { path: string_of(&v) });
    }
    Ok(())
}

/// A product name, e.g. `eoe`.
#[derive(Debug)]
pub struct ProductName(String);

impl View for ProductName {
    type V = Seq<char>;

    closed spec fn view(&self) -> Seq<char> {
        self.0@
    }
}

impl Clone for ProductName {
    fn clone(&self) -> (r: Self)
        ensures
            r@ == self@,
    {
        ProductName(self.0.clone())
    }
}

impl PartialEq for ProductName {
    fn eq(&self, other: &Self) -> (r: bool) {
        self.0 == other.0
    }
}

impl vstd::std_specs::cmp::PartialEqSpecImpl for ProductName {
    open spec fn obeys_eq_spec() -> bool {
        true
    }

    open spec fn eq_spec(&self, other: &Self) -> bool {
        self@ == other@
    }
}

impl Eq for ProductName {}

impl ProductName {
    /// Creates a product name from a single segment.
    ///
    /// Returns [`Error::UnsafePath`] if the name is empty or contains
    /// `.`, `/` or NUL.
    pub fn new(name: &str) -> (r: Result<Self, Error>)
        ensures
            r is Ok <==> valid_product_name(name@),
            r matches Ok(p) ==> p@ == name@,
            r matches Err(e) ==> e matches Error::UnsafePath { path } && path@ == name@,
    {
        validate_segment(name)?;
        let v = chars_of(name);
        if contains_char(&v, '.') {
            return Err(Error::UnsafePath { path: string_of(&v) });
        }
        Ok(ProductName(string_of(&v)))
    }

    /// The name as a string slice.
    pub fn as_str(&self) -> (r: &str)
        ensures
            r@ == self@,
    {
        self.0.as_str()
    }

    /// The name as text (what `Display` shows).
    pub fn to_string(&self) -> (r: String)
        ensures
            r@ == self@,
    {
        self.0.clone()
    }
}

/// An image name, e.g. `eoe.sw`.
///
/// This is also the file name of the image archive inside the
/// distribution directory.
#[derive(Debug)]
pub struct ImageName {
    product: ProductName,
    image: String,
}

impl View for ImageName {
    type V = (Seq<char>, Seq<char>);

    closed spec fn view(&self) -> (Seq<char>, Seq<char>) {
        (self.product@, self.image@)
    }
}

impl Clone for ImageName {
    fn clone(&self) -> (r: Self)
        ensures
            r@ == self@,
    {
        ImageName { product: self.product.clone(), image: self.image.clone() }
    }
}

impl PartialEq for ImageName {
    fn eq(&self, other: &Self) -> (r: bool) {
        self.product == other.product && self.image == other.image
    }
}

impl vstd::std_specs::cmp::PartialEqSpecImpl for ImageName {
    open spec fn obeys_eq_spec() -> bool {
        true
    }

    open spec fn eq_spec(&self, other: &Self) -> bool {
        self@ == other@
    }
}

impl Eq for ImageName {}

/// `a.b`, the dotted form of two segments.
pub open spec fn dotted2(a: Seq<char>, b: Seq<char>) -> Seq<char> {
    a.push('.') + b
}

/// `a.b.c`, the dotted form of three segments.
pub open spec fn dotted3(a: Seq<char>, b: Seq<char>, c: Seq<char>) -> Seq<char> {
    a.push('.') + b.push('.') + c
}

/// Concatenates two strings.
fn concat_dotted(a: &str, b: &str) -> (r: String)
    ensures
        r@ == dotted2(a@, b@),
{
    let mut s = string_of(&chars_of(a));
    crate::text::push_char(&mut s, '.');
    let tail = chars_of(b);
    let mut i: usize = 0;
    let ghost head = s@;
    while i < tail.len()
        invariant
            i <= tail.len(),
            s@ == head + tail@.take(i as int),
        decreases tail.len() - i,
    {
        crate::text::push_char(&mut s, tail[i]);
        i += 1;
        assert(tail@.take(i as int) == tail@.take(i - 1).push(tail@[i - 1]));
    }
    assert(tail@.take(tail.len() as int) == tail@);
    s
}

impl ImageName {
    /// Creates an image name from its parts.
    ///
    /// Returns [`Error::UnsafePath`] if the image segment is empty or
    /// contains `.`, `/` or NUL.
    pub fn from_parts(product: ProductName, image: String) -> (r: Result<Self, Error>)
        ensures
            r is Ok <==> valid_product_name(image@),
            r matches Ok(n) ==> n@ == (product@, image@),
            r matches Err(e) ==> e matches Error::UnsafePath { path } && path@ == image@,
    {
        validate_segment(image.as_str())?;
        let v = chars_of(image.as_str());
        if contains_char(&v, '.') {
            return Err(Error::UnsafePath { path: image });
        }
        Ok(ImageName { product, image })
    }

    /// Parses a dotted image name, e.g. `eoe.sw`: exactly two segments,
    /// each a valid name segment.
    ///
    /// Returns [`Error::UnsafePath`] if the name does not have exactly two
    /// valid segments.
    pub fn parse(name: &str) -> (r: Result<Self, Error>)
        ensures
            r is Ok <==> split_on(name@, '.').len() == 2 && valid_product_name(split_on(name@, '.')[0])
                && valid_product_name(split_on(name@, '.')[1]),
            r matches Ok(n) ==> n@ == (split_on(name@, '.')[0], split_on(name@, '.')[1]),
            r matches Err(e) ==> e is UnsafePath,
    {
        let v = chars_of(name);
        let segments = split_chars(&v, '.');
        proof {
            lemma_split_on_shape(name@, '.');
        }
        if segments.len() != 2 {
            return Err(Error::UnsafePath { path: string_of(&v) });
        }
        let ghost parts = seqs_of(segments@);
        assert(segments@[0]@ == parts[0] && segments@[1]@ == parts[1]);
        let product = ProductName::new(string_of(&segments[0]).as_str())?;
        ImageName::from_parts(product, string_of(&segments[1]))
    }

    /// The product segment.
    pub fn product(&self) -> (r: &ProductName)
        ensures
            r@ == self@.0,
    {
        &self.product
    }

    /// The image segment, e.g. `sw`.
    pub fn image(&self) -> (r: &str)
        ensures
            r@ == self@.1,
    {
        self.image.as_str()
    }

    /// The archive file name within the distribution directory, e.g.
    /// `eoe.sw`.
    pub fn file_name(&self) -> (r: String)
        ensures
            r@ == dotted2(self@.0, self@.1),
    {
        concat_dotted(self.product.as_str(), self.image.as_str())
    }

    /// The dotted name (what `Display` shows), e.g. `eoe.sw`.
    pub fn to_string(&self) -> (r: String)
        ensures
            r@ == dotted2(self@.0, self@.1),
    {
        self.file_name()
    }
}

/// A subsystem name, e.g. `eoe.sw.unix`.
///
/// Subsystems are the smallest installable unit of an SGI product.
#[derive(Debug)]
pub struct SubsystemName {
    product: ProductName,
    image: String,
    subsystem: String,
}

impl View for SubsystemName {
    type V = (Seq<char>, Seq<char>, Seq<char>);

    closed spec fn view(&self) -> (Seq<char>, Seq<char>, Seq<char>) {
        (self.product@, self.image@, self.subsystem@)
    }
}

impl Clone for SubsystemName {
    fn clone(&self) -> (r: Self)
        ensures
            r@ == self@,
    {
        SubsystemName {
            product: self.product.clone(),
            image: self.image.clone(),
            subsystem: self.subsystem.clone(),
        }
    }
}

impl PartialEq for SubsystemName {
    fn eq(&self, other: &Self) -> (r: bool) {
        self.product == other.product && self.image == other.image && self.subsystem
            == other.subsystem
    }
}

impl vstd::std_specs::cmp::PartialEqSpecImpl for SubsystemName {
    open spec fn obeys_eq_spec() -> bool {
        true
    }

    open spec fn eq_spec(&self, other: &Self) -> bool {
        self@ == other@
    }
}

impl Eq for SubsystemName {}

/// Whether no character of `v` is whitespace, `(`, `)`, `/` or `=`.
fn free_of_attribute_chars(v: &[char]) -> (r: bool)
    ensures
        r == forall|k: int| 0 <= k < v@.len() ==> !#[trigger] attribute_char(v@[k]),
{
    let mut i: usize = 0;
    while i < v.len()
        invariant
            i <= v.len(),
            forall|k: int| 0 <= k < i ==> !#[trigger] attribute_char(v@[k]),
        decreases v.len() - i,
    {
        let c = v[i];
        if is_whitespace(c) || c == '(' || c == ')' || c == '/' || c == '=' {
            assert(attribute_char(v@[i as int]));
            return false;
        }
        i += 1;
    }
    true
}

impl SubsystemName {
    /// Parses a dotted subsystem name.
    ///
    /// The name must be exactly `product.image.subsystem`: three
    /// non-empty segments free of whitespace, `(`, `)`, `/`, `=` and NUL.
    /// This arity is fixed by the SGI format.
    ///
    /// Returns [`Error::UnsafePath`] if the name does not have exactly
    /// three valid segments.
    pub fn parse(name: &str) -> (r: Result<Self, Error>)
        ensures
            r is Ok <==> valid_subsystem_name(name@),
            r matches Ok(n) ==> {
                let parts = split_on(name@, '.');
                n@ == (parts[0], parts[1], parts[2])
            },
            r matches Err(e) ==> e matches Error::UnsafePath { path } && path@ == (
            if split_on(name@, '.').len() != 3 {
                name@
            } else {
                subsystem_error_path(split_on(name@, '.'), name@, 0)
            }),
    {
        let v = chars_of(name);
        let segments = split_chars(&v, '.');
        proof {
            lemma_split_on_shape(name@, '.');
        }
        if segments.len() != 3 {
            return Err(Error::UnsafePath { path: string_of(&v) });
        }
        let ghost parts = seqs_of(segments@);
        let mut i: usize = 0;
        while i < 3
            invariant
                i <= 3,
                segments.len() == 3,
                parts == seqs_of(segments@),
                parts == split_on(name@, '.'),
                v@ == name@,
                forall|k: int| 0 <= k < i ==> #[trigger] valid_subsystem_segment(parts[k]),
                subsystem_error_path(parts, name@, 0) == subsystem_error_path(parts, name@, i as int),
            decreases 3 - i,
        {
            let seg = &segments[i];
            assert(seg@ == parts[i as int]);
            if seg.len() == 0 || contains_char(seg, '/') || contains_char(seg, '\0') {
                assert(!valid_subsystem_segment(parts[i as int]));
                return Err(Error::UnsafePath { path: string_of(seg) });
            }
            if !free_of_attribute_chars(seg) {
                assert(!valid_subsystem_segment(parts[i as int]));
                return Err(Error::UnsafePath { path: string_of(&v) });
            }
            i += 1;
        }
        proof {
            assert(!parts[0].contains('.'));
        }
        let product = ProductName(string_of(&segments[0]));
        Ok(SubsystemName {
            product,
            image: string_of(&segments[1]),
            subsystem: string_of(&segments[2]),
        })
    }

    /// The product segment.
    pub fn product(&self) -> (r: &ProductName)
        ensures
            r@ == self@.0,
    {
        &self.product
    }

    /// The image segment, e.g. `sw`.
    pub fn image(&self) -> (r: &str)
        ensures
            r@ == self@.1,
    {
        self.image.as_str()
    }

    /// The subsystem segment, e.g. `unix`.
    pub fn subsystem(&self) -> (r: &str)
        ensures
            r@ == self@.2,
    {
        self.subsystem.as_str()
    }

    /// The image this subsystem belongs to.
    pub fn image_name(&self) -> (r: ImageName)
        ensures
            r@ == (self@.0, self@.1),
    {
        ImageName { product: self.product.clone(), image: self.image.clone() }
    }

    /// The dotted name (what `Display` shows), e.g. `eoe.sw.unix`.
    pub fn to_string(&self) -> (r: String)
        ensures
            r@ == dotted3(self@.0, self@.1, self@.2),
    {
        let head = concat_dotted(self.product.as_str(), self.image.as_str());
        let r = concat_dotted(head.as_str(), self.subsystem.as_str());
        assert(r@ =~= dotted3(self@.0, self@.1, self@.2));
        r
    }
}

/// A parsed subsystem name prints back exactly as it was written.
pub proof fn lemma_subsystem_name_roundtrip(name: Seq<char>)
    requires
        valid_subsystem_name(name),
    ensures
        ({
            let parts = split_on(name, '.');
            dotted3(parts[0], parts[1], parts[2]) == name
        }),
{
    let parts = split_on(name, '.');
    lemma_join_split(name, '.');
    assert(parts.drop_last().drop_last().len() == 1);
    assert(join_on(parts.drop_last(), '.') == join_on(parts.drop_last().drop_last(), '.').push('.') + parts[1]);
    assert(dotted3(parts[0], parts[1], parts[2]) =~= join_on(parts, '.'));
}

} // verus!

pub use crate::wildcard::wildcard_match;
