//! What a frontend needs besides the model: validation of user-supplied
//! names and hardware values, resolution of an extraction scope to entry
//! keys, and the hardware selection summary.
//!
//! The grammar authority for names stays with the name types; these
//! functions only dispatch and phrase the answers for users.
use vstd::prelude::*;
use crate::descriptor::model::Subsystem;
use crate::distribution::{Distribution, EntryKey, LocatedEntry, Product};
use crate::plan::{gated_spec, has_key, holds_key, touches};
use crate::image::Image;
use crate::mach::eval::HardwareProfile;
use crate::mach::chars_eq;
use crate::mach::parser::{find_char, first_index_from};
use crate::names::{dotted2, dotted3, ImageName, ProductName, SubsystemName};
use crate::path::IrixPath;
use crate::query::{Query, QueryError};
use crate::diagnostic::Diagnostic;
use crate::output::{conflict_report, conflicts_text};
use crate::selection::{EntrySelection, SelectionConflict};
use crate::text::{append_str, chars_of, debug_spec, decimal, decimal_spec, push_debug, split_on, string_of, subvec};

verus! {

/// The attribute and the value of a `--mach` value: the text around the
/// first `=`, or `CPUBOARD` and the whole text for a bare value (the
/// documented shorthand).
pub open spec fn mach_pair(value: Seq<char>) -> (Seq<char>, Seq<char>) {
    let k = first_index_from(value, '=', 0);
    if k < value.len() {
        (value.subrange(0, k), value.subrange(k + 1, value.len() as int))
    } else {
        ("CPUBOARD"@, value)
    }
}

/// A `--mach` value is `VALUE` or `ATTRIBUTE=VALUE`: the attribute name
/// is never empty; the value may be (`GFXBOARD=` restricts a record to
/// headless boards on real media).
pub open spec fn valid_mach_value(value: Seq<char>) -> bool {
    let k = first_index_from(value, '=', 0);
    if k < value.len() { k > 0 } else { value.len() > 0 }
}

/// Validates a `--mach` value, returning it unchanged.
pub fn parse_mach_value(value: &str) -> (r: Result<String, String>)
    ensures
        match r {
            Ok(v) => valid_mach_value(value@) && v@ == value@,
            Err(m) => !valid_mach_value(value@) && m@ == "invalid hardware value "@ + debug_spec(value@)
                + ": expected VALUE or ATTRIBUTE=VALUE"@,
        },
{
    let v = chars_of(value);
    let k = find_char(&v, '=');
    let ok = if k < v.len() { k > 0 } else { v.len() > 0 };
    if ok {
        return Ok(string_of(&v));
    }
    let mut message = String::new();
    append_str(&mut message, "invalid hardware value ");
    push_debug(&mut message, value);
    append_str(&mut message, ": expected VALUE or ATTRIBUTE=VALUE");
    Err(message)
}

/// Splits a `--mach` value into its attribute and value.
pub fn split_mach_value(value: &str) -> (r: (String, String))
    ensures
        (r.0@, r.1@) == mach_pair(value@),
{
    let v = chars_of(value);
    let k = find_char(&v, '=');
    if k < v.len() {
        (string_of(&subvec(&v, 0, k)), string_of(&subvec(&v, k + 1, v.len())))
    } else {
        (String::from_str("CPUBOARD"), string_of(&v))
    }
}

/// The pairs of a list of `--mach` values.
pub open spec fn mach_pairs(values: Seq<String>) -> Seq<(Seq<char>, Seq<char>)> {
    values.map_values(|v: String| mach_pair(v@))
}

/// The profile the first `n` pairs build: each adds its value to its
/// attribute.
pub open spec fn profile_of(pairs: Seq<(Seq<char>, Seq<char>)>, n: int) -> Map<Seq<char>, Set<Seq<char>>>
    decreases n,
{
    if n <= 0 {
        Map::empty()
    } else {
        let m = profile_of(pairs, n - 1);
        let (a, v) = pairs[n - 1];
        m.insert(a, if m.contains_key(a) { m[a].insert(v) } else { set![v] })
    }
}

/// Builds a hardware profile from `--mach` values, returning the pairs
/// too. An attribute may carry several values.
pub fn mach_profile(values: &[String]) -> (r: (Vec<(String, String)>, HardwareProfile))
    ensures
        r.0@.map_values(|p: (String, String)| (p.0@, p.1@)) == mach_pairs(values@),
        r.1@ == profile_of(mach_pairs(values@), values@.len() as int),
{
    let mut pairs: Vec<(String, String)> = Vec::new();
    let mut builder = HardwareProfile::builder();
    let mut i: usize = 0;
    while i < values.len()
        invariant
            i <= values.len(),
            pairs@.map_values(|p: (String, String)| (p.0@, p.1@)) == mach_pairs(values@).take(i as int),
            builder@ == profile_of(mach_pairs(values@), i as int),
        decreases values.len() - i,
    {
        let (attribute, value) = split_mach_value(values[i].as_str());
        builder = builder.add(attribute.as_str(), value.as_str());
        let ghost before = pairs@;
        pairs.push((attribute, value));
        proof {
            assert(pairs@.map_values(|p: (String, String)| (p.0@, p.1@))
                =~= before.map_values(|p: (String, String)| (p.0@, p.1@)).push(mach_pair(values@[i as int]@)));
            assert(mach_pairs(values@).take(i as int + 1) =~= mach_pairs(values@).take(i as int).push(mach_pair(values@[i as int]@)));
        }
        i += 1;
    }
    assert(mach_pairs(values@).take(values@.len() as int) =~= mach_pairs(values@));
    (pairs, builder.build())
}

/// The number of dot-separated segments of a name.
fn segment_count(value: &str) -> (r: usize)
    ensures
        r == split_on(value@, '.').len(),
{
    let v = chars_of(value);
    let parts = crate::text::split_chars(&v, '.');
    proof {
        crate::text::lemma_split_on_shape(value@, '.');
    }
    parts.len()
}

/// Validates a `show` target: a product, image or subsystem name,
/// dispatched on the segment count; the name types decide the grammar.
pub fn parse_target_name(value: &str) -> (r: Result<String, String>)
    ensures
        split_on(value@, '.').len() == 0 || split_on(value@, '.').len() > 3 ==> (r matches Err(m)
            && m@ == "expected a product, image or subsystem name (1 to 3 dot-separated segments), got "@
            + debug_spec(value@)),
        r matches Ok(v) ==> v@ == value@,
        split_on(value@, '.').len() == 1 ==> (r is Ok <==> crate::names::valid_product_name(value@)),
{
    let count = segment_count(value);
    let parsed: Result<(), crate::error::Error> = if count == 1 {
        match ProductName::new(value) {
            Ok(_) => Ok(()),
            Err(e) => Err(e),
        }
    } else if count == 2 {
        match ImageName::parse(value) {
            Ok(_) => Ok(()),
            Err(e) => Err(e),
        }
    } else if count == 3 {
        match SubsystemName::parse(value) {
            Ok(_) => Ok(()),
            Err(e) => Err(e),
        }
    } else {
        let mut message = String::new();
        append_str(&mut message, "expected a product, image or subsystem name (1 to 3 dot-separated segments), got ");
        push_debug(&mut message, value);
        return Err(message);
    };
    match parsed {
        Ok(()) => Ok(string_of(&chars_of(value))),
        Err(e) => Err(e.to_string()),
    }
}

/// Validates a product name, returning it unchanged.
pub fn parse_product_name(value: &str) -> (r: Result<String, String>)
    ensures
        r is Ok <==> crate::names::valid_product_name(value@),
        r matches Ok(v) ==> v@ == value@,
{
    match ProductName::new(value) {
        Ok(_) => Ok(string_of(&chars_of(value))),
        Err(e) => Err(e.to_string()),
    }
}

/// Validates an image name, returning it unchanged.
pub fn parse_image_name(value: &str) -> (r: Result<String, String>)
    ensures
        r is Ok <==> crate::text::split_on(value@, '.').len() == 2
            && crate::names::valid_product_name(crate::text::split_on(value@, '.')[0])
            && crate::names::valid_product_name(crate::text::split_on(value@, '.')[1]),
        r matches Ok(v) ==> v@ == value@,
{
    match ImageName::parse(value) {
        Ok(_) => Ok(string_of(&chars_of(value))),
        Err(e) => Err(e.to_string()),
    }
}

/// Validates a subsystem name, returning it unchanged.
pub fn parse_subsystem_name(value: &str) -> (r: Result<String, String>)
    ensures
        r is Ok <==> crate::names::valid_subsystem_name(value@),
        r matches Ok(v) ==> v@ == value@,
{
    match SubsystemName::parse(value) {
        Ok(_) => Ok(string_of(&chars_of(value))),
        Err(e) => Err(e.to_string()),
    }
}

/// Validates an IRIX path.
pub fn parse_irix_path(value: &str) -> (r: Result<IrixPath, String>)
    ensures
        r is Ok <==> crate::path::normalize(value@) is Some,
        r matches Ok(p) ==> Some(p@) == crate::path::normalize(value@),
{
    match IrixPath::new(value) {
        Ok(p) => Ok(p),
        Err(e) => Err(e.to_string()),
    }
}


/// Finds a product by name, with its position: the first of that name.
pub fn find_product<'a>(dist: &'a Distribution, name: &str) -> (r: Option<(usize, &'a Product)>)
    ensures
        match r {
            Some((i, p)) => i < dist.products_spec().len() && dist.products_spec()[i as int] == *p && p.name@ == name@
                && forall|k: int| 0 <= k < i ==> (#[trigger] dist.products_spec()[k]).name@ != name@,
            None => forall|k: int| 0 <= k < dist.products_spec().len() ==> (#[trigger] dist.products_spec()[k]).name@ != name@,
        },
{
    let products = dist.products();
    let wanted = chars_of(name);
    let mut i: usize = 0;
    while i < products.len()
        invariant
            i <= products.len(),
            products@ == dist.products_spec(),
            wanted@ == name@,
            forall|k: int| 0 <= k < i ==> (#[trigger] products@[k]).name@ != name@,
        decreases products.len() - i,
    {
        if crate::mach::chars_eq(&chars_of(products[i].name.as_str()), &wanted) {
            return Some((i, &products[i]));
        }
        i += 1;
    }
    None
}

/// Whether an image has the dotted name.
pub open spec fn image_named(img: Image, name: Seq<char>) -> bool {
    dotted2(img.name@.0, img.name@.1) == name
}

/// Whether some image of a product has the dotted name.
pub open spec fn product_has_image(p: Product, name: Seq<char>) -> bool {
    exists|a: int| 0 <= a < p.images@.len() && image_named(#[trigger] p.images@[a], name)
}

/// The position of the first image of a product with the dotted name.
fn image_position(product: &Product, name: &Vec<char>) -> (r: Option<usize>)
    ensures
        match r {
            Some(a) => a < product.images@.len() && image_named(product.images@[a as int], name@),
            None => !product_has_image(*product, name@),
        },
{
    let mut a: usize = 0;
    while a < product.images.len()
        invariant
            a <= product.images.len(),
            forall|q: int| 0 <= q < a ==> !image_named(#[trigger] product.images@[q], name@),
        decreases product.images.len() - a,
    {
        let text = product.images[a].name.to_string();
        if crate::mach::chars_eq(&chars_of(text.as_str()), name) {
            return Some(a);
        }
        a += 1;
    }
    None
}

/// Finds an image by dotted name, with its product and the product's
/// position: the first product holding such an image.
pub fn find_image<'a>(dist: &'a Distribution, name: &str) -> (r: Option<(usize, &'a Product, &'a Image)>)
    ensures
        match r {
            Some((i, p, img)) => i < dist.products_spec().len() && dist.products_spec()[i as int] == *p
                && image_named(*img, name@) && p.images@.contains(*img)
                && forall|k: int| 0 <= k < i ==> !product_has_image(#[trigger] dist.products_spec()[k], name@),
            None => forall|k: int| 0 <= k < dist.products_spec().len() ==> !product_has_image(#[trigger] dist.products_spec()[k], name@),
        },
{
    let products = dist.products();
    let wanted = chars_of(name);
    let mut i: usize = 0;
    while i < products.len()
        invariant
            i <= products.len(),
            products@ == dist.products_spec(),
            wanted@ == name@,
            forall|k: int| 0 <= k < i ==> !product_has_image(#[trigger] products@[k], name@),
        decreases products.len() - i,
    {
        match image_position(&products[i], &wanted) {
            Some(a) => {
                let product = &products[i];
                assert(product.images@.contains(product.images@[a as int]));
                return Some((i, product, &product.images[a]));
            },
            None => {},
        }
        i += 1;
    }
    None
}

/// Whether a subsystem has the dotted name.
pub open spec fn subsystem_named(s: Subsystem, name: Seq<char>) -> bool {
    dotted3(s.name@.0, s.name@.1, s.name@.2) == name
}

/// Whether some subsystem of some image of a product has the dotted name.
pub open spec fn product_has_subsystem(p: Product, name: Seq<char>) -> bool {
    exists|a: int, b: int| 0 <= a < p.images@.len() && 0 <= b < p.images@[a].subsystems@.len()
        && subsystem_named(#[trigger] p.images@[a].subsystems@[b], name)
}

/// The first image and subsystem positions of a product with the dotted
/// subsystem name.
fn subsystem_position(product: &Product, name: &Vec<char>) -> (r: Option<(usize, usize)>)
    ensures
        match r {
            Some((a, b)) => a < product.images@.len() && b < product.images@[a as int].subsystems@.len()
                && subsystem_named(product.images@[a as int].subsystems@[b as int], name@),
            None => !product_has_subsystem(*product, name@),
        },
{
    let mut a: usize = 0;
    while a < product.images.len()
        invariant
            a <= product.images.len(),
            forall|q: int, b: int| 0 <= q < a && 0 <= b < product.images@[q].subsystems@.len()
                ==> !subsystem_named(#[trigger] product.images@[q].subsystems@[b], name@),
        decreases product.images.len() - a,
    {
        let image = &product.images[a];
        let mut b: usize = 0;
        while b < image.subsystems.len()
            invariant
                b <= image.subsystems.len(),
                a < product.images@.len(),
                *image == product.images@[a as int],
                forall|q: int, c: int| 0 <= q < a && 0 <= c < product.images@[q].subsystems@.len()
                    ==> !subsystem_named(#[trigger] product.images@[q].subsystems@[c], name@),
                forall|c: int| 0 <= c < b ==> !subsystem_named(#[trigger] image.subsystems@[c], name@),
            decreases image.subsystems.len() - b,
        {
            let text = image.subsystems[b].name.to_string();
            if crate::mach::chars_eq(&chars_of(text.as_str()), name) {
                return Some((a, b));
            }
            b += 1;
        }
        a += 1;
    }
    None
}

/// Finds a subsystem by dotted name, with its image, product and the
/// product's position: the first product holding such a subsystem.
pub fn find_subsystem<'a>(dist: &'a Distribution, name: &str) -> (r: Option<(usize, &'a Product, &'a Image, &'a Subsystem)>)
    ensures
        match r {
            Some((i, p, img, sub)) => i < dist.products_spec().len() && dist.products_spec()[i as int] == *p
                && p.images@.contains(*img) && img.subsystems@.contains(*sub) && subsystem_named(*sub, name@)
                && forall|k: int| 0 <= k < i ==> !product_has_subsystem(#[trigger] dist.products_spec()[k], name@),
            None => forall|k: int| 0 <= k < dist.products_spec().len() ==> !product_has_subsystem(#[trigger] dist.products_spec()[k], name@),
        },
{
    let products = dist.products();
    let wanted = chars_of(name);
    let mut i: usize = 0;
    while i < products.len()
        invariant
            i <= products.len(),
            products@ == dist.products_spec(),
            wanted@ == name@,
            forall|k: int| 0 <= k < i ==> !product_has_subsystem(#[trigger] products@[k], name@),
        decreases products.len() - i,
    {
        match subsystem_position(&products[i], &wanted) {
            Some((a, b)) => {
                let product = &products[i];
                let image = &product.images[a];
                assert(product.images@.contains(product.images@[a as int]));
                assert(image.subsystems@.contains(image.subsystems@[b as int]));
                return Some((i, product, image, &image.subsystems[b]));
            },
            None => {},
        }
        i += 1;
    }
    None
}

/// What an extraction covers.
#[derive(Debug, Clone)]
pub enum Scope {
    /// Entries whose path matches a query.
    Path(String),
    /// One subsystem, e.g. `eoe.sw.unix`.
    Subsystem(String),
    /// One image, e.g. `eoe.sw`.
    Image(String),
    /// One product, e.g. `eoe`.
    Product(String),
}

/// Why a scope could not be resolved.
#[derive(Debug, Clone, PartialEq, Eq)]
pub enum ScopeError {
    /// The path query is invalid.
    Query(QueryError),
    /// No entry matches the path query.
    NoMatch(String),
    /// No product has the name.
    ProductNotFound(String),
    /// No image has the name.
    ImageNotFound(String),
    /// No subsystem has the name.
    SubsystemNotFound(String),
}

impl ScopeError {
    /// The error's text, as it is reported to users.
    pub fn to_string(&self) -> (r: String)
        ensures
            r@ == match *self {
                ScopeError::Query(_) => "search query is empty"@,
                ScopeError::NoMatch(p) => "no entries match "@ + debug_spec(p@),
                ScopeError::ProductNotFound(n) => "product not found: "@ + n@,
                ScopeError::ImageNotFound(n) => "image not found: "@ + n@,
                ScopeError::SubsystemNotFound(n) => "subsystem not found: "@ + n@,
            },
    {
        let mut r = String::new();
        match self {
            ScopeError::Query(_) => append_str(&mut r, "search query is empty"),
            ScopeError::NoMatch(p) => {
                append_str(&mut r, "no entries match ");
                push_debug(&mut r, p.as_str());
            },
            ScopeError::ProductNotFound(n) => {
                append_str(&mut r, "product not found: ");
                append_str(&mut r, n.as_str());
            },
            ScopeError::ImageNotFound(n) => {
                append_str(&mut r, "image not found: ");
                append_str(&mut r, n.as_str());
            },
            ScopeError::SubsystemNotFound(n) => {
                append_str(&mut r, "subsystem not found: ");
                append_str(&mut r, n.as_str());
            },
        }
        r
    }
}

/// Every key resolves in the distribution.
pub open spec fn keys_resolve(ps: Seq<Product>, keys: Seq<EntryKey>) -> bool {
    forall|q: int| 0 <= q < keys.len() ==> {
        &&& (#[trigger] keys[q]).product_index < ps.len()
        &&& keys[q].entry_id.0 < ps[keys[q].product_index as int].entries@.len()
    }
}

/// The keys of all entries of the product at `index`.
pub open spec fn product_keys(p: Product, index: usize) -> Seq<EntryKey> {
    p.entries@.map_values(|e: crate::idb::Entry| EntryKey { product_index: index, entry_id: e.id })
}

/// The keys of search hits.
pub open spec fn hit_keys(hits: Seq<(EntryKey, crate::idb::Entry)>) -> Seq<EntryKey> {
    hits.map_values(|h: (EntryKey, crate::idb::Entry)| h.0)
}

/// The keys of the first `n` entries of a product that name the image.
pub open spec fn image_entry_keys(p: Product, index: usize, name: (Seq<char>, Seq<char>), n: int) -> Seq<EntryKey>
    decreases n,
{
    if n <= 0 {
        Seq::empty()
    } else {
        let rest = image_entry_keys(p, index, name, n - 1);
        let e = p.entries@[n - 1];
        if (e.subsystem@.0, e.subsystem@.1) == name { rest.push(EntryKey { product_index: index, entry_id: e.id }) } else { rest }
    }
}

/// The keys of the listed entries that exist in the product.
pub open spec fn listed_entry_keys(p: Product, index: usize, ids: Seq<crate::idb::EntryId>) -> Seq<EntryKey>
    decreases ids.len(),
{
    if ids.len() == 0 {
        Seq::empty()
    } else {
        let rest = listed_entry_keys(p, index, ids.drop_last());
        if ids.last().0 < p.entries@.len() { rest.push(EntryKey { product_index: index, entry_id: ids.last() }) } else { rest }
    }
}

/// Resolves an extraction scope to canonical entry keys.
///
/// A path query resolves to its hits (at least one); a product to all of
/// its entries; an image to the entries of its product that name it; a
/// subsystem to the entries it lists that exist in its product.
pub fn resolve_scope(dist: &Distribution, scope: &Scope) -> (r: Result<Vec<EntryKey>, ScopeError>)
    ensures
        scope matches Scope::Product(n) ==> match r {
            Ok(keys) => exists|i: int| 0 <= i < dist.products_spec().len() && dist.products_spec()[i].name@ == n@
                && keys@ == product_keys(dist.products_spec()[i], i as usize),
            Err(e) => e == ScopeError::ProductNotFound(*n) && forall|k: int| 0 <= k < dist.products_spec().len()
                ==> (#[trigger] dist.products_spec()[k]).name@ != n@,
        },
        scope matches Scope::Path(p) ==> ({
            let hits = crate::distribution::product_hits(dist.products_spec(), dist.products_spec().len() as int,
                Some(crate::query::search_pattern(p@)));
            match r {
                Ok(keys) => p@.len() > 0 && keys@ == hit_keys(hits) && keys@.len() > 0,
                Err(e) => (p@.len() == 0 && e is Query) || (p@.len() > 0 && hits.len() == 0 && (e matches ScopeError::NoMatch(q) && q@ == p@)),
            }
        }),
        scope matches Scope::Image(n) ==> (r is Err <==> forall|k: int| 0 <= k < dist.products_spec().len()
            ==> !product_has_image(#[trigger] dist.products_spec()[k], n@)),
        scope matches Scope::Image(n) ==> match r {
            Ok(keys) => exists|i: int, a: int| {
                &&& 0 <= i < dist.products_spec().len()
                &&& 0 <= a < dist.products_spec()[i].images@.len()
                &&& image_named(#[trigger] dist.products_spec()[i].images@[a], n@)
                &&& forall|k: int| 0 <= k < i ==> !product_has_image(#[trigger] dist.products_spec()[k], n@)
                &&& keys@ == image_entry_keys(dist.products_spec()[i], i as usize, dist.products_spec()[i].images@[a].name@,
                    dist.products_spec()[i].entries@.len() as int)
            },
            Err(e) => e == ScopeError::ImageNotFound(*n),
        },
        scope matches Scope::Subsystem(n) ==> (r is Err <==> forall|k: int| 0 <= k < dist.products_spec().len()
            ==> !product_has_subsystem(#[trigger] dist.products_spec()[k], n@)),
        scope matches Scope::Subsystem(n) ==> match r {
            Ok(keys) => exists|i: int, a: int, b: int| {
                &&& 0 <= i < dist.products_spec().len()
                &&& 0 <= a < dist.products_spec()[i].images@.len()
                &&& 0 <= b < dist.products_spec()[i].images@[a].subsystems@.len()
                &&& subsystem_named(#[trigger] dist.products_spec()[i].images@[a].subsystems@[b], n@)
                &&& forall|k: int| 0 <= k < i ==> !product_has_subsystem(#[trigger] dist.products_spec()[k], n@)
                &&& keys@ == listed_entry_keys(dist.products_spec()[i], i as usize, dist.products_spec()[i].images@[a].subsystems@[b].entry_ids@)
            },
            Err(e) => e == ScopeError::SubsystemNotFound(*n),
        },
        scope matches Scope::Subsystem(n) ==> (r matches Ok(keys) ==> keys_resolve(dist.products_spec(), keys@)),
{
    match scope {
        Scope::Path(pattern) => {
            let query = match Query::path_search(pattern.as_str()) {
                Ok(q) => q,
                Err(e) => {
                    return Err(ScopeError::Query(e));
                },
            };
            let found = dist.find(&query);
            let mut keys: Vec<EntryKey> = Vec::new();
            let mut k: usize = 0;
            while k < found.entries.len()
                invariant
                    k <= found.entries.len(),
                    keys@.len() == k,
                    forall|q: int| 0 <= q < k ==> #[trigger] keys@[q] == found.entries@[q].key,
                decreases found.entries.len() - k,
            {
                keys.push(found.entries[k].key);
                k += 1;
            }
            proof {
                let hits = crate::distribution::located_view(found.entries@);
                assert(keys@ =~= hit_keys(hits)) by {
                    assert forall|q: int| 0 <= q < keys@.len() implies keys@[q] == hit_keys(hits)[q] by {
                        assert(hits[q] == (found.entries@[q].key, *found.entries@[q].entry));
                    }
                }
            }
            if keys.len() == 0 {
                return Err(ScopeError::NoMatch(string_of(&chars_of(pattern.as_str()))));
            }
            Ok(keys)
        },
        Scope::Product(name) => {
            match find_product(dist, name.as_str()) {
                None => Err(ScopeError::ProductNotFound(name.clone())),
                Some((index, product)) => {
                    let mut keys: Vec<EntryKey> = Vec::new();
                    let mut k: usize = 0;
                    while k < product.entries.len()
                        invariant
                            k <= product.entries.len(),
                            keys@ == product_keys(*product, index).take(k as int),
                        decreases product.entries.len() - k,
                    {
                        keys.push(EntryKey { product_index: index, entry_id: product.entries[k].id });
                        k += 1;
                        assert(keys@ =~= product_keys(*product, index).take(k as int));
                    }
                    assert(product_keys(*product, index).take(product.entries@.len() as int) =~= product_keys(*product, index));
                    Ok(keys)
                },
            }
        },
        Scope::Image(name) => {
            match find_image(dist, name.as_str()) {
                None => Err(ScopeError::ImageNotFound(name.clone())),
                Some((index, product, image)) => {
                    let mut keys: Vec<EntryKey> = Vec::new();
                    let mut k: usize = 0;
                    while k < product.entries.len()
                        invariant
                            k <= product.entries.len(),
                            keys@ == image_entry_keys(*product, index, image.name@, k as int),
                        decreases product.entries.len() - k,
                    {
                        if product.entries[k].subsystem.image_name() == image.name {
                            keys.push(EntryKey { product_index: index, entry_id: product.entries[k].id });
                        }
                        k += 1;
                    }
                    proof {
                        let a = choose|a: int| 0 <= a < product.images@.len() && product.images@[a] == *image;
                        assert(image_named(dist.products_spec()[index as int].images@[a], name@));
                    }
                    Ok(keys)
                },
            }
        },
        Scope::Subsystem(name) => {
            match find_subsystem(dist, name.as_str()) {
                None => Err(ScopeError::SubsystemNotFound(name.clone())),
                Some((index, product, _image, subsystem)) => {
                    let mut keys: Vec<EntryKey> = Vec::new();
                    let mut k: usize = 0;
                    while k < subsystem.entry_ids.len()
                        invariant
                            k <= subsystem.entry_ids.len(),
                            index < dist.products_spec().len(),
                            dist.products_spec()[index as int] == *product,
                            keys_resolve(dist.products_spec(), keys@),
                            keys@ == listed_entry_keys(*product, index, subsystem.entry_ids@.take(k as int)),
                        decreases subsystem.entry_ids.len() - k,
                    {
                        let id = subsystem.entry_ids[k];
                        proof {
                            assert(subsystem.entry_ids@.take(k + 1).drop_last() =~= subsystem.entry_ids@.take(k as int));
                            assert(subsystem.entry_ids@.take(k + 1).last() == id);
                        }
                        if product.entry(id).is_some() {
                            keys.push(EntryKey { product_index: index, entry_id: id });
                        }
                        k += 1;
                    }
                    proof {
                        assert(subsystem.entry_ids@.take(subsystem.entry_ids@.len() as int) =~= subsystem.entry_ids@);
                        let a = choose|a: int| 0 <= a < product.images@.len() && product.images@[a] == *_image;
                        let b = choose|b: int| 0 <= b < _image.subsystems@.len() && _image.subsystems@[b] == *subsystem;
                        assert(subsystem_named(dist.products_spec()[index as int].images@[a].subsystems@[b], name@));
                    }
                    Ok(keys)
                },
            }
        },
    }
}


/// The position of the last `.` among the first `n` characters, or -1.
pub open spec fn last_dot(s: Seq<char>, n: int) -> int
    decreases n,
{
    if n <= 0 {
        -1
    } else if s[n - 1] == '.' {
        n - 1
    } else {
        last_dot(s, n - 1)
    }
}

/// The product a directory file stands for: the stem of an `.idb` file,
/// or the name of an extension-less regular file that starts with the
/// `pd001V` descriptor magic. A name's extension follows its last `.`,
/// unless that `.` is its first character.
pub open spec fn stem_spec(name: Seq<char>, is_file: bool, header: Seq<u8>) -> Option<Seq<char>> {
    let k = last_dot(name, name.len() as int);
    if k > 0 {
        if name.subrange(k + 1, name.len() as int) == "idb"@ {
            Some(name.subrange(0, k))
        } else {
            None
        }
    } else if is_file && header.len() >= 6 && header.take(6) == seq![0x70u8, 0x64u8, 0x30u8, 0x30u8, 0x31u8, 0x56u8] {
        Some(name)
    } else {
        None
    }
}

/// Whether `a` comes strictly before `b` in the order of Rust strings:
/// lexicographic by character code.
pub open spec fn chars_before(a: Seq<char>, b: Seq<char>) -> bool
    decreases a.len(),
{
    if a.len() == 0 {
        b.len() > 0
    } else if b.len() == 0 {
        false
    } else if a[0] != b[0] {
        (a[0] as u32) < (b[0] as u32)
    } else {
        chars_before(a.drop_first(), b.drop_first())
    }
}

/// The order is transitive.
proof fn lemma_before_trans(a: Seq<char>, b: Seq<char>, c: Seq<char>)
    requires
        chars_before(a, b),
        chars_before(b, c),
    ensures
        chars_before(a, c),
    decreases a.len(),
{
    if a.len() > 0 && b.len() > 0 && c.len() > 0 && a[0] == b[0] && b[0] == c[0] {
        lemma_before_trans(a.drop_first(), b.drop_first(), c.drop_first());
    }
}

/// Of two different sequences exactly one comes first.
proof fn lemma_before_total(a: Seq<char>, b: Seq<char>)
    ensures
        a == b || chars_before(a, b) || chars_before(b, a),
        !(chars_before(a, b) && chars_before(b, a)),
        !chars_before(a, a),
    decreases a.len(),
{
    if a.len() == 0 {
        if b.len() == 0 {
            assert(a =~= b);
        }
    } else {
        lemma_before_total(a.drop_first(), a.drop_first());
        if b.len() > 0 {
            lemma_before_total(a.drop_first(), b.drop_first());
            if a[0] == b[0] {
                if a.drop_first() == b.drop_first() {
                    assert(a =~= seq![a[0]] + a.drop_first());
                    assert(b =~= seq![b[0]] + b.drop_first());
                }
            } else {
                if (a[0] as u32) == (b[0] as u32) {
                    vstd::utf8::char_u32_cast(a[0], a[0] as u32);
                    vstd::utf8::char_u32_cast(b[0], b[0] as u32);
                }
            }
        }
    }
}

/// Whether `a` comes strictly before `b`.
fn before(a: &Vec<char>, b: &Vec<char>) -> (r: bool)
    ensures
        r == chars_before(a@, b@),
{
    let mut i: usize = 0;
    assert(a@.skip(0) =~= a@ && b@.skip(0) =~= b@);
    assert(a@.take(0) =~= b@.take(0));
    while i < a.len() && i < b.len() && a[i] == b[i]
        invariant
            i <= a.len(),
            i <= b.len(),
            a@.take(i as int) == b@.take(i as int),
            chars_before(a@, b@) == chars_before(a@.skip(i as int), b@.skip(i as int)),
        decreases a.len() - i,
    {
        proof {
            assert(a@.skip(i as int).drop_first() =~= a@.skip(i + 1));
            assert(b@.skip(i as int).drop_first() =~= b@.skip(i + 1));
            assert(a@.take(i + 1) =~= a@.take(i as int).push(a@[i as int]));
            assert(b@.take(i + 1) =~= b@.take(i as int).push(b@[i as int]));
        }
        i += 1;
    }
    if i == a.len() {
        i < b.len()
    } else if i == b.len() {
        false
    } else {
        (a[i] as u32) < (b[i] as u32)
    }
}

/// Whether the names are sorted and unique.
pub open spec fn sorted_unique(v: Seq<Seq<char>>) -> bool {
    forall|i: int, j: int| 0 <= i < j < v.len() ==> chars_before(#[trigger] v[i], #[trigger] v[j])
}

/// The product stems of a directory listing, each listed file given by
/// its name, whether it is a regular file, and its first bytes: sorted by
/// name, each once.
pub fn product_stems(listing: &Vec<(String, bool, Vec<u8>)>) -> (r: Vec<String>)
    ensures
        sorted_unique(paths_of(r@)),
        forall|i: int| 0 <= i < r@.len() ==> #[trigger] stem_listed(listing@, r@[i]@),
        forall|q: int| 0 <= q < listing@.len() ==> (stem_spec((#[trigger] listing@[q]).0@, listing@[q].1, listing@[q].2@) matches Some(x)
            ==> exists|i: int| 0 <= i < r@.len() && r@[i]@ == x),
{
    let mut r: Vec<String> = Vec::new();
    let mut k: usize = 0;
    while k < listing.len()
        invariant
            k <= listing.len(),
            sorted_unique(paths_of(r@)),
            forall|i: int| 0 <= i < r@.len() ==> #[trigger] stem_listed(listing@, r@[i]@),
            forall|q: int| 0 <= q < k ==> (stem_spec((#[trigger] listing@[q]).0@, listing@[q].1, listing@[q].2@) matches Some(s)
                ==> exists|i: int| 0 <= i < r@.len() && r@[i]@ == s),
        decreases listing.len() - k,
    {
        let item = &listing[k];
        let ghost before_r = r@;
        if let Some(stem) = product_stem(item.0.as_str(), item.1, item.2.as_slice()) {
            let ghost sv = stem@;
            insert_sorted(&mut r, stem);
            proof {
                assert forall|i: int| 0 <= i < r@.len() implies #[trigger] stem_listed(listing@, r@[i]@) by {
                    if r@[i]@ == sv {
                        assert(stem_of(listing@[k as int], r@[i]@));
                    } else {
                        let j = choose|j: int| 0 <= j < before_r.len() && r@[i]@ == (#[trigger] before_r[j])@;
                        assert(stem_listed(listing@, before_r[j]@));
                    }
                }
                assert forall|q: int| 0 <= q < k + 1 implies (stem_spec((#[trigger] listing@[q]).0@, listing@[q].1, listing@[q].2@) matches Some(x)
                    ==> exists|i: int| 0 <= i < r@.len() && r@[i]@ == x) by {
                    if let Some(x) = stem_spec(listing@[q].0@, listing@[q].1, listing@[q].2@) {
                        if q < k {
                            let j = choose|j: int| 0 <= j < before_r.len() && before_r[j]@ == x;
                            let i = choose|i: int| 0 <= i < r@.len() && (#[trigger] r@[i])@ == (#[trigger] before_r[j])@;
                            assert(0 <= i < r@.len() && r@[i]@ == x);
                        } else {
                            assert(x == sv);
                            let i = choose|i: int| 0 <= i < r@.len() && (#[trigger] r@[i])@ == sv;
                            assert(0 <= i < r@.len() && r@[i]@ == x);
                        }
                    }
                }
            }
        }
        k += 1;
    }
    r
}

/// Whether a listed file stands for the product `s`.
pub open spec fn stem_of(item: (String, bool, Vec<u8>), s: Seq<char>) -> bool {
    stem_spec(item.0@, item.1, item.2@) == Some(s)
}

/// Whether some listed file stands for the product `s`.
pub open spec fn stem_listed(listing: Seq<(String, bool, Vec<u8>)>, s: Seq<char>) -> bool {
    exists|q: int| 0 <= q < listing.len() && #[trigger] stem_of(listing[q], s)
}

/// The character sequences of strings.
pub open spec fn paths_of(v: Seq<String>) -> Seq<Seq<char>> {
    v.map_values(|s: String| s@)
}

/// Inserts `s` into a sorted list of unique names, unless it is there.
fn insert_sorted(r: &mut Vec<String>, s: String)
    requires
        sorted_unique(paths_of(old(r)@)),
    ensures
        sorted_unique(paths_of(final(r)@)),
        forall|i: int| 0 <= i < final(r)@.len() ==> (#[trigger] final(r)@[i])@ == s@
            || exists|j: int| 0 <= j < old(r)@.len() && final(r)@[i]@ == (#[trigger] old(r)@[j])@,
        exists|i: int| 0 <= i < final(r)@.len() && (#[trigger] final(r)@[i])@ == s@,
        forall|j: int| 0 <= j < old(r)@.len() ==> exists|i: int| 0 <= i < final(r)@.len() && (#[trigger] final(r)@[i])@ == (#[trigger] old(r)@[j])@,
{
    let sv = chars_of(s.as_str());
    let ghost v0 = paths_of(r@);
    let mut p: usize = 0;
    while p < r.len() && before(&chars_of(r[p].as_str()), &sv)
        invariant
            p <= r.len(),
            v0 == paths_of(r@),
            forall|i: int| 0 <= i < p ==> chars_before(#[trigger] v0[i], s@),
            sv@ == s@,
        decreases r.len() - p,
    {
        assert(v0[p as int] == r@[p as int]@);
        p += 1;
    }
    if p < r.len() && chars_eq(&chars_of(r[p].as_str()), &sv) {
        assert(v0[p as int] == s@);
        return;
    }
    proof {
        if p < r@.len() {
            lemma_before_total(v0[p as int], s@);
        }
    }
    let ghost old_r = r@;
    r.insert(p, s);
    proof {
        let v1 = paths_of(r@);
        assert forall|i: int| 0 <= i < r@.len() implies v1[i] == (if i < p { v0[i] } else if i == p { s@ } else { v0[i - 1] }) by {
            assert(v1[i] == r@[i]@);
        }
        assert forall|i: int, j: int| 0 <= i < j < v1.len() implies chars_before(#[trigger] v1[i], #[trigger] v1[j]) by {
            if i < p && j == p {
            } else if i < p && j > p {
                assert(chars_before(v0[i], v0[j - 1])) by {
                    if i < j - 1 {} else { lemma_before_total(v0[i], v0[i]); }
                }
                if i == j - 1 {
                    lemma_before_total(v0[i], s@);
                }
            } else if i == p && j > p {
                if j - 1 > p {
                    lemma_before_trans(s@, v0[p as int], v0[j - 1]);
                }
            } else if i > p {
                assert(chars_before(v0[i - 1], v0[j - 1]));
            }
        }
        assert forall|i: int| 0 <= i < r@.len() implies (#[trigger] r@[i])@ == s@
            || exists|j: int| 0 <= j < old_r.len() && r@[i]@ == (#[trigger] old_r[j])@ by {
            if i < p {
                assert(r@[i] == old_r[i]);
            } else if i > p {
                assert(r@[i] == old_r[i - 1]);
            }
        }
        assert(r@[p as int]@ == s@);
        assert forall|j: int| 0 <= j < old_r.len() implies exists|i: int| 0 <= i < r@.len() && (#[trigger] r@[i])@ == (#[trigger] old_r[j])@ by {
            if j < p {
                assert(r@[j] == old_r[j]);
            } else {
                assert(r@[j + 1] == old_r[j]);
            }
        }
    }
}

/// The product a directory file stands for, if any.
pub fn product_stem(file_name: &str, is_file: bool, header: &[u8]) -> (r: Option<String>)
    ensures
        match r {
            Some(s) => stem_spec(file_name@, is_file, header@) == Some(s@),
            None => stem_spec(file_name@, is_file, header@) is None,
        },
{
    let v = chars_of(file_name);
    let mut n: usize = v.len();
    while n > 0 && v[n - 1] != '.'
        invariant
            n <= v@.len(),
            v@ == file_name@,
            last_dot(v@, v@.len() as int) == last_dot(v@, n as int),
        decreases n,
    {
        n -= 1;
    }
    if n > 1 {
        let k = n - 1;
        let ext = subvec(&v, k + 1, v.len());
        let idb = chars_of("idb");
        if crate::mach::chars_eq(&ext, &idb) {
            return Some(string_of(&subvec(&v, 0, k)));
        }
        return None;
    }
    if is_file && header.len() >= 6 && header[0] == 0x70 && header[1] == 0x64 && header[2] == 0x30
        && header[3] == 0x30 && header[4] == 0x31 && header[5] == 0x56 {
        assert(header@.take(6) =~= seq![0x70u8, 0x64u8, 0x30u8, 0x30u8, 0x31u8, 0x56u8]);
        return Some(string_of(&v));
    }
    assert(!(header@.len() >= 6 && header@.take(6) == seq![0x70u8, 0x64u8, 0x30u8, 0x30u8, 0x31u8, 0x56u8])
        || !is_file) by {
        if header@.len() >= 6 && header@.take(6) == seq![0x70u8, 0x64u8, 0x30u8, 0x30u8, 0x31u8, 0x56u8] {
            assert(header@.take(6)[0] == header@[0] && header@.take(6)[1] == header@[1]);
            assert(header@.take(6)[2] == header@[2] && header@.take(6)[3] == header@[3]);
            assert(header@.take(6)[4] == header@[4] && header@.take(6)[5] == header@[5]);
        }
    }
    None
}

/// The diagnostic of a product that could not be built.
pub fn skipped_product(stem: &str, error: &crate::error::Error) -> (d: Diagnostic)
    ensures
        d.severity == crate::diagnostic::Severity::Error,
        d.message@ == "skipping product: "@ + crate::error::error_text(*error),
        d.origin matches Some(o) && o@ == stem@,
{
    let mut message = String::new();
    append_str(&mut message, "skipping product: ");
    append_str(&mut message, error.to_string().as_str());
    Diagnostic::error(message, Some(string_of(&chars_of(stem))))
}

/// The profile lines of a selection summary.
pub open spec fn pair_lines(pairs: Seq<(String, String)>, n: int) -> Seq<char>
    decreases n,
{
    if n <= 0 {
        Seq::empty()
    } else {
        pair_lines(pairs, n - 1) + "  "@ + pairs[n - 1].0@ + " = "@ + pairs[n - 1].1@ + seq!['\n']
    }
}

/// The path lines of the selected entries.
pub open spec fn selected_lines<'a>(v: Seq<crate::distribution::LocatedEntry<'a>>, n: int) -> Seq<char>
    decreases n,
{
    if n <= 0 {
        Seq::empty()
    } else {
        selected_lines(v, n - 1) + v[n - 1].entry.path@ + seq!['\n']
    }
}

/// The conflicts of a selection, by reference.
pub open spec fn conflict_refs<'a>(v: Seq<SelectionConflict<'a>>) -> Seq<&SelectionConflict<'a>> {
    v.map_values(|c: SelectionConflict<'a>| &c)
}

/// The summary of a hardware selection.
pub open spec fn summary_text<'a>(pairs: Seq<(String, String)>, selection: EntrySelection<'a>, list: bool) -> Seq<char> {
    "Hardware profile:\n"@ + (if pairs.len() == 0 { "  (none)\n"@ } else { Seq::empty() })
        + pair_lines(pairs, pairs.len() as int) + seq!['\n']
        + "Selected entries: "@ + decimal_spec(selection.selected@.len()) + seq!['\n']
        + "Conflicts:        "@ + decimal_spec(selection.conflicts@.len()) + seq!['\n']
        + (if list { seq!['\n'] + selected_lines(selection.selected@, selection.selected@.len() as int) } else { Seq::empty() })
        + (if selection.conflicts@.len() > 0 {
            seq!['\n'] + conflicts_text(conflict_refs(selection.conflicts@), selection.conflicts@.len() as int)
        } else {
            Seq::empty()
        })
}

/// Renders the summary of a hardware selection: the profile, the counts,
/// optionally every selected path, and the conflicts.
pub fn selection_summary(pairs: &[(String, String)], selection: &EntrySelection<'_>, list: bool) -> (r: String)
    ensures
        r@ == summary_text(pairs@, *selection, list),
{
    let mut out = String::new();
    append_str(&mut out, "Hardware profile:\n");
    if pairs.len() == 0 {
        append_str(&mut out, "  (none)\n");
    }
    let ghost start = out@;
    let mut k: usize = 0;
    while k < pairs.len()
        invariant
            k <= pairs.len(),
            out@ == start + pair_lines(pairs@, k as int),
        decreases pairs.len() - k,
    {
        append_str(&mut out, "  ");
        append_str(&mut out, pairs[k].0.as_str());
        append_str(&mut out, " = ");
        append_str(&mut out, pairs[k].1.as_str());
        crate::text::push_char(&mut out, '\n');
        k += 1;
        assert(out@ =~= start + pair_lines(pairs@, k as int));
    }
    crate::text::push_char(&mut out, '\n');
    append_str(&mut out, "Selected entries: ");
    append_str(&mut out, decimal(selection.selected.len() as u64).as_str());
    crate::text::push_char(&mut out, '\n');
    append_str(&mut out, "Conflicts:        ");
    append_str(&mut out, decimal(selection.conflicts.len() as u64).as_str());
    crate::text::push_char(&mut out, '\n');
    let ghost middle = out@;
    if list {
        crate::text::push_char(&mut out, '\n');
        let ghost begin = out@;
        let mut q: usize = 0;
        while q < selection.selected.len()
            invariant
                q <= selection.selected.len(),
                out@ == begin + selected_lines(selection.selected@, q as int),
            decreases selection.selected.len() - q,
        {
            append_str(&mut out, selection.selected[q].entry.path.as_str());
            crate::text::push_char(&mut out, '\n');
            q += 1;
            assert(out@ =~= begin + selected_lines(selection.selected@, q as int));
        }
    }
    let ghost late = out@;
    if selection.conflicts.len() > 0 {
        crate::text::push_char(&mut out, '\n');
        let mut refs: Vec<&SelectionConflict<'_>> = Vec::new();
        let mut q: usize = 0;
        while q < selection.conflicts.len()
            invariant
                q <= selection.conflicts.len(),
                refs@ == conflict_refs(selection.conflicts@).take(q as int),
            decreases selection.conflicts.len() - q,
        {
            refs.push(&selection.conflicts[q]);
            q += 1;
            assert(refs@ =~= conflict_refs(selection.conflicts@).take(q as int));
        }
        assert(conflict_refs(selection.conflicts@).take(selection.conflicts@.len() as int) =~= conflict_refs(selection.conflicts@));
        append_str(&mut out, conflict_report(refs.as_slice()).as_str());
    }
    assert(out@ =~= summary_text(pairs@, *selection, list));
    out
}

/// The conflicts with a candidate among the entries of `scope`, in
/// order.
pub open spec fn touching_spec<'a>(cs: Seq<SelectionConflict<'a>>, scope: Seq<LocatedEntry<'a>>) -> Seq<SelectionConflict<'a>>
    decreases cs.len(),
{
    if cs.len() == 0 {
        Seq::empty()
    } else {
        let rest = touching_spec(cs.drop_last(), scope);
        if touches(cs.last(), scope) { rest.push(cs.last()) } else { rest }
    }
}

/// Narrows a hardware selection to the entries a search found: the
/// selected entries whose keys the search holds, in selection order, and
/// the conflicts with a candidate among the found entries.
pub fn restrict_selection<'a, 'b>(
    selection: &'b EntrySelection<'a>,
    found: &[LocatedEntry<'a>],
) -> (r: (Vec<LocatedEntry<'a>>, Vec<&'b SelectionConflict<'a>>))
    ensures
        r.0@ == gated_spec(selection.selected@, found@),
        r.1@ == conflict_refs(touching_spec(selection.conflicts@, found@)),
{
    let mut kept: Vec<LocatedEntry<'a>> = Vec::new();
    let mut i: usize = 0;
    while i < selection.selected.len()
        invariant
            i <= selection.selected.len(),
            kept@ == gated_spec(selection.selected@.take(i as int), found@),
        decreases selection.selected.len() - i,
    {
        proof {
            assert(selection.selected@.take(i as int + 1).drop_last() =~= selection.selected@.take(i as int));
        }
        if has_key(found, selection.selected[i].key) {
            kept.push(selection.selected[i]);
        }
        i += 1;
    }
    assert(selection.selected@.take(selection.selected@.len() as int) =~= selection.selected@);
    let mut touching: Vec<&'b SelectionConflict<'a>> = Vec::new();
    let mut q: usize = 0;
    while q < selection.conflicts.len()
        invariant
            q <= selection.conflicts.len(),
            touching@ == conflict_refs(touching_spec(selection.conflicts@.take(q as int), found@)),
        decreases selection.conflicts.len() - q,
    {
        let conflict = &selection.conflicts[q];
        let mut hit = false;
        let mut x: usize = 0;
        while x < conflict.candidates.len()
            invariant
                x <= conflict.candidates.len(),
                hit == exists|k: int| 0 <= k < x && holds_key(found@, (#[trigger] conflict.candidates@[k]).key),
            decreases conflict.candidates.len() - x,
        {
            if has_key(found, conflict.candidates[x].key) {
                hit = true;
            }
            x += 1;
        }
        proof {
            assert(selection.conflicts@.take(q as int + 1).drop_last() =~= selection.conflicts@.take(q as int));
            assert(hit == touches(selection.conflicts@[q as int], found@));
        }
        let ghost before = touching@;
        if hit {
            touching.push(conflict);
        }
        q += 1;
        proof {
            let prior = touching_spec(selection.conflicts@.take(q - 1), found@);
            if hit {
                assert(touching@ =~= conflict_refs(prior.push(selection.conflicts@[q - 1])));
            }
        }
    }
    assert(selection.conflicts@.take(selection.conflicts@.len() as int) =~= selection.conflicts@);
    (kept, touching)
}

} // verus!
