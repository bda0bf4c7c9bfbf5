//! Normalized IRIX destination paths.
use vstd::prelude::*;
use vstd::string::StrSliceExecFns;
use crate::error::Error;
use crate::text::{
    chars_of, contains_char, join_chars, join_on, lemma_split_join, lemma_split_on_shape,
    seqs_of, split_chars, split_on, string_of,
};

verus! {

/// `.` as a path component.
pub open spec fn dot() -> Seq<char> {
    seq!['.']
}

/// `..` as a path component.
pub open spec fn dot_dot() -> Seq<char> {
    seq!['.', '.']
}

/// One step of a lexical pathname walk: empty and `.` components are
/// dropped, `..` pops (failing above the root), anything else is
/// pushed.
pub open spec fn walk_step(stack: Option<Seq<Seq<char>>>, comp: Seq<char>) -> Option<Seq<Seq<char>>> {
    match stack {
        None => None,
        Some(st) => if comp.len() == 0 || comp == dot() {
            Some(st)
        } else if comp == dot_dot() {
            if st.len() == 0 {
                None
            } else {
                Some(st.drop_last())
            }
        } else {
            Some(st.push(comp))
        },
    }
}

/// The lexical walk over all components, left to right.
pub open spec fn walk(comps: Seq<Seq<char>>) -> Option<Seq<Seq<char>>>
    decreases comps.len(),
{
    if comps.len() == 0 {
        Some(Seq::<Seq<char>>::empty())
    } else {
        walk_step(walk(comps.drop_last()), comps.last())
    }
}

/// The normalized form of a raw IDB path, or `None` when it contains
/// NUL or escapes the root.
pub open spec fn normalize(raw: Seq<char>) -> Option<Seq<char>> {
    if raw.contains('\0') {
        None
    } else {
        match walk(split_on(raw, '/')) {
            None => None,
            Some(st) => Some(join_on(st, '/')),
        }
    }
}

/// A component that survives normalization unchanged.
pub open spec fn plain_component(c: Seq<char>) -> bool {
    c.len() > 0 && c != dot() && c != dot_dot() && !c.contains('/') && !c.contains('\0')
}

/// Components that a normalized path is made of.
pub open spec fn plain_components(st: Seq<Seq<char>>) -> bool {
    forall|i: int| 0 <= i < st.len() ==> #[trigger] plain_component(st[i])
}

/// The walk only ever holds plain components.
proof fn lemma_walk_plain(comps: Seq<Seq<char>>)
    requires
        forall|i: int| 0 <= i < comps.len() ==> !(#[trigger] comps[i]).contains('/') && !comps[i].contains('\0'),
    ensures
        walk(comps) matches Some(st) ==> plain_components(st),
    decreases comps.len(),
{
    if comps.len() > 0 {
        let init = comps.drop_last();
        assert forall|i: int| 0 <= i < init.len() implies !(#[trigger] init[i]).contains('/') && !init[i].contains('\0') by {
            assert(!comps[i].contains('/') && !comps[i].contains('\0'));
        }
        lemma_walk_plain(init);
        assert(!comps[comps.len() - 1].contains('/') && !comps[comps.len() - 1].contains('\0'));
    }
}

/// Once the walk has escaped the root, it stays failed.
proof fn lemma_walk_stays_failed(comps: Seq<Seq<char>>, i: int)
    requires
        0 <= i <= comps.len(),
        walk(comps.take(i)) is None,
    ensures
        walk(comps) is None,
    decreases comps.len() - i,
{
    if i == comps.len() {
        assert(comps.take(i) == comps);
    } else {
        assert(comps.take(i + 1).drop_last() == comps.take(i));
        lemma_walk_stays_failed(comps, i + 1);
    }
}

/// Walking plain components keeps them all.
proof fn lemma_walk_of_plain(st: Seq<Seq<char>>)
    requires
        plain_components(st),
    ensures
        walk(st) == Some(st),
    decreases st.len(),
{
    if st.len() > 0 {
        assert(plain_components(st.drop_last())) by {
            assert forall|i: int| 0 <= i < st.drop_last().len() implies #[trigger] plain_component(st.drop_last()[i]) by {
                assert(plain_component(st[i]));
            }
        }
        lemma_walk_of_plain(st.drop_last());
        assert(plain_component(st[st.len() - 1]));
        assert(st.drop_last().push(st.last()) =~= st);
    }
}

/// A normalized IRIX path is the join of plain components.
pub open spec fn is_normalized(s: Seq<char>) -> bool {
    exists|st: Seq<Seq<char>>| plain_components(st) && #[trigger] join_on(st, '/') == s
}

/// A normalized, extraction-safe IRIX path.
///
/// IDB records write destination paths in several spellings
/// (`/usr/lib/foo`, `usr/lib/foo`, `./usr/lib/foo`,
/// `usr/gfx/ucode/MG/../ge11.bin`); `IrixPath` normalizes all of these
/// to the canonical relative form by resolving `.` and `..` lexically,
/// exactly like a pathname walk would. Anything that would escape the
/// distribution root is rejected. The empty path represents the
/// distribution root itself (IDB uses `.` for it).
#[derive(Debug)]
pub struct IrixPath(String);

impl View for IrixPath {
    type V = Seq<char>;

    closed spec fn view(&self) -> Seq<char> {
        self.0@
    }
}

impl Clone for IrixPath {
    fn clone(&self) -> (r: Self)
        ensures
            r@ == self@,
    {
        IrixPath(self.0.clone())
    }
}

impl PartialEq for IrixPath {
    fn eq(&self, other: &Self) -> (r: bool) {
        self.0 == other.0
    }
}

impl vstd::std_specs::cmp::PartialEqSpecImpl for IrixPath {
    open spec fn obeys_eq_spec() -> bool {
        true
    }

    open spec fn eq_spec(&self, other: &Self) -> bool {
        self@ == other@
    }
}

impl Eq for IrixPath {}

/// Joining plain components and splitting again gives them back.
proof fn lemma_split_join_plain(st: Seq<Seq<char>>)
    requires
        plain_components(st),
        st.len() >= 1,
    ensures
        split_on(join_on(st, '/'), '/') == st,
{
    assert forall|i: int| 0 <= i < st.len() implies !(#[trigger] st[i]).contains('/') by {
        assert(plain_component(st[i]));
    }
    lemma_split_join(st, '/');
}

impl IrixPath {
    /// Normalizes a raw IDB destination path, resolving `.` and `..`
    /// lexically.
    ///
    /// Returns [`Error::UnsafePath`] if the path escapes the
    /// distribution root (`..` above the root) or contains a NUL byte.
    pub fn new(raw: &str) -> (r: Result<Self, Error>)
        ensures
            r is Ok <==> normalize(raw@) is Some,
            r matches Ok(p) ==> Some(p@) == normalize(raw@) && is_normalized(p@),
            r matches Err(e) ==> e matches Error::UnsafePath { path } && path@ == raw@,
    {
        let v = chars_of(raw);
        if contains_char(&v, '\0') {
            return Err(Error::UnsafePath { path: string_of(&v) });
        }
        let parts = split_chars(&v, '/');
        let ghost comps = seqs_of(parts@);
        proof {
            lemma_split_on_shape(raw@, '/');
        }
        let mut stack: Vec<Vec<char>> = Vec::new();
        let mut i: usize = 0;
        while i < parts.len()
            invariant
                i <= parts.len(),
                comps == seqs_of(parts@),
                comps == split_on(raw@, '/'),
                v@ == raw@,
                walk(comps.take(i as int)) == Some(seqs_of(stack@)),
            decreases parts.len() - i,
        {
            let part = &parts[i];
            let ghost before = seqs_of(stack@);
            assert(comps.take(i + 1).drop_last() == comps.take(i as int));
            assert(comps.take(i + 1).last() == part@);
            if part.len() == 0 || (part.len() == 1 && part[0] == '.') {
                assert(part@.len() == 0 || part@ =~= dot());
            } else if part.len() == 2 && part[0] == '.' && part[1] == '.' {
                assert(part@ =~= dot_dot());
                if stack.len() == 0 {
                    proof {
                        lemma_walk_stays_failed(comps, i + 1);
                    }
                    return Err(Error::UnsafePath { path: string_of(&v) });
                }
                stack.pop();
                assert(seqs_of(stack@) =~= before.drop_last());
            } else {
                assert(part@ != dot()) by {
                    if part@.len() == 1 {
                        assert(part@[0] != '.');
                    }
                }
                assert(part@ != dot_dot()) by {
                    if part@.len() == 2 {
                        assert(part@[0] != '.' || part@[1] != '.');
                    }
                }
                stack.push(part.clone());
                assert(seqs_of(stack@) =~= before.push(part@));
            }
            i += 1;
        }
        assert(comps.take(parts.len() as int) == comps);
        let joined = join_chars(&stack, '/');
        proof {
            assert forall|k: int| 0 <= k < comps.len() implies !(#[trigger] comps[k]).contains('/') && !comps[k].contains('\0') by {
                if comps[k].contains('\0') {
                    let j = choose|j: int| 0 <= j < comps[k].len() && comps[k][j] == '\0';
                    crate::text::lemma_piece_in(raw@, '/', k, j);
                }
            }
            lemma_walk_plain(comps);
            assert(is_normalized(joined@)) by {
                assert(plain_components(seqs_of(stack@)) && join_on(seqs_of(stack@), '/') == joined@);
            }
        }
        Ok(IrixPath(string_of(&joined)))
    }

    /// The normalized path, relative to the distribution root.
    pub fn as_str(&self) -> (r: &str)
        ensures
            r@ == self@,
    {
        self.0.as_str()
    }

    /// The path as text (what `Display` shows).
    pub fn to_string(&self) -> (r: String)
        ensures
            r@ == self@,
    {
        self.0.clone()
    }

    /// Whether this path denotes the distribution root (IDB `.`).
    pub fn is_root(&self) -> (r: bool)
        ensures
            r == (self@.len() == 0),
    {
        self.0.as_str().is_empty()
    }

    /// The final component, if any.
    pub fn file_name(&self) -> (r: Option<&str>)
        ensures
            r is Some <==> file_name_of(self@) is Some,
            r matches Some(n) ==> file_name_of(self@) == Some(n@),
    {
        let v = chars_of(self.0.as_str());
        let parts = split_chars(&v, '/');
        proof {
            lemma_split_on_shape(self@, '/');
            crate::text::lemma_last_piece_suffix(self@, '/');
        }
        let last = parts.len() - 1;
        let n = parts[last].len();
        if n == 0 {
            return None;
        }
        Some(self.0.as_str().substring_char(v.len() - n, v.len()))
    }

    /// The parent path, or `None` if this path is the root or has a
    /// single component.
    pub fn parent(&self) -> (r: Option<IrixPath>)
        ensures
            r is Some <==> parent_of(self@) is Some,
            r matches Some(p) ==> parent_of(self@) == Some(p@),
    {
        let v = chars_of(self.0.as_str());
        let mut parts = split_chars(&v, '/');
        proof {
            lemma_split_on_shape(self@, '/');
        }
        if parts.len() == 1 {
            return None;
        }
        let ghost all = seqs_of(parts@);
        parts.pop();
        assert(seqs_of(parts@) =~= all.drop_last());
        let joined = join_chars(&parts, '/');
        Some(IrixPath(string_of(&joined)))
    }

    /// Strips a leading path prefix, component-wise.
    ///
    /// Stripping the path itself yields the (empty) root path, which maps
    /// to the output directory during extraction. Returns `None` only
    /// when this path is not below `prefix`.
    pub fn strip_prefix(&self, prefix: &IrixPath) -> (r: Option<IrixPath>)
        ensures
            r is Some <==> strip_prefix_of(self@, prefix@) is Some,
            r matches Some(p) ==> strip_prefix_of(self@, prefix@) == Some(p@),
    {
        if prefix.is_root() {
            return Some(self.clone());
        }
        let sv = chars_of(self.0.as_str());
        let pv = chars_of(prefix.0.as_str());
        if sv.len() <= pv.len() {
            if sv.len() == pv.len() && starts_with_chars(&sv, &pv) {
                assert(sv@ =~= pv@);
                return Some(IrixPath(String::new()));
            }
            assert(sv@.take(sv@.len() as int) =~= sv@);
            assert(self@ != prefix@ && !(self@.len() > prefix@.len()));
            return None;
        }
        if !starts_with_chars(&sv, &pv) || sv[pv.len()] != '/' {
            return None;
        }
        let mut rest: Vec<char> = Vec::new();
        let mut i = pv.len() + 1;
        while i < sv.len()
            invariant
                pv.len() + 1 <= i <= sv.len(),
                rest@ == sv@.subrange(pv.len() + 1, i as int),
            decreases sv.len() - i,
        {
            rest.push(sv[i]);
            i += 1;
        }
        assert(rest@ == self@.skip(prefix@.len() as int + 1));
        Some(IrixPath(string_of(&rest)))
    }
}

/// Whether `v` starts with `p`.
fn starts_with_chars(v: &Vec<char>, p: &Vec<char>) -> (r: bool)
    ensures
        r == (p@.len() <= v@.len() && v@.take(p@.len() as int) == p@),
{
    if p.len() > v.len() {
        return false;
    }
    let mut i: usize = 0;
    while i < p.len()
        invariant
            i <= p.len() <= v.len(),
            forall|k: int| 0 <= k < i ==> v@[k] == p@[k],
        decreases p.len() - i,
    {
        if v[i] != p[i] {
            assert(v@.take(p@.len() as int)[i as int] != p@[i as int]);
            return false;
        }
        i += 1;
    }
    assert(v@.take(p@.len() as int) =~= p@);
    true
}

/// The final component of a path: the text after the last `/`, unless
/// it is empty.
pub open spec fn file_name_of(s: Seq<char>) -> Option<Seq<char>> {
    let parts = split_on(s, '/');
    if parts.last().len() == 0 {
        None
    } else {
        Some(parts.last())
    }
}

/// The text before the last `/`, if there is one.
pub open spec fn parent_of(s: Seq<char>) -> Option<Seq<char>> {
    let parts = split_on(s, '/');
    if parts.len() <= 1 {
        None
    } else {
        Some(join_on(parts.drop_last(), '/'))
    }
}

/// Component-wise prefix stripping: the root prefix keeps every path,
/// the path itself strips to the root, and `a/b` stripped of `a` is `b`.
pub open spec fn strip_prefix_of(s: Seq<char>, prefix: Seq<char>) -> Option<Seq<char>> {
    if prefix.len() == 0 {
        Some(s)
    } else if s == prefix {
        Some(Seq::<char>::empty())
    } else if s.len() > prefix.len() && s.take(prefix.len() as int) == prefix && s[prefix.len() as int] == '/' {
        Some(s.skip(prefix.len() as int + 1))
    } else {
        None
    }
}

/// A path is its parent, a `/` and its file name.
pub proof fn lemma_parent_and_file_name(s: Seq<char>)
    requires
        parent_of(s) is Some,
        file_name_of(s) is Some,
    ensures
        parent_of(s)->0.push('/') + file_name_of(s)->0 == s,
{
    let parts = split_on(s, '/');
    lemma_split_on_shape(s, '/');
    crate::text::lemma_join_split(s, '/');
    assert(join_on(parts, '/') == join_on(parts.drop_last(), '/').push('/') + parts.last());
}

/// Stripping a proper prefix leaves the rest after `prefix/`.
pub proof fn lemma_strip_prefix_rejoins(s: Seq<char>, prefix: Seq<char>)
    requires
        prefix.len() > 0,
        strip_prefix_of(s, prefix) matches Some(r) && r.len() > 0,
    ensures
        prefix.push('/') + strip_prefix_of(s, prefix)->0 == s,
{
    let r = strip_prefix_of(s, prefix)->0;
    assert(prefix.push('/') + r =~= s);
}

/// Normalizing a normalized path changes nothing: `IrixPath::new` is
/// idempotent.
pub proof fn lemma_normalize_idempotent(s: Seq<char>)
    requires
        is_normalized(s),
    ensures
        normalize(s) == Some(s),
{
    let st = choose|st: Seq<Seq<char>>| plain_components(st) && #[trigger] join_on(st, '/') == s;
    if st.len() == 0 {
        assert(s =~= Seq::<char>::empty());
        assert(split_on(s, '/') =~= seq![Seq::<char>::empty()]);
        assert(walk(seq![Seq::<char>::empty()].drop_last()) == Some(Seq::<Seq<char>>::empty()));
        assert(walk(split_on(s, '/')) == Some(Seq::<Seq<char>>::empty()));
    } else {
        lemma_split_join_plain(st);
        lemma_walk_of_plain(st);
    }
    assert(!s.contains('\0')) by {
        assert forall|i: int| 0 <= i < st.len() implies !(#[trigger] st[i]).contains('\0') by {
            assert(plain_component(st[i]));
        }
        crate::text::lemma_join_no_char(st, '/', '\0');
    }
}

} // verus!
