//! Character-level helpers shared by the parsers.
use vstd::prelude::*;

verus! {

/// The characters of a string slice, in order.
pub fn chars_of(s: &str) -> (v: Vec<char>)
    ensures
        v@ == s@,
{
    let mut v: Vec<char> = Vec::new();
    for c in it: s.chars()
        invariant
            v@ == it.seq().take(it.index() as int),
            it.seq() == s@,
    {
        v.push(c);
    }
    v
}

/// Appends one character to a string.
#[verifier::external_body]
pub fn push_char(s: &mut String, c: char)
    ensures
        final(s)@ == old(s)@.push(c),
{
    s.push(c);
}

/// Builds a string from characters.
pub fn string_of(v: &[char]) -> (s: String)
    ensures
        s@ == v@,
{
    let mut s = String::new();
    let mut i: usize = 0;
    while i < v.len()
        invariant
            i <= v.len(),
            s@ == v@.take(i as int),
        decreases v.len() - i,
    {
        push_char(&mut s, v[i]);
        i += 1;
        assert(v@.take(i as int) == v@.take((i - 1) as int).push(v@[i - 1]));
    }
    assert(v@.take(v@.len() as int) == v@);
    s
}

} // verus!

verus! {

/// The pieces of `s` between occurrences of `c` (always at least one,
/// possibly empty, piece), as `str::split` yields them.
pub open spec fn split_on(s: Seq<char>, c: char) -> Seq<Seq<char>>
    decreases s.len(),
{
    if s.len() == 0 {
        seq![Seq::<char>::empty()]
    } else {
        let r = split_on(s.drop_last(), c);
        if s.last() == c {
            r.push(Seq::<char>::empty())
        } else {
            r.update(r.len() - 1, r.last().push(s.last()))
        }
    }
}

/// The pieces joined with `c` between them.
pub open spec fn join_on(parts: Seq<Seq<char>>, c: char) -> Seq<char>
    decreases parts.len(),
{
    if parts.len() == 0 {
        Seq::<char>::empty()
    } else if parts.len() == 1 {
        parts[0]
    } else {
        join_on(parts.drop_last(), c).push(c) + parts.last()
    }
}

/// Splitting always yields at least one piece, and no piece holds the
/// separator.
pub proof fn lemma_split_on_shape(s: Seq<char>, c: char)
    ensures
        split_on(s, c).len() >= 1,
        forall|i: int| 0 <= i < split_on(s, c).len() ==> !(#[trigger] split_on(s, c)[i]).contains(c),
    decreases s.len(),
{
    if s.len() > 0 {
        lemma_split_on_shape(s.drop_last(), c);
        let r = split_on(s.drop_last(), c);
        if s.last() != c {
            let last = r.last().push(s.last());
            assert forall|k: int| 0 <= k < last.len() implies last[k] != c by {
                if k < r.last().len() {
                    assert(!r[r.len() - 1].contains(c));
                    assert(r.last()[k] != c);
                }
            }
            assert forall|i: int| 0 <= i < split_on(s, c).len() implies !(#[trigger] split_on(s, c)[i]).contains(c) by {
                if i < r.len() - 1 {
                    assert(!r[i].contains(c));
                }
            }
        } else {
            assert forall|i: int| 0 <= i < split_on(s, c).len() implies !(#[trigger] split_on(s, c)[i]).contains(c) by {
                if i < r.len() {
                    assert(!r[i].contains(c));
                }
            }
        }
    }
}

/// Joining the pieces of a split gives back the text that was split.
pub proof fn lemma_join_split(s: Seq<char>, c: char)
    ensures
        join_on(split_on(s, c), c) == s,
    decreases s.len(),
{
    if s.len() > 0 {
        lemma_split_on_shape(s.drop_last(), c);
        lemma_join_split(s.drop_last(), c);
        let r = split_on(s.drop_last(), c);
        if s.last() == c {
            assert(split_on(s, c).drop_last() == r);
            assert(s == s.drop_last().push(c));
        } else {
            let u = r.update(r.len() - 1, r.last().push(s.last()));
            if r.len() == 1 {
                assert(s == s.drop_last().push(s.last()));
            } else {
                assert(u.drop_last() == r.drop_last());
                assert(join_on(r, c) == join_on(r.drop_last(), c).push(c) + r.last());
                assert(s == s.drop_last().push(s.last()));
                assert(join_on(u, c) == join_on(r.drop_last(), c).push(c) + r.last().push(s.last()));
            }
        }
    }
}

/// The character sequences held by a list of character vectors.
pub open spec fn seqs_of(v: Seq<Vec<char>>) -> Seq<Seq<char>> {
    v.map_values(|x: Vec<char>| x@)
}

/// Splits characters at every `c`, as `str::split` does.
pub fn split_chars(v: &[char], c: char) -> (parts: Vec<Vec<char>>)
    ensures
        seqs_of(parts@) == split_on(v@, c),
{
    let mut parts: Vec<Vec<char>> = Vec::new();
    let mut cur: Vec<char> = Vec::new();
    let mut i: usize = 0;
    while i < v.len()
        invariant
            i <= v.len(),
            seqs_of(parts@).push(cur@) == split_on(v@.take(i as int), c),
        decreases v.len() - i,
    {
        let ghost before = v@.take(i as int);
        assert(v@.take(i + 1).drop_last() == before);
        if v[i] == c {
            let ghost old_parts = seqs_of(parts@);
            let ghost old_cur = cur@;
            let done = cur;
            parts.push(done);
            cur = Vec::new();
            assert(seqs_of(parts@) =~= old_parts.push(old_cur));
            assert(seqs_of(parts@).push(cur@) =~= split_on(before, c).push(Seq::<char>::empty()));
        } else {
            let ghost old_parts = seqs_of(parts@);
            cur.push(v[i]);
            assert(seqs_of(parts@) =~= old_parts);
            assert(seqs_of(parts@).push(cur@) == old_parts.push(cur@.drop_last()).update(old_parts.len() as int, cur@));
        }
        i += 1;
    }
    assert(v@.take(v.len() as int) == v@);
    let ghost old_parts = seqs_of(parts@);
    let ghost old_cur = cur@;
    parts.push(cur);
    assert(seqs_of(parts@) =~= old_parts.push(old_cur));
    parts
}

/// Whether the characters contain `c`.
pub fn contains_char(v: &[char], c: char) -> (r: bool)
    ensures
        r == v@.contains(c),
{
    let mut i: usize = 0;
    while i < v.len()
        invariant
            i <= v.len(),
            forall|k: int| 0 <= k < i ==> v@[k] != c,
        decreases v.len() - i,
    {
        if v[i] == c {
            assert(v@[i as int] == c);
            return true;
        }
        i += 1;
    }
    false
}

/// Unicode `White_Space`, as `char::is_whitespace` decides it.
pub open spec fn is_ws(c: char) -> bool {
    ||| ('\u{9}' <= c && c <= '\u{d}')
    ||| c == ' '
    ||| c == '\u{85}'
    ||| c == '\u{a0}'
    ||| c == '\u{1680}'
    ||| ('\u{2000}' <= c && c <= '\u{200a}')
    ||| c == '\u{2028}'
    ||| c == '\u{2029}'
    ||| c == '\u{202f}'
    ||| c == '\u{205f}'
    ||| c == '\u{3000}'
}

/// Whether `c` is Unicode whitespace.
pub fn is_whitespace(c: char) -> (r: bool)
    ensures
        r == is_ws(c),
{
    ('\u{9}' <= c && c <= '\u{d}') || c == ' ' || c == '\u{85}' || c == '\u{a0}' || c == '\u{1680}'
        || ('\u{2000}' <= c && c <= '\u{200a}') || c == '\u{2028}' || c == '\u{2029}'
        || c == '\u{202f}' || c == '\u{205f}' || c == '\u{3000}'
}

} // verus!

verus! {

/// Joins character pieces with `c` between them.
pub fn join_chars(parts: &Vec<Vec<char>>, c: char) -> (r: Vec<char>)
    ensures
        r@ == join_on(seqs_of(parts@), c),
{
    let mut r: Vec<char> = Vec::new();
    let mut i: usize = 0;
    while i < parts.len()
        invariant
            i <= parts.len(),
            r@ == join_on(seqs_of(parts@).take(i as int), c),
        decreases parts.len() - i,
    {
        let ghost before = r@;
        if i > 0 {
            r.push(c);
        }
        let part = &parts[i];
        let mut k: usize = 0;
        let ghost mid = r@;
        while k < part.len()
            invariant
                k <= part.len(),
                r@ == mid + part@.take(k as int),
            decreases part.len() - k,
        {
            r.push(part[k]);
            k += 1;
            assert(part@.take(k as int) == part@.take(k - 1).push(part@[k - 1]));
        }
        assert(part@.take(part.len() as int) == part@);
        let ghost s = seqs_of(parts@);
        assert(s.take(i + 1).drop_last() == s.take(i as int));
        assert(s.take(i + 1).last() == part@);
        i += 1;
    }
    assert(seqs_of(parts@).take(parts.len() as int) == seqs_of(parts@));
    r
}

/// Splitting a join gives back the pieces, when no piece holds the
/// separator.
pub proof fn lemma_split_join(parts: Seq<Seq<char>>, c: char)
    requires
        parts.len() >= 1,
        forall|i: int| 0 <= i < parts.len() ==> !(#[trigger] parts[i]).contains(c),
    ensures
        split_on(join_on(parts, c), c) == parts,
    decreases parts.len(), parts.last().len(),
{
    if parts.len() == 1 {
        lemma_split_plain(parts[0], c);
        assert(split_on(parts[0], c) == parts);
    } else if parts.last().len() == 0 {
        let init = parts.drop_last();
        assert forall|i: int| 0 <= i < init.len() implies !(#[trigger] init[i]).contains(c) by {
            assert(!parts[i].contains(c));
        }
        lemma_split_join(init, c);
        let j = join_on(parts, c);
        assert(j =~= join_on(init, c).push(c));
        assert(j.drop_last() =~= join_on(init, c));
        assert(parts.last() =~= Seq::<char>::empty());
        assert(parts =~= init.push(Seq::<char>::empty()));
    } else {
        let shorter = parts.update(parts.len() - 1, parts.last().drop_last());
        assert forall|i: int| 0 <= i < shorter.len() implies !(#[trigger] shorter[i]).contains(c) by {
            if i < parts.len() - 1 {
                assert(!parts[i].contains(c));
            } else {
                assert(!parts[parts.len() - 1].contains(c));
                if shorter[i].contains(c) {
                    let k = choose|k: int| 0 <= k < shorter[i].len() && shorter[i][k] == c;
                    assert(parts.last()[k] == c);
                }
            }
        }
        lemma_split_join(shorter, c);
        let j = join_on(parts, c);
        assert(shorter.drop_last() == parts.drop_last());
        assert(j =~= join_on(parts.drop_last(), c).push(c) + parts.last());
        assert(join_on(shorter, c) =~= join_on(parts.drop_last(), c).push(c) + parts.last().drop_last());
        assert(j.drop_last() =~= join_on(shorter, c));
        assert(!parts[parts.len() - 1].contains(c));
        assert(j.last() == parts.last().last());
        assert(j.last() != c);
        assert(shorter.last().push(j.last()) =~= parts.last());
        assert(parts =~= shorter.update(shorter.len() - 1, shorter.last().push(j.last())));
    }
}

/// A text without the separator splits into itself.
pub proof fn lemma_split_plain(s: Seq<char>, c: char)
    requires
        !s.contains(c),
    ensures
        split_on(s, c) == seq![s],
    decreases s.len(),
{
    if s.len() > 0 {
        assert(!s.drop_last().contains(c)) by {
            if s.drop_last().contains(c) {
                let k = choose|k: int| 0 <= k < s.drop_last().len() && s.drop_last()[k] == c;
                assert(s[k] == c);
            }
        }
        lemma_split_plain(s.drop_last(), c);
        assert(s.last() != c) by {
            assert(s[s.len() - 1] == s.last());
        }
        assert(s.drop_last().push(s.last()) =~= s);
        let r = split_on(s.drop_last(), c);
        assert(r.update(r.len() - 1, r.last().push(s.last())) =~= seq![s]);
    } else {
        assert(s =~= Seq::<char>::empty());
    }
}

} // verus!

verus! {

/// A character inside a piece of a split is a character of the text.
pub proof fn lemma_piece_in(s: Seq<char>, c: char, i: int, j: int)
    requires
        0 <= i < split_on(s, c).len(),
        0 <= j < split_on(s, c)[i].len(),
    ensures
        s.contains(split_on(s, c)[i][j]),
    decreases s.len(),
{
    if s.len() > 0 {
        let r = split_on(s.drop_last(), c);
        lemma_split_on_shape(s.drop_last(), c);
        if s.last() == c {
            if i < r.len() {
                lemma_piece_in(s.drop_last(), c, i, j);
                let k = choose|k: int| 0 <= k < s.drop_last().len() && s.drop_last()[k] == r[i][j];
                assert(s[k] == r[i][j]);
            }
        } else {
            if i < r.len() - 1 || j < r.last().len() {
                lemma_piece_in(s.drop_last(), c, i, j);
                let k = choose|k: int| 0 <= k < s.drop_last().len() && s.drop_last()[k] == r[i][j];
                assert(s[k] == r[i][j]);
            } else {
                assert(s[s.len() - 1] == split_on(s, c)[i][j]);
            }
        }
    }
}

/// A join holds a character only if the separator is it or a piece
/// holds it.
pub proof fn lemma_join_no_char(parts: Seq<Seq<char>>, c: char, d: char)
    requires
        c != d,
        forall|i: int| 0 <= i < parts.len() ==> !(#[trigger] parts[i]).contains(d),
    ensures
        !join_on(parts, c).contains(d),
    decreases parts.len(),
{
    if parts.len() > 1 {
        let init = parts.drop_last();
        assert forall|i: int| 0 <= i < init.len() implies !(#[trigger] init[i]).contains(d) by {
            assert(!parts[i].contains(d));
        }
        lemma_join_no_char(init, c, d);
        let j = join_on(parts, c);
        let a = join_on(init, c).push(c);
        assert(!parts[parts.len() - 1].contains(d));
        if j.contains(d) {
            let k = choose|k: int| 0 <= k < j.len() && j[k] == d;
            if k < a.len() {
                if k < a.len() - 1 {
                    assert(join_on(init, c)[k] == d);
                }
            } else {
                assert(parts.last()[k - a.len()] == d);
            }
        }
    } else if parts.len() == 1 {
        assert(!parts[0].contains(d));
    }
}

} // verus!

verus! {

/// The last piece of a split is the text after the last separator.
pub proof fn lemma_last_piece_suffix(s: Seq<char>, c: char)
    ensures
        split_on(s, c).len() >= 1,
        split_on(s, c).last().len() <= s.len(),
        split_on(s, c).last() == s.subrange(s.len() - split_on(s, c).last().len(), s.len() as int),
    decreases s.len(),
{
    lemma_split_on_shape(s, c);
    if s.len() > 0 {
        lemma_last_piece_suffix(s.drop_last(), c);
        let r = split_on(s.drop_last(), c);
        if s.last() != c {
            assert(split_on(s, c).last() =~= s.subrange(s.len() - split_on(s, c).last().len(), s.len() as int));
        } else {
            assert(split_on(s, c).last() =~= s.subrange(s.len() as int, s.len() as int));
        }
    } else {
        assert(split_on(s, c).last() =~= s.subrange(0, 0));
    }
}

} // verus!

verus! {

/// Appends a string slice to a string.
pub fn append_str(s: &mut String, t: &str)
    ensures
        final(s)@ == old(s)@ + t@,
{
    let v = chars_of(t);
    let mut i: usize = 0;
    let ghost head = s@;
    while i < v.len()
        invariant
            i <= v.len(),
            v@ == t@,
            s@ == head + v@.take(i as int),
        decreases v.len() - i,
    {
        push_char(s, v[i]);
        i += 1;
        assert(v@.take(i as int) == v@.take(i - 1).push(v@[i - 1]));
    }
    assert(v@.take(v.len() as int) == v@);
}

} // verus!

verus! {

/// `s` without its leading whitespace.
pub open spec fn trim_start_spec(s: Seq<char>) -> Seq<char>
    decreases s.len(),
{
    if s.len() > 0 && is_ws(s[0]) {
        trim_start_spec(s.skip(1))
    } else {
        s
    }
}

/// `s` without its trailing whitespace.
pub open spec fn trim_end_spec(s: Seq<char>) -> Seq<char>
    decreases s.len(),
{
    if s.len() > 0 && is_ws(s.last()) {
        trim_end_spec(s.drop_last())
    } else {
        s
    }
}

/// `s` without leading and trailing whitespace, as `str::trim` leaves it.
pub open spec fn trim_spec(s: Seq<char>) -> Seq<char> {
    trim_end_spec(trim_start_spec(s))
}

/// The characters without leading and trailing whitespace.
pub fn trim_chars(v: &[char]) -> (r: Vec<char>)
    ensures
        r@ == trim_spec(v@),
{
    let mut lo: usize = 0;
    assert(v@.skip(0) == v@);
    while lo < v.len() && is_whitespace(v[lo])
        invariant
            lo <= v.len(),
            trim_start_spec(v@) == trim_start_spec(v@.skip(lo as int)),
        decreases v.len() - lo,
    {
        assert(v@.skip(lo as int).skip(1) == v@.skip(lo + 1));
        lo += 1;
    }
    let ghost w = v@.skip(lo as int);
    assert(trim_start_spec(w) == w);
    let mut hi: usize = v.len();
    assert(w.take(hi - lo) == w);
    while hi > lo && is_whitespace(v[hi - 1])
        invariant
            lo <= hi <= v.len(),
            w == v@.skip(lo as int),
            trim_end_spec(w) == trim_end_spec(w.take(hi - lo)),
        decreases hi,
    {
        assert(w.take(hi - lo).drop_last() == w.take(hi - 1 - lo));
        hi -= 1;
    }
    assert(trim_end_spec(w.take(hi - lo)) == w.take(hi - lo));
    let mut r: Vec<char> = Vec::new();
    let mut i: usize = lo;
    while i < hi
        invariant
            lo <= i <= hi <= v.len(),
            r@ == v@.subrange(lo as int, i as int),
        decreases hi - i,
    {
        r.push(v[i]);
        i += 1;
        assert(r@ == v@.subrange(lo as int, i as int));
    }
    assert(r@ =~= w.take(hi - lo));
    r
}

/// Whether `s` contains `a` directly followed by `b`.
pub open spec fn contains_pair(s: Seq<char>, a: char, b: char) -> bool {
    exists|i: int| 0 <= i && i + 1 < s.len() && s[i] == a && #[trigger] s[i + 1] == b
}

/// Whether the characters contain `a` directly followed by `b`.
pub fn has_pair(v: &[char], a: char, b: char) -> (r: bool)
    ensures
        r == contains_pair(v@, a, b),
{
    let mut i: usize = 0;
    while i < v.len() && i + 1 < v.len()
        invariant
            i <= v.len(),
            forall|k: int| 0 <= k < i && k + 1 < v.len() ==> !(v@[k] == a && #[trigger] v@[k + 1] == b),
        decreases v.len() - i,
    {
        if v[i] == a && v[i + 1] == b {
            assert(v@[i + 1 as int] == b);
            return true;
        }
        i += 1;
    }
    assert forall|k: int| 0 <= k && k + 1 < v@.len() && v@[k] == a implies #[trigger] v@[k + 1] != b by {
        assert(k < i);
    }
    false
}

} // verus!

verus! {

/// `split_whitespace` as a left fold: the finished words and the word in
/// progress.
pub open spec fn ws_fold(s: Seq<char>) -> (Seq<Seq<char>>, Seq<char>)
    decreases s.len(),
{
    if s.len() == 0 {
        (Seq::<Seq<char>>::empty(), Seq::<char>::empty())
    } else {
        let (words, cur) = ws_fold(s.drop_last());
        if is_ws(s.last()) {
            if cur.len() > 0 {
                (words.push(cur), Seq::<char>::empty())
            } else {
                (words, Seq::<char>::empty())
            }
        } else {
            (words, cur.push(s.last()))
        }
    }
}

/// The whitespace-separated words of `s`, as `str::split_whitespace`
/// yields them.
pub open spec fn ws_words(s: Seq<char>) -> Seq<Seq<char>> {
    let (words, cur) = ws_fold(s);
    if cur.len() > 0 {
        words.push(cur)
    } else {
        words
    }
}

/// The whitespace-separated words of the characters.
pub fn split_words(v: &[char]) -> (words: Vec<Vec<char>>)
    ensures
        seqs_of(words@) == ws_words(v@),
{
    let mut words: Vec<Vec<char>> = Vec::new();
    let mut cur: Vec<char> = Vec::new();
    let mut i: usize = 0;
    while i < v.len()
        invariant
            i <= v.len(),
            seqs_of(words@) == ws_fold(v@.take(i as int)).0,
            cur@ == ws_fold(v@.take(i as int)).1,
        decreases v.len() - i,
    {
        assert(v@.take(i + 1).drop_last() == v@.take(i as int));
        let c = v[i];
        if is_whitespace(c) {
            if cur.len() > 0 {
                let ghost old_words = seqs_of(words@);
                let ghost done = cur@;
                let finished = cur;
                words.push(finished);
                cur = Vec::new();
                assert(seqs_of(words@) =~= old_words.push(done));
            } else {
                cur = Vec::new();
            }
        } else {
            let ghost old_words = seqs_of(words@);
            cur.push(c);
            assert(seqs_of(words@) =~= old_words);
        }
        i += 1;
    }
    assert(v@.take(v.len() as int) == v@);
    if cur.len() > 0 {
        let ghost old_words = seqs_of(words@);
        let ghost done = cur@;
        words.push(cur);
        assert(seqs_of(words@) =~= old_words.push(done));
    }
    words
}

} // verus!

verus! {

/// The character of a decimal digit.
pub open spec fn digit_char(d: nat) -> char {
    if d == 0 { '0' } else if d == 1 { '1' } else if d == 2 { '2' } else if d == 3 { '3' }
    else if d == 4 { '4' } else if d == 5 { '5' } else if d == 6 { '6' } else if d == 7 { '7' }
    else if d == 8 { '8' } else { '9' }
}

/// The decimal digits of `n`, without leading zeros.
pub open spec fn decimal_spec(n: nat) -> Seq<char>
    decreases n,
{
    if n < 10 {
        seq![digit_char(n)]
    } else {
        decimal_spec(n / 10).push(digit_char(n % 10))
    }
}

/// The character of one decimal digit.
pub fn digit(d: u64) -> (c: char)
    requires
        d < 10,
    ensures
        c == digit_char(d as nat),
{
    if d == 0 { '0' } else if d == 1 { '1' } else if d == 2 { '2' } else if d == 3 { '3' }
    else if d == 4 { '4' } else if d == 5 { '5' } else if d == 6 { '6' } else if d == 7 { '7' }
    else if d == 8 { '8' } else { '9' }
}

/// The decimal digits of `n`.
pub fn decimal_chars(n: u64) -> (v: Vec<char>)
    ensures
        v@ == decimal_spec(n as nat),
    decreases n,
{
    if n < 10 {
        vec![digit(n)]
    } else {
        let mut v = decimal_chars(n / 10);
        v.push(digit(n % 10));
        v
    }
}

/// `n` written in decimal, as `{}` formats an unsigned integer.
pub fn decimal(n: u64) -> (s: String)
    ensures
        s@ == decimal_spec(n as nat),
{
    string_of(&decimal_chars(n))
}

/// How `{:?}` writes one character inside a quoted string.
pub open spec fn debug_escape(c: char) -> Seq<char> {
    if c == '\t' {
        seq!['\\', 't']
    } else if c == '\r' {
        seq!['\\', 'r']
    } else if c == '\n' {
        seq!['\\', 'n']
    } else if c == '\\' {
        seq!['\\', '\\']
    } else if c == '"' {
        seq!['\\', '"']
    } else if c == '\0' {
        seq!['\\', '0']
    } else {
        seq![c]
    }
}

/// The escaped characters of `s`.
pub open spec fn debug_body(s: Seq<char>) -> Seq<char>
    decreases s.len(),
{
    if s.len() == 0 {
        Seq::<char>::empty()
    } else {
        debug_body(s.drop_last()) + debug_escape(s.last())
    }
}

/// `s` in double quotes with quotes, backslashes and control characters
/// escaped, as `{:?}` writes a string.
pub open spec fn debug_spec(s: Seq<char>) -> Seq<char> {
    seq!['"'] + debug_body(s) + seq!['"']
}

/// Appends `s` to `out` as `{:?}` writes it.
pub fn push_debug(out: &mut String, s: &str)
    ensures
        final(out)@ == old(out)@ + debug_spec(s@),
{
    let v = chars_of(s);
    let ghost head = out@;
    push_char(out, '"');
    let mut i: usize = 0;
    while i < v.len()
        invariant
            i <= v.len(),
            v@ == s@,
            out@ == head + seq!['"'] + debug_body(v@.take(i as int)),
        decreases v.len() - i,
    {
        let c = v[i];
        assert(v@.take(i + 1).drop_last() == v@.take(i as int));
        if c == '\t' {
            push_char(out, '\\');
            push_char(out, 't');
        } else if c == '\r' {
            push_char(out, '\\');
            push_char(out, 'r');
        } else if c == '\n' {
            push_char(out, '\\');
            push_char(out, 'n');
        } else if c == '\\' {
            push_char(out, '\\');
            push_char(out, '\\');
        } else if c == '"' {
            push_char(out, '\\');
            push_char(out, '"');
        } else if c == '\0' {
            push_char(out, '\\');
            push_char(out, '0');
        } else {
            push_char(out, c);
        }
        i += 1;
        assert(out@ =~= head + seq!['"'] + debug_body(v@.take(i as int)));
    }
    assert(v@.take(v.len() as int) == v@);
    push_char(out, '"');
    assert(out@ =~= head + debug_spec(s@));
}

} // verus!

verus! {

/// The characters `v[a..b]`.
pub fn subvec(v: &Vec<char>, a: usize, b: usize) -> (r: Vec<char>)
    requires
        a <= b <= v.len(),
    ensures
        r@ == v@.subrange(a as int, b as int),
{
    let mut r: Vec<char> = Vec::new();
    let mut i: usize = a;
    while i < b
        invariant
            a <= i <= b <= v.len(),
            r@ == v@.subrange(a as int, i as int),
        decreases b - i,
    {
        r.push(v[i]);
        i += 1;
        assert(r@ == v@.subrange(a as int, i as int));
    }
    r
}

/// How `{:?}` writes a character: in single quotes, with quotes,
/// backslashes and control characters escaped.
pub open spec fn char_debug_spec(c: char) -> Seq<char> {
    let body = if c == '\'' {
        seq!['\\', '\'']
    } else if c == '"' {
        seq!['"']
    } else {
        debug_escape(c)
    };
    seq!['\''] + body + seq!['\'']
}

/// Appends `c` to `out` as `{:?}` writes it.
pub fn push_char_debug(out: &mut String, c: char)
    ensures
        final(out)@ == old(out)@ + char_debug_spec(c),
{
    push_char(out, '\'');
    if c == '\'' {
        push_char(out, '\\');
        push_char(out, '\'');
    } else if c == '"' {
        push_char(out, '"');
    } else if c == '\t' {
        push_char(out, '\\');
        push_char(out, 't');
    } else if c == '\r' {
        push_char(out, '\\');
        push_char(out, 'r');
    } else if c == '\n' {
        push_char(out, '\\');
        push_char(out, 'n');
    } else if c == '\\' {
        push_char(out, '\\');
        push_char(out, '\\');
    } else if c == '\0' {
        push_char(out, '\\');
        push_char(out, '0');
    } else {
        push_char(out, c);
    }
    push_char(out, '\'');
    assert(final(out)@ =~= old(out)@ + char_debug_spec(c));
}

} // verus!

verus! {

/// The characters without trailing whitespace.
pub fn trim_end_chars(v: &Vec<char>) -> (r: Vec<char>)
    ensures
        r@ == trim_end_spec(v@),
{
    let mut hi: usize = v.len();
    assert(v@.take(hi as int) == v@);
    while hi > 0 && is_whitespace(v[hi - 1])
        invariant
            hi <= v.len(),
            trim_end_spec(v@) == trim_end_spec(v@.take(hi as int)),
        decreases hi,
    {
        assert(v@.take(hi as int).drop_last() == v@.take(hi - 1));
        hi -= 1;
    }
    assert(trim_end_spec(v@.take(hi as int)) == v@.take(hi as int));
    let r = subvec(v, 0, hi);
    assert(r@ =~= v@.take(hi as int));
    r
}

} // verus!

verus! {

/// The character of a hexadecimal digit (lower case).
pub open spec fn hex_char(d: nat) -> char {
    if d < 10 { digit_char(d) } else if d == 10 { 'a' } else if d == 11 { 'b' } else if d == 12 { 'c' }
    else if d == 13 { 'd' } else if d == 14 { 'e' } else { 'f' }
}

/// The lower-case hexadecimal digits of `n`, without leading zeros.
pub open spec fn hex_spec(n: nat) -> Seq<char>
    decreases n,
{
    if n < 16 {
        seq![hex_char(n)]
    } else {
        hex_spec(n / 16).push(hex_char(n % 16))
    }
}

/// The character of a hexadecimal digit (lower case).
fn hex_digit(d: u64) -> (c: char)
    requires
        d < 16,
    ensures
        c == hex_char(d as nat),
{
    if d < 10 {
        crate::text::digit(d)
    } else if d == 10 { 'a' } else if d == 11 { 'b' } else if d == 12 { 'c' } else if d == 13 { 'd' }
    else if d == 14 { 'e' } else { 'f' }
}

/// The lower-case hexadecimal digits of `n`, at least `width` of them
/// (zero-padded).
fn hex_digits(n: u64, width: usize) -> (v: Vec<char>)
    requires
        width <= 16,
    ensures
        width <= 1 ==> v@ == hex_spec(n as nat),
    decreases n as int + width as int,
{
    if n < 16 && width <= 1 {
        vec![hex_digit(n)]
    } else {
        let w = if width > 0 { width - 1 } else { 0 };
        let mut v = hex_digits(n / 16, w);
        v.push(hex_digit(n % 16));
        v
    }
}

/// `n` as `{:#x}` writes it (`0x` and lower-case digits), padded with
/// zeros to at least `width` digits.
pub fn hex(n: u64, width: usize) -> (s: String)
    requires
        width <= 16,
    ensures
        width <= 1 ==> s@ == seq!['0', 'x'] + hex_spec(n as nat),
{
    let mut s = string_of(&['0', 'x']);
    append_str(&mut s, string_of(&hex_digits(n, width)).as_str());
    s
}

/// `n` as `{:x}` writes it (lower-case digits, no prefix).
pub fn hex_bare(n: u64) -> (s: String)
    ensures
        s@ == hex_spec(n as nat),
{
    string_of(&hex_digits(n, 1))
}

} // verus!
