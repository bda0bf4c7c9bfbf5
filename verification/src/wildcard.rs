//! Shell-style wildcard matching (`*` and `?`).
use vstd::prelude::*;
use crate::text::chars_of;

verus! {

/// Whether `p[i..]` matches `t[j..]`: `*` matches any run of characters,
/// `?` any single character, every other character itself.
pub open spec fn glob_from(p: Seq<char>, t: Seq<char>, i: int, j: int) -> bool
    decreases p.len() - i, t.len() - j,
{
    if i < 0 || j < 0 || i > p.len() || j > t.len() {
        false
    } else if i == p.len() {
        j == t.len()
    } else if p[i] == '*' {
        glob_from(p, t, i + 1, j) || (j < t.len() && glob_from(p, t, i, j + 1))
    } else {
        j < t.len() && (p[i] == '?' || p[i] == t[j]) && glob_from(p, t, i + 1, j + 1)
    }
}

/// Whether the whole pattern `p` matches the whole text `t`.
pub open spec fn glob(p: Seq<char>, t: Seq<char>) -> bool {
    glob_from(p, t, 0, 0)
}

/// A pattern position matches a text character literally or by `?`.
pub open spec fn char_fits(pc: char, tc: char) -> bool {
    pc != '*' && (pc == '?' || pc == tc)
}

/// `p[a..b]` holds no `*` and fits `t[c..c + (b - a)]` character by
/// character.
pub open spec fn segment_fits(p: Seq<char>, t: Seq<char>, a: int, b: int, c: int) -> bool {
    &&& 0 <= a <= b <= p.len()
    &&& 0 <= c
    &&& c + (b - a) <= t.len()
    &&& forall|k: int| a <= k < b ==> #[trigger] char_fits(p[k], t[c + k - a])
}

/// A `*` at `i` matches exactly when the rest matches from some later
/// text position.
proof fn lemma_star(p: Seq<char>, t: Seq<char>, i: int, j: int)
    requires
        0 <= i < p.len(),
        0 <= j <= t.len(),
        p[i] == '*',
    ensures
        glob_from(p, t, i, j) == exists|k: int| j <= k <= t.len() && #[trigger] glob_from(p, t, i + 1, k),
    decreases t.len() - j,
{
    assert(glob_from(p, t, i, j) == (glob_from(p, t, i + 1, j) || (j < t.len() && glob_from(p, t, i, j + 1))));
    if j < t.len() {
        lemma_star(p, t, i, j + 1);
        if glob_from(p, t, i, j) {
            if glob_from(p, t, i + 1, j) {
                assert(j <= j <= t.len() && glob_from(p, t, i + 1, j));
            } else {
                let k = choose|k: int| j + 1 <= k <= t.len() && #[trigger] glob_from(p, t, i + 1, k);
                assert(j <= k <= t.len() && glob_from(p, t, i + 1, k));
            }
        }
        if exists|k: int| j <= k <= t.len() && #[trigger] glob_from(p, t, i + 1, k) {
            let k = choose|k: int| j <= k <= t.len() && #[trigger] glob_from(p, t, i + 1, k);
            if k == j {
            } else {
                assert(j + 1 <= k <= t.len() && glob_from(p, t, i + 1, k));
                assert(glob_from(p, t, i, j + 1));
            }
        }
    } else {
        if exists|k: int| j <= k <= t.len() && #[trigger] glob_from(p, t, i + 1, k) {
            let k = choose|k: int| j <= k <= t.len() && #[trigger] glob_from(p, t, i + 1, k);
            assert(k == j);
        }
    }
}

/// A star-free segment that fits the text is consumed deterministically.
proof fn lemma_segment(p: Seq<char>, t: Seq<char>, a: int, b: int, c: int)
    requires
        segment_fits(p, t, a, b, c),
    ensures
        glob_from(p, t, a, c) == glob_from(p, t, b, c + (b - a)),
    decreases b - a,
{
    if a < b {
        assert(char_fits(p[a], t[c + a - a]));
        assert(segment_fits(p, t, a + 1, b, c + 1)) by {
            assert forall|k: int| a + 1 <= k < b implies #[trigger] char_fits(p[k], t[c + 1 + k - (a + 1)]) by {
                assert(char_fits(p[k], t[c + k - a]));
            }
        }
        lemma_segment(p, t, a + 1, b, c + 1);
    }
}

/// A match through a star-free segment consumes it character by character.
proof fn lemma_segment_needed(p: Seq<char>, t: Seq<char>, a: int, b: int, c: int)
    requires
        0 <= a <= b <= p.len(),
        0 <= c <= t.len(),
        forall|k: int| a <= k < b ==> p[k] != '*',
        glob_from(p, t, a, c),
    ensures
        segment_fits(p, t, a, b, c),
        glob_from(p, t, b, c + (b - a)),
    decreases b - a,
{
    if a < b {
        assert(p[a] != '*');
        lemma_segment_needed(p, t, a + 1, b, c + 1);
        assert forall|k: int| a <= k < b implies #[trigger] char_fits(p[k], t[c + k - a]) by {
            if k > a {
                assert(char_fits(p[k], t[c + 1 + k - (a + 1)]));
            }
        }
    }
}

/// The state of the greedy scan: without a pending `*` the remaining
/// pattern must match the remaining text; with one, the whole match
/// exists exactly when the text after the star matches from some
/// position at or after the current attempt's start.
spec fn scan_state(ps: Seq<char>, ts: Seq<char>, p: int, t: int, star: Option<(usize, usize)>) -> bool {
    match star {
        None => glob(ps, ts) == glob_from(ps, ts, p, t),
        Some((sp, st)) => {
            &&& sp < p
            &&& ps[sp as int] == '*'
            &&& st <= t
            &&& t - st == p - (sp + 1)
            &&& segment_fits(ps, ts, sp + 1, p, st as int)
            &&& glob(ps, ts) == exists|k: int| st <= k <= ts.len() && #[trigger] glob_from(ps, ts, sp + 1, k)
        },
    }
}

/// After a `*` at `p` is taken, the scan restarts behind it with the
/// star remembered at the current text position.
proof fn lemma_star_state(ps: Seq<char>, ts: Seq<char>, p: usize, t: usize)
    requires
        p < ps.len(),
        ps[p as int] == '*',
        glob(ps, ts) == exists|k: int| t <= k <= ts.len() && #[trigger] glob_from(ps, ts, p + 1, k),
        segment_fits(ps, ts, p + 1, p + 1, t as int),
    ensures
        scan_state(ps, ts, p + 1, t as int, Some((p, t))),
{
}

/// Matches `text` against a shell-style wildcard pattern supporting `*`
/// (any run of characters) and `?` (a single character).
///
/// Used for subsystem rule patterns (`eoe*.sw*`) and path queries.
#[verifier::spinoff_prover]
pub fn wildcard_match(pattern: &str, text: &str) -> (r: bool)
    ensures
        r == glob(pattern@, text@),
{
    let pv = chars_of(pattern);
    let tv = chars_of(text);
    let ghost ps = pv@;
    let ghost ts = tv@;
    let mut p: usize = 0;
    let mut t: usize = 0;
    let mut star: Option<(usize, usize)> = None;

    while t < tv.len()
        invariant
            ps == pv@,
            ts == tv@,
            ps == pattern@,
            ts == text@,
            p <= pv.len(),
            t <= tv.len(),
            scan_state(ps, ts, p as int, t as int, star),
        decreases
            (match star {
                None => tv.len() + 1,
                Some((_, st)) => tv.len() - st,
            }),
            (tv.len() - t) + (pv.len() - p),
    {
        if p < pv.len() && pv[p] == '*' {
            proof {
                lemma_star(ps, ts, p as int, t as int);
                match star {
                    None => {},
                    Some((sp, st)) => {
                        let l = t - st;
                        if exists|k: int| st <= k <= ts.len() && #[trigger] glob_from(ps, ts, sp + 1, k) {
                            let k = choose|k: int| st <= k <= ts.len() && #[trigger] glob_from(ps, ts, sp + 1, k);
                            assert forall|m: int| sp + 1 <= m < p implies ps[m] != '*' by {
                                assert(char_fits(ps[m], ts[st + m - (sp + 1)]));
                            }
                            lemma_segment_needed(ps, ts, sp + 1, p as int, k);
                            lemma_star(ps, ts, p as int, k + l);
                            let j = choose|j: int| k + l <= j <= ts.len() && #[trigger] glob_from(ps, ts, p + 1, j);
                            assert(t <= j <= ts.len() && glob_from(ps, ts, p + 1, j));
                        }
                        if exists|j: int| t <= j <= ts.len() && #[trigger] glob_from(ps, ts, p + 1, j) {
                            lemma_segment(ps, ts, sp + 1, p as int, st as int);
                            assert(glob_from(ps, ts, sp + 1, st as int));
                        }
                    },
                }
                assert(segment_fits(ps, ts, p + 1, p + 1, t as int));
                assert(glob(ps, ts) == exists|k: int| t <= k <= ts.len() && #[trigger] glob_from(ps, ts, p + 1, k));
            }
            proof {
                lemma_star_state(ps, ts, p, t);
            }
            star = Some((p, t));
            p += 1;
        } else if p < pv.len() && (pv[p] == '?' || pv[p] == tv[t]) {
            proof {
                assert(glob_from(ps, ts, p as int, t as int) == glob_from(ps, ts, p + 1, t + 1));
                match star {
                    None => {},
                    Some((sp, st)) => {
                        assert(char_fits(ps[p as int], ts[st + (p + 1) - 1 - (sp + 1)]));
                        assert forall|k: int| sp + 1 <= k < p + 1 implies #[trigger] char_fits(ps[k], ts[st + k - (sp + 1)]) by {
                            if k < p {
                                assert(char_fits(ps[k], ts[st + k - (sp + 1)]));
                            }
                        }
                    },
                }
            }
            p += 1;
            t += 1;
            assert(scan_state(ps, ts, p as int, t as int, star));
        } else if let Some((sp, st)) = star {
            proof {
                // the attempt starting at `st` failed
                lemma_segment(ps, ts, sp + 1, p as int, st as int);
                assert(!glob_from(ps, ts, p as int, t as int));
                assert(!glob_from(ps, ts, sp + 1, st as int));
                if exists|k: int| st <= k <= ts.len() && #[trigger] glob_from(ps, ts, sp + 1, k) {
                    let k = choose|k: int| st <= k <= ts.len() && #[trigger] glob_from(ps, ts, sp + 1, k);
                    assert(st + 1 <= k <= ts.len() && glob_from(ps, ts, sp + 1, k));
                }
                assert(segment_fits(ps, ts, sp + 1, sp + 1, st + 1));
                assert(glob(ps, ts) == exists|k: int| st + 1 <= k <= ts.len() && #[trigger] glob_from(ps, ts, sp + 1, k));
            }
            p = sp + 1;
            t = st + 1;
            star = Some((sp, st + 1));
            assert(scan_state(ps, ts, p as int, t as int, star));
        } else {
            return false;
        }
    }
    proof {
        match star {
            None => {},
            Some((sp, st)) => {
                lemma_segment(ps, ts, sp + 1, p as int, st as int);
                assert forall|k: int| st < k <= ts.len() implies !#[trigger] glob_from(ps, ts, sp + 1, k) by {
                    if glob_from(ps, ts, sp + 1, k) {
                        assert forall|m: int| sp + 1 <= m < p implies ps[m] != '*' by {
                            assert(char_fits(ps[m], ts[st + m - (sp + 1)]));
                        }
                        lemma_segment_needed(ps, ts, sp + 1, p as int, k);
                    }
                }
                if glob(ps, ts) {
                    let k = choose|k: int| st <= k <= ts.len() && #[trigger] glob_from(ps, ts, sp + 1, k);
                    assert(k == st);
                }
            },
        }
    }
    let ghost p0 = p;
    while p < pv.len() && pv[p] == '*'
        invariant
            ps == pv@,
            ts == tv@,
            t == tv.len(),
            p0 <= p <= pv.len(),
            forall|k: int| p0 <= k < p ==> ps[k] == '*',
            glob_from(ps, ts, p0 as int, t as int) == glob_from(ps, ts, p as int, t as int),
        decreases pv.len() - p,
    {
        p += 1;
    }
    proof {
        if p < pv.len() {
            assert(!glob_from(ps, ts, p as int, t as int));
        }
    }
    p == pv.len()
}

} // verus!

verus! {

/// With no `*` or `?` in `input`, the pattern `*input*` matches exactly
/// the texts that contain `input`.
pub proof fn lemma_star_literal_star(input: Seq<char>, t: Seq<char>)
    requires
        !input.contains('*'),
        !input.contains('?'),
    ensures
        glob(seq!['*'] + input + seq!['*'], t) <==> exists|a: int| 0 <= a && a + input.len() <= t.len()
            && #[trigger] t.subrange(a, a + input.len()) == input,
{
    let p = seq!['*'] + input + seq!['*'];
    let m = input.len() as int;
    assert(p.len() == m + 2);
    assert(p[0] == '*');
    assert(p[m + 1] == '*');
    assert forall|q: int| 1 <= q < m + 1 implies p[q] == input[q - 1] && p[q] != '*' by {
        assert(p[q] == input[q - 1]);
        if input[q - 1] == '*' {
            assert(input.contains('*'));
        }
    }
    // The trailing star matches any rest of the text.
    assert forall|j: int| 0 <= j <= t.len() implies #[trigger] glob_from(p, t, m + 1, j) by {
        lemma_star(p, t, m + 1, j);
        assert(glob_from(p, t, m + 2, t.len() as int));
    }
    lemma_star(p, t, 0, 0);
    if glob(p, t) {
        let k = choose|k: int| 0 <= k <= t.len() && #[trigger] glob_from(p, t, 1, k);
        lemma_segment_needed(p, t, 1, m + 1, k);
        assert(t.subrange(k, k + m) =~= input) by {
            assert forall|q: int| 0 <= q < m implies t.subrange(k, k + m)[q] == input[q] by {
                assert(char_fits(p[q + 1], t[k + (q + 1) - 1]));
                if input[q] == '?' {
                    assert(input.contains('?'));
                }
            }
        }
        assert(0 <= k && k + input.len() <= t.len() && t.subrange(k, k + input.len()) == input);
    }
    if exists|a: int| 0 <= a && a + input.len() <= t.len() && #[trigger] t.subrange(a, a + input.len()) == input {
        let a = choose|a: int| 0 <= a && a + input.len() <= t.len() && #[trigger] t.subrange(a, a + input.len()) == input;
        assert(segment_fits(p, t, 1, m + 1, a)) by {
            assert forall|k: int| 1 <= k < m + 1 implies #[trigger] char_fits(p[k], t[a + k - 1]) by {
                assert(t.subrange(a, a + m)[k - 1] == input[k - 1]);
            }
        }
        lemma_segment(p, t, 1, m + 1, a);
        assert(glob_from(p, t, 1, a));
    }
}

} // verus!
