//! Decimal and octal number parsing, as the standard library's
//! `FromStr` and `from_str_radix` accept numbers.
use vstd::prelude::*;

verus! {

/// The value of an ASCII digit in `radix` (at most 10), if it is one.
pub open spec fn digit_value(c: char, radix: nat) -> Option<nat> {
    if '0' <= c && c <= '9' && (c as nat) - ('0' as nat) < radix {
        Some(((c as nat) - ('0' as nat)) as nat)
    } else {
        None
    }
}

/// Whether every character of `s` is a digit in `radix`.
pub open spec fn all_digits(s: Seq<char>, radix: nat) -> bool {
    forall|k: int| 0 <= k < s.len() ==> #[trigger] digit_value(s[k], radix) is Some
}

/// The value of a digit string in `radix`.
pub open spec fn digits_value(s: Seq<char>, radix: nat) -> nat
    decreases s.len(),
{
    if s.len() == 0 {
        0
    } else {
        match digit_value(s.last(), radix) {
            Some(d) => digits_value(s.drop_last(), radix) * radix + d,
            None => 0,
        }
    }
}

/// The digits after an optional leading `+`.
pub open spec fn unsigned_body(s: Seq<char>) -> Seq<char> {
    if s.len() > 0 && s[0] == '+' {
        s.drop_first()
    } else {
        s
    }
}

/// An unsigned integer in `radix`, as `from_str_radix` accepts it: an
/// optional `+`, then one or more digits, with a value of at most
/// `max`.
pub open spec fn parse_unsigned_spec(s: Seq<char>, radix: nat, max: nat) -> Option<nat> {
    let body = unsigned_body(s);
    if body.len() == 0 || !all_digits(body, radix) || digits_value(body, radix) > max {
        None
    } else {
        Some(digits_value(body, radix))
    }
}

/// A signed 64-bit integer as `i64::from_str` accepts it: an optional
/// `+` or `-`, then one or more decimal digits, in range.
pub open spec fn parse_i64_spec(s: Seq<char>) -> Option<int> {
    if s.len() > 0 && s[0] == '-' {
        let body = s.drop_first();
        if body.len() == 0 || !all_digits(body, 10) || digits_value(body, 10) > 0x8000_0000_0000_0000 {
            None
        } else {
            Some(-(digits_value(body, 10) as int))
        }
    } else {
        match parse_unsigned_spec(s, 10, 0x7fff_ffff_ffff_ffff) {
            None => None,
            Some(v) => Some(v as int),
        }
    }
}

/// Extending a digit string never lowers its value.
proof fn lemma_digits_monotone(s: Seq<char>, n: int, radix: nat)
    requires
        0 <= n <= s.len(),
        radix >= 1,
        all_digits(s, radix),
    ensures
        digits_value(s.take(n), radix) <= digits_value(s, radix),
    decreases s.len() - n,
{
    if n < s.len() {
        lemma_digits_monotone(s, n + 1, radix);
        let t = s.take(n + 1);
        assert(t.drop_last() =~= s.take(n));
        assert(digit_value(s[n], radix) is Some);
        let v = digits_value(s.take(n), radix);
        assert(v * radix >= v) by (nonlinear_arith)
            requires radix >= 1;
    } else {
        assert(s.take(n) =~= s);
    }
}

/// Parses an unsigned number in `radix` (8 or 10) with an upper bound.
pub fn parse_unsigned(v: &[char], radix: u32, max: u64) -> (r: Option<u64>)
    requires
        radix == 8 || radix == 10,
    ensures
        r matches Some(n) ==> parse_unsigned_spec(v@, radix as nat, max as nat) == Some(n as nat),
        r is None ==> parse_unsigned_spec(v@, radix as nat, max as nat) is None,
{
    let start: usize = if v.len() > 0 && v[0] == '+' { 1 } else { 0 };
    let ghost body = unsigned_body(v@);
    assert(body =~= v@.subrange(start as int, v@.len() as int));
    if start >= v.len() {
        return None;
    }
    let mut acc: u128 = 0;
    let mut i = start;
    while i < v.len()
        invariant
            start <= i <= v.len(),
            start < v.len(),
            body == v@.subrange(start as int, v@.len() as int),
            body == unsigned_body(v@),
            radix == 8 || radix == 10,
            all_digits(body.take(i - start), radix as nat),
            acc == digits_value(body.take(i - start), radix as nat),
            acc <= max,
        decreases v.len() - i,
    {
        let c = v[i];
        if !('0' <= c && c <= '9') || (c as u32) - ('0' as u32) >= radix {
            assert(digit_value(body[i - start], radix as nat) is None);
            assert(!all_digits(body, radix as nat));
            return None;
        }
        let d = ((c as u32) - ('0' as u32)) as u128;
        let ghost prefix = body.take(i - start);
        assert(body.take(i + 1 - start).drop_last() =~= prefix);
        assert(acc * (radix as u128) <= 0xffff_ffff_ffff_ffff * 10) by (nonlinear_arith)
            requires
                acc <= 0xffff_ffff_ffff_ffff,
                radix <= 10,
        ;
        acc = acc * (radix as u128) + d;
        i += 1;
        assert(body.take(i - start).last() == c);
        assert(acc == digits_value(body.take(i - start), radix as nat));
        assert(all_digits(body.take(i - start), radix as nat)) by {
            assert forall|k: int| 0 <= k < body.take(i - start).len() implies #[trigger] digit_value(body.take(i - start)[k], radix as nat) is Some by {
                if k < prefix.len() {
                    assert(body.take(i - start)[k] == prefix[k]);
                }
            }
        }
        if acc > max as u128 {
            proof {
                if all_digits(body, radix as nat) {
                    lemma_digits_monotone(body, i - start, radix as nat);
                }
            }
            return None;
        }
    }
    assert(body.take(v.len() - start) =~= body);
    Some(acc as u64)
}

/// Parses a signed 64-bit decimal integer.
pub fn parse_i64(v: &[char]) -> (r: Option<i64>)
    ensures
        r matches Some(n) ==> parse_i64_spec(v@) == Some(n as int),
        r is None ==> parse_i64_spec(v@) is None,
{
    if v.len() > 0 && v[0] == '-' {
        let mut body: Vec<char> = Vec::new();
        let mut i: usize = 1;
        while i < v.len()
            invariant
                1 <= i <= v.len(),
                body@ == v@.subrange(1, i as int),
            decreases v.len() - i,
        {
            body.push(v[i]);
            i += 1;
        }
        assert(body@ =~= v@.drop_first());
        if body.len() > 0 && body[0] == '+' {
            // `-+5` is not a number: the body must be digits only
            assert(digit_value(body@[0], 10) is None);
            return None;
        }
        assert(unsigned_body(body@) == body@);
        match parse_unsigned(&body, 10, 0x8000_0000_0000_0000) {
            None => None,
            Some(n) => {
                if n == 0x8000_0000_0000_0000 {
                    Some(i64::MIN)
                } else {
                    Some(-(n as i64))
                }
            },
        }
    } else {
        match parse_unsigned(v, 10, 0x7fff_ffff_ffff_ffff) {
            None => None,
            Some(n) => Some(n as i64),
        }
    }
}

} // verus!
