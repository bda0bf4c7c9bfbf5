//! Parser producing [`HardwareExpr`] trees from raw expression text.
use vstd::prelude::*;
use super::lexer::{lex, lex_from, tokens_view, Token, TokenSpec};
use super::{
    attribute_name_of, chars_eq, expr_view, exprs_view, lemma_exprs_view_len,
    lemma_exprs_view_push, name_cpuboard, CompareOp, ExprSpec, HardwareExpr, HardwareSyntax,
    MachAttribute, MachExpr,
};
use crate::error::Error;
use crate::text::{
    append_str, chars_of, contains_char, contains_pair, has_pair, is_whitespace, is_ws, push_char,
    seqs_of, split_words, string_of, trim_chars, trim_spec, ws_words,
};

verus! {

// ---------------------------------------------------------------------
// Boolean syntax: the grammar
//
//   or         = and { "||" and }
//   and        = unary { "&&" unary }
//   unary      = "!" unary | primary
//   primary    = "(" or ")" | comparison
//   comparison = WORD [ op WORD ]        (a bare WORD means CPUBOARD=WORD)
// ---------------------------------------------------------------------

/// A one-operand list stands for its operand; longer lists are OR-ed.
pub open spec fn mk_or(acc: Seq<ExprSpec>) -> ExprSpec {
    if acc.len() == 1 {
        acc[0]
    } else {
        ExprSpec::Or(acc)
    }
}

/// A one-operand list stands for its operand; longer lists are AND-ed.
pub open spec fn mk_and(acc: Seq<ExprSpec>) -> ExprSpec {
    if acc.len() == 1 {
        acc[0]
    } else {
        ExprSpec::And(acc)
    }
}

/// The comparison operator a token stands for, if any.
pub open spec fn op_of(t: TokenSpec) -> Option<CompareOp> {
    match t {
        TokenSpec::Eq => Some(CompareOp::Eq),
        TokenSpec::Ne => Some(CompareOp::Ne),
        TokenSpec::Lt => Some(CompareOp::Lt),
        TokenSpec::Le => Some(CompareOp::Le),
        TokenSpec::Gt => Some(CompareOp::Gt),
        TokenSpec::Ge => Some(CompareOp::Ge),
        _ => None,
    }
}

/// `or` at `pos`: the parsed expression and the position after it.
pub open spec fn p_or(ts: Seq<TokenSpec>, pos: int) -> Option<(ExprSpec, int)>
    decreases ts.len() - pos, 6nat,
{
    if pos < 0 || pos > ts.len() {
        None
    } else {
        match p_and(ts, pos) {
            None => None,
            Some((e, p1)) => if p1 <= pos || p1 > ts.len() {
                None
            } else {
                or_tail(ts, p1, seq![e])
            },
        }
    }
}

/// The `{ "||" and }` repetition after the operands parsed so far.
pub open spec fn or_tail(ts: Seq<TokenSpec>, p: int, acc: Seq<ExprSpec>) -> Option<(ExprSpec, int)>
    decreases ts.len() - p, 5nat,
{
    if p < 0 || p > ts.len() {
        None
    } else if p < ts.len() && ts[p] is Or {
        match p_and(ts, p + 1) {
            None => None,
            Some((e, q)) => if q <= p || q > ts.len() {
                None
            } else {
                or_tail(ts, q, acc.push(e))
            },
        }
    } else {
        Some((mk_or(acc), p))
    }
}

/// `and` at `pos`.
pub open spec fn p_and(ts: Seq<TokenSpec>, pos: int) -> Option<(ExprSpec, int)>
    decreases ts.len() - pos, 4nat,
{
    if pos < 0 || pos > ts.len() {
        None
    } else {
        match p_unary(ts, pos) {
            None => None,
            Some((e, p1)) => if p1 <= pos || p1 > ts.len() {
                None
            } else {
                and_tail(ts, p1, seq![e])
            },
        }
    }
}

/// The `{ "&&" unary }` repetition after the operands parsed so far.
pub open spec fn and_tail(ts: Seq<TokenSpec>, p: int, acc: Seq<ExprSpec>) -> Option<(ExprSpec, int)>
    decreases ts.len() - p, 3nat,
{
    if p < 0 || p > ts.len() {
        None
    } else if p < ts.len() && ts[p] is And {
        match p_unary(ts, p + 1) {
            None => None,
            Some((e, q)) => if q <= p || q > ts.len() {
                None
            } else {
                and_tail(ts, q, acc.push(e))
            },
        }
    } else {
        Some((mk_and(acc), p))
    }
}

/// `unary` at `pos`.
pub open spec fn p_unary(ts: Seq<TokenSpec>, pos: int) -> Option<(ExprSpec, int)>
    decreases ts.len() - pos, 2nat,
{
    if pos < 0 || pos > ts.len() {
        None
    } else if pos < ts.len() && ts[pos] is Not {
        match p_unary(ts, pos + 1) {
            None => None,
            Some((e, q)) => Some((ExprSpec::Not(Box::new(e)), q)),
        }
    } else {
        p_primary(ts, pos)
    }
}

/// `primary` at `pos`.
pub open spec fn p_primary(ts: Seq<TokenSpec>, pos: int) -> Option<(ExprSpec, int)>
    decreases ts.len() - pos, 1nat,
{
    if pos < 0 || pos >= ts.len() {
        None
    } else if ts[pos] is LParen {
        match p_or(ts, pos + 1) {
            None => None,
            Some((e, q)) => if 0 <= q < ts.len() && ts[q] is RParen {
                Some((e, q + 1))
            } else {
                None
            },
        }
    } else if ts[pos] is Word {
        p_comparison(ts, pos)
    } else {
        None
    }
}

/// `comparison` at `pos`, which holds a word.
pub open spec fn p_comparison(ts: Seq<TokenSpec>, pos: int) -> Option<(ExprSpec, int)> {
    if pos < 0 || pos >= ts.len() || !(ts[pos] is Word) {
        None
    } else {
        let attribute = ts[pos]->Word_0;
        let op = if pos + 1 < ts.len() {
            op_of(ts[pos + 1])
        } else {
            None
        };
        match op {
            None => Some((ExprSpec::Compare(name_cpuboard(), CompareOp::Eq, attribute), pos + 1)),
            Some(op) => if pos + 2 < ts.len() && ts[pos + 2] is Word {
                Some((ExprSpec::Compare(attribute, op, ts[pos + 2]->Word_0), pos + 3))
            } else {
                None
            },
        }
    }
}

/// The boolean syntax: all tokens must form one `or` expression.
pub open spec fn boolean_spec(s: Seq<char>) -> Option<ExprSpec> {
    match lex_from(s, 0) {
        None => None,
        Some(ts) => match p_or(ts, 0) {
            Some((e, p)) => if p == ts.len() {
                Some(e)
            } else {
                None
            },
            None => None,
        },
    }
}

/// Whether token `p` is an `||`.
fn at_or(ts: &Vec<Token>, p: usize) -> (r: bool)
    ensures
        r == (p < ts@.len() && tokens_view(ts@)[p as int] is Or),
{
    p < ts.len() && matches!(ts[p], Token::Or)
}

/// Whether token `p` is an `&&`.
fn at_and(ts: &Vec<Token>, p: usize) -> (r: bool)
    ensures
        r == (p < ts@.len() && tokens_view(ts@)[p as int] is And),
{
    p < ts.len() && matches!(ts[p], Token::And)
}

fn parse_or(ts: &Vec<Token>, pos: usize) -> (r: Result<(MachExpr, usize), &'static str>)
    requires
        pos <= ts.len(),
    ensures
        match p_or(tokens_view(ts@), pos as int) {
            None => r is Err,
            Some((e, q)) => r matches Ok((x, p)) && expr_view(x) == e && p == q,
        },
        r matches Ok((_, p)) ==> pos < p <= ts.len(),
    decreases ts.len() - pos, 6nat,
{
    let ghost tv = tokens_view(ts@);
    let (first, p1) = parse_and(ts, pos)?;
    let mut operands: Vec<MachExpr> = Vec::new();
    operands.push(first);
    proof {
        assert(operands@ =~= seq![first]);
        lemma_exprs_view_len(operands@);
        assert(exprs_view(operands@) =~= seq![expr_view(first)]);
    }
    let mut p = p1;
    while at_or(ts, p)
        invariant
            pos < p <= ts.len(),
            tv == tokens_view(ts@),
            operands@.len() >= 1,
            p_or(tv, pos as int) == or_tail(tv, p as int, exprs_view(operands@)),
        decreases ts.len() - p,
    {
        let (next, q) = parse_and(ts, p + 1)?;
        proof {
            lemma_exprs_view_push(operands@, next);
        }
        operands.push(next);
        p = q;
    }
    proof {
        lemma_exprs_view_len(operands@);
    }
    if operands.len() == 1 {
        let e = operands.pop().unwrap();
        Ok((e, p))
    } else {
        Ok((MachExpr::Or(operands), p))
    }
}

fn parse_and(ts: &Vec<Token>, pos: usize) -> (r: Result<(MachExpr, usize), &'static str>)
    requires
        pos <= ts.len(),
    ensures
        match p_and(tokens_view(ts@), pos as int) {
            None => r is Err,
            Some((e, q)) => r matches Ok((x, p)) && expr_view(x) == e && p == q,
        },
        r matches Ok((_, p)) ==> pos < p <= ts.len(),
    decreases ts.len() - pos, 4nat,
{
    let ghost tv = tokens_view(ts@);
    let (first, p1) = parse_unary(ts, pos)?;
    let mut operands: Vec<MachExpr> = Vec::new();
    operands.push(first);
    proof {
        assert(operands@ =~= seq![first]);
        lemma_exprs_view_len(operands@);
        assert(exprs_view(operands@) =~= seq![expr_view(first)]);
    }
    let mut p = p1;
    while at_and(ts, p)
        invariant
            pos < p <= ts.len(),
            tv == tokens_view(ts@),
            operands@.len() >= 1,
            p_and(tv, pos as int) == and_tail(tv, p as int, exprs_view(operands@)),
        decreases ts.len() - p,
    {
        let (next, q) = parse_unary(ts, p + 1)?;
        proof {
            lemma_exprs_view_push(operands@, next);
        }
        operands.push(next);
        p = q;
    }
    proof {
        lemma_exprs_view_len(operands@);
    }
    if operands.len() == 1 {
        let e = operands.pop().unwrap();
        Ok((e, p))
    } else {
        Ok((MachExpr::And(operands), p))
    }
}

fn parse_unary(ts: &Vec<Token>, pos: usize) -> (r: Result<(MachExpr, usize), &'static str>)
    requires
        pos <= ts.len(),
    ensures
        match p_unary(tokens_view(ts@), pos as int) {
            None => r is Err,
            Some((e, q)) => r matches Ok((x, p)) && expr_view(x) == e && p == q,
        },
        r matches Ok((_, p)) ==> pos < p <= ts.len(),
    decreases ts.len() - pos, 2nat,
{
    if pos < ts.len() && matches!(ts[pos], Token::Not) {
        let (inner, q) = parse_unary(ts, pos + 1)?;
        Ok((MachExpr::Not(Box::new(inner)), q))
    } else {
        parse_primary(ts, pos)
    }
}

fn parse_primary(ts: &Vec<Token>, pos: usize) -> (r: Result<(MachExpr, usize), &'static str>)
    requires
        pos <= ts.len(),
    ensures
        match p_primary(tokens_view(ts@), pos as int) {
            None => r is Err,
            Some((e, q)) => r matches Ok((x, p)) && expr_view(x) == e && p == q,
        },
        r matches Ok((_, p)) ==> pos < p <= ts.len(),
    decreases ts.len() - pos, 1nat,
{
    if pos < ts.len() && matches!(ts[pos], Token::LParen) {
        let (e, q) = parse_or(ts, pos + 1)?;
        if !(q < ts.len() && matches!(ts[q], Token::RParen)) {
            return Err("missing closing parenthesis");
        }
        Ok((e, q + 1))
    } else if pos < ts.len() && matches!(ts[pos], Token::Word(_)) {
        parse_comparison(ts, pos)
    } else {
        Err("expected attribute comparison or parenthesized expression")
    }
}

fn parse_comparison(ts: &Vec<Token>, pos: usize) -> (r: Result<(MachExpr, usize), &'static str>)
    requires
        pos < ts.len(),
        tokens_view(ts@)[pos as int] is Word,
    ensures
        match p_comparison(tokens_view(ts@), pos as int) {
            None => r is Err,
            Some((e, q)) => r matches Ok((x, p)) && expr_view(x) == e && p == q,
        },
        r matches Ok((_, p)) ==> pos < p <= ts.len(),
{
    let attribute = match &ts[pos] {
        Token::Word(w) => w.clone(),
        _ => return Err("expected attribute name"),
    };
    let op = if pos + 1 < ts.len() {
        match &ts[pos + 1] {
            Token::Eq => Some(CompareOp::Eq),
            Token::Ne => Some(CompareOp::Ne),
            Token::Lt => Some(CompareOp::Lt),
            Token::Le => Some(CompareOp::Le),
            Token::Gt => Some(CompareOp::Gt),
            Token::Ge => Some(CompareOp::Ge),
            _ => None,
        }
    } else {
        None
    };
    match op {
        None => Ok((MachExpr::Compare { attribute: MachAttribute::CpuBoard, op: CompareOp::Eq, value: attribute }, pos + 1)),
        Some(op) => {
            if !(pos + 2 < ts.len()) {
                return Err("expected comparison value");
            }
            let value = match &ts[pos + 2] {
                Token::Word(v) => v.clone(),
                _ => return Err("expected comparison value"),
            };
            Ok((MachExpr::Compare { attribute: MachAttribute::from_name(attribute.as_str()), op, value }, pos + 3))
        },
    }
}

/// Parses the boolean syntax with a recursive descent parser.
///
/// Precedence, lowest to highest: `||`, `&&`, `!`, comparison / parens.
pub fn parse_boolean(raw: &str) -> (r: Result<MachExpr, Error>)
    ensures
        match boolean_spec(raw@) {
            None => r is Err,
            Some(e) => r matches Ok(x) && expr_view(x) == e,
        },
        r matches Err(e) ==> e matches Error::MachSyntax { raw: t, .. } && t@ == raw@,
{
    let tokens = lex(raw)?;
    match parse_or(&tokens, 0) {
        Ok((e, p)) => {
            if p != tokens.len() {
                return Err(Error::MachSyntax { raw: owned(raw), message: owned("trailing tokens") });
            }
            Ok(e)
        },
        Err(message) => Err(Error::MachSyntax { raw: owned(raw), message: owned(message) }),
    }
}

/// An owned copy of a string slice.
fn owned(s: &str) -> (r: String)
    ensures
        r@ == s@,
{
    string_of(&chars_of(s))
}

} // verus!

verus! {

// ---------------------------------------------------------------------
// Legacy list syntax
// ---------------------------------------------------------------------

/// The first index at or after `i` where `s` holds `c`, or `s.len()`.
pub open spec fn first_index_from(s: Seq<char>, c: char, i: int) -> int
    decreases s.len() - i,
{
    if i < 0 || i >= s.len() {
        s.len() as int
    } else if s[i] == c {
        i
    } else {
        first_index_from(s, c, i + 1)
    }
}

/// A legacy token as attribute name and value: split at the first `=`,
/// a bare token standing for a `CPUBOARD` value; `None` when the
/// attribute before the `=` is empty.
pub open spec fn legacy_pair(t: Seq<char>) -> Option<(Seq<char>, Seq<char>)> {
    let k = first_index_from(t, '=', 0);
    if k == t.len() {
        Some((name_cpuboard(), t))
    } else if k == 0 {
        None
    } else {
        Some((t.take(k), t.skip(k + 1)))
    }
}

/// The attribute/value pairs of the legacy words, or `None` if one has
/// an empty attribute.
pub open spec fn legacy_pairs(words: Seq<Seq<char>>) -> Option<Seq<(Seq<char>, Seq<char>)>>
    decreases words.len(),
{
    if words.len() == 0 {
        Some(Seq::<(Seq<char>, Seq<char>)>::empty())
    } else {
        match legacy_pairs(words.drop_last()) {
            None => None,
            Some(ps) => match legacy_pair(words.last()) {
                None => None,
                Some(p) => Some(ps.push(p)),
            },
        }
    }
}

/// The attribute names of the pairs, each once, in order of first
/// appearance.
pub open spec fn first_names(ps: Seq<(Seq<char>, Seq<char>)>) -> Seq<Seq<char>>
    decreases ps.len(),
{
    if ps.len() == 0 {
        Seq::<Seq<char>>::empty()
    } else {
        let names = first_names(ps.drop_last());
        if names.contains(ps.last().0) {
            names
        } else {
            names.push(ps.last().0)
        }
    }
}

/// The values paired with attribute `n`, in order.
pub open spec fn values_named(ps: Seq<(Seq<char>, Seq<char>)>, n: Seq<char>) -> Seq<Seq<char>>
    decreases ps.len(),
{
    if ps.len() == 0 {
        Seq::<Seq<char>>::empty()
    } else {
        let vs = values_named(ps.drop_last(), n);
        if ps.last().0 == n {
            vs.push(ps.last().1)
        } else {
            vs
        }
    }
}

/// `n = v` for each value `v`.
pub open spec fn equalities(n: Seq<char>, vals: Seq<Seq<char>>) -> Seq<ExprSpec> {
    vals.map_values(|v: Seq<char>| ExprSpec::Compare(n, CompareOp::Eq, v))
}

/// The expression of one attribute's values: a single comparison, or
/// the OR of them.
pub open spec fn group_expr(n: Seq<char>, vals: Seq<Seq<char>>) -> ExprSpec {
    if vals.len() == 1 {
        ExprSpec::Compare(n, CompareOp::Eq, vals[0])
    } else {
        ExprSpec::Or(equalities(n, vals))
    }
}

/// The legacy list syntax: values of one attribute are OR-ed, different
/// attributes AND-ed, in order of first appearance; `None` for an empty
/// list or a token with an empty attribute.
pub open spec fn legacy_spec(s: Seq<char>) -> Option<ExprSpec> {
    match legacy_pairs(ws_words(s)) {
        None => None,
        Some(ps) => {
            let names = first_names(ps);
            if names.len() == 0 {
                None
            } else if names.len() == 1 {
                Some(group_expr(names[0], values_named(ps, names[0])))
            } else {
                Some(ExprSpec::And(names.map_values(|n: Seq<char>| group_expr(n, values_named(ps, n)))))
            }
        },
    }
}

/// The first index at or after `i` is within bounds and, short of the
/// end, holds `c`.
proof fn lemma_first_index_bounds(s: Seq<char>, c: char, i: int)
    requires
        0 <= i <= s.len(),
    ensures
        i <= first_index_from(s, c, i) <= s.len(),
        first_index_from(s, c, i) < s.len() ==> s[first_index_from(s, c, i)] == c,
    decreases s.len() - i,
{
    if i < s.len() && s[i] != c {
        lemma_first_index_bounds(s, c, i + 1);
    }
}

/// The first index of `c` in the characters, or their length.
pub fn find_char(v: &[char], c: char) -> (k: usize)
    ensures
        k == first_index_from(v@, c, 0),
        k <= v@.len(),
        k < v@.len() ==> v@[k as int] == c,
{
    proof {
        lemma_first_index_bounds(v@, c, 0);
    }
    let mut i: usize = 0;
    while i < v.len()
        invariant
            i <= v.len(),
            first_index_from(v@, c, 0) == first_index_from(v@, c, i as int),
        decreases v.len() - i,
    {
        if v[i] == c {
            return i;
        }
        i += 1;
    }
    i
}

/// Whether `names` holds `n`.
fn holds_name(names: &Vec<Vec<char>>, n: &Vec<char>) -> (r: bool)
    ensures
        r == seqs_of(names@).contains(n@),
{
    let mut i: usize = 0;
    while i < names.len()
        invariant
            i <= names.len(),
            forall|k: int| 0 <= k < i ==> names@[k]@ != n@,
        decreases names.len() - i,
    {
        if chars_eq(&names[i], n) {
            assert(seqs_of(names@)[i as int] == n@);
            return true;
        }
        i += 1;
    }
    assert forall|k: int| 0 <= k < seqs_of(names@).len() implies seqs_of(names@)[k] != n@ by {
        assert(names@[k]@ != n@);
    }
    false
}

/// `attribute = value` for each value, under one attribute.
fn equality_exprs(attribute: &MachAttribute, vals: &Vec<Vec<char>>) -> (r: Vec<MachExpr>)
    ensures
        exprs_view(r@) == equalities(attribute_name_of(*attribute), seqs_of(vals@)),
{
    let ghost n = attribute_name_of(*attribute);
    let mut r: Vec<MachExpr> = Vec::new();
    let mut j: usize = 0;
    while j < vals.len()
        invariant
            j <= vals.len(),
            n == attribute_name_of(*attribute),
            exprs_view(r@) == equalities(n, seqs_of(vals@).take(j as int)),
        decreases vals.len() - j,
    {
        let e = MachExpr::Compare { attribute: attribute.clone(), op: CompareOp::Eq, value: string_of(&vals[j]) };
        proof {
            lemma_exprs_view_push(r@, e);
            assert(equalities(n, seqs_of(vals@).take(j + 1)) =~= equalities(n, seqs_of(vals@).take(j as int)).push(expr_view(e)));
        }
        r.push(e);
        j += 1;
    }
    assert(seqs_of(vals@).take(vals.len() as int) == seqs_of(vals@));
    r
}

/// Parses the legacy list syntax.
///
/// Same-attribute comparisons are OR-ed, different attributes are AND-ed:
/// `CPUBOARD=IP12 GFXBOARD=LIGHT GFXBOARD=EXPRESS` becomes
/// `CPUBOARD=IP12 AND (GFXBOARD=LIGHT OR GFXBOARD=EXPRESS)`.
///
/// A bare token without `=` is shorthand for a `CPUBOARD` value:
/// `IP22 IP26` becomes `CPUBOARD=IP22 OR CPUBOARD=IP26`.
pub fn parse_legacy_list(raw: &str) -> (r: Result<MachExpr, Error>)
    ensures
        match legacy_spec(raw@) {
            None => r is Err,
            Some(e) => r matches Ok(x) && expr_view(x) == e,
        },
        r matches Err(e) ==> e matches Error::MachSyntax { raw: t, .. } && t@ == raw@,
        (r is Err && legacy_pairs(ws_words(raw@)) is Some) ==> (r matches Err(Error::MachSyntax { message, .. })
            && message@ == "empty mach expression"@),
{
    let chars = chars_of(raw);
    let words = split_words(&chars);
    // Attribute/value pairs in order.
    let mut pair_names: Vec<Vec<char>> = Vec::new();
    let mut pair_values: Vec<Vec<char>> = Vec::new();
    let ghost ws = seqs_of(words@);
    let mut i: usize = 0;
    while i < words.len()
        invariant
            i <= words.len(),
            ws == seqs_of(words@),
            ws == ws_words(raw@),
            pair_names.len() == pair_values.len() == i,
            legacy_pairs(ws.take(i as int)) == Some(
                Seq::new(i as nat, |k: int| (pair_names@[k]@, pair_values@[k]@)),
            ),
        decreases words.len() - i,
    {
        let word = &words[i];
        assert(ws.take(i + 1).drop_last() == ws.take(i as int));
        assert(ws.take(i + 1).last() == word@);
        let k = find_char(word, '=');
        if k == 0 && word.len() > 0 {
            let mut message = string_of(&['l', 'e', 'g', 'a', 'c', 'y', ' ', 'm', 'a', 'c', 'h', ' ', 't', 'o', 'k', 'e', 'n', ' ', '"']);
            append_str(&mut message, string_of(word).as_str());
            append_str(&mut message, "\" has an empty attribute");
            proof {
                lemma_legacy_pairs_none(ws, i as int);
            }
            return Err(Error::MachSyntax { raw: owned(raw), message });
        }
        let ghost old_pairs = Seq::new(i as nat, |k: int| (pair_names@[k]@, pair_values@[k]@));
        if k == word.len() {
            pair_names.push(vec!['C', 'P', 'U', 'B', 'O', 'A', 'R', 'D']);
            pair_values.push(word.clone());
        } else {
            let mut name: Vec<char> = Vec::new();
            let mut value: Vec<char> = Vec::new();
            let mut j: usize = 0;
            while j < word.len()
                invariant
                    j <= word.len(),
                    k < word.len(),
                    name@ == word@.take(if j < k { j as int } else { k as int }),
                    value@ == (if j <= k { Seq::<char>::empty() } else { word@.subrange(k + 1, j as int) }),
                decreases word.len() - j,
            {
                if j < k {
                    name.push(word[j]);
                    assert(name@ == word@.take(j + 1));
                } else if j > k {
                    value.push(word[j]);
                    assert(value@ == word@.subrange(k + 1, j + 1));
                }
                j += 1;
            }
            assert(value@ == word@.skip(k + 1));
            pair_names.push(name);
            pair_values.push(value);
        }
        proof {
            let new_pairs = Seq::new((i + 1) as nat, |k: int| (pair_names@[k]@, pair_values@[k]@));
            assert(new_pairs =~= old_pairs.push(legacy_pair(word@)->0));
        }
        i += 1;
    }
    assert(ws.take(words.len() as int) == ws);
    let ghost ps = Seq::new(i as nat, |k: int| (pair_names@[k]@, pair_values@[k]@));
    // Attribute names in order of first appearance.
    let mut names: Vec<Vec<char>> = Vec::new();
    let mut m: usize = 0;
    while m < pair_names.len()
        invariant
            m <= pair_names.len() == pair_values.len() == i,
            ps == Seq::new(i as nat, |k: int| (pair_names@[k]@, pair_values@[k]@)),
            seqs_of(names@) == first_names(ps.take(m as int)),
        decreases pair_names.len() - m,
    {
        assert(ps.take(m + 1).drop_last() == ps.take(m as int));
        if !holds_name(&names, &pair_names[m]) {
            let ghost old_names = seqs_of(names@);
            names.push(pair_names[m].clone());
            assert(seqs_of(names@) =~= old_names.push(pair_names@[m as int]@));
        }
        m += 1;
    }
    assert(ps.take(i as int) == ps);
    if names.len() == 0 {
        return Err(Error::MachSyntax { raw: owned(raw), message: owned("empty mach expression") });
    }
    // One expression per attribute.
    let mut per_attribute: Vec<MachExpr> = Vec::new();
    let mut g: usize = 0;
    while g < names.len()
        invariant
            g <= names.len(),
            pair_names.len() == pair_values.len() == i,
            ps == Seq::new(i as nat, |k: int| (pair_names@[k]@, pair_values@[k]@)),
            seqs_of(names@) == first_names(ps),
            exprs_view(per_attribute@) == seqs_of(names@).take(g as int).map_values(
                |n: Seq<char>| group_expr(n, values_named(ps, n)),
            ),
        decreases names.len() - g,
    {
        let name = &names[g];
        let mut vals: Vec<Vec<char>> = Vec::new();
        let mut p: usize = 0;
        while p < pair_names.len()
            invariant
                p <= pair_names.len() == pair_values.len() == i,
                ps == Seq::new(i as nat, |k: int| (pair_names@[k]@, pair_values@[k]@)),
                seqs_of(vals@) == values_named(ps.take(p as int), name@),
            decreases pair_names.len() - p,
        {
            assert(ps.take(p + 1).drop_last() == ps.take(p as int));
            if chars_eq(&pair_names[p], name) {
                let ghost old_vals = seqs_of(vals@);
                vals.push(pair_values[p].clone());
                assert(seqs_of(vals@) =~= old_vals.push(pair_values@[p as int]@));
            }
            p += 1;
        }
        assert(ps.take(i as int) == ps);
        let attribute = MachAttribute::from_name(string_of(name).as_str());
        let e = if vals.len() == 1 {
            MachExpr::Compare { attribute, op: CompareOp::Eq, value: string_of(&vals[0]) }
        } else {
            MachExpr::Or(equality_exprs(&attribute, &vals))
        };
        proof {
            lemma_exprs_view_push(per_attribute@, e);
            assert(seqs_of(names@).take(g + 1) =~= seqs_of(names@).take(g as int).push(name@));
        }
        per_attribute.push(e);
        g += 1;
    }
    assert(seqs_of(names@).take(names.len() as int) == seqs_of(names@));
    proof {
        lemma_exprs_view_len(per_attribute@);
    }
    let ghost groups = seqs_of(names@).map_values(|n: Seq<char>| group_expr(n, values_named(ps, n)));
    assert(legacy_pairs(ws_words(raw@)) == Some(ps));
    assert(first_names(ps) == seqs_of(names@));
    if per_attribute.len() == 1 {
        assert(exprs_view(per_attribute@)[0] == groups[0]);
        assert(groups[0] == group_expr(seqs_of(names@)[0], values_named(ps, seqs_of(names@)[0])));
        let e = per_attribute.pop().unwrap();
        Ok(e)
    } else {
        Ok(MachExpr::And(per_attribute))
    }
}

/// Once one legacy word has an empty attribute, the whole list has none.
proof fn lemma_legacy_pairs_none(ws: Seq<Seq<char>>, i: int)
    requires
        0 <= i < ws.len(),
        legacy_pair(ws[i]) is None,
    ensures
        legacy_pairs(ws) is None,
    decreases ws.len(),
{
    if i < ws.len() - 1 {
        lemma_legacy_pairs_none(ws.drop_last(), i);
    }
}

} // verus!

verus! {

/// Whether trimmed expression text is in the boolean syntax: it holds
/// `&&`, `||`, `!`, `<`, `>` or a parenthesis.
pub open spec fn looks_boolean(t: Seq<char>) -> bool {
    ||| contains_pair(t, '&', '&')
    ||| contains_pair(t, '|', '|')
    ||| t.contains('!')
    ||| t.contains('<')
    ||| t.contains('>')
    ||| t.contains('(')
    ||| t.contains(')')
}

/// The syntax and expression a hardware expression text parses to.
pub open spec fn hardware_spec(raw: Seq<char>) -> Option<(HardwareSyntax, ExprSpec)> {
    let t = trim_spec(raw);
    if looks_boolean(t) {
        match boolean_spec(t) {
            Some(e) => Some((HardwareSyntax::Boolean, e)),
            None => None,
        }
    } else {
        match legacy_spec(t) {
            Some(e) => Some((HardwareSyntax::LegacyList, e)),
            None => None,
        }
    }
}

impl HardwareExpr {
    /// Parses a raw hardware expression, auto-detecting the syntax.
    ///
    /// Text containing any of `&&`, `||`, `!`, `<`, `>` or parentheses is
    /// treated as the boolean syntax; anything else as the legacy list
    /// syntax.
    ///
    /// # Errors
    ///
    /// Returns [`Error::MachSyntax`] if the expression is malformed.
    pub fn parse(raw: &str) -> (r: Result<HardwareExpr, Error>)
        ensures
            match hardware_spec(raw@) {
                None => r is Err,
                Some((syntax, e)) => r matches Ok(h) && h.raw@ == raw@ && h.syntax == syntax
                    && expr_view(h.expr) == e,
            },
            r matches Err(e) ==> e matches Error::MachSyntax { raw: t, .. } && t@ == trim_spec(raw@),
    {
        let chars = chars_of(raw);
        let trimmed_chars = trim_chars(&chars);
        let trimmed = string_of(&trimmed_chars);
        let looks = has_pair(&trimmed_chars, '&', '&') || has_pair(&trimmed_chars, '|', '|')
            || contains_char(&trimmed_chars, '!') || contains_char(&trimmed_chars, '<')
            || contains_char(&trimmed_chars, '>') || contains_char(&trimmed_chars, '(')
            || contains_char(&trimmed_chars, ')');
        let (syntax, expr) = if looks {
            (HardwareSyntax::Boolean, parse_boolean(trimmed.as_str())?)
        } else {
            (HardwareSyntax::LegacyList, parse_legacy_list(trimmed.as_str())?)
        };
        Ok(HardwareExpr { raw: owned(raw), syntax, expr })
    }
}

} // verus!
