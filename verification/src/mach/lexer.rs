//! Tokenizer for the boolean hardware expression syntax.
use vstd::prelude::*;
use crate::error::Error;
use crate::text::{append_str, chars_of, is_whitespace, is_ws, push_char, string_of};

verus! {

/// A lexical token of the boolean hardware syntax.
#[derive(Debug, Clone, PartialEq, Eq)]
pub enum Token {
    /// An attribute name or value, e.g. `CPUBOARD` or `IP22`.
    Word(String),
    /// `&&`
    And,
    /// `||`
    Or,
    /// `!`
    Not,
    /// `=`
    Eq,
    /// `!=`
    Ne,
    /// `<`
    Lt,
    /// `<=`
    Le,
    /// `>`
    Gt,
    /// `>=`
    Ge,
    /// `(`
    LParen,
    /// `)`
    RParen,
}

/// The mathematical form of a [`Token`].
pub enum TokenSpec {
    /// A word with its characters.
    Word(Seq<char>),
    /// `&&`
    And,
    /// `||`
    Or,
    /// `!`
    Not,
    /// `=`
    Eq,
    /// `!=`
    Ne,
    /// `<`
    Lt,
    /// `<=`
    Le,
    /// `>`
    Gt,
    /// `>=`
    Ge,
    /// `(`
    LParen,
    /// `)`
    RParen,
}

impl View for Token {
    type V = TokenSpec;

    open spec fn view(&self) -> TokenSpec {
        match self {
            Token::Word(s) => TokenSpec::Word(s@),
            Token::And => TokenSpec::And,
            Token::Or => TokenSpec::Or,
            Token::Not => TokenSpec::Not,
            Token::Eq => TokenSpec::Eq,
            Token::Ne => TokenSpec::Ne,
            Token::Lt => TokenSpec::Lt,
            Token::Le => TokenSpec::Le,
            Token::Gt => TokenSpec::Gt,
            Token::Ge => TokenSpec::Ge,
            Token::LParen => TokenSpec::LParen,
            Token::RParen => TokenSpec::RParen,
        }
    }
}

/// The views of a token list.
pub open spec fn tokens_view(ts: Seq<Token>) -> Seq<TokenSpec> {
    ts.map_values(|t: Token| t@)
}

/// Characters that form operators.
pub open spec fn is_operator_char(c: char) -> bool {
    c == '&' || c == '|' || c == '!' || c == '<' || c == '>' || c == '=' || c == '(' || c == ')'
}

/// Characters that form words: anything but whitespace and operators.
pub open spec fn word_char(c: char) -> bool {
    !is_ws(c) && !is_operator_char(c)
}

/// The length of the run of word characters starting at `i`.
pub open spec fn word_run(s: Seq<char>, i: int) -> int
    decreases s.len() - i,
{
    if i < 0 || i >= s.len() || !word_char(s[i]) {
        0
    } else {
        1 + word_run(s, i + 1)
    }
}

/// Whether `s[i + 1]` exists and is `d`.
pub open spec fn next_is(s: Seq<char>, i: int, d: char) -> bool {
    i + 1 < s.len() && s[i + 1] == d
}

/// Prepends a token to a lexing result.
pub open spec fn cons(t: TokenSpec, rest: Option<Seq<TokenSpec>>) -> Option<Seq<TokenSpec>> {
    match rest {
        None => None,
        Some(r) => Some(seq![t] + r),
    }
}

/// The tokens of `s[i..]`, or `None` at a stray character.
pub open spec fn lex_from(s: Seq<char>, i: int) -> Option<Seq<TokenSpec>>
    decreases s.len() - i,
{
    if i < 0 || i >= s.len() {
        Some(Seq::<TokenSpec>::empty())
    } else {
        let c = s[i];
        if is_ws(c) {
            lex_from(s, i + 1)
        } else if c == '&' && next_is(s, i, '&') {
            cons(TokenSpec::And, lex_from(s, i + 2))
        } else if c == '|' && next_is(s, i, '|') {
            cons(TokenSpec::Or, lex_from(s, i + 2))
        } else if c == '!' && next_is(s, i, '=') {
            cons(TokenSpec::Ne, lex_from(s, i + 2))
        } else if c == '!' {
            cons(TokenSpec::Not, lex_from(s, i + 1))
        } else if c == '=' {
            cons(TokenSpec::Eq, lex_from(s, i + 1))
        } else if c == '<' && next_is(s, i, '=') {
            cons(TokenSpec::Le, lex_from(s, i + 2))
        } else if c == '<' {
            cons(TokenSpec::Lt, lex_from(s, i + 1))
        } else if c == '>' && next_is(s, i, '=') {
            cons(TokenSpec::Ge, lex_from(s, i + 2))
        } else if c == '>' {
            cons(TokenSpec::Gt, lex_from(s, i + 1))
        } else if c == '(' {
            cons(TokenSpec::LParen, lex_from(s, i + 1))
        } else if c == ')' {
            cons(TokenSpec::RParen, lex_from(s, i + 1))
        } else if word_char(c) {
            proof {
                lemma_word_run(s, i);
            }
            cons(TokenSpec::Word(s.subrange(i, i + word_run(s, i))), lex_from(s, i + word_run(s, i)))
        } else {
            None
        }
    }
}

/// The first stray character of `s[i..]`, if lexing fails there.
pub open spec fn stray_char(s: Seq<char>, i: int) -> char
    decreases s.len() - i,
{
    if i < 0 || i >= s.len() {
        ' '
    } else {
        let c = s[i];
        if is_ws(c) {
            stray_char(s, i + 1)
        } else if (c == '&' && next_is(s, i, '&')) || (c == '|' && next_is(s, i, '|')) || (c == '!'
            && next_is(s, i, '=')) || (c == '<' && next_is(s, i, '=')) || (c == '>' && next_is(
            s,
            i,
            '=',
        )) {
            stray_char(s, i + 2)
        } else if c == '!' || c == '=' || c == '<' || c == '>' || c == '(' || c == ')' {
            stray_char(s, i + 1)
        } else if word_char(c) {
            proof {
                lemma_word_run(s, i);
            }
            stray_char(s, i + word_run(s, i))
        } else {
            c
        }
    }
}

pub proof fn lemma_word_run(s: Seq<char>, i: int)
    requires
        0 <= i <= s.len(),
    ensures
        0 <= word_run(s, i) <= s.len() - i,
        forall|k: int| i <= k < i + word_run(s, i) ==> #[trigger] word_char(s[k]),
        i + word_run(s, i) < s.len() ==> !word_char(s[i + word_run(s, i)]),
        i < s.len() && word_char(s[i]) ==> word_run(s, i) >= 1,
    decreases s.len() - i,
{
    if i < s.len() && word_char(s[i]) {
        lemma_word_run(s, i + 1);
    }
}

/// Splits a boolean hardware expression into tokens.
///
/// Returns [`Error::MachSyntax`] on a stray operator character (a
/// single `&` or `|`).
pub fn lex(input: &str) -> (r: Result<Vec<Token>, Error>)
    ensures
        r is Ok <==> lex_from(input@, 0) is Some,
        r matches Ok(ts) ==> lex_from(input@, 0) == Some(tokens_view(ts@)),
        r matches Err(e) ==> e matches Error::MachSyntax { raw, message } && raw@ == input@
            && message@ == "unexpected character '"@ + seq![stray_char(input@, 0)] + "'"@,
{
    let chars = chars_of(input);
    let ghost s = chars@;
    let mut tokens: Vec<Token> = Vec::new();
    let mut i: usize = 0;
    while i < chars.len()
        invariant
            s == chars@,
            s == input@,
            i <= chars.len(),
            lex_from(s, 0) == match lex_from(s, i as int) {
                None => None,
                Some(rest) => Some(tokens_view(tokens@) + rest),
            },
            stray_char(s, 0) == stray_char(s, i as int),
        decreases chars.len() - i,
    {
        let c = chars[i];
        let ghost before = tokens_view(tokens@);
        let next = if i + 1 < chars.len() { Some(chars[i + 1]) } else { None };
        let tok: Option<Token>;
        let step: usize;
        if is_whitespace(c) {
            i += 1;
            continue;
        } else if c == '&' && next == Some('&') {
            tok = Some(Token::And);
            step = 2;
        } else if c == '|' && next == Some('|') {
            tok = Some(Token::Or);
            step = 2;
        } else if c == '!' && next == Some('=') {
            tok = Some(Token::Ne);
            step = 2;
        } else if c == '!' {
            tok = Some(Token::Not);
            step = 1;
        } else if c == '=' {
            tok = Some(Token::Eq);
            step = 1;
        } else if c == '<' && next == Some('=') {
            tok = Some(Token::Le);
            step = 2;
        } else if c == '<' {
            tok = Some(Token::Lt);
            step = 1;
        } else if c == '>' && next == Some('=') {
            tok = Some(Token::Ge);
            step = 2;
        } else if c == '>' {
            tok = Some(Token::Gt);
            step = 1;
        } else if c == '(' {
            tok = Some(Token::LParen);
            step = 1;
        } else if c == ')' {
            tok = Some(Token::RParen);
            step = 1;
        } else if is_word_char(c) {
            proof {
                lemma_word_run(s, i as int);
            }
            let start = i;
            let mut end = i;
            while end < chars.len() && is_word_char(chars[end])
                invariant
                    start <= end <= chars.len(),
                    s == chars@,
                    end - start <= word_run(s, start as int),
                    forall|k: int| start <= k < end ==> #[trigger] word_char(s[k]),
                    0 <= word_run(s, start as int) <= s.len() - start,
                    forall|k: int| start <= k < start + word_run(s, start as int) ==> #[trigger] word_char(s[k]),
                    start + word_run(s, start as int) < s.len() ==> !word_char(s[start + word_run(s, start as int)]),
                decreases chars.len() - end,
            {
                end += 1;
            }
            assert(end - start == word_run(s, start as int));
            let mut w: Vec<char> = Vec::new();
            let mut k = start;
            while k < end
                invariant
                    start <= k <= end <= chars.len(),
                    s == chars@,
                    w@ == s.subrange(start as int, k as int),
                decreases end - k,
            {
                w.push(chars[k]);
                k += 1;
            }
            tok = Some(Token::Word(string_of(&w)));
            step = end - start;
        } else {
            let mut message = String::new();
            append_str(&mut message, "unexpected character '");
            push_char(&mut message, c);
            append_str(&mut message, "'");
            return Err(Error::MachSyntax { raw: string_of(&chars), message });
        }
        if let Some(t) = tok {
            tokens.push(t);
            assert(tokens_view(tokens@) =~= before + seq![tokens@.last()@]);
        }
        i += step;
    }
    proof {
        assert(tokens_view(tokens@) + Seq::<TokenSpec>::empty() =~= tokens_view(tokens@));
    }
    Ok(tokens)
}

/// Word characters: anything but whitespace and `&|!<>=()`.
pub fn is_word_char(c: char) -> (r: bool)
    ensures
        r == word_char(c),
{
    !is_whitespace(c) && !(c == '&' || c == '|' || c == '!' || c == '<' || c == '>' || c == '='
        || c == '(' || c == ')')
}

} // verus!
