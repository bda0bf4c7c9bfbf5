//! Line-oriented parser for `product.idb` files.
//!
//! The IDB is decoded as Latin-1 (one byte equals one character) so that
//! the raw line preserved in [`EntryOrigin`] matches the file exactly.
use vstd::prelude::*;
use crate::diagnostic::{Diagnostic, Severity};
use crate::error::Error;
use crate::idb::attribute::{
    attrs_view, classify, classify_spec, skip_ws_from, tokenize, tokens_from, tokens_view,
    AttrSpec, AttributeToken, IdbAttribute,
};
use crate::idb::{file_type_of, Entry, EntryId, EntryOrigin, FileType};
use crate::image::{latin1_char, latin1_string};
use crate::names::{valid_subsystem_name, SubsystemName};
use crate::num::{parse_unsigned, parse_unsigned_spec};
use crate::path::{normalize, IrixPath};
use crate::text::{
    append_str, chars_of, decimal, is_whitespace, is_ws, push_char, push_debug, split_on, string_of,
    trim_chars, trim_end_spec, trim_spec,
};

verus! {

/// The end of the word starting at `i`: the first whitespace, or the end.
pub open spec fn word_end_from(s: Seq<char>, i: int) -> int
    decreases s.len() - i,
{
    if i < 0 || i >= s.len() {
        i
    } else if is_ws(s[i]) {
        i
    } else {
        word_end_from(s, i + 1)
    }
}

/// Up to `n` whitespace-separated words of `s` from `i`, and the position
/// after the last one taken.
pub open spec fn take_words(s: Seq<char>, i: int, n: nat) -> (Seq<Seq<char>>, int)
    decreases n,
{
    if n == 0 {
        (Seq::empty(), i)
    } else {
        let k = skip_ws_from(s, i);
        let e = word_end_from(s, k);
        if e <= k {
            (Seq::empty(), k)
        } else {
            let (rest, p) = take_words(s, e, (n - 1) as nat);
            (seq![s.subrange(k, e)] + rest, p)
        }
    }
}

/// The first index at or after `j` of a bare token shaped like a
/// subsystem name, or the number of tokens.
pub open spec fn subsystem_index_from(ts: Seq<(Seq<char>, Option<Seq<char>>, Seq<char>)>, j: int) -> int
    decreases ts.len() - j,
{
    if j < 0 || j >= ts.len() {
        ts.len() as int
    } else if ts[j].1 is None && valid_subsystem_name(ts[j].0) {
        j
    } else {
        subsystem_index_from(ts, j + 1)
    }
}

/// The parsed fields of one IDB entry line.
pub struct EntryFields {
    /// Kind of filesystem object.
    pub file_type: FileType,
    /// Permission bits.
    pub mode: u32,
    /// Owner name.
    pub owner: Seq<char>,
    /// Group name.
    pub group: Seq<char>,
    /// Normalized destination path.
    pub path: Seq<char>,
    /// Destination path as written.
    pub raw_path: Seq<char>,
    /// Build-tree source path.
    pub source_path: Seq<char>,
    /// Subsystem as product, image and subsystem name.
    pub subsystem: (Seq<char>, Seq<char>, Seq<char>),
    /// Attributes in order.
    pub attrs: Seq<AttrSpec>,
}

/// The fields of an entry.
pub open spec fn entry_fields(e: Entry) -> EntryFields {
    EntryFields {
        file_type: e.file_type,
        mode: e.mode,
        owner: e.owner@,
        group: e.group@,
        path: e.path@,
        raw_path: e.raw_path@,
        source_path: e.source_path@,
        subsystem: e.subsystem@,
        attrs: e.attrs(),
    }
}

/// Every entry the lines yield comes from its raw line: the right-trimmed
/// line is accepted and gives its fields.
proof fn lemma_entries_from_lines(lines: Seq<Seq<char>>, k: int)
    requires
        0 <= k < entries_of_lines(lines).len(),
    ensures
        line_spec(trim_end_spec(entries_of_lines(lines)[k].2)) == Some(entries_of_lines(lines)[k].0),
    decreases lines.len(),
{
    let before = entries_of_lines(lines.drop_last());
    if k < before.len() {
        lemma_entries_from_lines(lines.drop_last(), k);
    }
}

/// Whether `s[a..b]` holds only whitespace.
pub open spec fn blank_span(s: Seq<char>, a: int, b: int) -> bool {
    &&& 0 <= a <= b <= s.len()
    &&& forall|i: int| a <= i < b ==> is_ws(#[trigger] s[i])
}

/// Whether `s[a..b]` is a whole whitespace-separated field: non-empty,
/// free of whitespace, and ended by whitespace or the end of `s`.
pub open spec fn field_span(s: Seq<char>, a: int, b: int) -> bool {
    &&& 0 <= a < b <= s.len()
    &&& forall|i: int| a <= i < b ==> !is_ws(#[trigger] s[i])
    &&& (b == s.len() || is_ws(s[b]))
}

/// Whether `ps` are the spans of the leading whitespace-separated fields
/// of `line`, in order: only whitespace before the first and between
/// two of them.
pub open spec fn leading_fields(line: Seq<char>, ps: Seq<(int, int)>) -> bool {
    forall|k: int| 0 <= k < ps.len() ==> {
        &&& blank_span(line, if k == 0 { 0 } else { ps[k - 1].1 }, #[trigger] ps[k].0)
        &&& field_span(line, ps[k].0, ps[k].1)
    }
}

/// The text of the `k`-th field span.
pub open spec fn field_text(line: Seq<char>, ps: Seq<(int, int)>, k: int) -> Seq<char> {
    line.subrange(ps[k].0, ps[k].1)
}

/// Whether an entry's fixed fields are the line's first six fields, in
/// the IDB column order: type letter, octal mode, owner, group,
/// destination path, source path.
pub open spec fn fixed_fields_agree(line: Seq<char>, ps: Seq<(int, int)>, f: EntryFields) -> bool {
    &&& ps.len() == 6
    &&& leading_fields(line, ps)
    &&& f.file_type == file_type_of(field_text(line, ps, 0)[0])
    &&& parse_unsigned_spec(field_text(line, ps, 1), 8, 0xffff_ffff) == Some(f.mode as nat)
    &&& f.owner == field_text(line, ps, 2)
    &&& f.group == field_text(line, ps, 3)
    &&& f.raw_path == field_text(line, ps, 4)
    &&& f.source_path == field_text(line, ps, 5)
}

/// Skipping whitespace stops at the first non-whitespace or the end.
proof fn lemma_skip_ws_span(s: Seq<char>, i: int)
    requires
        0 <= i <= s.len(),
    ensures
        i <= skip_ws_from(s, i) <= s.len(),
        blank_span(s, i, skip_ws_from(s, i)),
        skip_ws_from(s, i) < s.len() ==> !is_ws(s[skip_ws_from(s, i)]),
    decreases s.len() - i,
{
    if i < s.len() && is_ws(s[i]) {
        lemma_skip_ws_span(s, i + 1);
    }
}

/// A word runs up to the first whitespace or the end.
proof fn lemma_word_span(s: Seq<char>, k: int)
    requires
        0 <= k <= s.len(),
    ensures
        k <= word_end_from(s, k) <= s.len(),
        forall|i: int| k <= i < word_end_from(s, k) ==> !is_ws(#[trigger] s[i]),
        word_end_from(s, k) < s.len() ==> is_ws(s[word_end_from(s, k)]),
    decreases s.len() - k,
{
    if k < s.len() && !is_ws(s[k]) {
        lemma_word_span(s, k + 1);
    }
}

/// The first word `take_words` takes from `i` is the field after the
/// whitespace at `i`; the rest are taken from the field's end.
proof fn lemma_first_word(s: Seq<char>, i: int, n: nat) -> (ab: (int, int))
    requires
        0 <= i <= s.len(),
        n > 0,
        take_words(s, i, n).0.len() > 0,
    ensures
        blank_span(s, i, ab.0),
        field_span(s, ab.0, ab.1),
        take_words(s, i, n).0[0] == s.subrange(ab.0, ab.1),
        take_words(s, i, n).0.drop_first() == take_words(s, ab.1, (n - 1) as nat).0,
{
    let k = skip_ws_from(s, i);
    lemma_skip_ws_span(s, i);
    lemma_word_span(s, k);
    let e = word_end_from(s, k);
    let rest = take_words(s, e, (n - 1) as nat).0;
    assert(take_words(s, i, n).0 == seq![s.subrange(k, e)] + rest);
    assert((seq![s.subrange(k, e)] + rest).drop_first() =~= rest);
    (k, e)
}

/// An accepted IDB line's entry has the line's first six
/// whitespace-separated fields, in the IDB column order: type letter,
/// octal mode, owner, group, destination path, source path.
pub proof fn lemma_line_fields(line: Seq<char>) -> (ps: Seq<(int, int)>)
    requires
        line_spec(line) is Some,
    ensures
        fixed_fields_agree(line, ps, line_spec(line)->0),
{
    let w0 = take_words(line, 0, 6).0;
    let (a0, b0) = lemma_first_word(line, 0, 6);
    let w1 = take_words(line, b0, 5).0;
    let (a1, b1) = lemma_first_word(line, b0, 5);
    let w2 = take_words(line, b1, 4).0;
    let (a2, b2) = lemma_first_word(line, b1, 4);
    let w3 = take_words(line, b2, 3).0;
    let (a3, b3) = lemma_first_word(line, b2, 3);
    let w4 = take_words(line, b3, 2).0;
    let (a4, b4) = lemma_first_word(line, b3, 2);
    let w5 = take_words(line, b4, 1).0;
    let (a5, b5) = lemma_first_word(line, b4, 1);
    assert(w0[1] == w1[0] && w0[2] == w1[1] && w0[3] == w1[2] && w0[4] == w1[3] && w0[5] == w1[4]);
    assert(w1[1] == w2[0] && w1[2] == w2[1] && w1[3] == w2[2] && w1[4] == w2[3]);
    assert(w2[1] == w3[0] && w2[2] == w3[1] && w2[3] == w3[2]);
    assert(w3[1] == w4[0] && w3[2] == w4[1]);
    assert(w4[1] == w5[0]);
    let ps = seq![(a0, b0), (a1, b1), (a2, b2), (a3, b3), (a4, b4), (a5, b5)];
    assert forall|k: int| 0 <= k < ps.len() implies {
        &&& blank_span(line, if k == 0 { 0 } else { ps[k - 1].1 }, #[trigger] ps[k].0)
        &&& field_span(line, ps[k].0, ps[k].1)
    } by {
    }
    ps
}

/// What one (right-trimmed, non-empty) IDB line parses to: six fixed
/// fields (type, octal mode, owner, group, path, source path), then a
/// tail holding the subsystem name and the attributes in either order.
/// `None` when a field is missing, the mode is not octal, no bare token
/// is shaped like a subsystem name, or the path escapes the root.
pub open spec fn line_spec(line: Seq<char>) -> Option<EntryFields> {
    let (fixed, p) = take_words(line, 0, 6);
    if fixed.len() < 6 {
        None
    } else {
        match parse_unsigned_spec(fixed[1], 8, 0xffff_ffff) {
            None => None,
            Some(mode) => {
                let ts = tokens_from(trim_spec(line.skip(p)), 0);
                let j = subsystem_index_from(ts, 0);
                if j >= ts.len() {
                    None
                } else {
                    match normalize(fixed[4]) {
                        None => None,
                        Some(path) => {
                            let parts = split_on(ts[j].0, '.');
                            Some(EntryFields {
                                file_type: file_type_of(fixed[0][0]),
                                mode: mode as u32,
                                owner: fixed[2],
                                group: fixed[3],
                                path,
                                raw_path: fixed[4],
                                source_path: fixed[5],
                                subsystem: (parts[0], parts[1], parts[2]),
                                attrs: ts.remove(j).map_values(|t: (Seq<char>, Option<Seq<char>>, Seq<char>)| classify_spec(t)),
                            })
                        },
                    }
                }
            },
        }
    }
}

/// A line without a final `\r`.
pub open spec fn strip_cr(x: Seq<char>) -> Seq<char> {
    if x.len() > 0 && x.last() == '\r' {
        x.drop_last()
    } else {
        x
    }
}

/// The lines of a text as `str::lines` yields them: split at `\n`, a
/// `\r` before the `\n` removed, no empty line after a final `\n`.
pub open spec fn text_lines(s: Seq<char>) -> Seq<Seq<char>> {
    let parts = split_on(s, '\n');
    let body = if parts.last().len() == 0 { parts.drop_last() } else { parts };
    Seq::new(body.len(), |i: int| if i < parts.len() - 1 { strip_cr(body[i]) } else { body[i] })
}

/// The entries of lines `0..n`: each with its fields, 1-based line
/// number and raw line. Blank lines and lines that do not parse are
/// left out.
pub open spec fn entries_of_lines(lines: Seq<Seq<char>>) -> Seq<(EntryFields, int, Seq<char>)>
    decreases lines.len(),
{
    if lines.len() == 0 {
        Seq::empty()
    } else {
        let before = entries_of_lines(lines.drop_last());
        let raw = lines.last();
        let line = trim_end_spec(raw);
        if line.len() == 0 {
            before
        } else {
            match line_spec(line) {
                Some(f) => before.push((f, lines.len() as int, raw)),
                None => before,
            }
        }
    }
}

/// The Latin-1 text of the bytes.
pub open spec fn latin1_text(bytes: Seq<u8>) -> Seq<char> {
    bytes.map_values(|b: u8| latin1_char(b))
}

} // verus!

verus! {

/// `d` is `d0` followed by warnings only.
pub open spec fn warnings_added(d0: Seq<Diagnostic>, d: Seq<Diagnostic>) -> bool {
    &&& d0.len() <= d.len()
    &&& d.take(d0.len() as int) == d0
    &&& forall|i: int| d0.len() <= i < d.len() ==> (#[trigger] d[i]).severity == Severity::Warning
}

/// An error diagnostic whose origin is `origin`.
pub open spec fn error_at(d: Diagnostic, origin: Seq<char>) -> bool {
    &&& d.severity == Severity::Error
    &&& (d.origin matches Some(o) && o@ == origin)
}

/// `d` is `d0` followed by further diagnostics, the last an error whose
/// origin is `origin`.
pub open spec fn rejected_with(d0: Seq<Diagnostic>, d: Seq<Diagnostic>, origin: Seq<char>) -> bool {
    &&& d0.len() < d.len()
    &&& d.take(d0.len() as int) == d0
    &&& error_at(d.last(), origin)
}

/// Appending a warning keeps `d` an extension of `d0` by warnings.
proof fn lemma_push_warning(d0: Seq<Diagnostic>, d: Seq<Diagnostic>, x: Diagnostic)
    requires
        warnings_added(d0, d),
        x.severity == Severity::Warning,
    ensures
        warnings_added(d0, d.push(x)),
{
    assert(d.push(x).take(d0.len() as int) =~= d.take(d0.len() as int));
    assert forall|i: int| d0.len() <= i < d.push(x).len() implies (#[trigger] d.push(x)[i]).severity == Severity::Warning by {
        if i < d.len() {
            assert(d.push(x)[i] == d[i]);
        }
    }
}

/// Appending an error at `origin` makes `d` a rejection.
proof fn lemma_push_error(d0: Seq<Diagnostic>, d: Seq<Diagnostic>, x: Diagnostic, origin: Seq<char>)
    requires
        warnings_added(d0, d),
        error_at(x, origin),
    ensures
        rejected_with(d0, d.push(x), origin),
{
    assert(d.push(x).take(d0.len() as int) =~= d.take(d0.len() as int));
}

/// Extensions by warnings compose.
proof fn lemma_warnings_chain(d0: Seq<Diagnostic>, d1: Seq<Diagnostic>, d2: Seq<Diagnostic>)
    requires
        warnings_added(d0, d1),
        warnings_added(d1, d2),
    ensures
        warnings_added(d0, d2),
{
    assert(d2.take(d0.len() as int) =~= d2.take(d1.len() as int).take(d0.len() as int));
    assert forall|i: int| d0.len() <= i < d2.len() implies (#[trigger] d2[i]).severity == Severity::Warning by {
        if i < d1.len() {
            assert(d2[i] == d2.take(d1.len() as int)[i]);
        }
    }
}

/// A diagnostic message: `prefix` followed by the line as `{:?}` writes it.
fn line_message(prefix: &str, line: &Vec<char>) -> (r: String)
    ensures
        r@ == prefix@ + crate::text::debug_spec(line@),
{
    let mut message = string_of(&chars_of(prefix));
    push_debug(&mut message, string_of(line).as_str());
    message
}

/// The lines of a text, as `str::lines` yields them.
fn lines_of(chars: &Vec<char>) -> (r: Vec<Vec<char>>)
    ensures
        crate::text::seqs_of(r@) == text_lines(chars@),
{
    let parts = crate::text::split_chars(chars, '\n');
    proof {
        crate::text::lemma_split_on_shape(chars@, '\n');
    }
    let ghost ps = crate::text::seqs_of(parts@);
    let n = parts.len();
    let body_len = if parts[n - 1].len() == 0 { n - 1 } else { n };
    assert(ps.last() == parts@[n - 1]@);
    let ghost body = if ps.last().len() == 0 { ps.drop_last() } else { ps };
    let mut r: Vec<Vec<char>> = Vec::new();
    let mut i: usize = 0;
    while i < body_len
        invariant
            i <= body_len <= n,
            n == parts.len(),
            n >= 1,
            ps == crate::text::seqs_of(parts@),
            ps == split_on(chars@, '\n'),
            body.len() == body_len,
            body == (if ps.last().len() == 0 { ps.drop_last() } else { ps }),
            crate::text::seqs_of(r@) == Seq::new(i as nat, |k: int| if k < ps.len() - 1 { strip_cr(body[k]) } else { body[k] }),
        decreases body_len - i,
    {
        let part = &parts[i];
        assert(part@ == ps[i as int]);
        assert(body[i as int] == ps[i as int]);
        let line = if i < n - 1 && part.len() > 0 && part[part.len() - 1] == '\r' {
            crate::text::subvec(part, 0, part.len() - 1)
        } else {
            crate::text::subvec(part, 0, part.len())
        };
        proof {
            assert(part@.subrange(0, part@.len() as int) == part@);
            if part@.len() > 0 {
                assert(part@.subrange(0, part@.len() - 1) == part@.drop_last());
            }
            assert(line@ == (if i < ps.len() - 1 { strip_cr(body[i as int]) } else { body[i as int] }));
        }
        let ghost old_r = crate::text::seqs_of(r@);
        r.push(line);
        assert(crate::text::seqs_of(r@) =~= old_r.push(line@));
        assert(crate::text::seqs_of(r@) =~= Seq::new((i + 1) as nat, |k: int| if k < ps.len() - 1 { strip_cr(body[k]) } else { body[k] }));
        i += 1;
    }
    assert(crate::text::seqs_of(r@) =~= text_lines(chars@));
    r
}

/// Parses one right-trimmed, non-empty IDB line into an entry with id 0
/// and no payload locator. Problems are reported as diagnostics.
fn parse_line(
    line: &Vec<char>,
    idb_path: &str,
    line_number: usize,
    raw_line: &Vec<char>,
    origin: &str,
    diagnostics: &mut Vec<Diagnostic>,
) -> (r: Option<Entry>)
    ensures
        match line_spec(line@) {
            None => r is None,
            Some(f) => r matches Some(e) && entry_fields(e) == f && e.id == EntryId(0)
                && e.payload is None && e.origin.idb_path@ == idb_path@
                && e.origin.line_number == line_number && e.origin.raw_line@ == raw_line@,
        },
        r matches Some(e) ==> exists|ps: Seq<(int, int)>| #[trigger] fixed_fields_agree(line@, ps, entry_fields(e)),
        r is Some ==> warnings_added(old(diagnostics)@, final(diagnostics)@),
        r is None ==> rejected_with(old(diagnostics)@, final(diagnostics)@, origin@),
{
    let ghost s = line@;
    let ghost d0 = diagnostics@;
    assert(d0.take(d0.len() as int) =~= d0);
    // Six fixed fields: type mode owner group path source.
    let mut fixed: Vec<Vec<char>> = Vec::new();
    let mut pos: usize = 0;
    let mut stop = false;
    while fixed.len() < 6 && !stop
        invariant
            pos <= line.len(),
            s == line@,
            fixed.len() <= 6,
            !stop ==> take_words(s, 0, 6).0 == crate::text::seqs_of(fixed@) + take_words(s, pos as int, (6 - fixed.len()) as nat).0
                && take_words(s, 0, 6).1 == take_words(s, pos as int, (6 - fixed.len()) as nat).1,
            stop ==> take_words(s, 0, 6).0 == crate::text::seqs_of(fixed@) && fixed.len() < 6,
            forall|k: int| 0 <= k < fixed.len() ==> (#[trigger] fixed@[k]).len() > 0,
        decreases 6 - fixed.len() + (if stop { 0int } else { 1int }),
    {
        let ghost start = pos as int;
        while pos < line.len() && is_whitespace(line[pos])
            invariant
                start <= pos <= line.len(),
                s == line@,
                skip_ws_from(s, start) == skip_ws_from(s, pos as int),
            decreases line.len() - pos,
        {
            pos += 1;
        }
        let k = pos;
        assert(skip_ws_from(s, k as int) == k);
        while pos < line.len() && !is_whitespace(line[pos])
            invariant
                k <= pos <= line.len(),
                s == line@,
                word_end_from(s, k as int) == word_end_from(s, pos as int),
            decreases line.len() - pos,
        {
            pos += 1;
        }
        assert(word_end_from(s, pos as int) == pos);
        let ghost before = crate::text::seqs_of(fixed@);
        if pos == k {
            stop = true;
            assert(take_words(s, start, (6 - fixed.len()) as nat).0 =~= Seq::<Seq<char>>::empty());
            assert(take_words(s, 0, 6).0 =~= crate::text::seqs_of(fixed@));
        } else {
            let word = crate::text::subvec(line, k, pos);
            fixed.push(word);
            assert(crate::text::seqs_of(fixed@) =~= before.push(s.subrange(k as int, pos as int)));
        }
    }
    if fixed.len() < 6 {
        let d = Diagnostic::error(line_message("truncated IDB line: ", line), Some(string_of(&chars_of(origin))));
        proof {
            lemma_push_error(d0, diagnostics@, d, origin@);
        }
        diagnostics.push(d);
        return None;
    }
    proof {
        assert(take_words(s, pos as int, 0).0 =~= Seq::<Seq<char>>::empty());
        assert(crate::text::seqs_of(fixed@) + Seq::<Seq<char>>::empty() =~= crate::text::seqs_of(fixed@));
    }
    let ghost fx = crate::text::seqs_of(fixed@);
    assert(fx[0] == fixed@[0]@ && fx[1] == fixed@[1]@ && fx[2] == fixed@[2]@);
    assert(fx[3] == fixed@[3]@ && fx[4] == fixed@[4]@ && fx[5] == fixed@[5]@);

    let letter = fixed[0][0];
    let file_type = FileType::from_letter(letter);
    if let FileType::Unknown(_) = file_type {
        let mut message = string_of(&chars_of("unknown entry type letter "));
        crate::text::push_char_debug(&mut message, letter);
        let d = Diagnostic::warning(message, Some(string_of(&chars_of(origin))));
        proof {
            lemma_push_warning(d0, diagnostics@, d);
        }
        diagnostics.push(d);
    }

    let mode = match parse_unsigned(&fixed[1], 8, 0xffff_ffff) {
        Some(mode) => mode as u32,
        None => {
            let d = Diagnostic::error(line_message("invalid octal mode ", &fixed[1]), Some(string_of(&chars_of(origin))));
            proof {
                lemma_push_error(d0, diagnostics@, d, origin@);
            }
            diagnostics.push(d);
            return None;
        },
    };

    let owner = string_of(&fixed[2]);
    let group = string_of(&fixed[3]);
    let raw_path = string_of(&fixed[4]);
    let source_path = string_of(&fixed[5]);

    // Tokenize the tail parenthesis- and quote-aware, then pick out the
    // one bare token shaped like a subsystem name.
    let rest = crate::text::subvec(line, pos, line.len());
    assert(rest@ == s.skip(pos as int));
    let tail = string_of(&trim_chars(&rest));
    let ghost d1 = diagnostics@;
    let mut tokens = tokenize(tail.as_str(), origin, diagnostics);
    proof {
        assert(warnings_added(d1, diagnostics@));
        lemma_warnings_chain(d0, d1, diagnostics@);
    }
    let ghost ts = tokens_view(tokens@);
    let mut subsystem: Option<(usize, SubsystemName)> = None;
    let mut j: usize = 0;
    let mut done = false;
    while j < tokens.len() && !done
        invariant
            j <= tokens.len(),
            ts == tokens_view(tokens@),
            ts.len() == tokens.len(),
            match subsystem {
                None => forall|k: int| 0 <= k < j ==> !(ts[k].1 is None && valid_subsystem_name(#[trigger] ts[k].0)),
                Some((f, n)) => f == subsystem_index_from(ts, 0) && f < ts.len()
                    && n@ == (split_on(ts[f as int].0, '.')[0], split_on(ts[f as int].0, '.')[1], split_on(ts[f as int].0, '.')[2]),
            },
            subsystem_index_from(ts, 0) == (match subsystem { None => subsystem_index_from(ts, j as int), Some((f, _)) => f as int }),
            done ==> subsystem is Some,
            warnings_added(d0, diagnostics@),
        decreases tokens.len() - j + (if done { 0int } else { 1int }),
    {
        assert(ts[j as int] == crate::idb::attribute::token_view(tokens@[j as int]));
        if !tokens[j].has_args() {
            match SubsystemName::parse(tokens[j].name.as_str()) {
                Ok(name) => {
                    if subsystem.is_some() {
                        let d = Diagnostic::warning(
                            line_message("multiple subsystem-shaped tokens on line; using the first: ", line),
                            Some(string_of(&chars_of(origin))),
                        );
                        proof {
                            lemma_push_warning(d0, diagnostics@, d);
                        }
                        diagnostics.push(d);
                        done = true;
                    } else {
                        subsystem = Some((j, name));
                    }
                },
                Err(_) => {},
            }
        }
        if !done {
            j += 1;
        }
    }
    proof {
        assert(take_words(s, 0, 6).1 == pos as int);
        assert(fx == take_words(s, 0, 6).0);
        assert(parse_unsigned_spec(fx[1], 8, 0xffff_ffff) == Some(mode as nat));
        assert(ts == tokens_from(trim_spec(s.skip(pos as int)), 0));
        assert(raw_path@ == fx[4]);
    }
    let (subsystem_index, subsystem_name) = match subsystem {
        Some(found) => found,
        None => {
            let d = Diagnostic::error(line_message("no subsystem name on IDB line: ", line), Some(string_of(&chars_of(origin))));
            proof {
                lemma_push_error(d0, diagnostics@, d, origin@);
            }
            diagnostics.push(d);
            return None;
        },
    };

    let path = match IrixPath::new(raw_path.as_str()) {
        Ok(path) => path,
        Err(error) => {
            let mut message = string_of(&chars_of("skipping entry with unsafe path: "));
            append_str(&mut message, error.to_string().as_str());
            let d = Diagnostic::error(message, Some(string_of(&chars_of(origin))));
            proof {
                lemma_push_error(d0, diagnostics@, d, origin@);
            }
            diagnostics.push(d);
            return None;
        },
    };

    let mut attributes: Vec<IdbAttribute> = Vec::new();
    let ghost expected = ts.remove(subsystem_index as int);
    let mut i: usize = 0;
    while tokens.len() > 0
        invariant
            i + tokens.len() == ts.len(),
            ts.len() <= usize::MAX,
            subsystem_index < ts.len(),
            tokens_view(tokens@) == ts.skip(i as int),
            expected == ts.remove(subsystem_index as int),
            attrs_view(attributes@) == (if i <= subsystem_index { expected.take(i as int) } else { expected.take(i - 1) })
                .map_values(|t: (Seq<char>, Option<Seq<char>>, Seq<char>)| classify_spec(t)),
            warnings_added(d0, diagnostics@),
        decreases tokens.len(),
    {
        let ghost old_toks = tokens@;
        assert(tokens_view(old_toks)[0] == crate::idb::attribute::token_view(old_toks[0]));
        assert(ts.skip(i as int)[0] == ts[i as int]);
        let token = tokens.remove(0);
        proof {
            assert(token == old_toks[0]);
            assert(tokens@ == old_toks.remove(0));
            assert(tokens_view(old_toks.remove(0)) =~= tokens_view(old_toks).skip(1));
            assert(ts.skip(i as int).skip(1) =~= ts.skip(i + 1));
            assert(tokens_view(tokens@) =~= ts.skip(i + 1));
        }
        if i != subsystem_index {
            let ghost d2 = diagnostics@;
            let a = classify(token, origin, diagnostics);
            proof {
                assert(d2.take(d2.len() as int) =~= d2);
                if diagnostics@ != d2 {
                    assert(diagnostics@.drop_last() == d2);
                    lemma_push_warning(d2, d2, diagnostics@.last());
                    assert(d2.push(diagnostics@.last()) =~= diagnostics@);
                    assert(d2.take(d2.len() as int) =~= d2);
                } else {
                    assert(d2.take(d2.len() as int) =~= d2);
                }
                lemma_warnings_chain(d0, d2, diagnostics@);
            }
            proof {
                let ghost k = if i < subsystem_index { i as int } else { i - 1 };
                assert(expected[k] == ts[i as int]);
                assert(expected.take(k + 1) == expected.take(k).push(expected[k]));
                assert(attrs_view(attributes@.push(a)) =~= attrs_view(attributes@).push(crate::idb::attribute::attr_view(a)));
            }
            attributes.push(a);
        } else {
            assert(expected.take(i as int) == expected.take(i as int));
        }
        i += 1;
        assert(attrs_view(attributes@) =~= (if i <= subsystem_index { expected.take(i as int) } else { expected.take(i - 1) })
            .map_values(|t: (Seq<char>, Option<Seq<char>>, Seq<char>)| classify_spec(t)));
    }
    assert(expected.take(expected.len() as int) == expected);

    let entry = Entry {
        id: EntryId(0),
        file_type,
        mode,
        owner,
        group,
        path,
        raw_path,
        source_path,
        subsystem: subsystem_name,
        attributes,
        payload: None,
        origin: EntryOrigin {
            idb_path: string_of(&chars_of(idb_path)),
            line_number,
            raw_line: string_of(raw_line),
        },
    };
    proof {
        assert(entry_fields(entry) == line_spec(s)->0);
        let ps = lemma_line_fields(s);
        assert(fixed_fields_agree(line@, ps, entry_fields(entry)));
    }
    Some(entry)
}

} // verus!

verus! {

/// Whether line `n` (counted from 1) of `ls` is not blank once
/// right-trimmed but yields no entry.
pub open spec fn rejected_line(ls: Seq<Seq<char>>, n: int) -> bool {
    &&& 1 <= n <= ls.len()
    &&& trim_end_spec(ls[n - 1]).len() > 0
    &&& line_spec(trim_end_spec(ls[n - 1])) is None
}

/// The origin of line `n` of the IDB file at `idb_path`: `path:n`.
pub open spec fn line_origin(idb_path: Seq<char>, n: int) -> Seq<char> {
    idb_path.push(':') + crate::text::decimal_spec(n as nat)
}

/// Parses a complete IDB file into entries.
///
/// The bytes are decoded as Latin-1. Malformed lines are skipped with a
/// diagnostic; the rest of the file is still parsed. Entries get ids in
/// IDB order; their payload locators are left `None` here and filled in
/// when the image layout is computed.
pub fn parse(bytes: &[u8], idb_path: &str, diagnostics: &mut Vec<Diagnostic>) -> (r: Result<Vec<Entry>, Error>)
    ensures
        r matches Ok(es) && {
            let spec = entries_of_lines(text_lines(latin1_text(bytes@)));
            &&& es.len() == spec.len()
            &&& forall|k: int| 0 <= k < es.len() ==> {
                &&& entry_fields(#[trigger] es[k]) == spec[k].0
                &&& es[k].origin.line_number == spec[k].1
                &&& es[k].origin.raw_line@ == spec[k].2
                &&& es[k].origin.idb_path@ == idb_path@
                &&& es[k].id == EntryId(k as usize)
                &&& es[k].payload is None
            }
        },
        r matches Ok(es) ==> forall|k: int| #![trigger es[k]] 0 <= k < es.len() ==> exists|ps: Seq<(int, int)>|
            #[trigger] fixed_fields_agree(trim_end_spec(es[k].origin.raw_line@), ps, entry_fields(es[k])),
        old(diagnostics)@.len() <= final(diagnostics)@.len(),
        final(diagnostics)@.take(old(diagnostics)@.len() as int) == old(diagnostics)@,
        forall|n: int| #[trigger] rejected_line(text_lines(latin1_text(bytes@)), n) ==> exists|i: int|
            old(diagnostics)@.len() <= i < final(diagnostics)@.len()
            && #[trigger] error_at(final(diagnostics)@[i], line_origin(idb_path@, n)),
{
    let ghost d0 = diagnostics@;
    assert(d0.take(d0.len() as int) =~= d0);
    let text = latin1_string(bytes);
    let chars = chars_of(text.as_str());
    let lines = lines_of(&chars);
    let ghost ls = crate::text::seqs_of(lines@);
    let mut entries: Vec<Entry> = Vec::new();
    let mut i: usize = 0;
    while i < lines.len()
        invariant
            i <= lines.len(),
            ls == crate::text::seqs_of(lines@),
            ls == text_lines(latin1_text(bytes@)),
            entries.len() == entries_of_lines(ls.take(i as int)).len(),
            forall|k: int| 0 <= k < entries.len() ==> {
                let spec = entries_of_lines(ls.take(i as int));
                &&& entry_fields(#[trigger] entries@[k]) == spec[k].0
                &&& entries@[k].origin.line_number == spec[k].1
                &&& entries@[k].origin.raw_line@ == spec[k].2
                &&& entries@[k].origin.idb_path@ == idb_path@
                &&& entries@[k].id == EntryId(k as usize)
                &&& entries@[k].payload is None
            },
            d0.len() <= diagnostics@.len(),
            diagnostics@.take(d0.len() as int) == d0,
            forall|n: int| #[trigger] rejected_line(ls, n) && n <= i ==> exists|q: int|
                d0.len() <= q < diagnostics@.len() && #[trigger] error_at(diagnostics@[q], line_origin(idb_path@, n)),
        decreases lines.len() - i,
    {
        let ghost before = diagnostics@;
        let raw_line = &lines[i];
        assert(ls.take(i + 1).drop_last() == ls.take(i as int));
        assert(ls.take(i + 1).last() == raw_line@);
        let line = crate::text::trim_end_chars(raw_line);
        let line_number = i + 1;
        if line.len() > 0 {
            let mut origin = string_of(&chars_of(idb_path));
            push_char(&mut origin, ':');
            append_str(&mut origin, decimal(line_number as u64).as_str());
            assert(origin@ == line_origin(idb_path@, line_number as int));
            match parse_line(&line, idb_path, line_number, raw_line, origin.as_str(), diagnostics) {
                Some(mut entry) => {
                    entry.id = EntryId(entries.len());
                    entries.push(entry);
                },
                None => {
                    assert(error_at(diagnostics@[diagnostics@.len() - 1], line_origin(idb_path@, line_number as int)));
                },
            }
        }
        proof {
            assert(diagnostics@.take(before.len() as int) == before);
            assert(diagnostics@.take(d0.len() as int) =~= before.take(d0.len() as int));
            assert forall|n: int| #[trigger] rejected_line(ls, n) && n <= i + 1 implies exists|q: int|
                d0.len() <= q < diagnostics@.len() && #[trigger] error_at(diagnostics@[q], line_origin(idb_path@, n)) by {
                if n <= i {
                    let q = choose|q: int| d0.len() <= q < before.len() && #[trigger] error_at(before[q], line_origin(idb_path@, n));
                    assert(diagnostics@[q] == diagnostics@.take(before.len() as int)[q]);
                } else {
                    assert(ls[n - 1] == raw_line@);
                    assert(error_at(diagnostics@[diagnostics@.len() - 1], line_origin(idb_path@, n)));
                }
            }
        }
        i += 1;
    }
    assert(ls.take(lines.len() as int) == ls);
    proof {
        let spec = entries_of_lines(ls);
        assert forall|k: int| #![trigger entries@[k]] 0 <= k < entries@.len() implies exists|ps: Seq<(int, int)>|
            #[trigger] fixed_fields_agree(trim_end_spec(entries@[k].origin.raw_line@), ps, entry_fields(entries@[k])) by {
            lemma_entries_from_lines(ls, k);
            let ps = lemma_line_fields(trim_end_spec(spec[k].2));
            assert(fixed_fields_agree(trim_end_spec(entries@[k].origin.raw_line@), ps, entry_fields(entries@[k])));
        }
    }
    Ok(entries)
}

} // verus!
