//! Human-readable rendering of distributions, entries, conflicts and
//! extraction reports.
use vstd::prelude::*;
use vstd::utf8::encode_utf8;
use crate::idb::attribute::IdbAttribute;
use crate::descriptor::model::{
    dotted_target, ConditionalFlag, Cutpoint, HardwareRestrictions, Subsystem, SubsystemFlags, SubsystemRange,
    SubsystemRules, Version, VersionLimit,
};
use crate::distribution::Product;
use crate::mach::HardwareExpr;
use crate::idb::{encoded_size_of, first_size, first_stored_size, Entry, FileType};
use crate::extract::{ExtractFailure, ExtractRecovery, ExtractReport};
use crate::image::{Image, PayloadResolution};
use crate::selection::SelectionConflict;
use crate::text::{hex_bare, hex_spec};
use crate::names::{dotted2, dotted3};
use crate::text::{append_str, chars_of, decimal, decimal_spec, push_char, string_of};

verus! {

/// The width `len()` reports for a text: its UTF-8 byte count.
pub open spec fn width_of(s: Seq<char>) -> nat {
    (encode_utf8(s).len() as usize) as nat
}

/// `n` spaces.
pub open spec fn spaces(n: nat) -> Seq<char> {
    Seq::new(n, |i: int| ' ')
}

/// A cell left-aligned in a column of the given width, as `{:<width$}`
/// writes it: padded with spaces up to `width` characters.
pub open spec fn padded(cell: Seq<char>, width: nat) -> Seq<char> {
    cell + spaces(if width > cell.len() { (width - cell.len()) as nat } else { 0 })
}

/// The width of column `k` over the header and the first `n` rows: the
/// widest of their cells in that column.
pub open spec fn column_width(h: Seq<Seq<char>>, rows: Seq<Seq<Seq<char>>>, k: int, n: int) -> nat
    decreases n,
{
    if n <= 0 {
        width_of(h[k])
    } else {
        let w = column_width(h, rows, k, n - 1);
        if k < rows[n - 1].len() && width_of(rows[n - 1][k]) > w {
            width_of(rows[n - 1][k])
        } else {
            w
        }
    }
}

/// The first `n` cells of a table line: every cell but the last padded
/// to its column's width and followed by two spaces; the last unpadded.
pub open spec fn cells_text(cells: Seq<Seq<char>>, h: Seq<Seq<char>>, rows: Seq<Seq<Seq<char>>>, n: int) -> Seq<char>
    decreases n,
{
    if n <= 0 {
        Seq::empty()
    } else if n - 1 == cells.len() - 1 {
        cells_text(cells, h, rows, n - 1) + cells[n - 1]
    } else {
        cells_text(cells, h, rows, n - 1) + padded(cells[n - 1], column_width(h, rows, n - 1, rows.len() as int))
            + seq![' ', ' ']
    }
}

/// One table line, ended by a newline.
pub open spec fn row_line(cells: Seq<Seq<char>>, h: Seq<Seq<char>>, rows: Seq<Seq<Seq<char>>>) -> Seq<char> {
    cells_text(cells, h, rows, cells.len() as int) + seq!['\n']
}

/// The lines of the first `n` rows.
pub open spec fn rows_text(h: Seq<Seq<char>>, rows: Seq<Seq<Seq<char>>>, n: int) -> Seq<char>
    decreases n,
{
    if n <= 0 {
        Seq::empty()
    } else {
        rows_text(h, rows, n - 1) + row_line(rows[n - 1], h, rows)
    }
}

/// An aligned table: the header line, then one line per row.
pub open spec fn table_spec(h: Seq<Seq<char>>, rows: Seq<Seq<Seq<char>>>) -> Seq<char> {
    row_line(h, h, rows) + rows_text(h, rows, rows.len() as int)
}

/// The texts of a list of strings.
pub open spec fn texts(v: Seq<String>) -> Seq<Seq<char>> {
    v.map_values(|s: String| s@)
}

/// The texts of a list of rows.
pub open spec fn row_texts(rows: Seq<Vec<String>>) -> Seq<Seq<Seq<char>>> {
    rows.map_values(|r: Vec<String>| texts(r@))
}

/// The texts of a list of string slices.
pub open spec fn str_texts(v: Seq<&str>) -> Seq<Seq<char>> {
    v.map_values(|s: &str| s@)
}

/// Appends `n` spaces.
fn push_spaces(out: &mut String, n: usize)
    ensures
        final(out)@ == old(out)@ + spaces(n as nat),
{
    let ghost head = out@;
    let mut k: usize = 0;
    while k < n
        invariant
            k <= n,
            out@ == head + spaces(k as nat),
        decreases n - k,
    {
        push_char(out, ' ');
        k += 1;
        assert(out@ =~= head + spaces(k as nat));
    }
}

/// Appends one table line.
fn push_row(out: &mut String, cells: &Vec<String>, widths: &Vec<usize>, Ghost(h): Ghost<Seq<Seq<char>>>, Ghost(rows): Ghost<Seq<Seq<Seq<char>>>>)
    requires
        0 < cells@.len() <= widths@.len(),
        widths@.len() == h.len(),
        forall|k: int| 0 <= k < widths@.len() ==> #[trigger] widths@[k] == column_width(h, rows, k, rows.len() as int),
    ensures
        final(out)@ == old(out)@ + row_line(texts(cells@), h, rows),
{
    let ghost head = out@;
    let ghost cs = texts(cells@);
    let last = cells.len() - 1;
    let mut k: usize = 0;
    while k < cells.len()
        invariant
            k <= cells.len(),
            last == cells@.len() - 1,
            cs == texts(cells@),
            0 < cells@.len() <= widths@.len(),
            widths@.len() == h.len(),
            forall|q: int| 0 <= q < widths@.len() ==> #[trigger] widths@[q] == column_width(h, rows, q, rows.len() as int),
            out@ == head + cells_text(cs, h, rows, k as int),
        decreases cells.len() - k,
    {
        let cell = cells[k].as_str();
        append_str(out, cell);
        if k != last {
            let count = crate::text::chars_of(cell).len();
            if widths[k] > count {
                push_spaces(out, widths[k] - count);
            } else {
                push_spaces(out, 0);
            }
            append_str(out, "  ");
            assert("  "@ =~= seq![' ', ' ']) by {
                reveal_strlit("  ");
            }
        }
        k += 1;
        assert(out@ =~= head + cells_text(cs, h, rows, k as int));
    }
    push_char(out, '\n');
}

/// Renders an aligned table. The last column is left unpadded; columns
/// are as wide as their widest cell in bytes.
pub fn table(headers: &[&str], rows: &[Vec<String>]) -> (r: String)
    requires
        headers@.len() > 0,
        forall|i: int| 0 <= i < rows@.len() ==> 0 < (#[trigger] rows@[i])@.len() <= headers@.len(),
    ensures
        r@ == table_spec(str_texts(headers@), row_texts(rows@)),
{
    let ghost h = str_texts(headers@);
    let ghost rs = row_texts(rows@);
    let mut widths: Vec<usize> = Vec::new();
    let mut k: usize = 0;
    while k < headers.len()
        invariant
            k <= headers.len(),
            h == str_texts(headers@),
            widths@.len() == k,
            forall|q: int| 0 <= q < k ==> #[trigger] widths@[q] == column_width(h, rs, q, 0),
        decreases headers.len() - k,
    {
        widths.push(headers[k].len());
        k += 1;
    }
    let mut i: usize = 0;
    while i < rows.len()
        invariant
            i <= rows.len(),
            h == str_texts(headers@),
            rs == row_texts(rows@),
            widths@.len() == headers@.len(),
            forall|j: int| 0 <= j < rows@.len() ==> 0 < (#[trigger] rows@[j])@.len() <= headers@.len(),
            forall|q: int| 0 <= q < widths@.len() ==> #[trigger] widths@[q] == column_width(h, rs, q, i as int),
        decreases rows.len() - i,
    {
        let row = &rows[i];
        let ghost before = widths@;
        let mut c: usize = 0;
        while c < widths.len()
            invariant
                c <= widths@.len(),
                i < rows@.len(),
                *row == rows@[i as int],
                rs == row_texts(rows@),
                widths@.len() == before.len(),
                forall|q: int| 0 <= q < before.len() ==> #[trigger] before[q] == column_width(h, rs, q, i as int),
                forall|q: int| 0 <= q < c ==> #[trigger] widths@[q] == column_width(h, rs, q, i as int + 1),
                forall|q: int| c <= q < widths@.len() ==> #[trigger] widths@[q] == before[q],
            decreases widths.len() - c,
        {
            if c < row.len() {
                let w = row[c].as_str().len();
                if w > widths[c] {
                    widths.set(c, w);
                }
            }
            c += 1;
        }
        i += 1;
    }
    let mut header_cells: Vec<String> = Vec::new();
    let mut k: usize = 0;
    while k < headers.len()
        invariant
            k <= headers.len(),
            header_cells@.len() == k,
            forall|q: int| 0 <= q < k ==> (#[trigger] header_cells@[q])@ == headers@[q]@,
        decreases headers.len() - k,
    {
        header_cells.push(string_of(&chars_of(headers[k])));
        k += 1;
    }
    assert(texts(header_cells@) =~= h);
    let mut out = String::new();
    push_row(&mut out, &header_cells, &widths, Ghost(h), Ghost(rs));
    let mut i: usize = 0;
    while i < rows.len()
        invariant
            i <= rows.len(),
            h == str_texts(headers@),
            rs == row_texts(rows@),
            widths@.len() == headers@.len(),
            forall|j: int| 0 <= j < rows@.len() ==> 0 < (#[trigger] rows@[j])@.len() <= headers@.len(),
            forall|q: int| 0 <= q < widths@.len() ==> #[trigger] widths@[q] == column_width(h, rs, q, rows@.len() as int),
            out@ == row_line(h, h, rs) + rows_text(h, rs, i as int),
        decreases rows.len() - i,
    {
        push_row(&mut out, &rows[i], &widths, Ghost(h), Ghost(rs));
        i += 1;
    }
    out
}

/// The display text of one attribute in the hardware column: a parsed
/// expression's raw text, or the raw text of an unparsable one marked
/// as such; `None` for every other attribute.
pub open spec fn mach_part(a: IdbAttribute) -> Option<Seq<char>> {
    match a {
        IdbAttribute::Mach(e) => Some(e.raw@),
        IdbAttribute::MachUnparsed { raw, .. } => Some("unparsable: "@ + raw@),
        _ => None,
    }
}

/// The hardware display parts of an attribute list, in order.
pub open spec fn mach_parts(v: Seq<IdbAttribute>) -> Seq<Seq<char>>
    decreases v.len(),
{
    if v.len() == 0 {
        Seq::empty()
    } else {
        match mach_part(v.last()) {
            Some(t) => mach_parts(v.drop_last()).push(t),
            None => mach_parts(v.drop_last()),
        }
    }
}

/// Parts joined by a separator.
pub open spec fn join_with(parts: Seq<Seq<char>>, sep: Seq<char>) -> Seq<char>
    decreases parts.len(),
{
    if parts.len() == 0 {
        Seq::empty()
    } else if parts.len() == 1 {
        parts[0]
    } else {
        join_with(parts.drop_last(), sep) + sep + parts.last()
    }
}

/// The hardware column of an entry: its `mach` expressions joined by
/// `, `, or `-` when it has none.
pub open spec fn entry_mach_spec(e: Entry) -> Seq<char> {
    if mach_parts(e.attributes@).len() == 0 {
        "-"@
    } else {
        join_with(mach_parts(e.attributes@), ", "@)
    }
}

/// The hardware expressions of an entry for display, including
/// unparsable ones (which must never look like "no restriction").
pub fn entry_mach(entry: &Entry) -> (r: String)
    ensures
        r@ == entry_mach_spec(*entry),
{
    let mut out = String::new();
    let mut any = false;
    let mut i: usize = 0;
    while i < entry.attributes.len()
        invariant
            i <= entry.attributes.len(),
            any == (mach_parts(entry.attributes@.take(i as int)).len() > 0),
            out@ == join_with(mach_parts(entry.attributes@.take(i as int)), ", "@),
        decreases entry.attributes.len() - i,
    {
        let ghost before = mach_parts(entry.attributes@.take(i as int));
        proof {
            assert(entry.attributes@.take(i as int + 1).drop_last() =~= entry.attributes@.take(i as int));
            assert(entry.attributes@.take(i as int + 1).last() == entry.attributes@[i as int]);
        }
        match &entry.attributes[i] {
            IdbAttribute::Mach(expression) => {
                if any {
                    append_str(&mut out, ", ");
                }
                append_str(&mut out, expression.raw.as_str());
                proof {
                    let now = mach_parts(entry.attributes@.take(i as int + 1));
                    assert(now == before.push(expression.raw@));
                    assert(now.drop_last() =~= before);
                    if before.len() == 0 {
                        assert(out@ =~= now[0]);
                    }
                }
            },
            IdbAttribute::MachUnparsed { raw, .. } => {
                if any {
                    append_str(&mut out, ", ");
                }
                append_str(&mut out, "unparsable: ");
                append_str(&mut out, raw.as_str());
                proof {
                    let now = mach_parts(entry.attributes@.take(i as int + 1));
                    assert(now == before.push("unparsable: "@ + raw@));
                    assert(now.drop_last() =~= before);
                    if before.len() == 0 {
                        assert(out@ =~= now[0]);
                    } else {
                        assert(out@ =~= join_with(before, ", "@) + ", "@ + ("unparsable: "@ + raw@));
                    }
                }
            },
            _ => {},
        }
        any = any || match &entry.attributes[i] {
            IdbAttribute::Mach(_) => true,
            IdbAttribute::MachUnparsed { .. } => true,
            _ => false,
        };
        i += 1;
    }
    proof {
        assert(entry.attributes@.take(entry.attributes@.len() as int) =~= entry.attributes@);
    }
    if !any {
        let dash = String::from_str("-");
        return dash;
    }
    out
}


/// The decimal digits of a wide count.
fn decimal_wide(n: u128) -> (s: String)
    ensures
        s@ == decimal_spec(n as nat),
{
    let v = decimal_wide_chars(n);
    string_of(&v)
}

/// The decimal digits of a wide count, as characters.
fn decimal_wide_chars(n: u128) -> (v: Vec<char>)
    ensures
        v@ == decimal_spec(n as nat),
    decreases n,
{
    if n < 10 {
        vec![crate::text::digit(n as u64)]
    } else {
        let mut v = decimal_wide_chars(n / 10);
        v.push(crate::text::digit((n % 10) as u64));
        v
    }
}

/// A text, or `-` when there is none.
pub open spec fn or_dash(t: Option<String>) -> Seq<char> {
    match t {
        Some(s) => s@,
        None => "-"@,
    }
}

/// `Y` or `N`.
pub open spec fn yes_no_spec(b: bool) -> Seq<char> {
    if b { "Y"@ } else { "N"@ }
}

/// The number of subsystems of the first `n` images.
pub open spec fn subsystem_total(imgs: Seq<Image>, n: int) -> nat
    decreases n,
{
    if n <= 0 {
        0
    } else {
        subsystem_total(imgs, n - 1) + imgs[n - 1].subsystems@.len()
    }
}

/// The cells of a product's line in the product table.
pub open spec fn product_row(p: Product) -> Seq<Seq<char>> {
    seq![
        p.name@,
        yes_no_spec(p.descriptor is Some),
        yes_no_spec(p.idb_file is Some),
        decimal_spec(p.images@.len()),
        decimal_spec(subsystem_total(p.images@, p.images@.len() as int)),
        decimal_spec(p.entries@.len()),
        or_dash(p.title),
    ]
}

/// The headers of the product table.
pub open spec fn product_headers() -> Seq<Seq<char>> {
    seq!["NAME"@, "D"@, "I"@, "IMAGES"@, "SUBSYSTEMS"@, "ENTRIES"@, "TITLE"@]
}

/// `Y` or `N`.
fn yes_no(value: bool) -> (r: String)
    ensures
        r@ == yes_no_spec(value),
{
    if value { String::from_str("Y") } else { String::from_str("N") }
}

/// A text, or `-` when there is none.
fn text_or_dash(t: &Option<String>) -> (r: String)
    ensures
        r@ == or_dash(*t),
{
    match t {
        Some(s) => s.clone(),
        None => String::from_str("-"),
    }
}

/// The cells of a product's line in the product table.
fn product_cells(product: &Product) -> (r: Vec<String>)
    ensures
        texts(r@) == product_row(*product),
{
    let mut total: u128 = 0;
    let mut i: usize = 0;
    while i < product.images.len()
        invariant
            i <= product.images.len(),
            total == subsystem_total(product.images@, i as int),
            total <= i * 18446744073709551615u128,
        decreases product.images.len() - i,
    {
        total = total + product.images[i].subsystems.len() as u128;
        i += 1;
    }
    let mut r: Vec<String> = Vec::new();
    r.push(product.name.to_string());
    r.push(yes_no(product.descriptor.is_some()));
    r.push(yes_no(product.idb_file.is_some()));
    r.push(decimal(product.images.len() as u64));
    r.push(decimal_wide(total));
    r.push(decimal(product.entries.len() as u64));
    r.push(text_or_dash(&product.title));
    assert(texts(r@) =~= product_row(*product));
    r
}

/// Renders the product listing table.
pub fn products_table(products: &[Product]) -> (r: String)
    ensures
        r@ == table_spec(product_headers(), products@.map_values(|p: Product| product_row(p))),
{
    let mut rows: Vec<Vec<String>> = Vec::new();
    let mut i: usize = 0;
    while i < products.len()
        invariant
            i <= products.len(),
            rows@.len() == i,
            forall|q: int| 0 <= q < i ==> texts((#[trigger] rows@[q])@) == product_row(products@[q]),
        decreases products.len() - i,
    {
        rows.push(product_cells(&products[i]));
        i += 1;
    }
    let headers: [&str; 7] = ["NAME", "D", "I", "IMAGES", "SUBSYSTEMS", "ENTRIES", "TITLE"];
    assert(str_texts(headers@) =~= product_headers());
    assert(row_texts(rows@) =~= products@.map_values(|p: Product| product_row(p)));
    table(&headers, rows.as_slice())
}

/// The display word of a file type.
pub open spec fn file_type_word(t: FileType) -> Seq<char> {
    match t {
        FileType::Regular => "file"@,
        FileType::Directory => "dir"@,
        FileType::SymbolicLink => "link"@,
        FileType::BlockDevice => "block"@,
        FileType::CharacterDevice => "char"@,
        FileType::Fifo => "fifo"@,
        FileType::Unknown(_) => "other"@,
    }
}

/// The display word of a file type.
fn file_type_name(t: FileType) -> (r: &'static str)
    ensures
        r@ == file_type_word(t),
{
    match t {
        FileType::Regular => "file",
        FileType::Directory => "dir",
        FileType::SymbolicLink => "link",
        FileType::BlockDevice => "block",
        FileType::CharacterDevice => "char",
        FileType::Fifo => "fifo",
        FileType::Unknown(_) => "other",
    }
}

/// A count in decimal, or `-` when unknown.
pub open spec fn count_or_dash(n: Option<u64>) -> Seq<char> {
    match n {
        Some(v) => decimal_spec(v as nat),
        None => "-"@,
    }
}

/// A count in decimal, or `-` when unknown.
fn count_text(n: Option<u64>) -> (r: String)
    ensures
        r@ == count_or_dash(n),
{
    match n {
        Some(v) => decimal(v),
        None => String::from_str("-"),
    }
}

/// The cells of an entry's line in the entry table.
pub open spec fn entry_row(e: Entry) -> Seq<Seq<char>> {
    seq![
        e.subsystem@.0,
        dotted3(e.subsystem@.0, e.subsystem@.1, e.subsystem@.2),
        file_type_word(e.file_type),
        count_or_dash(first_size(e.attrs())),
        count_or_dash(encoded_size_of(e.attrs())),
        entry_mach_spec(e),
        e.path@,
    ]
}

/// The headers of the entry table.
pub open spec fn entry_headers() -> Seq<Seq<char>> {
    seq!["PRODUCT"@, "SUBSYSTEM"@, "TYPE"@, "SIZE"@, "STORED"@, "MACH"@, "PATH"@]
}

/// The stored size of an entry's payload as the IDB records it: its
/// `cmpsize(...)` when non-zero, its `size(...)` when `cmpsize` is zero,
/// unknown without `cmpsize`.
pub open spec fn stored_size_recorded(e: Entry) -> Option<u64> {
    match first_stored_size(e.attrs()) {
        Some(c) => if c > 0 { Some(c) } else { first_size(e.attrs()) },
        None => None,
    }
}

/// In the entry table every header has one cell per row, and the cell
/// under `SIZE` is the entry's `size(...)` attribute while the cell
/// under `STORED` is its stored size (`cmpsize`, or `size` when `cmpsize`
/// is zero); the product, subsystem and path columns hold the entry's
/// product, dotted subsystem name and path.
pub proof fn lemma_entry_table_columns(e: Entry)
    ensures
        entry_row(e).len() == entry_headers().len(),
        forall|c: int| 0 <= c < entry_headers().len() ==> {
            &&& #[trigger] entry_headers()[c] == "SIZE"@ ==> entry_row(e)[c] == count_or_dash(first_size(e.attrs()))
            &&& entry_headers()[c] == "STORED"@ ==> entry_row(e)[c] == count_or_dash(stored_size_recorded(e))
            &&& entry_headers()[c] == "PRODUCT"@ ==> entry_row(e)[c] == e.subsystem@.0
            &&& entry_headers()[c] == "SUBSYSTEM"@ ==> entry_row(e)[c] == dotted3(e.subsystem@.0, e.subsystem@.1, e.subsystem@.2)
            &&& entry_headers()[c] == "PATH"@ ==> entry_row(e)[c] == e.path@
        },
{
    reveal_strlit("SIZE");
    reveal_strlit("STORED");
    reveal_strlit("PRODUCT");
    reveal_strlit("SUBSYSTEM");
    reveal_strlit("PATH");
    reveal_strlit("TYPE");
    reveal_strlit("MACH");
    let h = entry_headers();
    let r = entry_row(e);
    assert(h[0] == "PRODUCT"@ && h[1] == "SUBSYSTEM"@ && h[2] == "TYPE"@ && h[3] == "SIZE"@);
    assert(h[4] == "STORED"@ && h[5] == "MACH"@ && h[6] == "PATH"@);
    assert(r[3] == count_or_dash(first_size(e.attrs())) && r[4] == count_or_dash(stored_size_recorded(e)));
    assert forall|c: int| 0 <= c < h.len() implies {
        &&& #[trigger] h[c] == "SIZE"@ ==> r[c] == count_or_dash(first_size(e.attrs()))
        &&& h[c] == "STORED"@ ==> r[c] == count_or_dash(stored_size_recorded(e))
        &&& h[c] == "PRODUCT"@ ==> r[c] == e.subsystem@.0
        &&& h[c] == "SUBSYSTEM"@ ==> r[c] == dotted3(e.subsystem@.0, e.subsystem@.1, e.subsystem@.2)
        &&& h[c] == "PATH"@ ==> r[c] == e.path@
    } by {
        if c != 3 {
            assert(h[c] != "SIZE"@) by {
                if c == 4 || c == 1 { assert(h[c][1] != "SIZE"@[1]); } else { assert(h[c].len() != "SIZE"@.len() || h[c][0] != "SIZE"@[0]); }
            }
        }
        if c != 4 {
            assert(h[c] != "STORED"@) by {
                if c == 3 { assert(h[c].len() != "STORED"@.len()); } else if c == 1 { assert(h[c][1] != "STORED"@[1]); } else { assert(h[c].len() != "STORED"@.len() || h[c][0] != "STORED"@[0]); }
            }
        }
        if c != 0 {
            assert(h[c] != "PRODUCT"@) by {
                if c == 6 { assert(h[c].len() != "PRODUCT"@.len()); } else { assert(h[c].len() != "PRODUCT"@.len() || h[c][0] != "PRODUCT"@[0]); }
            }
        }
        if c != 1 {
            assert(h[c] != "SUBSYSTEM"@) by {
                assert(h[c].len() != "SUBSYSTEM"@.len());
            }
        }
        if c != 6 {
            assert(h[c] != "PATH"@) by {
                if c == 0 { assert(h[c].len() != "PATH"@.len()); } else { assert(h[c].len() != "PATH"@.len() || h[c][0] != "PATH"@[0]); }
            }
        }
    }
}

/// Renders the entry search result table.
pub fn entry_table(entries: &[&Entry]) -> (r: String)
    ensures
        r@ == table_spec(entry_headers(), entries@.map_values(|e: &Entry| entry_row(*e))),
{
    let mut rows: Vec<Vec<String>> = Vec::new();
    let mut i: usize = 0;
    while i < entries.len()
        invariant
            i <= entries.len(),
            rows@.len() == i,
            forall|q: int| 0 <= q < i ==> texts((#[trigger] rows@[q])@) == entry_row(*entries@[q]),
        decreases entries.len() - i,
    {
        let entry = entries[i];
        let mut row: Vec<String> = Vec::new();
        row.push(entry.subsystem.product().to_string());
        row.push(entry.subsystem.to_string());
        row.push(string_of(&chars_of(file_type_name(entry.file_type))));
        row.push(count_text(entry.size()));
        row.push(count_text(entry.encoded_size()));
        row.push(entry_mach(entry));
        row.push(entry.path.to_string());
        assert(texts(row@) =~= entry_row(*entry));
        rows.push(row);
        i += 1;
    }
    let headers: [&str; 7] = ["PRODUCT", "SUBSYSTEM", "TYPE", "SIZE", "STORED", "MACH", "PATH"];
    assert(str_texts(headers@) =~= entry_headers());
    assert(row_texts(rows@) =~= entries@.map_values(|e: &Entry| entry_row(*e)));
    table(&headers, rows.as_slice())
}


/// Appends `a`, `b` and a newline.
fn push_line2(out: &mut String, a: &str, b: &str)
    ensures
        final(out)@ == old(out)@ + a@ + b@ + seq!['\n'],
{
    append_str(out, a);
    append_str(out, b);
    push_char(out, '\n');
}

/// One candidate of a conflict: a blank line, its subsystem and its
/// hardware expressions.
pub open spec fn candidate_text(e: Entry) -> Seq<char> {
    seq!['\n'] + "  "@ + dotted3(e.subsystem@.0, e.subsystem@.1, e.subsystem@.2) + seq!['\n']
        + "  mach: "@ + entry_mach_spec(e) + seq!['\n']
}

/// The first `n` candidates of a conflict.
pub open spec fn candidates_text<'a>(cs: Seq<crate::distribution::LocatedEntry<'a>>, n: int) -> Seq<char>
    decreases n,
{
    if n <= 0 {
        Seq::empty()
    } else {
        candidates_text(cs, n - 1) + candidate_text(*cs[n - 1].entry)
    }
}

/// The first `n` conflicts of a report.
pub open spec fn conflicts_text<'a>(cs: Seq<&SelectionConflict<'a>>, n: int) -> Seq<char>
    decreases n,
{
    if n <= 0 {
        Seq::empty()
    } else {
        let c = cs[n - 1];
        conflicts_text(cs, n - 1) + "CONFLICT "@ + c.path@ + seq!['\n']
            + candidates_text(c.candidates@, c.candidates@.len() as int) + seq!['\n']
    }
}

/// Renders selection conflicts: the contested path plus each candidate.
pub fn conflict_report(conflicts: &[&SelectionConflict<'_>]) -> (r: String)
    ensures
        r@ == conflicts_text(conflicts@, conflicts@.len() as int),
{
    let mut out = String::new();
    let mut q: usize = 0;
    while q < conflicts.len()
        invariant
            q <= conflicts.len(),
            out@ == conflicts_text(conflicts@, q as int),
        decreases conflicts.len() - q,
    {
        let conflict = conflicts[q];
        let ghost head = out@;
        push_line2(&mut out, "CONFLICT ", conflict.path.as_str());
        let mut x: usize = 0;
        while x < conflict.candidates.len()
            invariant
                x <= conflict.candidates.len(),
                out@ == head + "CONFLICT "@ + conflict.path@ + seq!['\n'] + candidates_text(conflict.candidates@, x as int),
            decreases conflict.candidates.len() - x,
        {
            let candidate = conflict.candidates[x].entry;
            push_char(&mut out, '\n');
            let subsystem = candidate.subsystem.to_string();
            push_line2(&mut out, "  ", subsystem.as_str());
            let mach = entry_mach(candidate);
            push_line2(&mut out, "  mach: ", mach.as_str());
            x += 1;
            assert(out@ =~= head + "CONFLICT "@ + conflict.path@ + seq!['\n'] + candidates_text(conflict.candidates@, x as int));
        }
        push_char(&mut out, '\n');
        q += 1;
        assert(out@ =~= conflicts_text(conflicts@, q as int));
    }
    out
}

/// The word naming how a payload was located.
pub open spec fn method_word(r: PayloadResolution) -> Seq<char> {
    match r {
        PayloadResolution::Exact => "exact"@,
        PayloadResolution::Delta { .. } => "delta"@,
        PayloadResolution::Resynced { .. } => "resync"@,
        PayloadResolution::Scanned => "scan"@,
    }
}

/// One recovery of an extraction report.
pub open spec fn recovery_text(r: ExtractRecovery) -> Seq<char> {
    "  "@ + r.path@ + seq!['\n']
        + "  expected: "@ + (match r.expected_record_offset {
            Some(o) => seq!['0', 'x'] + hex_spec(o as nat),
            None => "-"@,
        }) + seq!['\n']
        + "  actual:   "@ + seq!['0', 'x'] + hex_spec(r.actual_record_offset as nat) + seq!['\n']
        + "  method:   "@ + method_word(r.resolution) + seq!['\n']
}

/// One failure of an extraction report.
pub open spec fn failure_text(f: ExtractFailure) -> Seq<char> {
    "  "@ + f.path@ + ": "@ + f.message@ + seq!['\n']
}

/// The first `n` recoveries.
pub open spec fn recoveries_text(v: Seq<ExtractRecovery>, n: int) -> Seq<char>
    decreases n,
{
    if n <= 0 { Seq::empty() } else { recoveries_text(v, n - 1) + recovery_text(v[n - 1]) }
}

/// The first `n` failures.
pub open spec fn failures_text(v: Seq<ExtractFailure>, n: int) -> Seq<char>
    decreases n,
{
    if n <= 0 { Seq::empty() } else { failures_text(v, n - 1) + failure_text(v[n - 1]) }
}

/// The extraction summary.
pub open spec fn report_text(r: ExtractReport, total: usize) -> Seq<char> {
    "\nExtraction complete\n\n"@
        + "Total:      "@ + decimal_spec(total as nat) + seq!['\n']
        + "Extracted:  "@ + decimal_spec(r.extracted as nat) + seq!['\n']
        + "Skipped:    "@ + decimal_spec(r.skipped as nat) + seq!['\n']
        + "Errors:     "@ + decimal_spec(r.failures@.len()) + seq!['\n']
        + "Recoveries: "@ + decimal_spec(r.recoveries@.len()) + seq!['\n']
        + (if r.recoveries@.len() > 0 {
            "\nRecovered payload:\n"@ + recoveries_text(r.recoveries@, r.recoveries@.len() as int)
        } else {
            Seq::empty()
        })
        + (if r.failures@.len() > 0 {
            "\nFailures:\n"@ + failures_text(r.failures@, r.failures@.len() as int)
        } else {
            Seq::empty()
        })
}

/// Appends one recovery of an extraction report.
fn push_recovery(out: &mut String, recovery: &ExtractRecovery)
    ensures
        final(out)@ == old(out)@ + recovery_text(*recovery),
{
    let ghost head = out@;
    push_line2(out, "  ", recovery.path.as_str());
    let expected = match recovery.expected_record_offset {
        Some(offset) => {
            let mut e = String::from_str("0x");
            append_str(&mut e, hex_bare(offset).as_str());
            e
        },
        None => String::from_str("-"),
    };
    assert(expected@ == (match recovery.expected_record_offset {
        Some(o) => seq!['0', 'x'] + hex_spec(o as nat),
        None => "-"@,
    })) by {
        reveal_strlit("0x");
    }
    push_line2(out, "  expected: ", expected.as_str());
    let mut actual = String::from_str("0x");
    append_str(&mut actual, hex_bare(recovery.actual_record_offset).as_str());
    assert(actual@ == seq!['0', 'x'] + hex_spec(recovery.actual_record_offset as nat)) by {
        reveal_strlit("0x");
    }
    push_line2(out, "  actual:   ", actual.as_str());
    let method = match recovery.resolution {
        PayloadResolution::Exact => "exact",
        PayloadResolution::Delta { .. } => "delta",
        PayloadResolution::Resynced { .. } => "resync",
        PayloadResolution::Scanned => "scan",
    };
    push_line2(out, "  method:   ", method);
    assert(out@ =~= head + recovery_text(*recovery));
}

/// Renders the extraction summary, surfacing payload recoveries and
/// failures instead of hiding them in the counts.
pub fn extract_report(report: &ExtractReport, total: usize) -> (r: String)
    ensures
        r@ == report_text(*report, total),
{
    let mut out = String::new();
    append_str(&mut out, "\nExtraction complete\n\n");
    push_line2(&mut out, "Total:      ", decimal(total as u64).as_str());
    push_line2(&mut out, "Extracted:  ", decimal(report.extracted as u64).as_str());
    push_line2(&mut out, "Skipped:    ", decimal(report.skipped as u64).as_str());
    push_line2(&mut out, "Errors:     ", decimal(report.failures.len() as u64).as_str());
    push_line2(&mut out, "Recoveries: ", decimal(report.recoveries.len() as u64).as_str());
    let ghost head = out@;
    if report.recoveries.len() > 0 {
        append_str(&mut out, "\nRecovered payload:\n");
        let ghost start = out@;
        let mut k: usize = 0;
        while k < report.recoveries.len()
            invariant
                k <= report.recoveries.len(),
                out@ == start + recoveries_text(report.recoveries@, k as int),
            decreases report.recoveries.len() - k,
        {
            push_recovery(&mut out, &report.recoveries[k]);
            k += 1;
            assert(out@ =~= start + recoveries_text(report.recoveries@, k as int));
        }
    }
    let ghost middle = out@;
    if report.failures.len() > 0 {
        append_str(&mut out, "\nFailures:\n");
        let ghost start = out@;
        let mut k: usize = 0;
        while k < report.failures.len()
            invariant
                k <= report.failures.len(),
                out@ == start + failures_text(report.failures@, k as int),
            decreases report.failures.len() - k,
        {
            let failure = &report.failures[k];
            append_str(&mut out, "  ");
            append_str(&mut out, failure.path.as_str());
            append_str(&mut out, ": ");
            push_line2(&mut out, failure.message.as_str(), "");
            k += 1;
            assert(out@ =~= start + failures_text(report.failures@, k as int)) by {
                reveal_strlit("");
            }
        }
    }
    assert(out@ =~= report_text(*report, total));
    out
}


/// `yes` or `no`.
pub open spec fn word_spec(b: bool) -> Seq<char> {
    if b { "yes"@ } else { "no"@ }
}

/// `yes` or `no`.
fn word(value: bool) -> (r: &'static str)
    ensures
        r@ == word_spec(value),
{
    if value { "yes" } else { "no" }
}

/// A version number, or `-`.
pub open spec fn version_text(v: Option<Version>) -> Seq<char> {
    match v {
        Some(x) => decimal_spec(x.0 as nat),
        None => "-"@,
    }
}

/// A signed number in decimal.
pub open spec fn signed_text(i: int) -> Seq<char> {
    if i < 0 { seq!['-'] + decimal_spec((-i) as nat) } else { decimal_spec(i as nat) }
}

/// An order number, or `-`.
pub open spec fn order_text(o: Option<i32>) -> Seq<char> {
    match o {
        Some(x) => signed_text(x as int),
        None => "-"@,
    }
}

/// A version number, or `-`.
fn version_string(v: Option<Version>) -> (r: String)
    ensures
        r@ == version_text(v),
{
    match v {
        Some(x) => decimal(x.0),
        None => String::from_str("-"),
    }
}

/// An order number, or `-`.
fn order_string(o: Option<i32>) -> (r: String)
    ensures
        r@ == order_text(o),
{
    match o {
        Some(x) => {
            if x < 0 {
                let magnitude: u64 = (-(x as i64)) as u64;
                let mut r = String::new();
                push_char(&mut r, '-');
                append_str(&mut r, decimal(magnitude).as_str());
                r
            } else {
                decimal(x as u64)
            }
        },
        None => String::from_str("-"),
    }
}

/// The lines `  {text}` of a list of texts.
pub open spec fn indented_lines(v: Seq<Seq<char>>, n: int) -> Seq<char>
    decreases n,
{
    if n <= 0 {
        Seq::empty()
    } else {
        indented_lines(v, n - 1) + "  "@ + v[n - 1] + seq!['\n']
    }
}

/// The raw texts of expressions.
pub open spec fn raws(v: Seq<HardwareExpr>) -> Seq<Seq<char>> {
    v.map_values(|e: HardwareExpr| e.raw@)
}

/// A hardware restrictions section, including a prominent `Unresolved
/// MACH` section for expressions that could not be parsed.
pub open spec fn mach_section(m: Option<HardwareRestrictions>) -> Seq<char> {
    "MACH:\n"@ + match m {
        None => "  unknown (no descriptor record)\n"@,
        Some(r) => (if r.expressions@.len() == 0 { "  -\n"@ } else { Seq::empty() })
            + indented_lines(raws(r.expressions@), r.expressions@.len() as int)
            + (if r.unresolved@.len() > 0 {
                "\nUnresolved MACH:\n"@ + indented_lines(texts(r.unresolved@), r.unresolved@.len() as int)
            } else {
                Seq::empty()
            }),
    }
}

/// Appends the lines `  {raw}` of expressions.
fn push_expression_lines(out: &mut String, v: &Vec<HardwareExpr>)
    ensures
        final(out)@ == old(out)@ + indented_lines(raws(v@), v@.len() as int),
{
    let ghost head = out@;
    let mut k: usize = 0;
    while k < v.len()
        invariant
            k <= v.len(),
            out@ == head + indented_lines(raws(v@), k as int),
        decreases v.len() - k,
    {
        append_str(out, "  ");
        push_line2(out, v[k].raw.as_str(), "");
        k += 1;
        assert(out@ =~= head + indented_lines(raws(v@), k as int)) by {
            reveal_strlit("");
        }
    }
}

/// Appends the lines `  {text}` of texts.
fn push_text_lines(out: &mut String, v: &Vec<String>)
    ensures
        final(out)@ == old(out)@ + indented_lines(texts(v@), v@.len() as int),
{
    let ghost head = out@;
    let mut k: usize = 0;
    while k < v.len()
        invariant
            k <= v.len(),
            out@ == head + indented_lines(texts(v@), k as int),
        decreases v.len() - k,
    {
        append_str(out, "  ");
        push_line2(out, v[k].as_str(), "");
        k += 1;
        assert(out@ =~= head + indented_lines(texts(v@), k as int)) by {
            reveal_strlit("");
        }
    }
}

/// Appends a hardware restrictions section.
fn push_mach_section(out: &mut String, mach: &Option<HardwareRestrictions>)
    ensures
        final(out)@ == old(out)@ + mach_section(*mach),
{
    let ghost head = out@;
    append_str(out, "MACH:\n");
    match mach {
        None => {
            append_str(out, "  unknown (no descriptor record)\n");
        },
        Some(restrictions) => {
            let ghost start = out@;
            if restrictions.expressions.len() == 0 {
                append_str(out, "  -\n");
            }
            let ghost mid = out@;
            push_expression_lines(out, &restrictions.expressions);
            let ghost after = out@;
            if restrictions.unresolved.len() > 0 {
                append_str(out, "\nUnresolved MACH:\n");
                push_text_lines(out, &restrictions.unresolved);
            }
            assert(out@ =~= head + mach_section(*mach));
        },
    }
}

/// A subsystem rule range, e.g. `patch*.sw.unix 0..1274627332`.
pub open spec fn range_text(r: SubsystemRange) -> Seq<char> {
    dotted_target(r.product@, r.image@, r.subsystem@) + seq![' '] + decimal_spec(r.versions.min.0 as nat)
        + seq!['.', '.'] + match r.versions.max {
            VersionLimit::Exact(v) => decimal_spec(v.0 as nat),
            VersionLimit::Maximum => "maxint"@,
        }
}

/// Renders a subsystem rule range.
fn range_display(range: &SubsystemRange) -> (r: String)
    ensures
        r@ == range_text(*range),
{
    let mut out = range.target();
    push_char(&mut out, ' ');
    append_str(&mut out, decimal(range.versions.min.0).as_str());
    push_char(&mut out, '.');
    push_char(&mut out, '.');
    match range.versions.max {
        VersionLimit::Exact(v) => append_str(&mut out, decimal(v.0).as_str()),
        VersionLimit::Maximum => append_str(&mut out, "maxint"),
    }
    assert(out@ =~= range_text(*range));
    out
}

/// The range texts of a list of ranges.
pub open spec fn range_texts(v: Seq<SubsystemRange>) -> Seq<Seq<char>> {
    v.map_values(|r: SubsystemRange| range_text(r))
}

/// A titled list of ranges: `{title}:`, then one indented line per
/// range, or `  -` when there is none.
pub open spec fn range_section(title: Seq<char>, v: Seq<SubsystemRange>) -> Seq<char> {
    title + seq![':', '\n'] + (if v.len() == 0 { "  -\n"@ } else { Seq::empty() })
        + indented_lines(range_texts(v), v.len() as int)
}

/// Appends a titled list of ranges.
fn push_range_section(out: &mut String, title: &str, ranges: &Vec<SubsystemRange>)
    ensures
        final(out)@ == old(out)@ + range_section(title@, ranges@),
{
    let ghost head = out@;
    append_str(out, title);
    push_char(out, ':');
    push_char(out, '\n');
    if ranges.len() == 0 {
        append_str(out, "  -\n");
    }
    let ghost start = out@;
    let mut k: usize = 0;
    while k < ranges.len()
        invariant
            k <= ranges.len(),
            out@ == start + indented_lines(range_texts(ranges@), k as int),
        decreases ranges.len() - k,
    {
        append_str(out, "  ");
        push_line2(out, range_display(&ranges[k]).as_str(), "");
        k += 1;
        assert(out@ =~= start + indented_lines(range_texts(ranges@), k as int)) by {
            reveal_strlit("");
        }
    }
    assert(out@ =~= head + range_section(title@, ranges@));
}

/// Appends parts joined by a separator.
fn push_joined(out: &mut String, parts: &Vec<String>, sep: &str)
    ensures
        final(out)@ == old(out)@ + join_with(texts(parts@), sep@),
{
    let ghost head = out@;
    let mut k: usize = 0;
    while k < parts.len()
        invariant
            k <= parts.len(),
            out@ == head + join_with(texts(parts@).take(k as int), sep@),
        decreases parts.len() - k,
    {
        proof {
            assert(texts(parts@).take(k as int + 1).drop_last() =~= texts(parts@).take(k as int));
        }
        if k > 0 {
            append_str(out, sep);
        }
        append_str(out, parts[k].as_str());
        k += 1;
        proof {
            if k == 1 {
                assert(out@ =~= head + join_with(texts(parts@).take(k as int), sep@));
            } else {
                assert(out@ =~= head + join_with(texts(parts@).take(k as int), sep@));
            }
        }
    }
    assert(texts(parts@).take(parts@.len() as int) =~= texts(parts@));
}

/// The raw texts of expressions.
fn raw_texts(v: &Vec<HardwareExpr>) -> (r: Vec<String>)
    ensures
        texts(r@) == raws(v@),
{
    let mut r: Vec<String> = Vec::new();
    let mut k: usize = 0;
    while k < v.len()
        invariant
            k <= v.len(),
            texts(r@) == raws(v@).take(k as int),
        decreases v.len() - k,
    {
        let ghost before = r@;
        let raw = v[k].raw.clone();
        assert(raw@ == raws(v@)[k as int]);
        r.push(raw);
        assert(texts(r@) =~= texts(before).push(raw@));
        k += 1;
        assert(texts(r@) =~= raws(v@).take(k as int));
    }
    assert(raws(v@).take(v@.len() as int) =~= raws(v@));
    r
}

/// A conditional flag, distinguishing plain, conditional and unresolved
/// conditions.
pub open spec fn flag_text(f: ConditionalFlag) -> Seq<char> {
    match f {
        ConditionalFlag::No => "no"@,
        ConditionalFlag::Always => "yes"@,
        ConditionalFlag::When(es) => "when "@ + join_with(raws(es@), " or "@),
        ConditionalFlag::WhenUnresolved { expressions, unresolved } => if expressions@.len() == 0 {
            "unresolved condition: "@ + join_with(texts(unresolved@), ", "@)
        } else {
            "when "@ + join_with(raws(expressions@), " or "@) + " (unresolved condition: "@
                + join_with(texts(unresolved@), ", "@) + seq![')']
        },
    }
}

/// Appends a conditional flag.
fn push_flag(out: &mut String, flag: &ConditionalFlag)
    ensures
        final(out)@ == old(out)@ + flag_text(*flag),
{
    let ghost head = out@;
    match flag {
        ConditionalFlag::No => append_str(out, "no"),
        ConditionalFlag::Always => append_str(out, "yes"),
        ConditionalFlag::When(expressions) => {
            append_str(out, "when ");
            push_joined(out, &raw_texts(expressions), " or ");
        },
        ConditionalFlag::WhenUnresolved { expressions, unresolved } => {
            if expressions.len() == 0 {
                append_str(out, "unresolved condition: ");
                push_joined(out, unresolved, ", ");
            } else {
                append_str(out, "when ");
                push_joined(out, &raw_texts(expressions), " or ");
                append_str(out, " (unresolved condition: ");
                push_joined(out, unresolved, ", ");
                push_char(out, ')');
            }
        },
    }
    assert(out@ =~= head + flag_text(*flag));
}


/// The dotted name of an image.
pub open spec fn image_name_text(i: Image) -> Seq<char> {
    dotted2(i.name@.0, i.name@.1)
}

/// The dotted name of a subsystem.
pub open spec fn subsystem_name_text(s: Subsystem) -> Seq<char> {
    dotted3(s.name@.0, s.name@.1, s.name@.2)
}

/// The cut point lines of a product.
pub open spec fn cutpoint_lines(v: Seq<Cutpoint>, n: int) -> Seq<char>
    decreases n,
{
    if n <= 0 {
        Seq::empty()
    } else {
        cutpoint_lines(v, n - 1) + "  "@ + v[n - 1].path@ + " (sequence "@ + decimal_spec(v[n - 1].sequence as nat)
            + seq![')', '\n']
    }
}

/// The details of a product.
pub open spec fn product_details_text(p: Product) -> Seq<char> {
    "Product: "@ + p.name@ + seq!['\n']
        + "Title:   "@ + or_dash(p.title) + seq!['\n']
        + "Descriptor: "@ + word_spec(p.descriptor is Some) + seq!['\n']
        + "IDB:        "@ + word_spec(p.idb_file is Some) + seq!['\n']
        + seq!['\n'] + mach_section(p.mach) + seq!['\n']
        + "Images:\n"@ + (if p.images@.len() == 0 { "  -\n"@ } else { Seq::empty() })
        + indented_lines(p.images@.map_values(|i: Image| image_name_text(i)), p.images@.len() as int)
        + (if p.cutpoints@.len() > 0 {
            seq!['\n'] + "Cutpoints:\n"@ + cutpoint_lines(p.cutpoints@, p.cutpoints@.len() as int)
        } else {
            Seq::empty()
        })
}

/// Appends the indented names of images.
fn push_image_names(out: &mut String, images: &Vec<Image>)
    ensures
        final(out)@ == old(out)@ + indented_lines(images@.map_values(|i: Image| image_name_text(i)), images@.len() as int),
{
    let ghost head = out@;
    let ghost names = images@.map_values(|i: Image| image_name_text(i));
    let mut k: usize = 0;
    while k < images.len()
        invariant
            k <= images.len(),
            names == images@.map_values(|i: Image| image_name_text(i)),
            out@ == head + indented_lines(names, k as int),
        decreases images.len() - k,
    {
        append_str(out, "  ");
        push_line2(out, images[k].name.to_string().as_str(), "");
        k += 1;
        assert(out@ =~= head + indented_lines(names, k as int)) by {
            reveal_strlit("");
        }
    }
}

/// Appends the indented names of subsystems.
fn push_subsystem_names(out: &mut String, subsystems: &Vec<Subsystem>)
    ensures
        final(out)@ == old(out)@ + indented_lines(subsystems@.map_values(|s: Subsystem| subsystem_name_text(s)), subsystems@.len() as int),
{
    let ghost head = out@;
    let ghost names = subsystems@.map_values(|s: Subsystem| subsystem_name_text(s));
    let mut k: usize = 0;
    while k < subsystems.len()
        invariant
            k <= subsystems.len(),
            names == subsystems@.map_values(|s: Subsystem| subsystem_name_text(s)),
            out@ == head + indented_lines(names, k as int),
        decreases subsystems.len() - k,
    {
        append_str(out, "  ");
        push_line2(out, subsystems[k].name.to_string().as_str(), "");
        k += 1;
        assert(out@ =~= head + indented_lines(names, k as int)) by {
            reveal_strlit("");
        }
    }
}

/// Renders the details of a product.
pub fn product_details(product: &Product) -> (r: String)
    ensures
        r@ == product_details_text(*product),
{
    let mut out = String::new();
    push_line2(&mut out, "Product: ", product.name.as_str());
    push_line2(&mut out, "Title:   ", text_or_dash(&product.title).as_str());
    push_line2(&mut out, "Descriptor: ", word(product.descriptor.is_some()));
    push_line2(&mut out, "IDB:        ", word(product.idb_file.is_some()));
    push_char(&mut out, '\n');
    push_mach_section(&mut out, &product.mach);
    push_char(&mut out, '\n');
    append_str(&mut out, "Images:\n");
    if product.images.len() == 0 {
        append_str(&mut out, "  -\n");
    }
    push_image_names(&mut out, &product.images);
    let ghost mid = out@;
    if product.cutpoints.len() > 0 {
        push_char(&mut out, '\n');
        append_str(&mut out, "Cutpoints:\n");
        let ghost start = out@;
        let mut k: usize = 0;
        while k < product.cutpoints.len()
            invariant
                k <= product.cutpoints.len(),
                out@ == start + cutpoint_lines(product.cutpoints@, k as int),
            decreases product.cutpoints.len() - k,
        {
            let cutpoint = &product.cutpoints[k];
            append_str(&mut out, "  ");
            append_str(&mut out, cutpoint.path.as_str());
            append_str(&mut out, " (sequence ");
            append_str(&mut out, decimal(cutpoint.sequence as u64).as_str());
            push_char(&mut out, ')');
            push_char(&mut out, '\n');
            k += 1;
            assert(out@ =~= start + cutpoint_lines(product.cutpoints@, k as int));
        }
    }
    assert(out@ =~= product_details_text(*product));
    out
}

/// The details of an image.
pub open spec fn image_details_text(i: Image) -> Seq<char> {
    "Image:   "@ + image_name_text(i) + seq!['\n']
        + "Title:   "@ + or_dash(i.title) + seq!['\n']
        + "Version: "@ + version_text(i.version) + seq!['\n']
        + "Order:   "@ + order_text(i.order) + seq!['\n']
        + seq!['\n'] + mach_section(i.mach) + seq!['\n']
        + "Subsystems:\n"@ + (if i.subsystems@.len() == 0 { "  -\n"@ } else { Seq::empty() })
        + indented_lines(i.subsystems@.map_values(|s: Subsystem| subsystem_name_text(s)), i.subsystems@.len() as int)
}

/// Renders the details of an image.
pub fn image_details(image: &Image) -> (r: String)
    ensures
        r@ == image_details_text(*image),
{
    let mut out = String::new();
    push_line2(&mut out, "Image:   ", image.name.to_string().as_str());
    push_line2(&mut out, "Title:   ", text_or_dash(&image.title).as_str());
    push_line2(&mut out, "Version: ", version_string(image.version).as_str());
    push_line2(&mut out, "Order:   ", order_string(image.order).as_str());
    push_char(&mut out, '\n');
    push_mach_section(&mut out, &image.mach);
    push_char(&mut out, '\n');
    append_str(&mut out, "Subsystems:\n");
    if image.subsystems.len() == 0 {
        append_str(&mut out, "  -\n");
    }
    push_subsystem_names(&mut out, &image.subsystems);
    assert(out@ =~= image_details_text(*image));
    out
}


/// The conditional flag lines of a subsystem's details.
pub open spec fn conditional_lines(fl: SubsystemFlags) -> Seq<char> {
    "  required: "@ + flag_text(fl.required) + seq!['\n']
        + "  default:  "@ + flag_text(fl.default) + seq!['\n']
        + "  miniroot: "@ + flag_text(fl.miniroot) + seq!['\n']
}

/// The `patch` and `inplace` lines of a subsystem's details.
pub open spec fn plain_lines_a(fl: SubsystemFlags) -> Seq<char> {
    "  patch:    "@ + word_spec(fl.patch) + seq!['\n']
        + "  inplace:  "@ + word_spec(fl.inplace) + seq!['\n']
}

/// The overlay and client lines of a subsystem's details.
pub open spec fn plain_lines_b(fl: SubsystemFlags) -> Seq<char> {
    "  client-only:    "@ + word_spec(fl.client_only) + seq!['\n']
        + "  overlay:        "@ + word_spec(fl.overlay) + seq!['\n']
        + "  overlay-member: "@ + word_spec(fl.overlay_member) + seq!['\n']
}

/// The plain flag lines of a subsystem's details.
pub open spec fn plain_lines(fl: SubsystemFlags) -> Seq<char> {
    plain_lines_a(fl) + plain_lines_b(fl)
}

/// The flags block of a subsystem's details.
pub open spec fn flags_block(f: Option<SubsystemFlags>) -> Seq<char> {
    match f {
        Some(fl) => conditional_lines(fl) + plain_lines(fl),
        None => "  unknown (no descriptor record)\n"@,
    }
}

/// Appends `label`, a conditional flag and a newline.
fn push_flag_line(out: &mut String, label: &str, flag: &ConditionalFlag)
    ensures
        final(out)@ == old(out)@ + label@ + flag_text(*flag) + seq!['\n'],
{
    let ghost head = out@;
    append_str(out, label);
    push_flag(out, flag);
    push_char(out, '\n');
    assert(out@ =~= head + label@ + flag_text(*flag) + seq!['\n']);
}

/// Appends the conditional flag lines.
fn push_conditional_lines(out: &mut String, fl: &SubsystemFlags)
    ensures
        final(out)@ == old(out)@ + conditional_lines(*fl),
{
    let ghost head = out@;
    push_flag_line(out, "  required: ", &fl.required);
    push_flag_line(out, "  default:  ", &fl.default);
    push_flag_line(out, "  miniroot: ", &fl.miniroot);
    assert(out@ =~= head + conditional_lines(*fl));
}

/// Appends the `patch` and `inplace` lines.
fn push_plain_lines_a(out: &mut String, fl: &SubsystemFlags)
    ensures
        final(out)@ == old(out)@ + plain_lines_a(*fl),
{
    let ghost head = out@;
    push_line2(out, "  patch:    ", word(fl.patch));
    push_line2(out, "  inplace:  ", word(fl.inplace));
    assert(out@ =~= head + plain_lines_a(*fl));
}

/// Appends the overlay and client lines.
fn push_plain_lines_b(out: &mut String, fl: &SubsystemFlags)
    ensures
        final(out)@ == old(out)@ + plain_lines_b(*fl),
{
    let ghost head = out@;
    push_line2(out, "  client-only:    ", word(fl.client_only));
    push_line2(out, "  overlay:        ", word(fl.overlay));
    push_line2(out, "  overlay-member: ", word(fl.overlay_member));
    assert(out@ =~= head + plain_lines_b(*fl));
}

/// Appends the plain flag lines.
fn push_plain_lines(out: &mut String, fl: &SubsystemFlags)
    ensures
        final(out)@ == old(out)@ + plain_lines(*fl),
{
    let ghost head = out@;
    push_plain_lines_a(out, fl);
    push_plain_lines_b(out, fl);
    assert(out@ =~= head + plain_lines(*fl));
}

/// Appends the flags block of a subsystem's details.
fn push_flags_block(out: &mut String, flags: &Option<SubsystemFlags>)
    ensures
        final(out)@ == old(out)@ + flags_block(*flags),
{
    let ghost head = out@;
    match flags {
        Some(fl) => {
            push_conditional_lines(out, fl);
            push_plain_lines(out, fl);
        },
        None => {
            append_str(out, "  unknown (no descriptor record)\n");
        },
    }
    assert(out@ =~= head + flags_block(*flags));
}

/// The prerequisite lines: each clause's ranges joined by ` + `.
pub open spec fn prerequisite_lines(v: Seq<crate::descriptor::model::PrerequisiteClause>, n: int) -> Seq<char>
    decreases n,
{
    if n <= 0 {
        Seq::empty()
    } else {
        prerequisite_lines(v, n - 1) + "  "@ + join_with(range_texts(v[n - 1].all_of@), " + "@) + seq!['\n']
    }
}

/// The prerequisites part of a rules block.
pub open spec fn prerequisites_block(rules: SubsystemRules) -> Seq<char> {
    "Prerequisites:\n"@ + (if rules.prerequisites@.len() == 0 { "  -\n"@ } else { Seq::empty() })
        + prerequisite_lines(rules.prerequisites@, rules.prerequisites@.len() as int)
}

/// The range sections of a rules block.
pub open spec fn rule_sections(rules: SubsystemRules) -> Seq<char> {
    seq!['\n'] + range_section("Replaces"@, rules.replaces@)
        + seq!['\n'] + range_section("Incompatible"@, rules.incompatibilities@)
        + seq!['\n'] + range_section("Updates"@, rules.updates@)
        + seq!['\n'] + range_section("Follows"@, rules.follows@)
}

/// The rules block of a subsystem's details.
pub open spec fn rules_block(r: Option<SubsystemRules>) -> Seq<char> {
    match r {
        Some(rules) => prerequisites_block(rules) + rule_sections(rules),
        None => "Rules: unknown (no descriptor record)\n"@,
    }
}

/// The range texts of a list of ranges, as strings.
fn range_strings(v: &Vec<SubsystemRange>) -> (r: Vec<String>)
    ensures
        texts(r@) == range_texts(v@),
{
    let mut r: Vec<String> = Vec::new();
    let mut k: usize = 0;
    while k < v.len()
        invariant
            k <= v.len(),
            texts(r@) == range_texts(v@).take(k as int),
        decreases v.len() - k,
    {
        let ghost before = r@;
        let t = range_display(&v[k]);
        r.push(t);
        assert(texts(r@) =~= texts(before).push(t@));
        k += 1;
        assert(texts(r@) =~= range_texts(v@).take(k as int));
    }
    assert(range_texts(v@).take(v@.len() as int) =~= range_texts(v@));
    r
}

/// Appends the prerequisites part of a rules block.
fn push_prerequisites(out: &mut String, rules: &SubsystemRules)
    ensures
        final(out)@ == old(out)@ + prerequisites_block(*rules),
{
    let ghost head = out@;
    append_str(out, "Prerequisites:\n");
    if rules.prerequisites.len() == 0 {
        append_str(out, "  -\n");
    }
    let ghost start = out@;
    let mut k: usize = 0;
    while k < rules.prerequisites.len()
        invariant
            k <= rules.prerequisites.len(),
            out@ == start + prerequisite_lines(rules.prerequisites@, k as int),
        decreases rules.prerequisites.len() - k,
    {
        append_str(out, "  ");
        push_joined(out, &range_strings(&rules.prerequisites[k].all_of), " + ");
        push_char(out, '\n');
        k += 1;
        assert(out@ =~= start + prerequisite_lines(rules.prerequisites@, k as int));
    }
    assert(out@ =~= head + prerequisites_block(*rules));
}

/// Appends the range sections of a rules block.
fn push_rule_sections(out: &mut String, rules: &SubsystemRules)
    ensures
        final(out)@ == old(out)@ + rule_sections(*rules),
{
    let ghost head = out@;
    push_char(out, '\n');
    push_range_section(out, "Replaces", &rules.replaces);
    push_char(out, '\n');
    push_range_section(out, "Incompatible", &rules.incompatibilities);
    push_char(out, '\n');
    push_range_section(out, "Updates", &rules.updates);
    push_char(out, '\n');
    push_range_section(out, "Follows", &rules.follows);
    assert(out@ =~= head + rule_sections(*rules));
}

/// Appends the rules block of a subsystem's details.
fn push_rules_block(out: &mut String, rules: &Option<SubsystemRules>)
    ensures
        final(out)@ == old(out)@ + rules_block(*rules),
{
    let ghost head = out@;
    match rules {
        Some(rules) => {
            push_prerequisites(out, rules);
            push_rule_sections(out, rules);
        },
        None => {
            append_str(out, "Rules: unknown (no descriptor record)\n");
        },
    }
    assert(out@ =~= head + rules_block(*rules));
}

/// The autominiroot block of a subsystem's details.
pub open spec fn autominiroot_block(a: Option<Vec<SubsystemRange>>) -> Seq<char> {
    "Autominiroot:\n"@ + match a {
        Some(ranges) => (if ranges@.len() == 0 { "  -\n"@ } else { Seq::empty() })
            + indented_lines(range_texts(ranges@), ranges@.len() as int),
        None => "  unknown (no descriptor record)\n"@,
    }
}

/// Appends the autominiroot block of a subsystem's details.
fn push_autominiroot_block(out: &mut String, a: &Option<Vec<SubsystemRange>>)
    ensures
        final(out)@ == old(out)@ + autominiroot_block(*a),
{
    let ghost head = out@;
    append_str(out, "Autominiroot:\n");
    match a {
        Some(ranges) => {
            if ranges.len() == 0 {
                append_str(out, "  -\n");
            }
            let ghost start = out@;
            let mut k: usize = 0;
            while k < ranges.len()
                invariant
                    k <= ranges.len(),
                    out@ == start + indented_lines(range_texts(ranges@), k as int),
                decreases ranges.len() - k,
            {
                append_str(out, "  ");
                push_line2(out, range_display(&ranges[k]).as_str(), "");
                k += 1;
                assert(out@ =~= start + indented_lines(range_texts(ranges@), k as int)) by {
                    reveal_strlit("");
                }
            }
        },
        None => {
            append_str(out, "  unknown (no descriptor record)\n");
        },
    }
    assert(out@ =~= head + autominiroot_block(*a));
}

/// The details of a subsystem of an image.
pub open spec fn subsystem_details_text(i: Image, s: Subsystem) -> Seq<char> {
    "Subsystem: "@ + subsystem_name_text(s) + seq!['\n']
        + "Title:     "@ + or_dash(s.title) + seq!['\n']
        + "Image:     "@ + image_name_text(i) + seq!['\n']
        + "Version:   "@ + version_text(i.version) + seq!['\n']
        + seq!['\n'] + "Presence:\n"@
        + "  descriptor: "@ + word_spec(s.presence.descriptor) + seq!['\n']
        + "  IDB:        "@ + word_spec(s.presence.idb) + seq!['\n']
        + seq!['\n'] + "Flags:\n"@ + flags_block(s.flags)
        + seq!['\n'] + mach_section(s.mach)
        + seq!['\n'] + "Mapping:\n"@ + "  "@ + or_dash(s.mapping) + seq!['\n']
        + seq!['\n'] + "Entries: "@ + decimal_spec(s.entry_ids@.len()) + seq!['\n']
        + seq!['\n'] + rules_block(s.rules)
        + seq!['\n'] + autominiroot_block(s.autominiroot)
}

/// Renders the details of a subsystem.
pub fn subsystem_details(image: &Image, subsystem: &Subsystem) -> (r: String)
    ensures
        r@ == subsystem_details_text(*image, *subsystem),
{
    let mut out = String::new();
    push_line2(&mut out, "Subsystem: ", subsystem.name.to_string().as_str());
    push_line2(&mut out, "Title:     ", text_or_dash(&subsystem.title).as_str());
    push_line2(&mut out, "Image:     ", image.name.to_string().as_str());
    push_line2(&mut out, "Version:   ", version_string(image.version).as_str());
    push_char(&mut out, '\n');
    append_str(&mut out, "Presence:\n");
    push_line2(&mut out, "  descriptor: ", word(subsystem.presence.descriptor));
    push_line2(&mut out, "  IDB:        ", word(subsystem.presence.idb));
    push_char(&mut out, '\n');
    append_str(&mut out, "Flags:\n");
    push_flags_block(&mut out, &subsystem.flags);
    push_char(&mut out, '\n');
    push_mach_section(&mut out, &subsystem.mach);
    push_char(&mut out, '\n');
    append_str(&mut out, "Mapping:\n");
    append_str(&mut out, "  ");
    push_line2(&mut out, text_or_dash(&subsystem.mapping).as_str(), "");
    push_char(&mut out, '\n');
    push_line2(&mut out, "Entries: ", decimal(subsystem.entry_ids.len() as u64).as_str());
    push_char(&mut out, '\n');
    push_rules_block(&mut out, &subsystem.rules);
    push_char(&mut out, '\n');
    push_autominiroot_block(&mut out, &subsystem.autominiroot);
    assert(out@ =~= subsystem_details_text(*image, *subsystem)) by {
        reveal_strlit("");
    }
    out
}


/// The tree word of a conditional flag: its name, marked when the flag
/// is conditional or unresolved; nothing when it is not set.
pub open spec fn flag_words(name: Seq<char>, f: ConditionalFlag) -> Seq<Seq<char>> {
    match f {
        ConditionalFlag::No => Seq::empty(),
        ConditionalFlag::Always => seq![name],
        ConditionalFlag::When(_) => seq![name + "(conditional)"@],
        ConditionalFlag::WhenUnresolved { .. } => seq![name + "(unresolved)"@],
    }
}

/// A word when a plain flag is set.
pub open spec fn set_word(name: Seq<char>, b: bool) -> Seq<Seq<char>> {
    if b { seq![name] } else { Seq::empty() }
}

/// The short flag words shown next to a subsystem in the tree.
pub open spec fn tree_words(f: Option<SubsystemFlags>) -> Seq<Seq<char>> {
    match f {
        None => Seq::empty(),
        Some(fl) => flag_words("required"@, fl.required) + flag_words("default"@, fl.default)
            + flag_words("miniroot"@, fl.miniroot) + set_word("patch"@, fl.patch)
            + set_word("client-only"@, fl.client_only) + set_word("overlay"@, fl.overlay)
            + set_word("overlay-member"@, fl.overlay_member),
    }
}

/// Adds the tree word of a conditional flag.
fn add_flag_word(words: &mut Vec<String>, name: &str, flag: &ConditionalFlag)
    ensures
        texts(final(words)@) == texts(old(words)@) + flag_words(name@, *flag),
{
    let ghost before = texts(words@);
    match flag {
        ConditionalFlag::No => {},
        ConditionalFlag::Always => {
            words.push(string_of(&chars_of(name)));
        },
        ConditionalFlag::When(_) => {
            let mut w = string_of(&chars_of(name));
            append_str(&mut w, "(conditional)");
            words.push(w);
        },
        ConditionalFlag::WhenUnresolved { .. } => {
            let mut w = string_of(&chars_of(name));
            append_str(&mut w, "(unresolved)");
            words.push(w);
        },
    }
    assert(texts(words@) =~= before + flag_words(name@, *flag));
}

/// Adds a word when a plain flag is set.
fn add_set_word(words: &mut Vec<String>, name: &str, value: bool)
    ensures
        texts(final(words)@) == texts(old(words)@) + set_word(name@, value),
{
    let ghost before = texts(words@);
    if value {
        words.push(string_of(&chars_of(name)));
    }
    assert(texts(words@) =~= before + set_word(name@, value));
}

/// Short flag words shown next to a subsystem in the tree.
fn tree_flags(subsystem: &Subsystem) -> (r: Vec<String>)
    ensures
        texts(r@) == tree_words(subsystem.flags),
{
    let mut words: Vec<String> = Vec::new();
    match &subsystem.flags {
        None => {
            assert(texts(words@) =~= tree_words(subsystem.flags));
        },
        Some(flags) => {
            assert(texts(words@) =~= Seq::<Seq<char>>::empty());
            add_flag_word(&mut words, "required", &flags.required);
            add_flag_word(&mut words, "default", &flags.default);
            add_flag_word(&mut words, "miniroot", &flags.miniroot);
            add_set_word(&mut words, "patch", flags.patch);
            add_set_word(&mut words, "client-only", flags.client_only);
            add_set_word(&mut words, "overlay", flags.overlay);
            add_set_word(&mut words, "overlay-member", flags.overlay_member);
            assert(texts(words@) =~= tree_words(subsystem.flags));
        },
    }
    words
}

/// The branch drawn before a tree node.
pub open spec fn branch(last: bool) -> Seq<char> {
    if last { "└── "@ } else { "├── "@ }
}

/// The stem drawn below a tree node, before its children.
pub open spec fn stem(last: bool) -> Seq<char> {
    if last { "    "@ } else { "│   "@ }
}

/// One subsystem of the tree, below an image drawn with `prefix`.
pub open spec fn subsystem_tree(prefix: Seq<char>, s: Subsystem, last: bool) -> Seq<char> {
    let sub_prefix = prefix + stem(last);
    let words = tree_words(s.flags);
    prefix + branch(last) + subsystem_name_text(s) + seq!['\n']
        + sub_prefix + decimal_spec(s.entry_ids@.len()) + " entries"@ + seq!['\n']
        + (if words.len() > 0 { sub_prefix + join_with(words, " "@) + seq!['\n'] } else { Seq::empty() })
}

/// The first `n` subsystems of an image in the tree.
pub open spec fn subsystems_tree(prefix: Seq<char>, v: Seq<Subsystem>, n: int) -> Seq<char>
    decreases n,
{
    if n <= 0 {
        Seq::empty()
    } else {
        subsystems_tree(prefix, v, n - 1) + subsystem_tree(prefix, v[n - 1], n == v.len())
    }
}

/// One image of the tree with its subsystems.
pub open spec fn image_tree(i: Image, last: bool) -> Seq<char> {
    branch(last) + image_name_text(i) + seq!['\n']
        + stem(last) + "version "@ + version_text(i.version) + "   order "@ + order_text(i.order) + seq!['\n']
        + subsystems_tree(stem(last), i.subsystems@, i.subsystems@.len() as int)
}

/// The first `n` images of the tree.
pub open spec fn images_tree(v: Seq<Image>, n: int) -> Seq<char>
    decreases n,
{
    if n <= 0 {
        Seq::empty()
    } else {
        images_tree(v, n - 1) + image_tree(v[n - 1], n == v.len())
    }
}

/// The product / image / subsystem tree of a product.
pub open spec fn product_tree_text(p: Product) -> Seq<char> {
    p.name@ + " — "@ + or_dash(p.title) + seq!['\n'] + images_tree(p.images@, p.images@.len() as int)
}

/// Appends one subsystem of the tree.
#[verifier::spinoff_prover]
#[verifier::rlimit(40)]
fn push_subsystem_tree(out: &mut String, prefix: &str, subsystem: &Subsystem, last: bool)
    ensures
        final(out)@ == old(out)@ + subsystem_tree(prefix@, *subsystem, last),
{
    let ghost head = out@;
    let branch_text = if last { "└── " } else { "├── " };
    let mut sub_prefix = string_of(&chars_of(prefix));
    append_str(&mut sub_prefix, if last { "    " } else { "│   " });
    append_str(out, prefix);
    append_str(out, branch_text);
    push_line2(out, subsystem.name.to_string().as_str(), "");
    proof {
        reveal_strlit("");
    }
    let ghost first = out@;
    assert(first =~= head + prefix@ + branch(last) + subsystem_name_text(*subsystem) + seq!['\n']);
    append_str(out, sub_prefix.as_str());
    append_str(out, decimal(subsystem.entry_ids.len() as u64).as_str());
    push_line2(out, " entries", "");
    let ghost second = out@;
    assert(second =~= first + (prefix@ + stem(last)) + decimal_spec(subsystem.entry_ids@.len())
        + " entries"@ + seq!['\n']);
    let flags = tree_flags(subsystem);
    if flags.len() > 0 {
        append_str(out, sub_prefix.as_str());
        push_joined(out, &flags, " ");
        push_char(out, '\n');
    }
    assert(out@ =~= head + subsystem_tree(prefix@, *subsystem, last));
}

/// Appends one image of the tree with its subsystems.
fn push_image_tree(out: &mut String, image: &Image, last: bool)
    ensures
        final(out)@ == old(out)@ + image_tree(*image, last),
{
    let ghost head = out@;
    let prefix = if last { "    " } else { "│   " };
    append_str(out, if last { "└── " } else { "├── " });
    push_line2(out, image.name.to_string().as_str(), "");
    append_str(out, prefix);
    append_str(out, "version ");
    append_str(out, version_string(image.version).as_str());
    append_str(out, "   order ");
    push_line2(out, order_string(image.order).as_str(), "");
    let ghost start = out@;
    let mut j: usize = 0;
    while j < image.subsystems.len()
        invariant
            j <= image.subsystems.len(),
            prefix@ == stem(last),
            out@ == start + subsystems_tree(prefix@, image.subsystems@, j as int),
        decreases image.subsystems.len() - j,
    {
        let last_subsystem = j + 1 == image.subsystems.len();
        push_subsystem_tree(out, prefix, &image.subsystems[j], last_subsystem);
        j += 1;
    }
    assert(out@ =~= head + image_tree(*image, last)) by {
        reveal_strlit("");
    }
}

/// Renders the product / image / subsystem tree of one product.
pub fn product_tree(product: &Product) -> (r: String)
    ensures
        r@ == product_tree_text(*product),
{
    let mut out = String::new();
    append_str(&mut out, product.name.as_str());
    append_str(&mut out, " — ");
    push_line2(&mut out, text_or_dash(&product.title).as_str(), "");
    let ghost start = out@;
    let mut i: usize = 0;
    while i < product.images.len()
        invariant
            i <= product.images.len(),
            out@ == start + images_tree(product.images@, i as int),
        decreases product.images.len() - i,
    {
        let last_image = i + 1 == product.images.len();
        push_image_tree(&mut out, &product.images[i], last_image);
        i += 1;
    }
    assert(out@ =~= product_tree_text(*product)) by {
        reveal_strlit("");
    }
    out
}

} // verus!
