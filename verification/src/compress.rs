//! `.Z` (Unix compress / LZW) decompression.
//!
//! Implements the ncompress variant used by SGI distributions: a 3-byte
//! header (`1F 9D` magic plus a flag byte), LSB-first bit packing, block
//! mode with `CLEAR` codes, and code width transitions from 9 up to
//! `maxbits` bits.
use vstd::prelude::*;
use crate::error::Error;
use crate::text::{append_str, chars_of, decimal, decimal_spec, string_of};

verus! {

/// Whether `data` starts with the `.Z` magic `1F 9D`.
pub open spec fn is_compressed_spec(data: Seq<u8>) -> bool {
    data.len() >= 2 && data[0] == 0x1F && data[1] == 0x9D
}

/// Whether `data` holds a complete `.Z` header: the magic and the flag
/// byte.
pub open spec fn z_header_spec(data: Seq<u8>) -> bool {
    data.len() >= 3 && is_compressed_spec(data)
}

/// The `maxbits` field of the flag byte.
pub open spec fn max_bits_of(flags: u8) -> u8 {
    flags & 0x1F
}

/// Whether `data` starts with the `.Z` magic.
pub fn is_compressed(data: &[u8]) -> (r: bool)
    ensures
        r == is_compressed_spec(data@),
{
    data.len() >= 2 && data[0] == 0x1F && data[1] == 0x9D
}

/// Whether `data` holds a complete `.Z` header.
fn has_z_header(data: &[u8]) -> (r: bool)
    ensures
        r == z_header_spec(data@),
{
    data.len() >= 3 && is_compressed(data)
}

/// LSB-first code reader honoring ncompress block alignment.
///
/// Codes are read in chunks of `n_bits` bytes; a chunk holds
/// `8 * n_bits - (n_bits - 1)` usable bits, which realigns the stream at
/// every code-width transition.
struct CodeReader {
    /// Start of the current chunk in the code stream.
    chunk_start: usize,
    /// Length of the current chunk in bytes.
    chunk_len: usize,
    /// Position after the current chunk.
    pos: usize,
    /// Bit offset of the next code within the chunk.
    offset: usize,
    /// Number of bits in the chunk that may start a code.
    size: usize,
}

/// The code width state shared between reader and decoder.
struct Widths {
    /// The largest code width the stream uses.
    max_bits: u32,
    /// One past the largest code of the stream.
    max_max_code: u32,
    /// Current code width.
    n_bits: u32,
    /// Largest code of the current width.
    max_code: u32,
}

impl Widths {
    /// The width state stays within the stream's limits.
    spec fn wf(self) -> bool {
        &&& 9 <= self.max_bits <= 16
        &&& self.max_max_code == 1u32 << self.max_bits
        &&& 9 <= self.n_bits <= self.max_bits + 1
        &&& 9 <= self.n_bits <= 16 ==> (self.max_code == self.max_max_code && self.n_bits == self.max_bits)
            || self.max_code == ((1u32 << self.n_bits) - 1) as u32
        &&& self.n_bits == 17 ==> self.max_code == ((1u32 << 17u32) - 1) as u32
    }
}

/// `1 << b` is a positive power of two below 2^17 for widths up to 16.
proof fn lemma_shift_bounds(b: u32)
    requires
        b <= 17,
    ensures
        (1u32 << b) >= 1,
        (1u32 << b) <= 131072,
        b <= 16 ==> (1u32 << b) <= 65536,
        b >= 9 ==> (1u32 << b) >= 512,
        b == 9 ==> (1u32 << b) == 512,
        b == 17 ==> (1u32 << b) == 131072,
        b < 17 ==> (1u32 << (b + 1) as u32) == 2 * (1u32 << b),
{
    assert(b <= 17 ==> (1u32 << b) >= 1 && (1u32 << b) <= 131072) by (bit_vector);
    assert(b <= 17 && b >= 9 ==> (1u32 << b) >= 512) by (bit_vector);
    assert(b <= 16 ==> (1u32 << b) <= 65536) by (bit_vector);
    assert(b == 9 ==> (1u32 << b) == 512) by (bit_vector);
    assert(b == 17 ==> (1u32 << b) == 131072) by (bit_vector);
    assert(b < 17 ==> (1u32 << (b + 1) as u32) == 2 * (1u32 << b)) by (bit_vector);
}

/// A wider code width doubles the range.
proof fn lemma_shift_monotone(a: u32, b: u32)
    requires
        a <= b <= 17,
    ensures
        (1u32 << a) <= (1u32 << b),
    decreases b - a,
{
    if a < b {
        lemma_shift_monotone(a, (b - 1) as u32);
        lemma_shift_bounds((b - 1) as u32);
    }
}

/// Byte `i` of the stream, zero past its end.
pub open spec fn byte_at(data: Seq<u8>, i: int) -> u64 {
    if 0 <= i < data.len() { data[i] as u64 } else { 0 }
}

/// The `n`-bit code starting at bit `bit` of the stream, least
/// significant bit first. Codes are at most 17 bits wide, so one spans at
/// most three bytes.
pub open spec fn code_at(data: Seq<u8>, bit: int, n: int) -> u32 {
    let i = bit / 8;
    let word = byte_at(data, i) | (byte_at(data, i + 1) << 8u64) | (byte_at(data, i + 2) << 16u64);
    ((word >> ((bit % 8) as u64)) & (((1u64 << (n as u64)) - 1) as u64)) as u32
}

/// The width state after the table outgrew the current width (one bit
/// more, the full table at `maxbits`) and after a `CLEAR` (back to 9
/// bits).
spec fn widen(w: Widths, free_ent: u32, clear: bool) -> Widths {
    let w1 = if free_ent > w.max_code {
        let nb = (w.n_bits + 1) as u32;
        Widths {
            max_bits: w.max_bits,
            max_max_code: w.max_max_code,
            n_bits: nb,
            max_code: if nb == w.max_bits { w.max_max_code } else { ((1u32 << nb) - 1) as u32 },
        }
    } else {
        w
    };
    if clear {
        Widths { max_bits: w1.max_bits, max_max_code: w1.max_max_code, n_bits: 9, max_code: 511 }
    } else {
        w1
    }
}

/// Reads the next code from the current chunk, if one fits.
spec fn read_in_chunk(data: Seq<u8>, r: CodeReader, w: Widths) -> (Option<u32>, CodeReader, Widths) {
    let n = w.n_bits as int;
    if r.offset >= r.size || (r.offset + n - 1) / 8 >= r.chunk_len {
        (None, r, w)
    } else {
        (
            Some(code_at(data, r.chunk_start * 8 + r.offset, n)),
            CodeReader {
                chunk_start: r.chunk_start,
                chunk_len: r.chunk_len,
                pos: r.pos,
                offset: (r.offset + n) as usize,
                size: r.size,
            },
            w,
        )
    }
}

/// Starts a new chunk of `n_bits` bytes (fewer at the end of the
/// stream) after adjusting the width; `false` when no code can follow.
spec fn refill_spec(data: Seq<u8>, r: CodeReader, w: Widths, free_ent: u32, clear: bool) -> (bool, CodeReader, Widths) {
    let w2 = widen(w, free_ent, clear);
    let remain = data.len() - r.pos;
    let nb = w2.n_bits as int;
    let chunk_bytes = if nb < remain { nb } else { remain };
    if remain <= 0 {
        (false, CodeReader { chunk_start: r.pos, chunk_len: 0, pos: r.pos, offset: 0, size: 0 }, w2)
    } else if chunk_bytes * 8 < nb - 1 {
        (
            false,
            CodeReader {
                chunk_start: r.pos,
                chunk_len: chunk_bytes as usize,
                pos: (r.pos + chunk_bytes) as usize,
                offset: 0,
                size: 0,
            },
            w2,
        )
    } else {
        (
            true,
            CodeReader {
                chunk_start: r.pos,
                chunk_len: chunk_bytes as usize,
                pos: (r.pos + chunk_bytes) as usize,
                offset: 0,
                size: (chunk_bytes * 8 - (nb - 1)) as usize,
            },
            w2,
        )
    }
}

/// One step of the ncompress code reader: when a `CLEAR` is pending, the
/// chunk is used up or the table outgrew the code width, the width is
/// adjusted and a new chunk starts (the rest of the previous chunk is
/// skipped); then the next code is taken from the chunk. `None` at the
/// end of the stream.
spec fn next_code_spec(data: Seq<u8>, r: CodeReader, w: Widths, free_ent: u32, clear: bool) -> (Option<u32>, CodeReader, Widths) {
    if clear || r.offset >= r.size || free_ent > w.max_code {
        let (ok, r1, w2) = refill_spec(data, r, w, free_ent, clear);
        if ok { read_in_chunk(data, r1, w2) } else { (None, r1, w2) }
    } else {
        read_in_chunk(data, r, w)
    }
}

impl CodeReader {
    /// The reader stays within the code stream and its chunk.
    spec fn wf(self, len: nat) -> bool {
        &&& self.chunk_start + self.chunk_len == self.pos
        &&& self.chunk_len <= 17
        &&& self.pos <= len
        &&& self.offset <= self.chunk_len * 8
        &&& self.size <= self.chunk_len * 8
    }

    /// Bits not yet consumed: those after the current chunk and the rest
    /// of the chunk. Every code read lowers it.
    spec fn remaining(self, len: nat) -> int {
        (len - self.pos) * 8 + (self.chunk_len * 8 - self.offset)
    }

    /// Starts a new chunk after adjusting the code width.
    fn refill(&mut self, data: &[u8], w: &mut Widths, free_ent: u32, clear: bool) -> (ok: bool)
        requires
            old(self).wf(data.len() as nat),
            old(w).wf(),
            free_ent <= old(w).max_max_code,
            free_ent <= old(w).max_code + 1,
            clear ==> free_ent == 257,
        ensures
            (ok, *final(self), *final(w)) == refill_spec(data@, *old(self), *old(w), free_ent, clear),
            final(self).wf(data.len() as nat),
            final(w).wf(),
            final(w).max_bits == old(w).max_bits,
            final(w).max_max_code == old(w).max_max_code,
            free_ent <= final(w).max_code,
            final(self).remaining(data.len() as nat) <= old(self).remaining(data.len() as nat),
    {
        let ghost w0 = *w;
        proof {
            lemma_shift_bounds(w.n_bits);
            lemma_shift_bounds(w.max_bits);
        }
        if free_ent > w.max_code {
            proof {
                if w.n_bits == 17 || w.n_bits > w.max_bits {
                    lemma_shift_monotone(w.max_bits, w.n_bits);
                    lemma_shift_bounds(w.n_bits);
                }
            }
            w.n_bits = w.n_bits + 1;
            proof {
                lemma_shift_bounds(w.n_bits);
                lemma_shift_bounds((w.n_bits - 1) as u32);
            }
            w.max_code = if w.n_bits == w.max_bits { w.max_max_code } else { (1u32 << w.n_bits) - 1 };
            proof {
                if w.n_bits > w.max_bits {
                    lemma_shift_monotone(w.max_bits, (w.n_bits - 1) as u32);
                }
            }
        }
        if clear {
            w.n_bits = 9;
            proof {
                lemma_shift_bounds(9);
            }
            w.max_code = (1u32 << w.n_bits) - 1;
        }
        assert(*w == widen(w0, free_ent, clear));
        let remain = data.len() - self.pos;
        if remain == 0 {
            self.chunk_start = self.pos;
            self.chunk_len = 0;
            self.offset = 0;
            self.size = 0;
            return false;
        }
        let nb = w.n_bits as usize;
        let chunk_bytes = if nb < remain { nb } else { remain };
        self.chunk_start = self.pos;
        self.chunk_len = chunk_bytes;
        self.pos = self.pos + chunk_bytes;
        self.offset = 0;
        let usable = chunk_bytes * 8;
        if usable < nb - 1 {
            self.size = 0;
            return false;
        }
        self.size = usable - (nb - 1);
        true
    }

    /// Takes the next code from the current chunk, if one fits.
    fn read_code(&mut self, data: &[u8], w: &Widths) -> (r: Option<u32>)
        requires
            old(self).wf(data.len() as nat),
            w.wf(),
        ensures
            (r, *final(self), *w) == read_in_chunk(data@, *old(self), *w),
            final(self).wf(data.len() as nat),
            r is Some ==> final(self).remaining(data.len() as nat) < old(self).remaining(data.len() as nat),
            r is None ==> *final(self) == *old(self),
    {
        if self.offset >= self.size {
            return None;
        }
        let n = w.n_bits as usize;
        let start_bit = self.offset;
        let end_byte = (start_bit + n - 1) / 8;
        if end_byte >= self.chunk_len {
            return None;
        }
        let base = self.chunk_start + start_bit / 8;
        let b0 = data[base] as u64;
        let b1: u64 = if base + 1 < data.len() { data[base + 1] as u64 } else { 0 };
        let b2: u64 = if base + 2 < data.len() { data[base + 2] as u64 } else { 0 };
        let word: u64 = b0 | (b1 << 8u64) | (b2 << 16u64);
        let bo: u64 = (start_bit % 8) as u64;
        let nn: u64 = n as u64;
        assert(9 <= nn <= 17 ==> (1u64 << nn) >= 1) by (bit_vector);
        let code = ((word >> bo) & ((1u64 << nn) - 1)) as u32;
        proof {
            let bit = self.chunk_start * 8 + start_bit;
            assert(bit / 8 == base) by (nonlinear_arith)
                requires
                    bit == self.chunk_start * 8 + start_bit,
                    base == self.chunk_start + start_bit / 8,
            ;
            assert(bit % 8 == start_bit % 8) by (nonlinear_arith)
                requires
                    bit == self.chunk_start * 8 + start_bit,
            ;
            assert(code == code_at(data@, bit, n as int));
        }
        self.offset = self.offset + n;
        Some(code)
    }

    /// Reads the next code, switching the code width when the table has
    /// outgrown it and restarting at 9 bits after a `CLEAR`.
    fn next_code(&mut self, data: &[u8], w: &mut Widths, free_ent: u32, clear_pending: &mut bool) -> (r: Option<u32>)
        requires
            old(self).wf(data.len() as nat),
            old(w).wf(),
            free_ent <= old(w).max_max_code,
            free_ent <= old(w).max_code + 1,
            *old(clear_pending) ==> free_ent == 257,
        ensures
            (r, *final(self), *final(w)) == next_code_spec(data@, *old(self), *old(w), free_ent, *old(clear_pending)),
            final(self).wf(data.len() as nat),
            final(w).wf(),
            final(w).max_bits == old(w).max_bits,
            final(w).max_max_code == old(w).max_max_code,
            free_ent <= final(w).max_code,
            !*final(clear_pending),
            r is Some ==> final(self).remaining(data.len() as nat) < old(self).remaining(data.len() as nat),
    {
        if *clear_pending || self.offset >= self.size || free_ent > w.max_code {
            let clear = *clear_pending;
            *clear_pending = false;
            let ok = self.refill(data, w, free_ent, clear);
            if !ok {
                return None;
            }
        }
        self.read_code(data, w)
    }
}

/// The string a code stands for: the byte itself below 256, else its
/// dictionary entry (the dictionary holds the codes from 256 on).
pub open spec fn code_string(dict: Seq<Seq<u8>>, c: int) -> Seq<u8> {
    if c < 256 { seq![c as u8] } else { dict[c - 256] }
}

/// The dictionary at the start and after a `CLEAR`: no entries, except
/// that block mode reserves code 256 for `CLEAR` itself.
pub open spec fn initial_dict(block: bool) -> Seq<Seq<u8>> {
    if block { seq![Seq::<u8>::empty()] } else { Seq::empty() }
}

/// What one code other than `CLEAR` does to the decoder: the dictionary
/// afterwards and the string it emits, or `None` for a corrupt stream.
///
/// The first code after the start or a `CLEAR` must be a byte. Later, a
/// known code emits its string; the code about to be defined emits the
/// previous string followed by its own first byte. Each code after the
/// first defines, while the table has room, the next code as the previous
/// string followed by the first byte of the emitted one.
pub open spec fn lzw_step(dict: Seq<Seq<u8>>, old: Option<u32>, c: u32, max_max_code: u32) -> Option<(Seq<Seq<u8>>, Seq<u8>)> {
    let free_ent = dict.len() + 256;
    match old {
        None => if c < 256 { Some((dict, seq![c as u8])) } else { None },
        Some(o) => {
            let prev = code_string(dict, o as int);
            let cur = if c < free_ent {
                Some(code_string(dict, c as int))
            } else if c == free_ent && o < free_ent {
                Some(prev.push(prev[0]))
            } else {
                None
            };
            match cur {
                None => None,
                Some(emitted) => Some((
                    if free_ent < max_max_code { dict.push(prev.push(emitted[0])) } else { dict },
                    emitted,
                )),
            }
        },
    }
}

/// The output of decoding the rest of the stream from a reader, width,
/// dictionary, previous code and output so far: codes are read and
/// applied until the stream ends; `None` for a corrupt stream.
spec fn run(
    data: Seq<u8>,
    block: bool,
    r: CodeReader,
    w: Widths,
    clear: bool,
    dict: Seq<Seq<u8>>,
    old: Option<u32>,
    out: Seq<u8>,
) -> Option<Seq<u8>>
    decreases r.remaining(data.len() as nat),
{
    let (next, r2, w2) = next_code_spec(data, r, w, (dict.len() + 256) as u32, clear);
    match next {
        None => Some(out),
        Some(c) => if 0 <= r2.remaining(data.len() as nat) < r.remaining(data.len() as nat) {
            if block && c == 256 {
                run(data, block, r2, w2, true, initial_dict(true), None, out)
            } else {
                match lzw_step(dict, old, c, w.max_max_code) {
                    None => None,
                    Some((d, emitted)) => run(data, block, r2, w2, false, d, Some(c), out + emitted),
                }
            }
        } else {
            None
        },
    }
}

/// Decoding the rest of the stream reads one code and goes on from
/// there.
proof fn lemma_run_step(
    data: Seq<u8>,
    block: bool,
    r: CodeReader,
    w: Widths,
    clear: bool,
    dict: Seq<Seq<u8>>,
    old: Option<u32>,
    out: Seq<u8>,
)
    ensures
        ({
            let (next, r2, w2) = next_code_spec(data, r, w, (dict.len() + 256) as u32, clear);
            let len = data.len() as nat;
            let progressed = 0 <= r2.remaining(len) && r2.remaining(len) < r.remaining(len);
            let here = run(data, block, r, w, clear, dict, old, out);
            &&& next is None ==> here == Some(out)
            &&& (next is Some && progressed && block && next->0 == 256) ==> here
                == run(data, block, r2, w2, true, initial_dict(true), None, out)
            &&& (next is Some && progressed && !(block && next->0 == 256)) ==> here == match lzw_step(dict, old, next->0, w.max_max_code) {
                None => None,
                Some((d, emitted)) => run(data, block, r2, w2, false, d, Some(next->0), out + emitted),
            }
        }),
{
}

/// The bytes a `.Z` stream decodes to, or `None` when its codes are
/// corrupt; defined for streams with the magic and a `maxbits` of 9 to
/// 16. The codes start after the three header bytes, 9 bits wide; the
/// flag byte's high bit selects block mode.
pub closed spec fn decoded(data: Seq<u8>) -> Option<Seq<u8>> {
    let max_bits = (data[2] & 0x1F) as u32;
    let block = data[2] & 0x80 != 0;
    run(
        data,
        block,
        CodeReader { chunk_start: 3, chunk_len: 0, pos: 3, offset: 0, size: 0 },
        Widths { max_bits, max_max_code: 1u32 << max_bits, n_bits: 9, max_code: 511 },
        false,
        initial_dict(block),
        None,
        Seq::empty(),
    )
}

/// The string the table's chain from code `c` spells: each entry is its
/// prefix code's string followed by its suffix byte.
spec fn expand(prefix: Seq<u32>, suffix: Seq<u8>, c: int) -> Seq<u8>
    decreases c,
{
    if c < 256 || c >= prefix.len() || c >= suffix.len() {
        seq![c as u8]
    } else if prefix[c] < c {
        expand(prefix, suffix, prefix[c] as int).push(suffix[c])
    } else {
        seq![c as u8]
    }
}

/// The table's chains shorten towards a byte.
spec fn chains_descend(prefix: Seq<u32>, bound: int) -> bool {
    forall|e: int| 256 <= e < bound ==> #[trigger] prefix[e] < e
}

/// A chain from a table code spells between two bytes and `c - 254`.
proof fn lemma_expand_len(prefix: Seq<u32>, suffix: Seq<u8>, c: int, bound: int)
    requires
        chains_descend(prefix, bound),
        256 <= c < bound <= prefix.len(),
        bound <= suffix.len(),
    ensures
        2 <= expand(prefix, suffix, c).len() <= c - 254,
    decreases c,
{
    let p = prefix[c] as int;
    assert(p < c);
    if p >= 256 {
        lemma_expand_len(prefix, suffix, p, bound);
    } else {
        assert(expand(prefix, suffix, p).len() == 1);
    }
    assert(expand(prefix, suffix, c) == expand(prefix, suffix, p).push(suffix[c]));
}

/// Chains below `bound` only read table entries below `bound`.
proof fn lemma_expand_frame(prefix: Seq<u32>, suffix: Seq<u8>, prefix2: Seq<u32>, suffix2: Seq<u8>, c: int, bound: int)
    requires
        chains_descend(prefix, bound),
        c < bound <= prefix.len(),
        prefix.len() == prefix2.len() == suffix.len() == suffix2.len(),
        forall|e: int| 256 <= e < bound ==> prefix2[e] == prefix[e] && suffix2[e] == suffix[e],
    ensures
        expand(prefix2, suffix2, c) == expand(prefix, suffix, c),
    decreases c,
{
    if 256 <= c {
        assert(prefix2[c] == prefix[c]);
        lemma_expand_frame(prefix, suffix, prefix2, suffix2, prefix[c] as int, bound);
    }
}

/// The first `n` stack bytes, last pushed first.
spec fn popped(stack: Seq<u8>, n: int) -> Seq<u8> {
    Seq::new(n as nat, |i: int| stack[n - 1 - i])
}

/// The table holds the dictionary: every defined code's chain spells its
/// entry (block mode's reserved code 256 aside).
spec fn table_holds(prefix: Seq<u32>, suffix: Seq<u8>, dict: Seq<Seq<u8>>, block: bool) -> bool {
    forall|e: int| 256 <= e < dict.len() + 256 && !(block && e == 256)
        ==> #[trigger] expand(prefix, suffix, e) == dict[e - 256]
}

/// The error for a stream whose codes do not decode.
fn corrupt() -> (e: Error)
    ensures
        e matches Error::Compress { message } && message@ == "corrupt .Z stream"@,
{
    Error::Compress { message: string_of(&chars_of("corrupt .Z stream")) }
}

/// Emits the string of a code that follows `old`, through the stack in
/// reverse, and defines the next table entry while the table has room.
#[verifier::rlimit(40)]
fn emit_code(
    prefix: &mut Vec<u32>,
    suffix: &mut Vec<u8>,
    stack: &mut Vec<u8>,
    output: &mut Vec<u8>,
    free_ent: &mut u32,
    fin_char: &mut u8,
    previous: u32,
    code: u32,
    max_max_code: u32,
    Ghost(dict): Ghost<Seq<Seq<u8>>>,
    Ghost(block): Ghost<bool>,
) -> (r: Result<Ghost<Seq<Seq<u8>>>, Error>)
    requires
        512 <= max_max_code <= 65536,
        old(prefix)@.len() == max_max_code,
        old(suffix)@.len() == max_max_code,
        old(stack)@.len() == max_max_code,
        *old(free_ent) == dict.len() + 256,
        256 <= *old(free_ent) <= max_max_code,
        chains_descend(old(prefix)@, *old(free_ent) as int),
        table_holds(old(prefix)@, old(suffix)@, dict, block),
        previous < *old(free_ent) || *old(free_ent) == max_max_code,
        previous < *old(free_ent) ==> code_string(dict, previous as int).len() > 0
            && code_string(dict, previous as int)[0] == *old(fin_char),
        block ==> previous != 256 && code != 256 && *old(free_ent) >= 257,
    ensures
        final(prefix)@.len() == max_max_code,
        final(suffix)@.len() == max_max_code,
        final(stack)@.len() == max_max_code,
        match lzw_step(dict, Some(previous), code, max_max_code) {
            None => r matches Err(e) && e matches Error::Compress { message } && message@ == "corrupt .Z stream"@,
            Some((d, emitted)) => {
                &&& r matches Ok(g) && g@ == d
                &&& final(output)@ == old(output)@ + emitted
                &&& *final(free_ent) == d.len() + 256
                &&& 256 <= *final(free_ent) <= max_max_code
                &&& chains_descend(final(prefix)@, *final(free_ent) as int)
                &&& table_holds(final(prefix)@, final(suffix)@, d, block)
                &&& code < *final(free_ent) || *final(free_ent) == max_max_code
                &&& code < *final(free_ent) ==> code_string(d, code as int).len() > 0
                    && code_string(d, code as int)[0] == *final(fin_char)
            },
        },
{
    let ghost fe = *free_ent as int;
    let ghost prev = code_string(dict, previous as int);
    let ghost mut target: Seq<u8> = Seq::empty();
    let mut c = code;
    let mut stack_top: usize = 0;
    if c >= *free_ent {
        if c != *free_ent || previous >= *free_ent {
            return Err(corrupt());
        }
        stack.set(0, *fin_char);
        stack_top = 1;
        c = previous;
        proof {
            target = prev.push(prev[0]);
            assert(popped(stack@, 1) =~= seq![prev[0]]);
            if previous >= 256 {
                lemma_expand_len(prefix@, suffix@, previous as int, fe);
            }
            assert(expand(prefix@, suffix@, previous as int) == prev);
        }
    } else {
        proof {
            target = code_string(dict, code as int);
            assert(popped(stack@, 0) =~= Seq::<u8>::empty());
            if code >= 256 {
                lemma_expand_len(prefix@, suffix@, code as int, fe);
            }
            assert(expand(prefix@, suffix@, code as int) == target);
        }
    }
    assert(expand(prefix@, suffix@, c as int) + popped(stack@, stack_top as int) =~= target);
    while c >= 256
        invariant
            512 <= max_max_code <= 65536,
            prefix@.len() == max_max_code,
            suffix@.len() == max_max_code,
            stack@.len() == max_max_code,
            *free_ent == fe,
            fe <= max_max_code,
            c < fe,
            chains_descend(prefix@, fe),
            expand(prefix@, suffix@, c as int) + popped(stack@, stack_top as int) == target,
            target.len() <= max_max_code - 254,
        decreases c,
    {
        proof {
            lemma_expand_len(prefix@, suffix@, c as int, fe);
        }
        let ghost before = stack@;
        let ghost top = stack_top as int;
        let ghost tail = expand(prefix@, suffix@, prefix@[c as int] as int);
        assert(expand(prefix@, suffix@, c as int) == tail.push(suffix@[c as int]));
        stack.set(stack_top, suffix[c as usize]);
        stack_top += 1;
        proof {
            assert(popped(stack@, stack_top as int) =~= seq![suffix@[c as int]] + popped(before, top));
            assert(tail + popped(stack@, stack_top as int) =~= tail.push(suffix@[c as int]) + popped(before, top));
        }
        c = prefix[c as usize];
    }
    let fin = c as u8;
    proof {
        assert(expand(prefix@, suffix@, c as int) == seq![fin]);
    }
    let ghost before = stack@;
    let ghost top = stack_top as int;
    stack.set(stack_top, fin);
    stack_top += 1;
    proof {
        assert(popped(stack@, stack_top as int) =~= seq![fin] + popped(before, top));
        assert(popped(stack@, stack_top as int) == target);
    }
    let ghost top0 = stack_top as int;
    let ghost out0 = output@;
    while stack_top > 0
        invariant
            stack_top <= top0,
            top0 <= stack@.len(),
            target == popped(stack@, top0),
            output@ == out0 + target.take(top0 - stack_top),
        decreases stack_top,
    {
        stack_top -= 1;
        output.push(stack[stack_top]);
        proof {
            assert(target.take(top0 - stack_top) =~= target.take(top0 - stack_top - 1).push(stack@[stack_top as int]));
        }
    }
    assert(target.take(top0) =~= target);
    *fin_char = fin;
    let ghost d = if fe < max_max_code { dict.push(prev.push(fin)) } else { dict };
    if *free_ent < max_max_code {
        let ghost p0 = prefix@;
        let ghost s0 = suffix@;
        let slot = *free_ent as usize;
        prefix.set(slot, previous);
        suffix.set(slot, fin);
        proof {
            assert forall|e: int| 256 <= e < fe + 1 && !(block && e == 256) implies
                #[trigger] expand(prefix@, suffix@, e) == d[e - 256] by {
                if e < fe {
                    lemma_expand_frame(p0, s0, prefix@, suffix@, e, fe);
                } else {
                    lemma_expand_frame(p0, s0, prefix@, suffix@, previous as int, fe);
                    if previous >= 256 {
                        assert(expand(p0, s0, previous as int) == dict[previous - 256]);
                    }
                    assert(expand(prefix@, suffix@, e) == expand(prefix@, suffix@, previous as int).push(fin));
                }
            }
            assert forall|e: int| 256 <= e < fe + 1 implies #[trigger] prefix@[e] < e by {
                if e < fe {
                    assert(p0[e] < e);
                }
            }
        }
        *free_ent += 1;
    }
    proof {
        if code < *free_ent {
            if code < fe {
                assert(code_string(d, code as int) == code_string(dict, code as int));
            }
        }
    }
    Ok(Ghost(d))
}

/// What decompressing `data` gives: the decoded bytes, or the message
/// of the [`Error::Compress`] it fails with.
pub open spec fn decompress_spec(data: Seq<u8>) -> Result<Seq<u8>, Seq<char>> {
    if !z_header_spec(data) {
        Err("not a .Z stream"@)
    } else if !(9 <= max_bits_of(data[2]) <= 16) {
        Err("unsupported .Z maxbits "@ + decimal_spec(max_bits_of(data[2]) as nat))
    } else {
        match decoded(data) {
            Some(v) => Ok(v),
            None => Err("corrupt .Z stream"@),
        }
    }
}

/// Decompresses a complete `.Z` stream.
///
/// # Errors
///
/// Returns [`Error::Compress`] if the stream is not a valid `.Z` stream
/// or uses an unsupported bit width.
#[verifier::rlimit(60)]
#[verifier::spinoff_prover]
pub fn decompress(data: &[u8]) -> (r: Result<Vec<u8>, Error>)
    ensures
        !z_header_spec(data@) ==> (r matches Err(Error::Compress { message })
            && message@ == "not a .Z stream"@),
        z_header_spec(data@) && !(9 <= max_bits_of(data@[2]) <= 16) ==> (r matches Err(
            Error::Compress { message },
        ) && message@ == "unsupported .Z maxbits "@ + decimal_spec(max_bits_of(data@[2]) as nat)),
        z_header_spec(data@) && 9 <= max_bits_of(data@[2]) <= 16 && r is Err ==> (r matches Err(
            Error::Compress { message },
        ) && message@ == "corrupt .Z stream"@),
        z_header_spec(data@) && 9 <= max_bits_of(data@[2]) <= 16 ==> match r {
            Ok(v) => decoded(data@) == Some(v@),
            Err(_) => decoded(data@) is None,
        },
{
    if !has_z_header(data) {
        return Err(Error::Compress { message: string_of(&chars_of("not a .Z stream")) });
    }
    let flags = data[2];
    let max_bits_byte = flags & 0x1F;
    let block_mode = flags & 0x80 != 0;
    if !(9 <= max_bits_byte && max_bits_byte <= 16) {
        let mut message = string_of(&chars_of("unsupported .Z maxbits "));
        append_str(&mut message, decimal(max_bits_byte as u64).as_str());
        return Err(Error::Compress { message });
    }
    let max_bits = max_bits_byte as u32;
    proof {
        lemma_shift_bounds(max_bits);
        lemma_shift_bounds(9);
    }
    let max_max_code: u32 = 1u32 << max_bits;
    let mut w = Widths { max_bits, max_max_code, n_bits: 9, max_code: (1u32 << 9u32) - 1 };
    let mut free_ent: u32 = if block_mode { 257 } else { 256 };
    let mut clear_pending = false;
    let mut reader = CodeReader { chunk_start: 3, chunk_len: 0, pos: 3, offset: 0, size: 0 };

    let table_size = max_max_code as usize;
    let mut prefix: Vec<u32> = Vec::new();
    let mut suffix: Vec<u8> = Vec::new();
    let mut stack: Vec<u8> = Vec::new();
    let mut t: usize = 0;
    while t < table_size
        invariant
            t <= table_size,
            prefix.len() == t,
            suffix.len() == t,
            stack.len() == t,
            forall|k: int| 0 <= k < t ==> #[trigger] prefix@[k] == 0,
        decreases table_size - t,
    {
        prefix.push(0);
        suffix.push(if t < 256 { t as u8 } else { 0 });
        stack.push(0);
        t += 1;
    }

    let mut output: Vec<u8> = Vec::new();
    let mut old_code: Option<u32> = None;
    let mut fin_char: u8 = 0;
    let ghost mut dict: Seq<Seq<u8>> = initial_dict(block_mode);
    proof {
        assert(w == Widths { max_bits, max_max_code: 1u32 << max_bits, n_bits: 9, max_code: 511 });
        assert(max_bits == (data@[2] & 0x1F) as u32);
        assert(output@ =~= Seq::<u8>::empty());
    }
    loop
        invariant
            reader.wf(data.len() as nat),
            w.wf(),
            w.max_bits == max_bits,
            w.max_max_code == max_max_code,
            table_size == max_max_code,
            512 <= max_max_code <= 65536,
            free_ent == dict.len() + 256,
            256 <= free_ent <= max_max_code,
            free_ent <= w.max_code + 1,
            clear_pending ==> free_ent == 257,
            prefix@.len() == table_size,
            suffix@.len() == table_size,
            stack@.len() == table_size,
            chains_descend(prefix@, free_ent as int),
            table_holds(prefix@, suffix@, dict, block_mode),
            old_code matches Some(o) ==> (o < free_ent || free_ent == max_max_code),
            old_code matches Some(o) ==> (o < free_ent ==> code_string(dict, o as int).len() > 0
                && code_string(dict, o as int)[0] == fin_char),
            block_mode ==> free_ent >= 257 && (old_code matches Some(o) ==> o != 256),
            run(data@, block_mode, reader, w, clear_pending, dict, old_code, output@) == decoded(data@),
            z_header_spec(data@),
            9 <= max_bits_of(data@[2]) <= 16,
        ensures
            decoded(data@) == Some(output@),
        decreases reader.remaining(data.len() as nat),
    {
        let ghost rb = reader;
        let ghost wb = w;
        let ghost cb = clear_pending;
        let ghost ob = output@;
        proof {
            lemma_run_step(data@, block_mode, rb, wb, cb, dict, old_code, ob);
        }
        let next = reader.next_code(data, &mut w, free_ent, &mut clear_pending);
        let code = match next {
            Some(c) => c,
            None => break,
        };
        assert(0 <= reader.remaining(data.len() as nat) < rb.remaining(data.len() as nat));
        if block_mode && code == 256 {
            clear_pending = true;
            free_ent = 257;
            old_code = None;
            proof {
                dict = initial_dict(true);
            }
            continue;
        }
        let previous = match old_code {
            Some(o) => o,
            None => {
                if code > 255 {
                    return Err(corrupt());
                }
                fin_char = code as u8;
                output.push(fin_char);
                old_code = Some(code);
                assert(output@ =~= ob + seq![code as u8]);
                continue;
            },
        };
        match emit_code(
            &mut prefix,
            &mut suffix,
            &mut stack,
            &mut output,
            &mut free_ent,
            &mut fin_char,
            previous,
            code,
            max_max_code,
            Ghost(dict),
            Ghost(block_mode),
        ) {
            Ok(g) => {
                proof {
                    dict = g@;
                }
            },
            Err(e) => {
                return Err(e);
            },
        }
        old_code = Some(code);
    }
    Ok(output)
}

} // verus!
