//! Rendering of byte buffers as hex + ASCII dump lines.
//!
//! A dump partitions its input into 16-byte lines. A line that holds any
//! nonzero byte is printed as a 12-digit (or wider, for very large offsets)
//! zero-padded lowercase hex offset, a colon and space, the bytes as two hex
//! digits each followed by a space with one extra space after the eighth
//! byte, alignment padding for a short final line, and an ASCII column where
//! printable bytes (0x20 through 0x7e) stand for themselves and every other
//! byte is a dot. A line of only zero bytes is compressed to the placeholder
//! `00...`, but still advances the offset by 16.

use vstd::prelude::*;
use vstd::string::StringSliceAdditionalSpecFns;

verus! {

/// The lowercase hex digit for a nibble.
pub open spec fn hex_digit(n: u8) -> u8
    recommends
        n < 16,
{
    if n < 10 {
        (0x30 + n) as u8
    } else {
        (0x57 + n) as u8
    }
}

/// The two lowercase hex digits of one byte.
pub open spec fn hex_pair(b: u8) -> Seq<u8> {
    seq![hex_digit(b / 16), hex_digit(b % 16)]
}

/// The hex numeral of `v` written with exactly `digits` digits, zero padded,
/// most significant digit first. Digits beyond the numeral's own width are
/// zeros; a width too small keeps only the low digits.
pub open spec fn hex_rep(v: nat, digits: nat) -> Seq<u8>
    decreases digits,
{
    if digits == 0 {
        Seq::empty()
    } else {
        hex_rep(v / 16, (digits - 1) as nat) + seq![hex_digit((v % 16) as u8)]
    }
}

/// How many hex digits the numeral of `v` needs.
pub open spec fn hex_width(v: nat) -> nat
    decreases v,
{
    if v < 16 {
        1
    } else {
        1 + hex_width(v / 16)
    }
}

/// Sixteen to the power `d`.
pub open spec fn pow16(d: nat) -> nat
    decreases d,
{
    if d == 0 {
        1
    } else {
        16 * pow16((d - 1) as nat)
    }
}

/// A numeral below `pow16(d)` needs at most `d` digits.
pub proof fn lemma_hex_width_le(v: nat, d: nat)
    requires
        1 <= d,
        v < pow16(d),
    ensures
        hex_width(v) <= d,
    decreases d,
{
    if v >= 16 {
        assert(pow16(d) == 16 * pow16((d - 1) as nat));
        lemma_hex_width_le(v / 16, (d - 1) as nat);
    }
}

/// The offset column: at least 12 hex digits, more only when the offset
/// itself is wider.
pub open spec fn offset_field(off: nat) -> Seq<u8> {
    hex_rep(off, if hex_width(off) > 12 { hex_width(off) } else { 12 })
}

/// Whether a byte renders as itself in the ASCII column.
pub open spec fn is_printable(b: u8) -> bool {
    0x20 <= b && b <= 0x7e
}

/// One cell of the ASCII column: the byte itself when printable, else a dot.
pub open spec fn ascii_cell(b: u8) -> u8 {
    if is_printable(b) {
        b
    } else {
        0x2e
    }
}

/// The ASCII column of a line.
pub open spec fn ascii_col(chunk: Seq<u8>) -> Seq<u8> {
    chunk.map_values(|b: u8| ascii_cell(b))
}

/// The hex column of a line whose first byte sits at position `pos` within
/// the line: each byte as two digits and a space, with one extra space
/// before the byte at position 8.
pub open spec fn hex_col(chunk: Seq<u8>, pos: int) -> Seq<u8>
    decreases chunk.len(),
{
    if chunk.len() == 0 {
        Seq::empty()
    } else {
        (if pos == 8 {
            seq![0x20u8]
        } else {
            Seq::empty()
        }) + hex_pair(chunk[0]) + seq![0x20u8] + hex_col(chunk.drop_first(), pos + 1)
    }
}

/// The alignment padding after the hex column of a line of `len` bytes:
/// three columns for each missing byte, and one more when that count is a
/// multiple of eight (the missing bytes then straddle the half-line
/// boundary, whose extra space was never printed).
pub open spec fn pad_width(len: nat) -> nat {
    if len >= 16 {
        0
    } else {
        if (16 - len) * 3 % 8 == 0 {
            ((16 - len) * 3 + 1) as nat
        } else {
            ((16 - len) * 3) as nat
        }
    }
}

/// A run of `n` spaces.
pub open spec fn spaces(n: nat) -> Seq<u8> {
    Seq::new(n, |i: int| 0x20u8)
}

/// Whether every byte of the chunk is zero.
pub open spec fn all_zero(chunk: Seq<u8>) -> bool {
    forall|i: int| 0 <= i < chunk.len() ==> chunk[i] == 0
}

/// One rendered line for the up-to-16-byte chunk at byte offset `off`.
pub open spec fn line_rep(off: nat, chunk: Seq<u8>) -> Seq<u8>
    recommends
        0 < chunk.len() <= 16,
{
    if all_zero(chunk) {
        "00...\n".spec_bytes()
    } else {
        offset_field(off) + ": ".spec_bytes() + hex_col(chunk, 0) + spaces(pad_width(chunk.len()))
            + " ".spec_bytes() + ascii_col(chunk) + "\n".spec_bytes()
    }
}

/// How many lines a buffer of `n` bytes occupies.
pub open spec fn line_count(n: nat) -> nat {
    (n + 15) / 16
}

/// The full rendering of a buffer starting at byte offset `off`: its lines,
/// 16 bytes each but for a shorter final one, concatenated.
pub open spec fn render_rep(off: nat, data: Seq<u8>) -> Seq<u8>
    decreases data.len(),
{
    if data.len() == 0 {
        Seq::empty()
    } else if data.len() <= 16 {
        line_rep(off, data)
    } else {
        line_rep(off, data.take(16)) + render_rep(off + 16, data.skip(16))
    }
}

fn hex_digit_byte(n: u8) -> (r: u8)
    requires
        n < 16,
    ensures
        r == hex_digit(n),
{
    if n < 10 {
        0x30 + n
    } else {
        0x57 + n
    }
}

/// Appends a byte slice to the output buffer.
pub(crate) fn push_bytes(out: &mut Vec<u8>, s: &[u8])
    ensures
        final(out)@ == old(out)@ + s@,
{
    let ghost base = out@;
    let mut i: usize = 0;
    while i < s.len()
        invariant
            i <= s@.len(),
            out@ == base + s@.take(i as int),
        decreases s@.len() - i,
    {
        out.push(s[i]);
        i = i + 1;
        assert(base + s@.take(i as int) =~= (base + s@.take(i - 1)).push(s@[i - 1]));
    }
    assert(base + s@.take(s@.len() as int) =~= base + s@);
}

/// Appends the hex numeral of `v`, zero padded to exactly `digits` digits.
fn push_hex_rep(out: &mut Vec<u8>, v: u64, digits: usize)
    ensures
        final(out)@ == old(out)@ + hex_rep(v as nat, digits as nat),
    decreases digits,
{
    if digits > 0 {
        push_hex_rep(out, v / 16, digits - 1);
        out.push(hex_digit_byte((v % 16) as u8));
        assert(old(out)@ + hex_rep(v as nat, digits as nat) =~= (old(out)@ + hex_rep(
            (v / 16) as nat,
            (digits - 1) as nat,
        )).push(hex_digit((v % 16) as u8)));
    } else {
        assert(old(out)@ + hex_rep(v as nat, 0) =~= old(out)@);
    }
}

/// The width of the hex numeral of `v`.
fn hex_width_of(v: u64) -> (w: usize)
    ensures
        w == hex_width(v as nat),
        1 <= w <= 16,
    decreases v,
{
    proof {
        assert(pow16(16) == 0x10000000000000000) by {
            reveal_with_fuel(pow16, 17);
        }
        lemma_hex_width_le(v as nat, 16);
    }
    if v < 16 {
        1
    } else {
        let rest = hex_width_of(v / 16);
        assert(hex_width(v as nat) == 1 + hex_width((v / 16) as nat));
        1 + rest
    }
}

/// Extending a chunk by one byte extends its hex column by that byte's
/// cell, with the half-line space where the byte lands at position 8.
proof fn lemma_hex_col_snoc(s: Seq<u8>, b: u8, pos: int)
    ensures
        hex_col(s + seq![b], pos) == hex_col(s, pos) + (if pos + s.len() == 8 {
            seq![0x20u8]
        } else {
            Seq::<u8>::empty()
        }) + hex_pair(b) + seq![0x20u8],
    decreases s.len(),
{
    let whole = s + seq![b];
    if s.len() == 0 {
        assert(whole.drop_first() =~= Seq::<u8>::empty());
        assert(whole[0] == b);
        assert(hex_col(whole, pos) =~= hex_col(s, pos) + (if pos + s.len() == 8 {
            seq![0x20u8]
        } else {
            Seq::<u8>::empty()
        }) + hex_pair(b) + seq![0x20u8]);
    } else {
        assert(whole.drop_first() =~= s.drop_first() + seq![b]);
        assert(whole[0] == s[0]);
        lemma_hex_col_snoc(s.drop_first(), b, pos + 1);
        let gap = if pos + s.len() == 8 {
            seq![0x20u8]
        } else {
            Seq::<u8>::empty()
        };
        let head = (if pos == 8 {
            seq![0x20u8]
        } else {
            Seq::<u8>::empty()
        }) + hex_pair(s[0]) + seq![0x20u8];
        assert(hex_col(whole, pos) == head + hex_col(whole.drop_first(), pos + 1));
        assert(hex_col(s, pos) == head + hex_col(s.drop_first(), pos + 1));
        assert(hex_col(whole.drop_first(), pos + 1) == hex_col(s.drop_first(), pos + 1) + gap
            + hex_pair(b) + seq![0x20u8]);
        assert(hex_col(whole, pos) =~= hex_col(s, pos) + gap + hex_pair(b) + seq![0x20u8]);
    }
}

/// Appends the offset column for `off`.
fn push_offset(out: &mut Vec<u8>, off: u64)
    ensures
        final(out)@ == old(out)@ + offset_field(off as nat),
{
    let w = hex_width_of(off);
    let digits = if w > 12 {
        w
    } else {
        12
    };
    push_hex_rep(out, off, digits);
}

/// Appends one rendered line for the chunk at byte offset `off`.
pub fn render_line(out: &mut Vec<u8>, off: u64, chunk: &[u8])
    requires
        0 < chunk@.len() <= 16,
    ensures
        final(out)@ == old(out)@ + line_rep(off as nat, chunk@),
        all_zero(chunk@) ==> final(out)@ == old(out)@ + "00...\n".spec_bytes(),
{
    let n = chunk.len();
    let mut zero = true;
    let ghost mut wit: int = 0;
    let mut i: usize = 0;
    while i < n
        invariant
            i <= n,
            n == chunk@.len(),
            zero ==> all_zero(chunk@.take(i as int)),
            !zero ==> 0 <= wit < n && chunk@[wit] != 0,
        decreases n - i,
    {
        if chunk[i] != 0 {
            zero = false;
            proof {
                wit = i as int;
            }
        }
        i = i + 1;
        assert(chunk@.take(i as int) =~= chunk@.take(i - 1).push(chunk@[i - 1]));
    }
    assert(chunk@.take(n as int) =~= chunk@);
    proof {
        if !zero {
            assert(chunk@[wit] != 0);
            assert(!all_zero(chunk@));
        }
    }
    if zero {
        push_bytes(out, "00...\n".as_bytes());
        return ;
    }
    push_offset(out, off);
    push_bytes(out, ": ".as_bytes());
    let ghost head = old(out)@ + offset_field(off as nat) + ": ".spec_bytes();
    let mut i: usize = 0;
    while i < n
        invariant
            i <= n,
            n == chunk@.len() <= 16,
            out@ == head + hex_col(chunk@.take(i as int), 0),
        decreases n - i,
    {
        if i == 8 {
            out.push(0x20);
        }
        let b = chunk[i];
        out.push(hex_digit_byte(b / 16));
        out.push(hex_digit_byte(b % 16));
        out.push(0x20);
        proof {
            lemma_hex_col_snoc(chunk@.take(i as int), chunk@[i as int], 0);
            assert(chunk@.take(i + 1) =~= chunk@.take(i as int) + seq![chunk@[i as int]]);
            assert(head + hex_col(chunk@.take(i + 1), 0) =~= out@);
        }
        i = i + 1;
    }
    let ghost cols = head + hex_col(chunk@, 0);
    assert(out@ == cols);
    if n < 16 {
        let missing = 16 - n;
        let mut width = missing * 3;
        if width % 8 == 0 {
            width = width + 1;
        }
        assert(width == pad_width(chunk@.len() as nat));
        let mut j: usize = 0;
        while j < width
            invariant
                j <= width,
                out@ == cols + spaces(j as nat),
            decreases width - j,
        {
            out.push(0x20);
            assert(spaces((j + 1) as nat) =~= spaces(j as nat).push(0x20u8));
            j = j + 1;
        }
    } else {
        assert(spaces(pad_width(chunk@.len() as nat)) =~= Seq::<u8>::empty());
        assert(out@ =~= cols + spaces(pad_width(chunk@.len() as nat)));
    }
    let ghost padded = cols + spaces(pad_width(chunk@.len() as nat));
    assert(out@ == padded);
    push_bytes(out, " ".as_bytes());
    let ghost gap = padded + " ".spec_bytes();
    let mut i: usize = 0;
    while i < n
        invariant
            i <= n,
            n == chunk@.len(),
            out@ == gap + ascii_col(chunk@.take(i as int)),
        decreases n - i,
    {
        let b = chunk[i];
        if 0x20 <= b && b <= 0x7e {
            out.push(b);
        } else {
            out.push(0x2e);
        }
        proof {
            assert(ascii_col(chunk@.take(i + 1)) =~= ascii_col(chunk@.take(i as int)).push(
                ascii_cell(chunk@[i as int]),
            ));
        }
        i = i + 1;
    }
    push_bytes(out, "\n".as_bytes());
    assert(final(out)@ =~= old(out)@ + line_rep(off as nat, chunk@));
}

/// Rendering a buffer of whole lines followed by one more chunk renders the
/// buffer and then that chunk's line.
proof fn lemma_render_append_line(off: nat, a: Seq<u8>, c: Seq<u8>)
    requires
        a.len() % 16 == 0,
        0 < c.len() <= 16,
    ensures
        render_rep(off, a + c) == render_rep(off, a) + line_rep((off + a.len()) as nat, c),
    decreases a.len(),
{
    if a.len() == 0 {
        assert(a + c =~= c);
        assert(render_rep(off, a + c) =~= render_rep(off, a) + line_rep(
            (off + a.len()) as nat,
            c,
        ));
    } else {
        assert(a.len() >= 16);
        let rest = a.skip(16);
        assert(rest.len() % 16 == 0) by {
            assert(a.len() == 16 + rest.len());
        }
        assert((a + c).take(16) =~= a.take(16));
        assert((a + c).skip(16) =~= rest + c);
        lemma_render_append_line((off + 16) as nat, rest, c);
        if a.len() == 16 {
            assert(a.take(16) =~= a);
            assert(rest =~= Seq::<u8>::empty());
            assert(render_rep(off, a) == line_rep(off, a));
        }
        assert(render_rep(off, a + c) =~= render_rep(off, a) + line_rep(
            (off + a.len()) as nat,
            c,
        ));
    }
}

/// The length of the next read: the remaining byte budget, capped at 1536.
pub fn chunk_len(remaining: u64) -> (n: usize)
    ensures
        remaining < 1536 ==> n == remaining,
        remaining >= 1536 ==> n == 1536,
{
    if remaining < 1536 {
        remaining as usize
    } else {
        1536
    }
}

/// Renders a whole buffer whose first byte sits at offset `off`, and returns
/// the rendered lines together with the offset after them. The offset
/// advances by 16 for every line, the compressed all-zero ones included.
pub fn render_chunk(off: u64, buf: &[u8]) -> (r: (Vec<u8>, u64))
    requires
        off + buf@.len() + 15 <= u64::MAX,
    ensures
        r.0@ == render_rep(off as nat, buf@),
        r.1 == off + 16 * line_count(buf@.len()),
{
    let mut out: Vec<u8> = Vec::new();
    let n = buf.len();
    let mut i: usize = 0;
    let mut boff: u64 = off;
    while i < n
        invariant
            i <= n,
            n == buf@.len(),
            i % 16 == 0 || i == n,
            off + n + 15 <= u64::MAX,
            boff == off + 16 * line_count(i as nat),
            out@ == render_rep(off as nat, buf@.take(i as int)),
        decreases n - i,
    {
        assert(i % 16 == 0);
        let next = if n - i < 16 {
            n - i
        } else {
            16
        };
        let chunk = vstd::slice::slice_subrange(buf, i, i + next);
        assert(16 * line_count(i as nat) == i) by {
            assert(line_count(i as nat) == (i + 15) / 16);
        }
        assert(boff == off + i);
        render_line(&mut out, boff, chunk);
        proof {
            lemma_render_append_line(off as nat, buf@.take(i as int), chunk@);
            assert(buf@.take((i + next) as int) =~= buf@.take(i as int) + chunk@);
            assert(line_count((i + next) as nat) == line_count(i as nat) + 1) by {
                assert(i % 16 == 0);
                assert(0 < next <= 16);
                assert(next == 16 || i + next == n);
            }
        }
        boff = boff + 16;
        i = i + next;
    }
    assert(buf@.take(n as int) =~= buf@);
    (out, boff)
}

/// Renders a whole in-memory buffer as a dump starting at offset zero.
pub fn render_dump(data: &[u8]) -> (out: Vec<u8>)
    requires
        data@.len() + 15 <= u64::MAX,
    ensures
        out@ == render_rep(0, data@),
{
    let r = render_chunk(0, data);
    r.0
}

} // verus!
