//! Laws of the dump format: byte accounting, line offsets, and the
//! hex-to-byte round trip.

use vstd::prelude::*;
use vstd::string::StringSliceAdditionalSpecFns;
use vstd::utf8::is_ascii_chars;
use vstd::utf8::is_ascii_chars_encode_utf8;
use crate::render::all_zero;
use crate::render::ascii_col;
use crate::render::hex_col;
use crate::render::hex_digit;
use crate::render::hex_pair;
use crate::render::hex_rep;
use crate::render::lemma_hex_width_le;
use crate::render::line_count;
use crate::render::line_rep;
use crate::render::offset_field;
use crate::render::pad_width;
use crate::render::pow16;
use crate::render::render_rep;
use crate::render::spaces;

verus! {

/// Every line, the compressed all-zero ones included, accounts for 16 bytes
/// of offset advancement, so a buffer of `s` bytes advances the offset by
/// `ceil(s / 16) * 16`: at least `s`, less than `s + 16`, and exactly `s`
/// when `s` is a multiple of 16.
pub proof fn lemma_byte_accounting(s: nat)
    ensures
        16 * line_count(s) == ((s + 15) / 16) * 16,
        s <= 16 * line_count(s) < s + 16,
        s % 16 == 0 ==> 16 * line_count(s) == s,
{
}

/// The byte offset at which line `i` of a dump begins.
pub open spec fn line_offset(i: int) -> int {
    16 * i
}

/// The bytes of line `i` of a dump of `data`: 16 of them, or what remains
/// for the final line.
pub open spec fn nth_chunk(data: Seq<u8>, i: int) -> Seq<u8>
    recommends
        0 <= i < line_count(data.len()),
{
    if 16 * i + 16 <= data.len() {
        data.subrange(16 * i, 16 * i + 16)
    } else {
        data.subrange(16 * i, data.len() as int)
    }
}

/// The lines of a dump of `data` from line `i` on, concatenated.
pub open spec fn lines_from(data: Seq<u8>, i: int) -> Seq<u8>
    decreases line_count(data.len()) - i,
{
    if i < 0 || i >= line_count(data.len()) {
        Seq::empty()
    } else {
        line_rep(line_offset(i) as nat, nth_chunk(data, i)) + lines_from(data, i + 1)
    }
}

proof fn lemma_lines_from(data: Seq<u8>, i: int)
    requires
        0 <= i,
        16 * i <= data.len(),
    ensures
        render_rep((16 * i) as nat, data.skip(16 * i)) == lines_from(data, i),
    decreases data.len() - 16 * i,
{
    let rem = data.skip(16 * i);
    if rem.len() == 0 {
        assert(i >= line_count(data.len()));
    } else if rem.len() <= 16 {
        assert(i < line_count(data.len()));
        assert(nth_chunk(data, i) =~= rem);
        assert(i + 1 >= line_count(data.len()));
        assert(lines_from(data, i + 1) =~= Seq::<u8>::empty());
        assert(lines_from(data, i) =~= line_rep((16 * i) as nat, rem));
    } else {
        assert(i < line_count(data.len()));
        assert(rem.take(16) =~= nth_chunk(data, i));
        assert(rem.skip(16) =~= data.skip(16 * (i + 1)));
        lemma_lines_from(data, i + 1);
        assert(render_rep((16 * i) as nat, rem) =~= lines_from(data, i));
    }
}

/// A dump is the concatenation of its lines, and line `i` is rendered at
/// offset `16 * i`: the printed offsets are strictly increasing multiples
/// of 16 starting at 0.
pub proof fn lemma_dump_lines(data: Seq<u8>)
    ensures
        render_rep(0, data) == lines_from(data, 0),
        line_offset(0) == 0,
        forall|i: int| #[trigger] line_offset(i) % 16 == 0,
        forall|i: int, j: int| i < j ==> #[trigger] line_offset(i) < #[trigger] line_offset(j),
{
    assert(data.skip(0) =~= data);
    lemma_lines_from(data, 0);
}

/// The numeric value of a lowercase hex digit character.
pub open spec fn hex_val(c: u8) -> u8 {
    if 0x30 <= c <= 0x39 {
        (c - 0x30) as u8
    } else {
        (c - 0x57) as u8
    }
}

/// Reading back the two digits printed for a byte gives the byte.
pub proof fn lemma_hex_pair_round_trip(b: u8)
    ensures
        hex_val(hex_pair(b)[0]) * 16 + hex_val(hex_pair(b)[1]) == b,
{
}

/// Where the hex cell of byte `i` of a line starts, within the whole line:
/// 14 columns of offset and separator, 3 per earlier byte, and one more
/// past the half-line space.
pub open spec fn cell_pos(i: int) -> int {
    14 + 3 * i + if i >= 8 {
        1int
    } else {
        0int
    }
}

/// A fixed-width numeral has that width.
proof fn lemma_hex_rep_len(v: nat, digits: nat)
    ensures
        hex_rep(v, digits).len() == digits,
    decreases digits,
{
    if digits > 0 {
        lemma_hex_rep_len(v / 16, (digits - 1) as nat);
    }
}

/// Within `hex_col(chunk, pos)`, the cell of byte `i` starts at
/// `3 * i`, plus one when the half-line space falls at or before it.
proof fn lemma_hex_col_index(chunk: Seq<u8>, pos: int, i: int)
    requires
        0 <= i < chunk.len(),
        0 <= pos,
        pos + chunk.len() <= 16,
    ensures
        hex_col(chunk, pos).len() == 3 * chunk.len() + (if pos <= 8 && 8 < pos + chunk.len() {
            1int
        } else {
            0int
        }),
        ({
            let p = 3 * i + if pos <= 8 && pos + i >= 8 {
                1int
            } else {
                0int
            };
            &&& hex_col(chunk, pos)[p] == hex_digit(chunk[i] / 16)
            &&& hex_col(chunk, pos)[p + 1] == hex_digit(chunk[i] % 16)
        }),
    decreases chunk.len(),
{
    let head = (if pos == 8 {
        seq![0x20u8]
    } else {
        Seq::<u8>::empty()
    }) + hex_pair(chunk[0]) + seq![0x20u8];
    let tail = hex_col(chunk.drop_first(), pos + 1);
    assert(hex_col(chunk, pos) == head + tail);
    if chunk.len() > 1 {
        lemma_hex_col_index(chunk.drop_first(), pos + 1, if i == 0 {
            0
        } else {
            i - 1
        });
    } else {
        assert(chunk.drop_first().len() == 0);
        assert(tail =~= Seq::<u8>::empty());
    }
    if i > 0 {
        assert(chunk.drop_first()[i - 1] == chunk[i]);
    }
}

/// Round trip: the hex digits printed for a full, not-all-zero line parse
/// back to exactly the bytes of that line. Byte `i` of the chunk is printed
/// at columns `cell_pos(i)` and `cell_pos(i) + 1` of the line.
pub proof fn lemma_line_round_trip(off: nat, chunk: Seq<u8>, i: int)
    requires
        chunk.len() == 16,
        !all_zero(chunk),
        0 <= i < 16,
        off < pow16(12),
    ensures
        ({
            let line = line_rep(off, chunk);
            hex_val(line[cell_pos(i)]) * 16 + hex_val(line[cell_pos(i) + 1]) == chunk[i]
        }),
{
    lemma_hex_width_le(off, 12);
    lemma_hex_rep_len(off, 12);
    assert(offset_field(off).len() == 12);
    reveal_strlit(": ");
    assert(is_ascii_chars(": "@)) by {
        assert(": "@.len() == 2);
        assert(": "@[0] == ':' && ": "@[1] == ' ');
    }
    is_ascii_chars_encode_utf8(": "@);
    assert(": ".spec_bytes().len() == 2);
    let prefix = offset_field(off) + ": ".spec_bytes();
    assert(prefix.len() == 14);
    lemma_hex_col_index(chunk, 0, i);
    let p = 3 * i + if i >= 8 {
        1int
    } else {
        0int
    };
    let line = line_rep(off, chunk);
    assert(line == prefix + hex_col(chunk, 0) + spaces(pad_width(16)) + " ".spec_bytes()
        + ascii_col(chunk) + "\n".spec_bytes());
    assert(hex_col(chunk, 0).len() == 49);
    assert(line[14 + p] == hex_col(chunk, 0)[p]);
    assert(line[14 + p + 1] == hex_col(chunk, 0)[p + 1]);
    assert(cell_pos(i) == 14 + p);
    lemma_hex_pair_round_trip(chunk[i]);
}

} // verus!
