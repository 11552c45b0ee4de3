use vstd::prelude::*;
use crate::textfmt::{hex2, hex4_text, push_char, push_hex2, push_hex4};

verus! {

/// Bytes shown per line.
pub const BYTES_PER_LINE: usize = 16;

/// The ASCII column shows graphic characters and space as themselves, anything else as `.`.
pub open spec fn ascii_cell(b: u8) -> char {
    if 0x20 <= b <= 0x7e {
        b as char
    } else {
        '.'
    }
}

/// Hex column `i` of a line holding `chunk`: an extra space before column 8,
/// then the byte and a space, or three spaces past the end of the chunk.
pub open spec fn hex_cell(chunk: Seq<u8>, i: int) -> Seq<char> {
    (if i == 8 {
        seq![' ']
    } else {
        Seq::<char>::empty()
    }) + (if i < chunk.len() {
        hex2(chunk[i]) + seq![' ']
    } else {
        seq![' ', ' ', ' ']
    })
}

/// Hex columns `0..n` of a line holding `chunk`.
pub open spec fn hex_cells(chunk: Seq<u8>, n: int) -> Seq<char>
    decreases n,
{
    if n <= 0 {
        Seq::empty()
    } else {
        hex_cells(chunk, n - 1) + hex_cell(chunk, n - 1)
    }
}

/// One line of the dump: `  OFFSET  HEX COLUMNS (8+8)  ASCII` and a newline.
pub open spec fn hexdump_line(chunk: Seq<u8>, offset: nat) -> Seq<char> {
    seq![' ', ' '] + hex4_text(offset) + seq![' ', ' '] + hex_cells(chunk, BYTES_PER_LINE as int) + seq![' ']
        + chunk.map_values(|b: u8| ascii_cell(b)) + seq!['\n']
}

/// The dump of `data` from byte `start` on, one line per 16 bytes.
pub open spec fn hexdump_from(data: Seq<u8>, start: int) -> Seq<char>
    decreases data.len() - start,
{
    if start < 0 || start >= data.len() {
        Seq::empty()
    } else {
        let end = if start + 16 < data.len() { start + 16 } else { data.len() as int };
        hexdump_line(data.subrange(start, end), start as nat) + hexdump_from(data, end)
    }
}

/// Formats a raw byte slice into a Wireshark/hexdump-style two-column output.
///
/// Output format per line (16 bytes per row):
///   OFFSET  HEX COLUMNS (8+8)  ASCII
///   0000  45 00 00 3c 1c 46 40 00  40 06 b1 e6 c0 a8 01 0a  E..<.F@.@.......
pub fn hexdump(data: &[u8]) -> (out: String)
    ensures
        out@ == hexdump_from(data@, 0),
{
    let mut output = String::new();
    let mut offset: usize = 0;
    while offset < data.len()
        invariant
            offset <= data@.len(),
            output@ + hexdump_from(data@, offset as int) == hexdump_from(data@, 0),
        decreases data@.len() - offset,
    {
        let end = if data.len() - offset > BYTES_PER_LINE { offset + BYTES_PER_LINE } else { data.len() };
        let chunk = &data[offset..end];
        let ghost line_start = output@;
        push_char(&mut output, ' ');
        push_char(&mut output, ' ');
        push_hex4(&mut output, offset as u64);
        push_char(&mut output, ' ');
        push_char(&mut output, ' ');
        let ghost cells_start = output@;
        let mut i: usize = 0;
        while i < BYTES_PER_LINE
            invariant
                i <= BYTES_PER_LINE,
                chunk@.len() <= BYTES_PER_LINE,
                output@ == cells_start + hex_cells(chunk@, i as int),
            decreases BYTES_PER_LINE - i,
        {
            if i == 8 {
                push_char(&mut output, ' ');
            }
            if i < chunk.len() {
                push_hex2(&mut output, chunk[i]);
                push_char(&mut output, ' ');
            } else {
                push_char(&mut output, ' ');
                push_char(&mut output, ' ');
                push_char(&mut output, ' ');
            }
            i = i + 1;
            assert(output@ =~= cells_start + hex_cells(chunk@, i as int));
        }
        push_char(&mut output, ' ');
        let ghost ascii_start = output@;
        let mut j: usize = 0;
        while j < chunk.len()
            invariant
                j <= chunk@.len(),
                output@ == ascii_start + chunk@.subrange(0, j as int).map_values(|b: u8| ascii_cell(b)),
            decreases chunk@.len() - j,
        {
            let b = chunk[j];
            if 0x20 <= b && b <= 0x7e {
                push_char(&mut output, b as char);
            } else {
                push_char(&mut output, '.');
            }
            j = j + 1;
            assert(output@ =~= ascii_start + chunk@.subrange(0, j as int).map_values(|b: u8| ascii_cell(b)));
        }
        push_char(&mut output, '\n');
        proof {
            assert(chunk@.subrange(0, chunk@.len() as int) =~= chunk@);
            assert(chunk@ == data@.subrange(offset as int, end as int));
            assert(output@ =~= line_start + hexdump_line(chunk@, offset as nat));
        }
        offset = end;
    }
    output
}

} // verus!
