//! The line reader: one line of a buffered byte source.

use crate::bytes::{find_byte, first_index, strip_cr, CR, LF};
use crate::error::Error;
use vstd::prelude::*;

verus! {

/// The line of `s` that starts at `pos`: its content, without the line feed
/// that ends it and without a carriage return before that, and the position
/// after the line feed. None where no line feed follows `pos`.
pub open spec fn next_line(s: Seq<u8>, pos: int) -> Option<(Seq<u8>, int)> {
    match first_index(s.subrange(pos, s.len() as int), LF) {
        Some(k) => Some((strip_cr(s.subrange(pos, pos + k)), pos + k + 1)),
        None => None,
    }
}

/// Reads the line of `input` that starts at `pos` into `line`, in place of
/// what `line` held, and returns the number of bytes it took, terminator
/// included.
pub fn read_line(input: &[u8], pos: usize, line: &mut Vec<u8>) -> (r: Result<usize, Error>)
    requires
        pos <= input@.len(),
    ensures
        match next_line(input@, pos as int) {
            Some((l, next)) => r == Ok::<usize, Error>((next - pos) as usize) && final(line)@ == l,
            None => r matches Err(Error::UnexpectedEof),
        },
        r matches Ok(n) ==> 0 < n && pos + n <= input@.len(),
{
    line.clear();
    match find_byte(input, pos, LF) {
        None => Err(Error::UnexpectedEof),
        Some(end) => {
            assert(pos <= end < input.len());
            let mut i: usize = pos;
            while i < end
                invariant
                    pos <= i <= end < input@.len(),
                    line@ == input@.subrange(pos as int, i as int),
                decreases end - i,
            {
                line.push(input[i]);
                i = i + 1;
            }
            assert(line@ == input@.subrange(pos as int, end as int));
            if line.len() > 0 && line[line.len() - 1] == CR {
                line.pop();
            }
            Ok(end - pos + 1)
        }
    }
}

} // verus!
