//! Positions in a source text.

use crate::strings;
use crate::text;
use vstd::prelude::*;

verus! {

/// The number of line feeds in `bytes`.
pub open spec fn line_feeds(bytes: Seq<u8>) -> nat
    decreases bytes.len(),
{
    if bytes.len() == 0 {
        0
    } else if bytes.last() == 0x0a {
        line_feeds(bytes.drop_last()) + 1
    } else {
        line_feeds(bytes.drop_last())
    }
}

/// The number, from one on, of the line at the byte `offset` of `source`, be it
/// inside a character or not; past the end it is that of the end. Numbers wrap
/// around at 32 bits.
pub open spec fn line_number(source: Seq<char>, offset: int) -> u32 {
    let bytes = vstd::utf8::encode_utf8(source);
    let end = if offset < bytes.len() {
        offset
    } else {
        bytes.len() as int
    };
    ((line_feeds(bytes.take(end)) + 1) % 0x1_0000_0000) as u32
}

/// The byte offset that line `k` has if each line before it is followed by one
/// byte.
pub open spec fn line_offset(lines: Seq<Seq<char>>, k: int) -> nat
    decreases k,
{
    if k <= 0 {
        0
    } else {
        line_offset(lines, k - 1) + vstd::utf8::encode_utf8(lines[k - 1]).len() + 1
    }
}

/// `x`, or the largest `usize` where `x` is larger.
pub open spec fn capped(x: nat) -> usize {
    if x <= usize::MAX {
        x as usize
    } else {
        usize::MAX
    }
}

/// The number of the line at the byte `offset` of `source`.
pub fn line_number_for_offset(source: &str, offset: usize) -> (r: u32)
    ensures
        r == line_number(source@, offset as int),
        forall|x: nat| offset == #[trigger] capped(x) ==> r == line_number(source@, x as int),
{
    let bytes = source.as_bytes();
    let n: usize = bytes.len();
    let end: usize = if offset < n {
        offset
    } else {
        n
    };
    let mut line: u32 = 1;
    let mut i: usize = 0;
    while i < end
        invariant
            i <= end,
            end <= bytes@.len(),
            line == (line_feeds(bytes@.take(i as int)) + 1) % 0x1_0000_0000,
        decreases end - i,
    {
        assert(bytes@.take(i + 1).drop_last() == bytes@.take(i as int));
        assert(bytes@.take(i + 1).last() == bytes@[i as int]);
        if bytes[i] == 0x0a {
            line = line.wrapping_add(1);
        }
        i = i + 1;
    }
    line
}

/// The offset of the line behind `line`, which begins at `offset`.
pub(crate) fn next_offset(offset: usize, line: &str, Ghost(x): Ghost<nat>) -> (r: usize)
    requires
        offset == capped(x),
    ensures
        r == capped((x + vstd::utf8::encode_utf8(line@).len() + 1) as nat),
{
    let n: usize = line.as_bytes().len();
    match offset.checked_add(n) {
        Some(end) => match end.checked_add(1) {
            Some(r) => r,
            None => usize::MAX,
        },
        None => usize::MAX,
    }
}

} // verus!
