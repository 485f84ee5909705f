use vstd::prelude::*;

verus! {

/// Byte offset of the first byte of the line that contains offset `index`:
/// just past the last `\n` before `index`, or 0.
pub open spec fn line_start_of(bytes: Seq<u8>, index: int) -> int
    decreases index,
{
    if index <= 0 {
        0
    } else if bytes[index - 1] == 10u8 {
        index
    } else {
        line_start_of(bytes, index - 1)
    }
}

/// Byte offset of the `\n` that ends the line containing offset `index`, or the
/// length of the text when the line is the last one.
pub open spec fn line_end_of(bytes: Seq<u8>, index: int) -> int
    decreases bytes.len() - index,
{
    if index >= bytes.len() {
        bytes.len() as int
    } else if bytes[index] == 10u8 {
        index
    } else {
        line_end_of(bytes, index + 1)
    }
}

/// Number of `\n` bytes among the first `n` bytes.
pub open spec fn count_newlines(bytes: Seq<u8>, n: int) -> nat
    decreases n,
{
    if n <= 0 {
        0
    } else {
        count_newlines(bytes, n - 1) + if bytes[n - 1] == 10u8 { 1nat } else { 0nat }
    }
}

/// One-based number of the line that contains offset `index`.
pub open spec fn line_number_of(bytes: Seq<u8>, index: int) -> nat {
    count_newlines(bytes, line_start_of(bytes, index)) + 1
}

pub proof fn lemma_line_start_bounds(bytes: Seq<u8>, index: int)
    requires
        0 <= index <= bytes.len(),
    ensures
        0 <= line_start_of(bytes, index) <= index,
        line_start_of(bytes, index) > 0 ==> bytes[line_start_of(bytes, index) - 1] == 10u8,
        forall|j: int| line_start_of(bytes, index) <= j < index ==> bytes[j] != 10u8,
    decreases index,
{
    if index > 0 && bytes[index - 1] != 10u8 {
        lemma_line_start_bounds(bytes, index - 1);
    }
}

pub proof fn lemma_line_end_bounds(bytes: Seq<u8>, index: int)
    requires
        0 <= index <= bytes.len(),
    ensures
        index <= line_end_of(bytes, index) <= bytes.len(),
        line_end_of(bytes, index) < bytes.len() ==> bytes[line_end_of(bytes, index)] == 10u8,
        forall|j: int| index <= j < line_end_of(bytes, index) ==> bytes[j] != 10u8,
    decreases bytes.len() - index,
{
    if index < bytes.len() && bytes[index] != 10u8 {
        lemma_line_end_bounds(bytes, index + 1);
    }
}

/// The line around one byte offset of a source text.
#[derive(Debug, Clone, Copy, PartialEq, Eq, Structural)]
pub struct LineBounds {
    pub line_start: usize,
    pub line_end: usize,
    pub line_number: usize,
}

impl LineBounds {
    /// Locates the line that contains byte offset `index` of `bytes`.
    pub fn from_bytes(bytes: &[u8], index: usize) -> (bounds: LineBounds)
        requires
            index <= bytes@.len(),
            bytes@.len() < usize::MAX,
        ensures
            bounds.line_start == line_start_of(bytes@, index as int),
            bounds.line_end == line_end_of(bytes@, index as int),
            bounds.line_number == line_number_of(bytes@, index as int),
            bounds.line_start <= index <= bounds.line_end <= bytes@.len(),
    {
        let mut line_start = index;
        while line_start > 0 && bytes[line_start - 1] != 10u8
            invariant
                line_start <= index <= bytes@.len(),
                line_start_of(bytes@, line_start as int) == line_start_of(bytes@, index as int),
            decreases line_start,
        {
            line_start = line_start - 1;
        }
        let mut line_end = index;
        while line_end < bytes.len() && bytes[line_end] != 10u8
            invariant
                index <= line_end <= bytes@.len(),
                line_end_of(bytes@, line_end as int) == line_end_of(bytes@, index as int),
            decreases bytes@.len() - line_end,
        {
            line_end = line_end + 1;
        }
        let mut count: usize = 0;
        let mut position: usize = 0;
        while position < line_start
            invariant
                position <= line_start <= bytes@.len(),
                count == count_newlines(bytes@, position as int),
                count <= position,
            decreases line_start - position,
        {
            if bytes[position] == 10u8 {
                count = count + 1;
            }
            position = position + 1;
        }
        LineBounds { line_start, line_end, line_number: count + 1 }
    }
}

} // verus!
