use vstd::prelude::*;
use vstd::utf8::*;
use vstd::string::StringSliceAdditionalSpecFns;

verus! {

/// A byte that does not continue a multi-byte UTF-8 sequence.
pub open spec fn is_ascii_byte(b: u8) -> bool {
    b < 0x80
}

/// In valid UTF-8, the position right after an ASCII byte starts a new character.
pub proof fn lemma_boundary_after_ascii(bytes: Seq<u8>, index: int)
    requires
        valid_utf8(bytes),
        0 < index <= bytes.len(),
        is_ascii_byte(bytes[index - 1]),
    ensures
        is_char_boundary(bytes, index),
    decreases bytes.len(),
{
    let first_len = length_of_first_scalar(bytes);
    let rest = pop_first_scalar(bytes);
    if index <= first_len {
        if index - 1 >= 1 {
            assert(is_continuation_byte(bytes[index - 1]));
        }
        assert(first_len == 1);
        assert(is_char_boundary(rest, 0));
    } else {
        assert(rest[index - first_len - 1] == bytes[index - 1]);
        lemma_boundary_after_ascii(rest, index - first_len);
    }
}

/// Both ends of a range that starts at an ASCII byte or after one, and ends at an
/// ASCII byte, after one or at the end, are character boundaries.
pub open spec fn ascii_edge(bytes: Seq<u8>, index: int) -> bool {
    ||| index == 0
    ||| index == bytes.len()
    ||| (0 <= index < bytes.len() && is_ascii_byte(bytes[index]))
    ||| (0 < index <= bytes.len() && is_ascii_byte(bytes[index - 1]))
}

pub proof fn lemma_ascii_edge_is_boundary(bytes: Seq<u8>, index: int)
    requires
        valid_utf8(bytes),
        0 <= index <= bytes.len(),
        ascii_edge(bytes, index),
    ensures
        is_char_boundary(bytes, index),
{
    if index == 0 {
        is_char_boundary_start_end_of_seq(bytes);
    } else if index == bytes.len() {
        is_char_boundary_start_end_of_seq(bytes);
    } else if is_ascii_byte(bytes[index]) {
        is_char_boundary_iff_not_is_continuation_byte(bytes, index);
    } else {
        lemma_boundary_after_ascii(bytes, index);
    }
}

/// Copies the characters of `source` whose UTF-8 encoding occupies bytes `[start, end)`.
pub fn substring(source: &str, start: usize, end: usize) -> (text: String)
    requires
        start <= end <= source.spec_bytes().len(),
        ascii_edge(source.spec_bytes(), start as int),
        ascii_edge(source.spec_bytes(), end as int),
    ensures
        encode_utf8(text@) == source.spec_bytes().subrange(start as int, end as int),
        text@ == decode_utf8(source.spec_bytes().subrange(start as int, end as int)),
{
    let ghost bytes = source.spec_bytes();
    proof {
        encode_utf8_valid_utf8(source@);
        lemma_ascii_edge_is_boundary(bytes, start as int);
        lemma_ascii_edge_is_boundary(bytes, end as int);
    }
    let (_, tail) = source.split_at(start);
    let ghost tail_bytes = tail.spec_bytes();
    proof {
        valid_utf8_split(bytes, start as int);
        assert(tail_bytes =~= bytes.subrange(start as int, bytes.len() as int));
        if end < bytes.len() && end > start {
            let k = (end - start) as int;
            assert(tail_bytes[k] == bytes[end as int]);
            assert(tail_bytes[k - 1] == bytes[end - 1]);
            if is_ascii_byte(bytes[end as int]) {
                is_char_boundary_iff_not_is_continuation_byte(tail_bytes, k);
            } else {
                lemma_boundary_after_ascii(tail_bytes, k);
            }
        } else if end == start {
            is_char_boundary_start_end_of_seq(tail_bytes);
        } else {
            is_char_boundary_start_end_of_seq(tail_bytes);
        }
    }
    let (middle, _) = tail.split_at(end - start);
    proof {
        encode_utf8_decode_utf8(middle@);
    }
    let text = middle.to_owned();
    assert(middle.spec_bytes() =~= bytes.subrange(start as int, end as int));
    proof {
        encode_utf8_decode_utf8(text@);
    }
    text
}


/// The characters of a string slice.
pub fn chars_of(text: &str) -> (chars: Vec<char>)
    ensures
        chars@ == text@,
{
    let length = text.unicode_len();
    let mut chars: Vec<char> = Vec::new();
    let mut index: usize = 0;
    while index < length
        invariant
            length == text@.len(),
            index <= length,
            chars@ == text@.subrange(0, index as int),
        decreases length - index,
    {
        chars.push(text.get_char(index));
        index = index + 1;
        assert(chars@ =~= text@.subrange(0, index as int));
    }
    assert(text@.subrange(0, length as int) =~= text@);
    chars
}

/// Returns whether two string slices hold the same characters.
pub fn same_text(left: &str, right: &str) -> (same: bool)
    ensures
        same == (left@ == right@),
{
    let left_chars = chars_of(left);
    let right_chars = chars_of(right);
    if left_chars.len() != right_chars.len() {
        return false;
    }
    let mut index: usize = 0;
    while index < left_chars.len()
        invariant
            left_chars@ == left@,
            right_chars@ == right@,
            left_chars@.len() == right_chars@.len(),
            index <= left_chars@.len(),
            forall|k: int| 0 <= k < index ==> left@[k] == right@[k],
        decreases left_chars@.len() - index,
    {
        if left_chars[index] != right_chars[index] {
            return false;
        }
        index = index + 1;
    }
    assert(left@ =~= right@);
    true
}

/// Concatenates string slices into a new string.
pub fn concat2(a: &str, b: &str) -> (text: String)
    ensures
        text@ == a@ + b@,
{
    let mut text = String::from_str(a);
    text.append(b);
    text
}

/// Concatenates string slices into a new string.
pub fn concat3(a: &str, b: &str, c: &str) -> (text: String)
    ensures
        text@ == a@ + b@ + c@,
{
    let mut text = String::from_str(a);
    text.append(b);
    text.append(c);
    text
}

/// Concatenates string slices into a new string.
pub fn concat5(a: &str, b: &str, c: &str, d: &str, e: &str) -> (text: String)
    ensures
        text@ == a@ + b@ + c@ + d@ + e@,
{
    let mut text = String::from_str(a);
    text.append(b);
    text.append(c);
    text.append(d);
    text.append(e);
    text
}

/// The decimal digit for `d` < 10.
pub open spec fn digit_char(d: nat) -> char {
    if d == 0 { '0' } else if d == 1 { '1' } else if d == 2 { '2' } else if d == 3 { '3' } else if d == 4 { '4' }
    else if d == 5 { '5' } else if d == 6 { '6' } else if d == 7 { '7' } else if d == 8 { '8' } else { '9' }
}

/// The decimal spelling of `n`.
pub open spec fn decimal_text(n: nat) -> Seq<char>
    decreases n,
{
    if n < 10 {
        seq![digit_char(n)]
    } else {
        decimal_text(n / 10) + seq![digit_char(n % 10)]
    }
}

fn digit_text(d: usize) -> (text: &'static str)
    requires
        d < 10,
    ensures
        text@ == seq![digit_char(d as nat)],
{
    proof {
        reveal_strlit("0");
        reveal_strlit("1");
        reveal_strlit("2");
        reveal_strlit("3");
        reveal_strlit("4");
        reveal_strlit("5");
        reveal_strlit("6");
        reveal_strlit("7");
        reveal_strlit("8");
        reveal_strlit("9");
    }
    if d == 0 { "0" } else if d == 1 { "1" } else if d == 2 { "2" } else if d == 3 { "3" } else if d == 4 { "4" }
    else if d == 5 { "5" } else if d == 6 { "6" } else if d == 7 { "7" } else if d == 8 { "8" } else { "9" }
}

/// The decimal spelling of `n`.
pub fn decimal_string(n: usize) -> (text: String)
    ensures
        text@ == decimal_text(n as nat),
    decreases n,
{
    if n < 10 {
        let text = String::from_str(digit_text(n));
        return text;
    }
    let mut text = decimal_string(n / 10);
    text.append(digit_text(n % 10));
    text
}

} // verus!
