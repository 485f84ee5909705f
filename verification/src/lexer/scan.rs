use vstd::prelude::*;
use crate::lexer::token::TokenType;

verus! {

pub const LF: u8 = 10;
pub const CR: u8 = 13;
pub const TAB: u8 = 9;
pub const SPACE: u8 = 32;
pub const QUOTE: u8 = 34;
pub const LEFT_PAREN: u8 = 40;
pub const RIGHT_PAREN: u8 = 41;
pub const STAR: u8 = 42;
pub const COMMA: u8 = 44;
pub const SLASH: u8 = 47;
pub const COLON: u8 = 58;
pub const SEMICOLON: u8 = 59;
pub const UNDERSCORE: u8 = 95;
pub const LEFT_BRACE: u8 = 123;
pub const RIGHT_BRACE: u8 = 125;

pub open spec fn is_line_break(b: u8) -> bool {
    b == LF || b == CR
}

pub open spec fn is_blank(b: u8) -> bool {
    b == SPACE || b == TAB
}

pub open spec fn spec_is_identifier_start(b: u8) -> bool {
    (65 <= b <= 90) || (97 <= b <= 122) || b == UNDERSCORE
}

pub open spec fn spec_is_identifier_continue(b: u8) -> bool {
    spec_is_identifier_start(b) || (48 <= b <= 57)
}

/// Returns whether a byte may start an identifier: an ASCII letter or `_`.
pub fn is_identifier_start(byte: u8) -> (result: bool)
    ensures
        result == spec_is_identifier_start(byte),
{
    (byte >= 65 && byte <= 90) || (byte >= 97 && byte <= 122) || byte == UNDERSCORE
}

/// Returns whether a byte may continue an identifier: an identifier start or an ASCII digit.
pub fn is_identifier_continue(byte: u8) -> (result: bool)
    ensures
        result == spec_is_identifier_continue(byte),
{
    is_identifier_start(byte) || (byte >= 48 && byte <= 57)
}

/// Scans a run of line breaks starting at `i`, skipping blanks between them.
/// Returns the offset after the run and the number of line breaks; `\r\n` counts once.
pub open spec fn newline_run(b: Seq<u8>, i: int) -> (int, nat)
    decreases b.len() - i,
{
    if i < 0 || i >= b.len() {
        (i, 0)
    } else if b[i] == LF {
        let r = newline_run(b, i + 1);
        (r.0, r.1 + 1)
    } else if b[i] == CR {
        let j = if i + 1 < b.len() && b[i + 1] == LF { i + 2 } else { i + 1 };
        let r = newline_run(b, j);
        (r.0, r.1 + 1)
    } else if is_blank(b[i]) {
        newline_run(b, i + 1)
    } else {
        (i, 0)
    }
}

pub proof fn lemma_newline_run(b: Seq<u8>, i: int)
    requires
        0 <= i <= b.len(),
    ensures
        i <= newline_run(b, i).0 <= b.len(),
        newline_run(b, i).1 <= newline_run(b, i).0 - i,
        i < b.len() && is_line_break(b[i]) ==> i < newline_run(b, i).0,
        newline_run(b, i).0 < b.len() ==> !is_line_break(b[newline_run(b, i).0]) && !is_blank(
            b[newline_run(b, i).0],
        ),
        newline_run(b, i).0 > i ==> (is_line_break(b[newline_run(b, i).0 - 1]) || is_blank(
            b[newline_run(b, i).0 - 1],
        )),
    decreases b.len() - i,
{
    if i < b.len() {
        if b[i] == LF || is_blank(b[i]) {
            lemma_newline_run(b, i + 1);
        } else if b[i] == CR {
            let j = if i + 1 < b.len() && b[i + 1] == LF { i + 2 } else { i + 1 };
            lemma_newline_run(b, j);
        }
    }
}

/// Offset of the first line break at or after `i`, or the length.
pub open spec fn line_comment_end(b: Seq<u8>, i: int) -> int
    decreases b.len() - i,
{
    if i < 0 || i >= b.len() {
        b.len() as int
    } else if is_line_break(b[i]) {
        i
    } else {
        line_comment_end(b, i + 1)
    }
}

pub proof fn lemma_line_comment_end(b: Seq<u8>, i: int)
    requires
        0 <= i <= b.len(),
    ensures
        i <= line_comment_end(b, i) <= b.len(),
        line_comment_end(b, i) < b.len() ==> is_line_break(b[line_comment_end(b, i)]),
    decreases b.len() - i,
{
    if i < b.len() && !is_line_break(b[i]) {
        lemma_line_comment_end(b, i + 1);
    }
}

/// Offset just past the `*/` that closes a block comment nested `depth` levels deep
/// when scanning from `i`; `None` when the text ends first.
pub open spec fn block_comment_close(b: Seq<u8>, i: int, depth: nat) -> Option<int>
    decreases b.len() - i,
{
    if i < 0 || i >= b.len() {
        None
    } else if i + 1 < b.len() && b[i] == SLASH && b[i + 1] == STAR {
        block_comment_close(b, i + 2, depth + 1)
    } else if i + 1 < b.len() && b[i] == STAR && b[i + 1] == SLASH {
        if depth <= 1 {
            Some(i + 2)
        } else {
            block_comment_close(b, i + 2, (depth - 1) as nat)
        }
    } else {
        block_comment_close(b, i + 1, depth)
    }
}

pub proof fn lemma_block_comment_close(b: Seq<u8>, i: int, depth: nat)
    requires
        0 <= i <= b.len(),
    ensures
        block_comment_close(b, i, depth) matches Some(e) ==> i + 2 <= e <= b.len() && b[e - 1]
            == SLASH,
    decreases b.len() - i,
{
    if i < b.len() {
        if i + 1 < b.len() && b[i] == SLASH && b[i + 1] == STAR {
            lemma_block_comment_close(b, i + 2, depth + 1);
        } else if i + 1 < b.len() && b[i] == STAR && b[i + 1] == SLASH {
            if depth > 1 {
                lemma_block_comment_close(b, i + 2, (depth - 1) as nat);
            }
        } else {
            lemma_block_comment_close(b, i + 1, depth);
        }
    }
}

/// Offset of the byte that ends a string literal whose body starts at `i`:
/// the first quote or line break, or the length.
pub open spec fn string_body_end(b: Seq<u8>, i: int) -> int
    decreases b.len() - i,
{
    if i < 0 || i >= b.len() {
        b.len() as int
    } else if b[i] == QUOTE || is_line_break(b[i]) {
        i
    } else {
        string_body_end(b, i + 1)
    }
}

pub proof fn lemma_string_body_end(b: Seq<u8>, i: int)
    requires
        0 <= i <= b.len(),
    ensures
        i <= string_body_end(b, i) <= b.len(),
        string_body_end(b, i) < b.len() ==> (b[string_body_end(b, i)] == QUOTE || is_line_break(
            b[string_body_end(b, i)],
        )),
    decreases b.len() - i,
{
    if i < b.len() && !(b[i] == QUOTE || is_line_break(b[i])) {
        lemma_string_body_end(b, i + 1);
    }
}

/// Offset just past the identifier characters that start at `i`.
pub open spec fn identifier_end(b: Seq<u8>, i: int) -> int
    decreases b.len() - i,
{
    if i < 0 || i >= b.len() {
        b.len() as int
    } else if spec_is_identifier_continue(b[i]) {
        identifier_end(b, i + 1)
    } else {
        i
    }
}

pub proof fn lemma_identifier_end(b: Seq<u8>, i: int)
    requires
        0 <= i <= b.len(),
    ensures
        i <= identifier_end(b, i) <= b.len(),
        identifier_end(b, i) < b.len() ==> !spec_is_identifier_continue(b[identifier_end(b, i)]),
        forall|k: int| i <= k < identifier_end(b, i) ==> spec_is_identifier_continue(#[trigger] b[k]),
    decreases b.len() - i,
{
    if i < b.len() && spec_is_identifier_continue(b[i]) {
        lemma_identifier_end(b, i + 1);
    }
}

/// The token kind of an identifier-shaped word: a keyword kind or `Identifier`.
pub open spec fn keyword_type(w: Seq<u8>) -> TokenType {
    if w == seq![99u8, 97u8, 110u8] {
        TokenType::Can
    } else if w == seq![99u8, 97u8, 110u8, 110u8, 111u8, 116u8] {
        TokenType::Cannot
    } else if w == seq![101u8, 102u8, 102u8, 101u8, 99u8, 116u8] {
        TokenType::Effect
    } else if w == seq![102u8, 97u8, 108u8, 115u8, 101u8] {
        TokenType::False
    } else if w == seq![102u8, 117u8, 110u8] {
        TokenType::Fun
    } else if w == seq![110u8, 97u8, 116u8, 105u8, 118u8, 101u8] {
        TokenType::Native
    } else if w == seq![110u8, 111u8, 116u8] {
        TokenType::Not
    } else if w == seq![116u8, 101u8, 115u8, 116u8] {
        TokenType::Test
    } else if w == seq![116u8, 114u8, 117u8, 101u8] {
        TokenType::True
    } else if w == seq![117u8, 115u8, 101u8] {
        TokenType::Use
    } else {
        TokenType::Identifier
    }
}

/// The kind and width of the punctuation or unexpected token at `i`.
pub open spec fn punctuation(b: Seq<u8>, i: int) -> (TokenType, int) {
    let c = b[i];
    if c == LEFT_PAREN {
        (TokenType::LeftParen, 1)
    } else if c == COMMA {
        (TokenType::Comma, 1)
    } else if c == COLON && i + 1 < b.len() && b[i + 1] == COLON {
        (TokenType::DoubleColon, 2)
    } else if c == COLON {
        (TokenType::Colon, 1)
    } else if c == RIGHT_PAREN {
        (TokenType::RightParen, 1)
    } else if c == LEFT_BRACE {
        (TokenType::LeftBrace, 1)
    } else if c == RIGHT_BRACE {
        (TokenType::RightBrace, 1)
    } else if c == SEMICOLON {
        (TokenType::Semicolon, 1)
    } else {
        (TokenType::Unexpected, 1)
    }
}

/// Consumes a run of line breaks at `*index` and returns how many there were.
pub fn consume_newlines(bytes: &[u8], index: &mut usize) -> (count: usize)
    requires
        *old(index) <= bytes@.len(),
    ensures
        (*final(index) as int, count as nat) == newline_run(bytes@, *old(index) as int),
{
    let ghost b = bytes@;
    let ghost start = *index as int;
    let mut count: usize = 0;
    while *index < bytes.len() && (bytes[*index] == LF || bytes[*index] == CR || bytes[*index]
        == SPACE || bytes[*index] == TAB)
        invariant
            start <= *index <= b.len(),
            b == bytes@,
            count <= *index - start,
            newline_run(b, start) == (newline_run(b, *index as int).0, newline_run(
                b,
                *index as int,
            ).1 + count as nat),
        decreases b.len() - *index,
    {
        let byte = bytes[*index];
        if byte == LF {
            count = count + 1;
            *index = *index + 1;
        } else if byte == CR {
            count = count + 1;
            *index = *index + 1;
            if *index < bytes.len() && bytes[*index] == LF {
                *index = *index + 1;
            }
        } else {
            *index = *index + 1;
        }
    }
    count
}

/// Scans a line comment body from `start` to the next line break or the end.
pub fn scan_line_comment_end(bytes: &[u8], start: usize) -> (end: usize)
    requires
        start <= bytes@.len(),
    ensures
        end == line_comment_end(bytes@, start as int),
{
    let mut index = start;
    while index < bytes.len() && bytes[index] != LF && bytes[index] != CR
        invariant
            start <= index <= bytes@.len(),
            line_comment_end(bytes@, index as int) == line_comment_end(bytes@, start as int),
        decreases bytes@.len() - index,
    {
        index = index + 1;
    }
    index
}

/// Scans a (possibly nested) block comment whose opening `/*` is at `start`.
/// Returns the offset after the matching `*/`, or `None` when the text ends first.
pub fn scan_block_comment(bytes: &[u8], start: usize) -> (end: Option<usize>)
    requires
        start + 2 <= bytes@.len(),
    ensures
        match end {
            Some(e) => block_comment_close(bytes@, start + 2, 1) == Some(e as int),
            None => block_comment_close(bytes@, start + 2, 1) is None,
        },
{
    let ghost b = bytes@;
    let length = bytes.len();
    let mut index = start + 2;
    let mut depth: usize = 1;
    while index < bytes.len()
        invariant
            start + 2 <= index <= b.len(),
            b == bytes@,
            1 <= depth <= index,
            block_comment_close(b, index as int, depth as nat) == block_comment_close(
                b,
                start + 2,
                1,
            ),
        decreases b.len() - index,
    {
        if index + 1 < bytes.len() && bytes[index] == SLASH && bytes[index + 1] == STAR {
            depth = depth + 1;
            index = index + 2;
            continue;
        }
        if index + 1 < bytes.len() && bytes[index] == STAR && bytes[index + 1] == SLASH {
            depth = depth - 1;
            index = index + 2;
            if depth == 0 {
                return Some(index);
            }
            continue;
        }
        index = index + 1;
    }
    None
}

/// Scans a string literal body from `start` to its closing quote or a line break.
pub fn scan_string_body_end(bytes: &[u8], start: usize) -> (end: usize)
    requires
        start <= bytes@.len(),
    ensures
        end == string_body_end(bytes@, start as int),
{
    let mut index = start;
    while index < bytes.len() && bytes[index] != QUOTE && bytes[index] != LF && bytes[index] != CR
        invariant
            start <= index <= bytes@.len(),
            string_body_end(bytes@, index as int) == string_body_end(bytes@, start as int),
        decreases bytes@.len() - index,
    {
        index = index + 1;
    }
    index
}

/// Scans identifier characters from `start`.
pub fn scan_identifier_end(bytes: &[u8], start: usize) -> (end: usize)
    requires
        start <= bytes@.len(),
    ensures
        end == identifier_end(bytes@, start as int),
{
    let mut index = start;
    while index < bytes.len() && is_identifier_continue(bytes[index])
        invariant
            start <= index <= bytes@.len(),
            identifier_end(bytes@, index as int) == identifier_end(bytes@, start as int),
        decreases bytes@.len() - index,
    {
        index = index + 1;
    }
    index
}

fn word_is3(b: &[u8], s: usize, e: usize, c0: u8, c1: u8, c2: u8) -> (r: bool)
    requires
        s <= e <= b@.len(),
    ensures
        r == (b@.subrange(s as int, e as int) == seq![c0, c1, c2]),
{
    let r = e - s == 3 && b[s] == c0 && b[s + 1] == c1 && b[s + 2] == c2;
    proof {
        let w = b@.subrange(s as int, e as int);
        let lit = seq![c0, c1, c2];
        assert(lit.len() == 3);
            assert(lit[0] == c0);
            assert(lit[1] == c1);
            assert(lit[2] == c2);
        if r {
            assert(w =~= lit);
        } else if w == lit {
            assert(w.len() == 3);
            assert(forall|k: int| 0 <= k < 3 ==> w[k] == b@[s + k]);
        }
    }
    r
}

fn word_is4(b: &[u8], s: usize, e: usize, c0: u8, c1: u8, c2: u8, c3: u8) -> (r: bool)
    requires
        s <= e <= b@.len(),
    ensures
        r == (b@.subrange(s as int, e as int) == seq![c0, c1, c2, c3]),
{
    let r = e - s == 4 && b[s] == c0 && b[s + 1] == c1 && b[s + 2] == c2 && b[s + 3] == c3;
    proof {
        let w = b@.subrange(s as int, e as int);
        let lit = seq![c0, c1, c2, c3];
        assert(lit.len() == 4);
            assert(lit[0] == c0);
            assert(lit[1] == c1);
            assert(lit[2] == c2);
            assert(lit[3] == c3);
        if r {
            assert(w =~= lit);
        } else if w == lit {
            assert(w.len() == 4);
            assert(forall|k: int| 0 <= k < 4 ==> w[k] == b@[s + k]);
        }
    }
    r
}

fn word_is5(b: &[u8], s: usize, e: usize, c0: u8, c1: u8, c2: u8, c3: u8, c4: u8) -> (r: bool)
    requires
        s <= e <= b@.len(),
    ensures
        r == (b@.subrange(s as int, e as int) == seq![c0, c1, c2, c3, c4]),
{
    let r = e - s == 5 && b[s] == c0 && b[s + 1] == c1 && b[s + 2] == c2 && b[s + 3] == c3 && b[s + 4] == c4;
    proof {
        let w = b@.subrange(s as int, e as int);
        let lit = seq![c0, c1, c2, c3, c4];
        assert(lit.len() == 5);
            assert(lit[0] == c0);
            assert(lit[1] == c1);
            assert(lit[2] == c2);
            assert(lit[3] == c3);
            assert(lit[4] == c4);
        if r {
            assert(w =~= lit);
        } else if w == lit {
            assert(w.len() == 5);
            assert(forall|k: int| 0 <= k < 5 ==> w[k] == b@[s + k]);
        }
    }
    r
}

fn word_is6(b: &[u8], s: usize, e: usize, c0: u8, c1: u8, c2: u8, c3: u8, c4: u8, c5: u8) -> (r: bool)
    requires
        s <= e <= b@.len(),
    ensures
        r == (b@.subrange(s as int, e as int) == seq![c0, c1, c2, c3, c4, c5]),
{
    let r = e - s == 6 && b[s] == c0 && b[s + 1] == c1 && b[s + 2] == c2 && b[s + 3] == c3 && b[s + 4] == c4 && b[s + 5] == c5;
    proof {
        let w = b@.subrange(s as int, e as int);
        let lit = seq![c0, c1, c2, c3, c4, c5];
        assert(lit.len() == 6);
            assert(lit[0] == c0);
            assert(lit[1] == c1);
            assert(lit[2] == c2);
            assert(lit[3] == c3);
            assert(lit[4] == c4);
            assert(lit[5] == c5);
        if r {
            assert(w =~= lit);
        } else if w == lit {
            assert(w.len() == 6);
            assert(forall|k: int| 0 <= k < 6 ==> w[k] == b@[s + k]);
        }
    }
    r
}

/// Classifies the word `bytes[start..end]` as a keyword or an identifier.
pub fn keyword_token_type(bytes: &[u8], start: usize, end: usize) -> (token_type: TokenType)
    requires
        start <= end <= bytes@.len(),
    ensures
        token_type == keyword_type(bytes@.subrange(start as int, end as int)),
{
    if word_is3(bytes, start, end, 99, 97, 110) {
        TokenType::Can
    } else if word_is6(bytes, start, end, 99, 97, 110, 110, 111, 116) {
        TokenType::Cannot
    } else if word_is6(bytes, start, end, 101, 102, 102, 101, 99, 116) {
        TokenType::Effect
    } else if word_is5(bytes, start, end, 102, 97, 108, 115, 101) {
        TokenType::False
    } else if word_is3(bytes, start, end, 102, 117, 110) {
        TokenType::Fun
    } else if word_is6(bytes, start, end, 110, 97, 116, 105, 118, 101) {
        TokenType::Native
    } else if word_is3(bytes, start, end, 110, 111, 116) {
        TokenType::Not
    } else if word_is4(bytes, start, end, 116, 101, 115, 116) {
        TokenType::Test
    } else if word_is4(bytes, start, end, 116, 114, 117, 101) {
        TokenType::True
    } else if word_is3(bytes, start, end, 117, 115, 101) {
        TokenType::Use
    } else {
        TokenType::Identifier
    }
}

/// Classifies the punctuation (or unexpected) token at `index`, returning its kind and width.
pub fn punctuation_token(bytes: &[u8], index: usize) -> (result: (TokenType, usize))
    requires
        index < bytes@.len(),
    ensures
        (result.0, result.1 as int) == punctuation(bytes@, index as int),
{
    let c = bytes[index];
    if c == LEFT_PAREN {
        (TokenType::LeftParen, 1)
    } else if c == COMMA {
        (TokenType::Comma, 1)
    } else if c == COLON && index + 1 < bytes.len() && bytes[index + 1] == COLON {
        (TokenType::DoubleColon, 2)
    } else if c == COLON {
        (TokenType::Colon, 1)
    } else if c == RIGHT_PAREN {
        (TokenType::RightParen, 1)
    } else if c == LEFT_BRACE {
        (TokenType::LeftBrace, 1)
    } else if c == RIGHT_BRACE {
        (TokenType::RightBrace, 1)
    } else if c == SEMICOLON {
        (TokenType::Semicolon, 1)
    } else {
        (TokenType::Unexpected, 1)
    }
}

} // verus!
