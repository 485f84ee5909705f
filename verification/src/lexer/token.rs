use vstd::prelude::*;
use crate::span::Span;

verus! {

/// Token kinds of the language.
#[derive(Debug, Clone, Copy, PartialEq, Eq, Structural)]
pub enum TokenType {
    Can,
    Cannot,
    Colon,
    Comma,
    DoubleColon,
    Effect,
    EndOfFile,
    False,
    Fun,
    Identifier,
    LeftBrace,
    LeftParen,
    Native,
    Not,
    RightBrace,
    RightParen,
    Semicolon,
    String,
    Test,
    True,
    Unexpected,
    Use,
}

/// Source text that is not part of any token: line breaks and comments.
#[derive(Debug, Clone, PartialEq, Eq)]
pub enum TriviaPiece {
    /// A run of line breaks (with the blanks between them); `count` line breaks.
    Newlines { count: usize, span: Span },
    /// A `//` comment up to, not including, the line break.
    LineComment { text: String, span: Span },
    /// A possibly nested `/* ... */` comment.
    BlockComment { text: String, span: Span },
}

/// Mathematical content of a [`TriviaPiece`].
pub enum TriviaView {
    Newlines { count: nat, span: Span },
    LineComment { text: Seq<char>, span: Span },
    BlockComment { text: Seq<char>, span: Span },
}

impl View for TriviaPiece {
    type V = TriviaView;

    open spec fn view(&self) -> TriviaView {
        match self {
            TriviaPiece::Newlines { count, span } => TriviaView::Newlines {
                count: *count as nat,
                span: *span,
            },
            TriviaPiece::LineComment { text, span } => TriviaView::LineComment {
                text: text@,
                span: *span,
            },
            TriviaPiece::BlockComment { text, span } => TriviaView::BlockComment {
                text: text@,
                span: *span,
            },
        }
    }
}

/// Views of a sequence of trivia pieces.
pub open spec fn trivia_views(pieces: Seq<TriviaPiece>) -> Seq<TriviaView> {
    pieces.map_values(|p: TriviaPiece| p@)
}

impl TriviaPiece {
    /// A copy of the piece.
    pub fn duplicate(&self) -> (copy: TriviaPiece)
        ensures
            copy@ == self@,
    {
        match self {
            TriviaPiece::Newlines { count, span } => TriviaPiece::Newlines { count: *count, span: *span },
            TriviaPiece::LineComment { text, span } => TriviaPiece::LineComment { text: text.clone(), span: *span },
            TriviaPiece::BlockComment { text, span } => TriviaPiece::BlockComment { text: text.clone(), span: *span },
        }
    }
}

/// A copy of each piece, in order.
pub fn duplicate_pieces(pieces: &Vec<TriviaPiece>) -> (copy: Vec<TriviaPiece>)
    ensures
        trivia_views(copy@) == trivia_views(pieces@),
{
    let mut copy: Vec<TriviaPiece> = Vec::new();
    let mut index: usize = 0;
    while index < pieces.len()
        invariant
            index <= pieces@.len(),
            trivia_views(copy@) == trivia_views(pieces@.take(index as int)),
        decreases pieces@.len() - index,
    {
        let ghost before = copy@;
        copy.push(pieces[index].duplicate());
        proof {
            assert(pieces@.take(index + 1) =~= pieces@.take(index as int).push(pieces@[index as int]));
            assert(trivia_views(copy@) =~= trivia_views(before).push(copy@.last()@));
            assert(trivia_views(pieces@.take(index + 1)) =~= trivia_views(pieces@.take(index as int)).push(pieces@[index as int]@));
        }
        index = index + 1;
    }
    assert(pieces@.take(index as int) =~= pieces@);
    copy
}

/// Trivia attached to a token or syntax node.
#[derive(Debug, Clone)]
pub struct Trivia {
    pub leading: Vec<TriviaPiece>,
    pub trailing: Vec<TriviaPiece>,
}

impl Trivia {
    /// Creates trivia from its leading and trailing pieces.
    pub fn new(leading: Vec<TriviaPiece>, trailing: Vec<TriviaPiece>) -> (trivia: Trivia)
        ensures
            trivia.leading@ == leading@,
            trivia.trailing@ == trailing@,
    {
        Trivia { leading, trailing }
    }

    /// Creates trivia without pieces.
    pub fn empty() -> (trivia: Trivia)
        ensures
            trivia.leading@.len() == 0,
            trivia.trailing@.len() == 0,
    {
        Trivia { leading: Vec::new(), trailing: Vec::new() }
    }
}

/// Lexical token with its source span and attached trivia.
#[derive(Debug, Clone)]
pub struct Token {
    pub token_type: TokenType,
    pub span: Span,
    pub leading_trivia: Trivia,
}

/// Mathematical content of a [`Token`].
pub struct TokenView {
    pub token_type: TokenType,
    pub span: Span,
    pub leading: Seq<TriviaView>,
    pub trailing: Seq<TriviaView>,
}

impl View for Token {
    type V = TokenView;

    open spec fn view(&self) -> TokenView {
        TokenView {
            token_type: self.token_type,
            span: self.span,
            leading: trivia_views(self.leading_trivia.leading@),
            trailing: trivia_views(self.leading_trivia.trailing@),
        }
    }
}

/// Views of a sequence of tokens.
pub open spec fn token_views(tokens: Seq<Token>) -> Seq<TokenView> {
    tokens.map_values(|t: Token| t@)
}

impl Token {
    /// Creates a token without trivia from its kind and byte offsets.
    pub fn new(token_type: TokenType, start: usize, end: usize) -> (token: Token)
        ensures
            token@ == (TokenView {
                token_type,
                span: Span { start, end },
                leading: Seq::empty(),
                trailing: Seq::empty(),
            }),
    {
        let token = Token { token_type, span: Span::new(start, end), leading_trivia: Trivia::empty() };
        assert(token@.leading =~= Seq::<TriviaView>::empty());
        assert(token@.trailing =~= Seq::<TriviaView>::empty());
        token
    }

    /// Creates a token with the given trivia.
    pub fn with_leading_trivia(token_type: TokenType, trivia: Trivia, start: usize, end: usize) -> (token: Token)
        ensures
            token@ == (TokenView {
                token_type,
                span: Span { start, end },
                leading: trivia_views(trivia.leading@),
                trailing: trivia_views(trivia.trailing@),
            }),
    {
        Token { token_type, span: Span::new(start, end), leading_trivia: trivia }
    }
}

} // verus!
