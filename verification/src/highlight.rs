//! Lexer-level syntax highlighting.
use vstd::prelude::*;

use crate::diagnostic::{diagnostic_views, Diagnostic, DiagnosticView};
use crate::lexer::{lex_source, lexed_diagnostics, lexed_tokens, token_views, Token, TokenKind, TokenView};
use crate::source::{SourceFile, TextRange};

verus! {

/// Result produced by a syntax highlighting pass.
#[derive(Clone, Debug, PartialEq, Eq)]
pub struct HighlightResult {
    /// Stable syntax highlight tokens, excluding whitespace and EOF.
    pub tokens: Vec<HighlightToken>,
    /// Lexical diagnostics produced while scanning.
    pub diagnostics: Vec<Diagnostic>,
}

/// One syntax highlight token with its source byte range.
#[derive(Clone, Copy, Debug, PartialEq, Eq, Structural)]
pub struct HighlightToken {
    /// Syntax-level highlight classification.
    pub kind: HighlightKind,
    /// Half-open byte range in the source file.
    pub range: TextRange,
}

/// Stable syntax-level highlight kinds shared by editor integrations.
#[derive(Clone, Copy, Debug, PartialEq, Eq, Structural)]
pub enum HighlightKind {
    /// Language keyword.
    Keyword,
    /// Identifier without semantic classification.
    Identifier,
    /// Line or block comment.
    Comment,
    /// String literal.
    String,
    /// Numeric literal.
    Number,
    /// Boolean literal.
    Boolean,
    /// Operator token.
    Operator,
    /// Delimiter or separator punctuation.
    Punctuation,
    /// Invalid or incomplete source text.
    Error,
}

/// Highlight class of a token kind; whitespace and EOF have none.
pub open spec fn highlight_kind_of(kind: TokenKind) -> Option<HighlightKind> {
    match kind {
        TokenKind::Whitespace | TokenKind::Eof => None,
        TokenKind::LineComment | TokenKind::BlockComment => Some(HighlightKind::Comment),
        TokenKind::Keyword(_) => Some(HighlightKind::Keyword),
        TokenKind::Identifier => Some(HighlightKind::Identifier),
        TokenKind::IntegerLiteral => Some(HighlightKind::Number),
        TokenKind::BoolLiteral => Some(HighlightKind::Boolean),
        TokenKind::StringLiteral => Some(HighlightKind::String),
        TokenKind::Error => Some(HighlightKind::Error),
        TokenKind::Arrow | TokenKind::FatArrow | TokenKind::Less | TokenKind::Greater
        | TokenKind::Question | TokenKind::Equal | TokenKind::Plus | TokenKind::Minus
        | TokenKind::Star | TokenKind::Slash => Some(HighlightKind::Operator),
        _ => Some(HighlightKind::Punctuation),
    }
}

/// Highlight tokens for a token stream: every token with a highlight class, in order.
pub open spec fn highlight_of(toks: Seq<TokenView>) -> Seq<HighlightToken>
    decreases toks.len(),
{
    if toks.len() == 0 {
        Seq::empty()
    } else {
        highlight_of(toks.drop_last()) + match highlight_kind_of(toks.last().kind) {
            Some(k) => seq![HighlightToken { kind: k, range: toks.last().range }],
            None => Seq::empty(),
        }
    }
}

/// Highlights one source file using lexer-level token classifications.
pub fn highlight_source(source: &SourceFile) -> (r: HighlightResult)
    ensures
        r.tokens@ == highlight_of(lexed_tokens(source@.text)),
        diagnostic_views(r.diagnostics@) == lexed_diagnostics(*source),
{
    let lex_result = lex_source(source);
    let tokens = highlight_tokens_from_lex_tokens(&lex_result.tokens);
    HighlightResult { tokens, diagnostics: lex_result.diagnostics }
}

/// Highlight tokens for a lexer token stream.
pub fn highlight_tokens_from_lex_tokens(tokens: &Vec<Token>) -> (r: Vec<HighlightToken>)
    ensures
        r@ == highlight_of(token_views(tokens@)),
{
    let ghost views = token_views(tokens@);
    let mut out: Vec<HighlightToken> = Vec::new();
    let mut i: usize = 0;
    proof {
        assert(views.take(0) =~= Seq::<TokenView>::empty());
    }
    while i < tokens.len()
        invariant
            i <= tokens.len(),
            views == token_views(tokens@),
            views.len() == tokens.len(),
            out@ == highlight_of(views.take(i as int)),
        decreases tokens.len() - i,
    {
        let token = &tokens[i];
        let ghost before = out@;
        match highlight_kind_for_token(token.kind) {
            Some(kind) => {
                out.push(HighlightToken { kind, range: token.range });
            },
            None => {},
        }
        i = i + 1;
        proof {
            let t = views.take(i as int);
            assert(t.drop_last() =~= views.take(i - 1));
            assert(t.last() == tokens@[i - 1]@);
            assert(out@ =~= highlight_of(t));
        }
    }
    proof {
        assert(views.take(tokens.len() as int) =~= views);
    }
    out
}

/// Whether a token kind is an operator.
pub open spec fn is_operator_token(kind: TokenKind) -> bool {
    ||| kind is Arrow
    ||| kind is FatArrow
    ||| kind is Less
    ||| kind is Greater
    ||| kind is Question
    ||| kind is Equal
    ||| kind is Plus
    ||| kind is Minus
    ||| kind is Star
    ||| kind is Slash
}

/// Whether a token kind is a delimiter or separator.
pub open spec fn is_punctuation_token(kind: TokenKind) -> bool {
    ||| kind is LeftParen
    ||| kind is RightParen
    ||| kind is LeftBrace
    ||| kind is RightBrace
    ||| kind is LeftBracket
    ||| kind is RightBracket
    ||| kind is Comma
    ||| kind is Colon
    ||| kind is Semicolon
    ||| kind is Dot
}

/// Each highlight class is given to exactly its own tokens: comments, and only comments, are
/// comments; identifiers, and only identifiers, are identifiers; and so on for every class,
/// while whitespace and the end of input get no highlight token at all.
pub proof fn lemma_highlight_classes(kind: TokenKind)
    ensures
        highlight_kind_of(kind) is None <==> (kind is Whitespace || kind is Eof),
        highlight_kind_of(kind) == Some(HighlightKind::Comment) <==> (kind is LineComment || kind is BlockComment),
        highlight_kind_of(kind) == Some(HighlightKind::Keyword) <==> kind is Keyword,
        highlight_kind_of(kind) == Some(HighlightKind::Identifier) <==> kind is Identifier,
        highlight_kind_of(kind) == Some(HighlightKind::Number) <==> kind is IntegerLiteral,
        highlight_kind_of(kind) == Some(HighlightKind::Boolean) <==> kind is BoolLiteral,
        highlight_kind_of(kind) == Some(HighlightKind::String) <==> kind is StringLiteral,
        highlight_kind_of(kind) == Some(HighlightKind::Error) <==> kind is Error,
        highlight_kind_of(kind) == Some(HighlightKind::Operator) <==> is_operator_token(kind),
        highlight_kind_of(kind) == Some(HighlightKind::Punctuation) <==> is_punctuation_token(kind),
{
}

fn highlight_kind_for_token(kind: TokenKind) -> (r: Option<HighlightKind>)
    ensures
        r == highlight_kind_of(kind),
        r is None <==> (kind is Whitespace || kind is Eof),
        r == Some(HighlightKind::Comment) <==> (kind is LineComment || kind is BlockComment),
        r == Some(HighlightKind::Keyword) <==> kind is Keyword,
        r == Some(HighlightKind::Identifier) <==> kind is Identifier,
        r == Some(HighlightKind::Number) <==> kind is IntegerLiteral,
        r == Some(HighlightKind::Boolean) <==> kind is BoolLiteral,
        r == Some(HighlightKind::String) <==> kind is StringLiteral,
        r == Some(HighlightKind::Error) <==> kind is Error,
        r == Some(HighlightKind::Operator) <==> is_operator_token(kind),
        r == Some(HighlightKind::Punctuation) <==> is_punctuation_token(kind),
{
    match kind {
        TokenKind::Whitespace | TokenKind::Eof => None,
        TokenKind::LineComment | TokenKind::BlockComment => Some(HighlightKind::Comment),
        TokenKind::Keyword(_) => Some(HighlightKind::Keyword),
        TokenKind::Identifier => Some(HighlightKind::Identifier),
        TokenKind::IntegerLiteral => Some(HighlightKind::Number),
        TokenKind::BoolLiteral => Some(HighlightKind::Boolean),
        TokenKind::StringLiteral => Some(HighlightKind::String),
        TokenKind::Error => Some(HighlightKind::Error),
        TokenKind::Arrow | TokenKind::FatArrow | TokenKind::Less | TokenKind::Greater
        | TokenKind::Question | TokenKind::Equal | TokenKind::Plus | TokenKind::Minus
        | TokenKind::Star | TokenKind::Slash => Some(HighlightKind::Operator),
        TokenKind::LeftParen | TokenKind::RightParen | TokenKind::LeftBrace
        | TokenKind::RightBrace | TokenKind::LeftBracket | TokenKind::RightBracket
        | TokenKind::Comma | TokenKind::Colon | TokenKind::Semicolon | TokenKind::Dot => Some(
            HighlightKind::Punctuation,
        ),
    }
}

} // verus!
