//! Lexer for `.mao` source text.
use vstd::prelude::*;
use vstd::string::*;

use crate::diagnostic::{
    resolved_span, Diagnostic, DiagnosticCode, DiagnosticSeverity, DiagnosticSpan, DiagnosticView,
    diagnostic_views, is_valid_code,
};
use crate::source::{SourceFile, TextRange};
use crate::text::{byte_offset, is_boundary, lemma_byte_offset_mono, lemma_byte_offset_step};
use crate::unicode::{
    ascii_digit, is_ascii_digit, is_whitespace, is_xid_continue, is_xid_start, white_space,
    xid_continue, xid_start,
};

verus! {

/// Illegal character diagnostic code.
pub const MD_INVALID_CHARACTER: &'static str = "MD0101";

/// Unterminated string literal diagnostic code.
pub const MD_UNTERMINATED_STRING: &'static str = "MD0102";

/// Unterminated block comment diagnostic code.
pub const MD_UNTERMINATED_BLOCK_COMMENT: &'static str = "MD0103";

/// Reserved Maodie keywords.
#[derive(Clone, Copy, Debug, PartialEq, Eq, Structural)]
pub enum Keyword {
    Module,
    Import,
    Fn,
    Let,
    Mut,
    Struct,
    Enum,
    Trait,
    Impl,
    If,
    Else,
    Match,
    Return,
}

/// Maodie token kinds produced by the lexer.
#[derive(Clone, Copy, Debug, PartialEq, Eq, Structural)]
pub enum TokenKind {
    Whitespace,
    LineComment,
    BlockComment,
    Keyword(Keyword),
    Identifier,
    IntegerLiteral,
    BoolLiteral,
    StringLiteral,
    Error,
    LeftParen,
    RightParen,
    LeftBrace,
    RightBrace,
    LeftBracket,
    RightBracket,
    Comma,
    Colon,
    Semicolon,
    Dot,
    Arrow,
    FatArrow,
    Less,
    Greater,
    Question,
    Equal,
    Plus,
    Minus,
    Star,
    Slash,
    Eof,
}

/// One token with its source text and byte range.
#[derive(Clone, Debug, PartialEq, Eq)]
pub struct Token {
    /// Token kind.
    pub kind: TokenKind,
    /// Half-open byte range in the source file.
    pub range: TextRange,
    /// Exact source text for this token.
    pub text: String,
}

/// Abstract content of a token.
pub struct TokenView {
    pub kind: TokenKind,
    pub range: TextRange,
    pub text: Seq<char>,
}

impl View for Token {
    type V = TokenView;

    open spec fn view(&self) -> TokenView {
        TokenView { kind: self.kind, range: self.range, text: self.text@ }
    }
}

pub open spec fn token_views(v: Seq<Token>) -> Seq<TokenView> {
    v.map_values(|t: Token| t@)
}

/// Result produced by a lexing pass.
#[derive(Clone, Debug, PartialEq, Eq)]
pub struct LexResult {
    /// Stable token stream, including trivia and EOF.
    pub tokens: Vec<Token>,
    /// Lexical diagnostics produced while scanning.
    pub diagnostics: Vec<Diagnostic>,
}

// ---------------------------------------------------------------------------
// Specification of the token grammar
// ---------------------------------------------------------------------------

pub open spec fn ident_start(c: char) -> bool {
    c == '_' || xid_start(c)
}

pub open spec fn ident_continue(c: char) -> bool {
    c == '_' || xid_continue(c)
}

/// End of the run of whitespace characters that starts at `j`.
pub open spec fn ws_end(t: Seq<char>, j: int) -> int
    decreases t.len() - j,
{
    if j < 0 || j >= t.len() || !white_space(t[j]) {
        j
    } else {
        ws_end(t, j + 1)
    }
}

/// End of the run of ASCII digits that starts at `j`.
pub open spec fn digit_end(t: Seq<char>, j: int) -> int
    decreases t.len() - j,
{
    if j < 0 || j >= t.len() || !ascii_digit(t[j]) {
        j
    } else {
        digit_end(t, j + 1)
    }
}

/// End of the run of identifier characters that starts at `j`.
pub open spec fn ident_end(t: Seq<char>, j: int) -> int
    decreases t.len() - j,
{
    if j < 0 || j >= t.len() || !ident_continue(t[j]) {
        j
    } else {
        ident_end(t, j + 1)
    }
}

/// Index of the first `\n` at or after `j`, or the end of `t`.
pub open spec fn newline_end(t: Seq<char>, j: int) -> int
    decreases t.len() - j,
{
    if j < 0 || j >= t.len() || t[j] == '\n' {
        j
    } else {
        newline_end(t, j + 1)
    }
}

/// End (after `*/`) of the first `*/` at or after `j`, if any.
pub open spec fn block_close(t: Seq<char>, j: int) -> Option<int>
    decreases t.len() - j,
{
    if j < 0 || j >= t.len() {
        None
    } else if t[j] == '*' && j + 1 < t.len() && t[j + 1] == '/' {
        Some(j + 2)
    } else {
        block_close(t, j + 1)
    }
}

/// Scan of a string literal body starting at `j`: where it stops, and whether a
/// closing quote was consumed.
pub open spec fn string_scan(t: Seq<char>, j: int) -> (int, bool)
    decreases t.len() - j,
{
    if j < 0 || j >= t.len() {
        (t.len() as int, false)
    } else if t[j] == '"' {
        (j + 1, true)
    } else if t[j] == '\n' || t[j] == '\r' {
        (j, false)
    } else if t[j] == '\\' {
        if j + 1 < t.len() {
            string_scan(t, j + 2)
        } else {
            (t.len() as int, false)
        }
    } else {
        string_scan(t, j + 1)
    }
}

/// Token kind of an identifier-shaped word.
pub open spec fn word_kind(w: Seq<char>) -> TokenKind {
    if w == "true"@ || w == "false"@ {
        TokenKind::BoolLiteral
    } else if w == "module"@ {
        TokenKind::Keyword(Keyword::Module)
    } else if w == "import"@ {
        TokenKind::Keyword(Keyword::Import)
    } else if w == "fn"@ {
        TokenKind::Keyword(Keyword::Fn)
    } else if w == "let"@ {
        TokenKind::Keyword(Keyword::Let)
    } else if w == "mut"@ {
        TokenKind::Keyword(Keyword::Mut)
    } else if w == "struct"@ {
        TokenKind::Keyword(Keyword::Struct)
    } else if w == "enum"@ {
        TokenKind::Keyword(Keyword::Enum)
    } else if w == "trait"@ {
        TokenKind::Keyword(Keyword::Trait)
    } else if w == "impl"@ {
        TokenKind::Keyword(Keyword::Impl)
    } else if w == "if"@ {
        TokenKind::Keyword(Keyword::If)
    } else if w == "else"@ {
        TokenKind::Keyword(Keyword::Else)
    } else if w == "match"@ {
        TokenKind::Keyword(Keyword::Match)
    } else if w == "return"@ {
        TokenKind::Keyword(Keyword::Return)
    } else {
        TokenKind::Identifier
    }
}

/// Single-character punctuation and operator tokens (`-` and `=` excluded).
pub open spec fn single_symbol(c: char) -> Option<TokenKind> {
    if c == '(' {
        Some(TokenKind::LeftParen)
    } else if c == ')' {
        Some(TokenKind::RightParen)
    } else if c == '{' {
        Some(TokenKind::LeftBrace)
    } else if c == '}' {
        Some(TokenKind::RightBrace)
    } else if c == '[' {
        Some(TokenKind::LeftBracket)
    } else if c == ']' {
        Some(TokenKind::RightBracket)
    } else if c == ',' {
        Some(TokenKind::Comma)
    } else if c == ':' {
        Some(TokenKind::Colon)
    } else if c == ';' {
        Some(TokenKind::Semicolon)
    } else if c == '.' {
        Some(TokenKind::Dot)
    } else if c == '<' {
        Some(TokenKind::Less)
    } else if c == '>' {
        Some(TokenKind::Greater)
    } else if c == '?' {
        Some(TokenKind::Question)
    } else if c == '+' {
        Some(TokenKind::Plus)
    } else if c == '*' {
        Some(TokenKind::Star)
    } else if c == '/' {
        Some(TokenKind::Slash)
    } else {
        None
    }
}

pub open spec fn starts_with2(t: Seq<char>, a: char, b: char) -> bool {
    t.len() >= 2 && t[0] == a && t[1] == b
}

/// The first token of a non-empty text: its kind and its length in characters.
pub open spec fn scan(t: Seq<char>) -> (TokenKind, int) {
    let c = t[0];
    if white_space(c) {
        (TokenKind::Whitespace, ws_end(t, 1))
    } else if starts_with2(t, '/', '/') {
        (TokenKind::LineComment, newline_end(t, 2))
    } else if starts_with2(t, '/', '*') {
        match block_close(t, 2) {
            Some(e) => (TokenKind::BlockComment, e),
            None => (TokenKind::Error, t.len() as int),
        }
    } else if c == '"' {
        let r = string_scan(t, 1);
        (
            if r.1 {
                TokenKind::StringLiteral
            } else {
                TokenKind::Error
            },
            r.0,
        )
    } else if ascii_digit(c) {
        (TokenKind::IntegerLiteral, digit_end(t, 1))
    } else if ident_start(c) {
        let e = ident_end(t, 1);
        (word_kind(t.take(e)), e)
    } else if single_symbol(c) is Some {
        (single_symbol(c)->0, 1)
    } else if starts_with2(t, '-', '>') {
        (TokenKind::Arrow, 2)
    } else if c == '-' {
        (TokenKind::Minus, 1)
    } else if starts_with2(t, '=', '>') {
        (TokenKind::FatArrow, 2)
    } else if c == '=' {
        (TokenKind::Equal, 1)
    } else {
        (TokenKind::Error, 1)
    }
}

/// Code and message of the diagnostic for an error token at the start of `t`.
pub open spec fn scan_error(t: Seq<char>) -> (Seq<char>, Seq<char>) {
    if !white_space(t[0]) && starts_with2(t, '/', '*') {
        ("MD0103"@, "块注释没有闭合"@)
    } else if !white_space(t[0]) && t[0] == '"' {
        ("MD0102"@, "字符串字面量没有闭合"@)
    } else {
        ("MD0101"@, "发现无法识别的字符 `"@ + seq![t[0]] + "`"@)
    }
}

/// A token of the grammar, as character positions in the whole text.
pub struct LexTok {
    pub kind: TokenKind,
    pub start: int,
    pub end: int,
}

pub proof fn lemma_ws_end(t: Seq<char>, j: int)
    requires
        0 <= j <= t.len(),
    ensures
        j <= ws_end(t, j) <= t.len(),
    decreases t.len() - j,
{
    if j < t.len() && white_space(t[j]) {
        lemma_ws_end(t, j + 1);
    }
}

pub proof fn lemma_digit_end(t: Seq<char>, j: int)
    requires
        0 <= j <= t.len(),
    ensures
        j <= digit_end(t, j) <= t.len(),
    decreases t.len() - j,
{
    if j < t.len() && ascii_digit(t[j]) {
        lemma_digit_end(t, j + 1);
    }
}

pub proof fn lemma_ident_end(t: Seq<char>, j: int)
    requires
        0 <= j <= t.len(),
    ensures
        j <= ident_end(t, j) <= t.len(),
    decreases t.len() - j,
{
    if j < t.len() && ident_continue(t[j]) {
        lemma_ident_end(t, j + 1);
    }
}

pub proof fn lemma_newline_end(t: Seq<char>, j: int)
    requires
        0 <= j <= t.len(),
    ensures
        j <= newline_end(t, j) <= t.len(),
        forall|k: int| j <= k < newline_end(t, j) ==> #[trigger] t[k] != '\n',
        newline_end(t, j) < t.len() ==> t[newline_end(t, j)] == '\n',
    decreases t.len() - j,
{
    if j < t.len() && t[j] != '\n' {
        lemma_newline_end(t, j + 1);
    }
}

pub proof fn lemma_block_close(t: Seq<char>, j: int)
    requires
        0 <= j <= t.len(),
    ensures
        block_close(t, j) matches Some(e) ==> j + 2 <= e <= t.len(),
    decreases t.len() - j,
{
    if j < t.len() && !(t[j] == '*' && j + 1 < t.len() && t[j + 1] == '/') {
        lemma_block_close(t, j + 1);
    }
}

pub proof fn lemma_string_scan(t: Seq<char>, j: int)
    requires
        0 <= j <= t.len(),
    ensures
        j <= string_scan(t, j).0 <= t.len(),
    decreases t.len() - j,
{
    if j < t.len() && t[j] != '"' && t[j] != '\n' && t[j] != '\r' {
        if t[j] == '\\' {
            if j + 1 < t.len() {
                lemma_string_scan(t, j + 2);
            }
        } else {
            lemma_string_scan(t, j + 1);
        }
    }
}

/// Every token of a non-empty text has a length between one and the text length.
pub proof fn lemma_scan_bounds(t: Seq<char>)
    requires
        t.len() > 0,
    ensures
        1 <= scan(t).1 <= t.len(),
{
    lemma_ws_end(t, 1);
    lemma_digit_end(t, 1);
    lemma_ident_end(t, 1);
    if t.len() >= 2 {
        lemma_newline_end(t, 2);
        lemma_block_close(t, 2);
    }
    lemma_string_scan(t, 1);
}

/// Tokens of `s` from character position `i` to the end.
pub open spec fn lex_from(s: Seq<char>, i: int) -> Seq<LexTok>
    decreases s.len() - i,
{
    if i < 0 || i >= s.len() {
        Seq::empty()
    } else {
        let r = scan(s.skip(i));
        proof {
            lemma_scan_bounds(s.skip(i));
        }
        seq![LexTok { kind: r.0, start: i, end: i + r.1 }] + lex_from(s, i + r.1)
    }
}

/// All tokens of `s`, ending with the EOF marker.
pub open spec fn lex_spec(s: Seq<char>) -> Seq<LexTok> {
    lex_from(s, 0).push(LexTok { kind: TokenKind::Eof, start: s.len() as int, end: s.len() as int })
}

/// The concrete token for a grammar token of `s`.
pub open spec fn token_of(s: Seq<char>, t: LexTok) -> TokenView {
    TokenView {
        kind: t.kind,
        range: TextRange {
            start: byte_offset(s, t.start) as usize,
            end: byte_offset(s, t.end) as usize,
        },
        text: s.subrange(t.start, t.end),
    }
}

/// The tokens the lexer produces for a text.
pub open spec fn lexed_tokens(s: Seq<char>) -> Seq<TokenView> {
    lex_spec(s).map_values(|t: LexTok| token_of(s, t))
}

/// The diagnostic the lexer reports for an error token.
pub open spec fn error_diagnostic(file: SourceFile, t: LexTok) -> DiagnosticView {
    let s = file@.text;
    let ce = scan_error(s.skip(t.start));
    DiagnosticView {
        code: ce.0,
        severity: DiagnosticSeverity::Error,
        message: ce.1,
        span: resolved_span(file, token_of(s, t).range),
        notes: Seq::empty(),
    }
}

/// Diagnostics for the tokens of `toks`: one per error token, in order.
pub open spec fn diags_of(file: SourceFile, toks: Seq<LexTok>) -> Seq<DiagnosticView>
    decreases toks.len(),
{
    if toks.len() == 0 {
        Seq::empty()
    } else {
        diags_of(file, toks.drop_last()) + if toks.last().kind == TokenKind::Error {
            seq![error_diagnostic(file, toks.last())]
        } else {
            Seq::empty()
        }
    }
}

/// The diagnostics the lexer reports for a source file.
pub open spec fn lexed_diagnostics(file: SourceFile) -> Seq<DiagnosticView> {
    diags_of(file, lex_from(file@.text, 0))
}

pub proof fn lemma_diags_of_push(file: SourceFile, toks: Seq<LexTok>, t: LexTok)
    ensures
        diags_of(file, toks.push(t)) == diags_of(file, toks) + if t.kind == TokenKind::Error {
            seq![error_diagnostic(file, t)]
        } else {
            Seq::empty()
        },
{
    assert(toks.push(t).drop_last() =~= toks);
}

#[verifier::spinoff_prover]
pub proof fn lemma_diags_of_concat(file: SourceFile, a: Seq<LexTok>, b: Seq<LexTok>)
    ensures
        diags_of(file, a + b) == diags_of(file, a) + diags_of(file, b),
    decreases b.len(),
{
    if b.len() == 0 {
        assert(a + b =~= a);
        assert(diags_of(file, a) + diags_of(file, b) =~= diags_of(file, a));
    } else {
        let b0 = b.drop_last();
        let t = b.last();
        lemma_diags_of_concat(file, a, b0);
        assert(a + b =~= (a + b0).push(t));
        assert(b =~= b0.push(t));
        lemma_diags_of_push(file, a + b0, t);
        lemma_diags_of_push(file, b0, t);
        let extra = if t.kind == TokenKind::Error {
            seq![error_diagnostic(file, t)]
        } else {
            Seq::empty()
        };
        assert(diags_of(file, a) + (diags_of(file, b0) + extra) =~= (diags_of(file, a) + diags_of(
            file,
            b0,
        )) + extra);
    }
}

/// The diagnostic codes the lexer uses follow the naming rule.
pub proof fn lemma_lexer_codes_valid()
    ensures
        is_valid_code(MD_INVALID_CHARACTER@),
        is_valid_code(MD_UNTERMINATED_STRING@),
        is_valid_code(MD_UNTERMINATED_BLOCK_COMMENT@),
        MD_INVALID_CHARACTER@ == "MD0101"@,
        MD_UNTERMINATED_STRING@ == "MD0102"@,
        MD_UNTERMINATED_BLOCK_COMMENT@ == "MD0103"@,
{
    reveal_strlit("MD0101");
    reveal_strlit("MD0102");
    reveal_strlit("MD0103");
}

/// A two-character prefix test at a position, stated on the remaining text.
pub proof fn lemma_starts_with2(s: Seq<char>, p: int, a: char, b: char)
    requires
        0 <= p <= s.len(),
    ensures
        (p + 2 <= s.len() && s.subrange(p, p + 2) == seq![a, b]) == starts_with2(s.skip(p), a, b),
{
    if p + 2 <= s.len() && s[p] == a && s[p + 1] == b {
        assert(s.subrange(p, p + 2) =~= seq![a, b]);
    }
    if p + 2 <= s.len() && s.subrange(p, p + 2) == seq![a, b] {
        assert(s.subrange(p, p + 2)[0] == a);
        assert(s.subrange(p, p + 2)[1] == b);
    }
}

/// The two-character needles the lexer looks for.
pub proof fn lemma_lexer_needles()
    ensures
        "//"@ == seq!['/', '/'],
        "/*"@ == seq!['/', '*'],
        "*/"@ == seq!['*', '/'],
        "->"@ == seq!['-', '>'],
        "=>"@ == seq!['=', '>'],
{
    reveal_strlit("//");
    reveal_strlit("/*");
    reveal_strlit("*/");
    reveal_strlit("->");
    reveal_strlit("=>");
}

/// Unfolding of [`lex_from`] at a position inside the text.
pub proof fn lemma_lex_from_step(s: Seq<char>, i: int)
    requires
        0 <= i < s.len(),
    ensures
        1 <= scan(s.skip(i)).1 <= s.len() - i,
        lex_from(s, i) == seq![
            LexTok { kind: scan(s.skip(i)).0, start: i, end: i + scan(s.skip(i)).1 },
        ] + lex_from(s, i + scan(s.skip(i)).1),
{
    lemma_scan_bounds(s.skip(i));
}

/// Every token of [`lex_from`] lies between `i` and the end of the text, with ordered bounds.
pub proof fn lemma_lex_from_bounds(s: Seq<char>, i: int)
    requires
        0 <= i,
    ensures
        forall|k: int|
            0 <= k < lex_from(s, i).len() ==> i <= #[trigger] lex_from(s, i)[k].start <= lex_from(
                s,
                i,
            )[k].end <= s.len(),
    decreases s.len() - i,
{
    if i < s.len() {
        lemma_lex_from_step(s, i);
        let n = scan(s.skip(i)).1;
        lemma_lex_from_bounds(s, i + n);
        assert forall|k: int| 0 <= k < lex_from(s, i).len() implies i <= #[trigger] lex_from(
            s,
            i,
        )[k].start <= lex_from(s, i)[k].end <= s.len() by {
            if k > 0 {
                assert(lex_from(s, i)[k] == lex_from(s, i + n)[k - 1]);
            }
        }
    }
}

// ---------------------------------------------------------------------------
// Executable lexer
// ---------------------------------------------------------------------------

/// Lexes one source file.
pub fn lex_source(source: &SourceFile) -> (r: LexResult)
    ensures
        token_views(r.tokens@) == lexed_tokens(source@.text),
        diagnostic_views(r.diagnostics@) == lexed_diagnostics(*source),
{
    Lexer::new(source).lex()
}

/// Stateful lexer for `.mao` source text.
#[derive(Debug)]
pub struct Lexer<'source> {
    source: &'source SourceFile,
    offset: usize,
    pos: usize,
    finished: bool,
    tokens: Vec<Token>,
    diagnostics: Vec<Diagnostic>,
}

impl<'source> Lexer<'source> {
    /// Text being lexed.
    pub closed spec fn text(&self) -> Seq<char> {
        self.source@.text
    }

    /// The source file being lexed.
    pub closed spec fn file(&self) -> SourceFile {
        *self.source
    }

    /// Character position of the next token.
    pub closed spec fn position(&self) -> int {
        self.pos as int
    }

    /// Whether the EOF token has been produced.
    pub closed spec fn is_finished(&self) -> bool {
        self.finished
    }

    /// Tokens produced and not yet handed out.
    pub closed spec fn pending_tokens(&self) -> Seq<TokenView> {
        token_views(self.tokens@)
    }

    /// Diagnostics produced and not yet handed out.
    pub closed spec fn pending_diagnostics(&self) -> Seq<DiagnosticView> {
        diagnostic_views(self.diagnostics@)
    }

    /// Internal consistency of the cursor.
    pub closed spec fn wf(&self) -> bool {
        &&& self.source@.text.len() <= isize::MAX
        &&& self.pos <= self.source@.text.len()
        &&& self.offset == byte_offset(self.source@.text, self.pos as int)
        &&& self.finished ==> self.pos == self.source@.text.len()
    }

    /// What a well-formed cursor guarantees.
    pub proof fn lemma_wf(&self)
        requires
            self.wf(),
        ensures
            self.text() == self.file()@.text,
            0 <= self.position() <= self.text().len(),
            self.is_finished() ==> self.position() == self.text().len(),
    {
    }

    /// Creates a lexer for one source file.
    pub fn new(source: &'source SourceFile) -> (r: Self)
        ensures
            r.wf(),
            r.file() == *source,
            r.position() == 0,
            !r.is_finished(),
            r.pending_tokens().len() == 0,
            r.pending_diagnostics().len() == 0,
    {
        let offset = source.byte_at(0);
        let _ = source.char_count();
        let r = Lexer {
            source,
            offset,
            pos: 0,
            finished: false,
            tokens: Vec::new(),
            diagnostics: Vec::new(),
        };
        proof {
            assert(token_views(r.tokens@) =~= Seq::<TokenView>::empty());
            assert(diagnostic_views(r.diagnostics@) =~= Seq::<DiagnosticView>::empty());
        }
        r
    }

    /// Creates a lexer that starts at a character boundary of the source.
    pub fn with_offset(source: &'source SourceFile, offset: usize) -> (r: Self)
        requires
            is_boundary(source@.text, offset as int),
        ensures
            r.wf(),
            r.file() == *source,
            byte_offset(source@.text, r.position()) == offset,
            !r.is_finished(),
            r.pending_tokens().len() == 0,
            r.pending_diagnostics().len() == 0,
    {
        let pos = match source.char_index_at(offset) {
            Some(k) => k,
            None => {
                proof {
                    assert(false);
                }
                0
            },
        };
        let _ = source.char_count();
        let r = Lexer {
            source,
            offset,
            pos,
            finished: false,
            tokens: Vec::new(),
            diagnostics: Vec::new(),
        };
        proof {
            assert(token_views(r.tokens@) =~= Seq::<TokenView>::empty());
            assert(diagnostic_views(r.diagnostics@) =~= Seq::<DiagnosticView>::empty());
        }
        r
    }

    /// Runs the lexer to EOF.
    pub fn lex(self) -> (r: LexResult)
        requires
            self.wf(),
            self.position() == 0,
            !self.is_finished(),
            self.pending_tokens().len() == 0,
            self.pending_diagnostics().len() == 0,
        ensures
            token_views(r.tokens@) == lexed_tokens(self.text()),
            diagnostic_views(r.diagnostics@) == lexed_diagnostics(self.file()),
    {
        let mut lexer = self;
        let ghost s = lexer.text();
        let ghost file = lexer.file();
        let ghost mut done: Seq<LexTok> = Seq::empty();
        proof {
            assert(done + lex_from(s, 0) =~= lex_from(s, 0));
            assert(token_views(lexer.tokens@) =~= done.map_values(|t: LexTok| token_of(s, t)));
            assert(diagnostic_views(lexer.diagnostics@) =~= diags_of(file, done));
        }
        while !lexer.is_eof()
            invariant
                lexer.wf(),
                s == lexer.text(),
                file == lexer.file(),
                !lexer.finished,
                done + lex_from(s, lexer.pos as int) == lex_from(s, 0),
                token_views(lexer.tokens@) == done.map_values(|t: LexTok| token_of(s, t)),
                diagnostic_views(lexer.diagnostics@) == diags_of(file, done),
            decreases s.len() - lexer.pos,
        {
            let ghost start = lexer.pos as int;
            proof {
                lemma_lex_from_step(s, start);
            }
            lexer.lex_one();
            proof {
                let t = LexTok { kind: scan(s.skip(start)).0, start, end: lexer.pos as int };
                lemma_diags_of_push(file, done, t);
                assert(done.push(t) + lex_from(s, lexer.pos as int) =~= done + lex_from(s, start));
                assert(done.push(t).map_values(|t: LexTok| token_of(s, t)) =~= done.map_values(
                    |t: LexTok| token_of(s, t),
                ).push(token_of(s, t)));
                done = done.push(t);
            }
        }
        let end = lexer.pos;
        lexer.push_token(TokenKind::Eof, end);
        proof {
            assert(lex_from(s, lexer.pos as int) =~= Seq::<LexTok>::empty());
            assert(done =~= lex_from(s, 0));
            let eof = LexTok { kind: TokenKind::Eof, start: s.len() as int, end: s.len() as int };
            assert(lex_spec(s).map_values(|t: LexTok| token_of(s, t)) =~= done.map_values(
                |t: LexTok| token_of(s, t),
            ).push(token_of(s, eof)));
        }
        LexResult { tokens: lexer.tokens, diagnostics: lexer.diagnostics }
    }

    /// Produces the next token, or `None` once the EOF token has been produced.
    pub fn next_token(&mut self) -> (r: Option<Token>)
        requires
            old(self).wf(),
        ensures
            final(self).wf(),
            final(self).file() == old(self).file(),
            final(self).pending_tokens() == old(self).pending_tokens(),
            old(self).is_finished() ==> r is None && *final(self) == *old(self),
            !old(self).is_finished() && old(self).position() == old(self).text().len() ==> {
                &&& r matches Some(t)
                &&& t@ == token_of(
                    old(self).text(),
                    LexTok {
                        kind: TokenKind::Eof,
                        start: old(self).position(),
                        end: old(self).position(),
                    },
                )
                &&& final(self).is_finished()
                &&& final(self).position() == old(self).position()
                &&& final(self).pending_diagnostics() == old(self).pending_diagnostics()
            },
            !old(self).is_finished() && old(self).position() < old(self).text().len() ==> {
                let s = old(self).text();
                let i = old(self).position();
                let t = LexTok { kind: scan(s.skip(i)).0, start: i, end: i + scan(s.skip(i)).1 };
                &&& r matches Some(tok)
                &&& tok@ == token_of(s, t)
                &&& !final(self).is_finished()
                &&& final(self).position() == t.end
                &&& final(self).pending_diagnostics() == old(self).pending_diagnostics() + diags_of(
                    old(self).file(),
                    seq![t],
                )
            },
    {
        if self.finished {
            return None;
        }
        let ghost s = self.text();
        let ghost i = self.pos as int;
        let ghost file = self.file();
        let ghost before = self.tokens@;
        if self.is_eof() {
            let end = self.pos;
            self.push_token(TokenKind::Eof, end);
            self.finished = true;
        } else {
            proof {
                lemma_lex_from_step(s, i);
                let t = LexTok { kind: scan(s.skip(i)).0, start: i, end: i + scan(s.skip(i)).1 };
                lemma_diags_of_push(file, Seq::empty(), t);
                assert(Seq::<LexTok>::empty().push(t) =~= seq![t]);
                assert(diags_of(file, Seq::<LexTok>::empty()) =~= Seq::<DiagnosticView>::empty());
            }
            self.lex_one();
        }
        let ghost full = self.tokens@;
        let token = self.tokens.pop();
        proof {
            assert(token_views(self.tokens@) =~= token_views(full).drop_last());
            assert(token_views(full).drop_last() =~= token_views(before));
            assert(token_views(full).last() == full.last()@);
        }
        token
    }

    /// Hands out the diagnostics produced so far.
    pub fn drain_diagnostics(&mut self) -> (r: Vec<Diagnostic>)
        requires
            old(self).wf(),
        ensures
            final(self).wf(),
            final(self).file() == old(self).file(),
            final(self).position() == old(self).position(),
            final(self).is_finished() == old(self).is_finished(),
            final(self).pending_tokens() == old(self).pending_tokens(),
            final(self).pending_diagnostics().len() == 0,
            diagnostic_views(r@) == old(self).pending_diagnostics(),
    {
        let mut drained: Vec<Diagnostic> = Vec::new();
        std::mem::swap(&mut drained, &mut self.diagnostics);
        proof {
            assert(diagnostic_views(self.diagnostics@) =~= Seq::<DiagnosticView>::empty());
        }
        drained
    }

    /// Lexes exactly one token at the cursor.
    fn lex_one(&mut self)
        requires
            old(self).wf(),
            !old(self).finished,
            old(self).pos < old(self).text().len(),
        ensures
            final(self).wf(),
            !final(self).finished,
            final(self).source == old(self).source,
            final(self).pos == old(self).pos + scan(old(self).text().skip(old(self).pos as int)).1,
            token_views(final(self).tokens@) == token_views(old(self).tokens@).push(
                token_of(
                    old(self).text(),
                    LexTok {
                        kind: scan(old(self).text().skip(old(self).pos as int)).0,
                        start: old(self).pos as int,
                        end: final(self).pos as int,
                    },
                ),
            ),
            diagnostic_views(final(self).diagnostics@) == diagnostic_views(old(self).diagnostics@)
                + if scan(old(self).text().skip(old(self).pos as int)).0 == TokenKind::Error {
                seq![
                    error_diagnostic(
                        old(self).file(),
                        LexTok {
                            kind: TokenKind::Error,
                            start: old(self).pos as int,
                            end: final(self).pos as int,
                        },
                    ),
                ]
            } else {
                Seq::empty()
            },
    {
        let start = self.pos;
        let ghost t = self.text().skip(start as int);
        let character = self.source.char_at(start);
        proof {
            assert(t[0] == character);
            lemma_scan_bounds(t);
            lemma_lexer_needles();
            lemma_lexer_codes_valid();
        }
        proof {
            lemma_starts_with2(self.text(), start as int, '/', '/');
            lemma_starts_with2(self.text(), start as int, '/', '*');
            lemma_starts_with2(self.text(), start as int, '-', '>');
            lemma_starts_with2(self.text(), start as int, '=', '>');
        }
        if is_whitespace(character) {
            self.lex_whitespace(start);
        } else if character == '/' && self.starts_with("//") {
            self.lex_line_comment(start);
        } else if character == '/' && self.starts_with("/*") {
            self.lex_block_comment(start);
        } else if character == '"' {
            self.lex_string(start);
        } else if is_ascii_digit(character) {
            self.lex_integer(start);
        } else if is_identifier_start(character) {
            self.lex_identifier_or_keyword(start);
        } else {
            match symbol_kind(character) {
                Some(kind) => self.consume_symbol(kind, start),
                None => {
                    if character == '-' && self.starts_with("->") {
                        self.consume_fixed(TokenKind::Arrow, start, 2);
                    } else if character == '-' {
                        self.consume_symbol(TokenKind::Minus, start);
                    } else if character == '=' && self.starts_with("=>") {
                        self.consume_fixed(TokenKind::FatArrow, start, 2);
                    } else if character == '=' {
                        self.consume_symbol(TokenKind::Equal, start);
                    } else {
                        self.lex_invalid_character(start, character);
                    }
                },
            }
        }
    }

    fn lex_whitespace(&mut self, start: usize)
        requires
            old(self).wf(),
            !old(self).finished,
            start == old(self).pos,
            old(self).pos < old(self).text().len(),
            white_space(old(self).text()[start as int]),
        ensures
            final(self).wf(),
            !final(self).finished,
            final(self).source == old(self).source,
            final(self).pos == start + ws_end(old(self).text().skip(start as int), 1),
            token_views(final(self).tokens@) == token_views(old(self).tokens@).push(
                token_of(
                    old(self).text(),
                    LexTok { kind: TokenKind::Whitespace, start: start as int, end: final(self).pos as int },
                ),
            ),
            final(self).diagnostics@ == old(self).diagnostics@,
    {
        let ghost s = self.text();
        let ghost t = s.skip(start as int);
        self.bump();
        while self.current_char_is_whitespace()
            invariant
                self.wf(),
                !self.finished,
                s == self.text(),
                t == s.skip(start as int),
                start < self.pos <= s.len(),
                ws_end(t, 1) == ws_end(t, self.pos - start),
                self.source == old(self).source,
                self.tokens@ == old(self).tokens@,
                self.diagnostics@ == old(self).diagnostics@,
            decreases s.len() - self.pos,
        {
            self.bump();
        }
        self.push_token(TokenKind::Whitespace, start);
    }

    fn current_char_is_whitespace(&self) -> (r: bool)
        requires
            self.wf(),
        ensures
            r == (self.pos < self.text().len() && white_space(self.text()[self.pos as int])),
    {
        match self.current_char() {
            Some(c) => is_whitespace(c),
            None => false,
        }
    }

    fn lex_line_comment(&mut self, start: usize)
        requires
            old(self).wf(),
            !old(self).finished,
            start == old(self).pos,
            starts_with2(old(self).text().skip(start as int), '/', '/'),
        ensures
            final(self).wf(),
            !final(self).finished,
            final(self).source == old(self).source,
            final(self).pos == start + newline_end(old(self).text().skip(start as int), 2),
            token_views(final(self).tokens@) == token_views(old(self).tokens@).push(
                token_of(
                    old(self).text(),
                    LexTok { kind: TokenKind::LineComment, start: start as int, end: final(self).pos as int },
                ),
            ),
            final(self).diagnostics@ == old(self).diagnostics@,
    {
        let ghost s = self.text();
        let ghost t = s.skip(start as int);
        self.consume_bytes(2);
        while self.current_char_is_not_newline()
            invariant
                self.wf(),
                !self.finished,
                s == self.text(),
                t == s.skip(start as int),
                start + 2 <= self.pos <= s.len(),
                newline_end(t, 2) == newline_end(t, self.pos - start),
                self.source == old(self).source,
                self.tokens@ == old(self).tokens@,
                self.diagnostics@ == old(self).diagnostics@,
            decreases s.len() - self.pos,
        {
            self.bump();
        }
        self.push_token(TokenKind::LineComment, start);
    }

    fn lex_block_comment(&mut self, start: usize)
        requires
            old(self).wf(),
            !old(self).finished,
            start == old(self).pos,
            starts_with2(old(self).text().skip(start as int), '/', '*'),
            !white_space(old(self).text()[start as int]),
        ensures
            final(self).wf(),
            !final(self).finished,
            final(self).source == old(self).source,
            ({
                let t = old(self).text().skip(start as int);
                match block_close(t, 2) {
                    Some(e) => {
                        &&& final(self).pos == start + e
                        &&& token_views(final(self).tokens@) == token_views(old(self).tokens@).push(
                            token_of(
                                old(self).text(),
                                LexTok {
                                    kind: TokenKind::BlockComment,
                                    start: start as int,
                                    end: final(self).pos as int,
                                },
                            ),
                        )
                        &&& final(self).diagnostics@ == old(self).diagnostics@
                    },
                    None => {
                        let tok = LexTok {
                            kind: TokenKind::Error,
                            start: start as int,
                            end: old(self).text().len() as int,
                        };
                        &&& final(self).pos == old(self).text().len()
                        &&& token_views(final(self).tokens@) == token_views(old(self).tokens@).push(
                            token_of(old(self).text(), tok),
                        )
                        &&& diagnostic_views(final(self).diagnostics@) == diagnostic_views(
                            old(self).diagnostics@,
                        ).push(error_diagnostic(old(self).file(), tok))
                    },
                }
            }),
    {
        proof {
            lemma_lexer_needles();
            lemma_lexer_codes_valid();
        }
        let ghost s = self.text();
        let ghost t = s.skip(start as int);
        self.consume_bytes(2);
        while !self.is_eof()
            invariant
                self.wf(),
                !self.finished,
                s == self.text(),
                t == s.skip(start as int),
                self.source == old(self).source,
                self.tokens@ == old(self).tokens@,
                self.diagnostics@ == old(self).diagnostics@,
                start + 2 <= self.pos <= s.len(),
                block_close(t, 2) == block_close(t, self.pos - start),
            decreases s.len() - self.pos,
        {
            let closes = self.starts_with("*/");
            proof {
                lemma_lexer_needles();
                lemma_starts_with2(s, self.pos as int, '*', '/');
                let k = self.pos - start;
                assert(s.skip(self.pos as int) =~= t.skip(k));
                assert(t[k] == s[self.pos as int]);
                if k + 1 < t.len() {
                    assert(t[k + 1] == s[self.pos + 1]);
                }
            }
            if closes {
                self.consume_bytes(2);
                self.push_token(TokenKind::BlockComment, start);
                return;
            }
            self.bump();
        }
        self.push_token(TokenKind::Error, start);
        let end = self.pos;
        self.push_diagnostic(MD_UNTERMINATED_BLOCK_COMMENT, "块注释没有闭合", start, end);
        proof {
            assert(t.len() == s.len() - start);
            assert(block_close(t, (end - start) as int) is None);
        }
    }

    fn lex_string(&mut self, start: usize)
        requires
            old(self).wf(),
            !old(self).finished,
            start == old(self).pos,
            start < old(self).text().len(),
            old(self).text()[start as int] == '"',
            !white_space(old(self).text()[start as int]),
        ensures
            final(self).wf(),
            !final(self).finished,
            final(self).source == old(self).source,
            ({
                let t = old(self).text().skip(start as int);
                let r = string_scan(t, 1);
                let tok = LexTok {
                    kind: if r.1 {
                        TokenKind::StringLiteral
                    } else {
                        TokenKind::Error
                    },
                    start: start as int,
                    end: start + r.0,
                };
                &&& final(self).pos == start + r.0
                &&& token_views(final(self).tokens@) == token_views(old(self).tokens@).push(
                    token_of(old(self).text(), tok),
                )
                &&& diagnostic_views(final(self).diagnostics@) == diagnostic_views(
                    old(self).diagnostics@,
                ) + if r.1 {
                    Seq::empty()
                } else {
                    seq![error_diagnostic(old(self).file(), tok)]
                }
            }),
    {
        proof {
            lemma_lexer_needles();
            lemma_lexer_codes_valid();
        }
        let ghost s = self.text();
        let ghost t = s.skip(start as int);
        self.bump();
        while !self.is_eof()
            invariant
                self.wf(),
                !self.finished,
                s == self.text(),
                t == s.skip(start as int),
                self.source == old(self).source,
                self.tokens@ == old(self).tokens@,
                self.diagnostics@ == old(self).diagnostics@,
                start + 1 <= self.pos <= s.len(),
                string_scan(t, 1) == string_scan(t, self.pos - start),
                s[start as int] == '"',
                !white_space(s[start as int]),
            decreases s.len() - self.pos,
        {
            let character = self.source.char_at(self.pos);
            proof {
                lemma_lexer_codes_valid();
                let k = self.pos - start;
                assert(t[k] == s[self.pos as int]);
                if k + 1 < t.len() {
                    assert(t[k + 1] == s[self.pos + 1]);
                }
            }
            if character == '"' {
                self.bump();
                self.push_token(TokenKind::StringLiteral, start);
                proof {
                    assert(diagnostic_views(self.diagnostics@) =~= diagnostic_views(
                        old(self).diagnostics@,
                    ) + Seq::<DiagnosticView>::empty());
                }
                return;
            } else if character == '\n' || character == '\r' {
                self.push_token(TokenKind::Error, start);
                let end = self.pos;
                let ghost before = diagnostic_views(self.diagnostics@);
                self.push_diagnostic(MD_UNTERMINATED_STRING, "字符串字面量没有闭合", start, end);
                proof {
                    let k = end - start;
                    assert(string_scan(t, k as int) == (k as int, false));
                    let tok = LexTok { kind: TokenKind::Error, start: start as int, end: end as int };
                    assert(diagnostic_views(self.diagnostics@) =~= before + seq![
                        error_diagnostic(old(self).file(), tok),
                    ]);
                }
                return;
            } else if character == '\\' {
                self.bump();
                if !self.is_eof() {
                    self.bump();
                }
            } else {
                self.bump();
            }
        }
        self.push_token(TokenKind::Error, start);
        let end = self.pos;
        let ghost before = diagnostic_views(self.diagnostics@);
        self.push_diagnostic(MD_UNTERMINATED_STRING, "字符串字面量没有闭合", start, end);
        proof {
            lemma_lexer_codes_valid();
            let k = end - start;
            assert(t.len() == s.len() - start);
            assert(string_scan(t, k as int) == (t.len() as int, false));
            let tok = LexTok { kind: TokenKind::Error, start: start as int, end: end as int };
            assert(diagnostic_views(self.diagnostics@) =~= before + seq![
                error_diagnostic(old(self).file(), tok),
            ]);
        }
    }

    fn lex_integer(&mut self, start: usize)
        requires
            old(self).wf(),
            !old(self).finished,
            start == old(self).pos,
            start < old(self).text().len(),
            ascii_digit(old(self).text()[start as int]),
        ensures
            final(self).wf(),
            !final(self).finished,
            final(self).source == old(self).source,
            final(self).pos == start + digit_end(old(self).text().skip(start as int), 1),
            token_views(final(self).tokens@) == token_views(old(self).tokens@).push(
                token_of(
                    old(self).text(),
                    LexTok { kind: TokenKind::IntegerLiteral, start: start as int, end: final(self).pos as int },
                ),
            ),
            final(self).diagnostics@ == old(self).diagnostics@,
    {
        let ghost s = self.text();
        let ghost t = s.skip(start as int);
        self.bump();
        while self.current_char_is_digit()
            invariant
                self.wf(),
                !self.finished,
                s == self.text(),
                t == s.skip(start as int),
                start < self.pos <= s.len(),
                digit_end(t, 1) == digit_end(t, self.pos - start),
                self.source == old(self).source,
                self.tokens@ == old(self).tokens@,
                self.diagnostics@ == old(self).diagnostics@,
            decreases s.len() - self.pos,
        {
            self.bump();
        }
        self.push_token(TokenKind::IntegerLiteral, start);
    }

    fn current_char_is_not_newline(&self) -> (r: bool)
        requires
            self.wf(),
        ensures
            r == (self.pos < self.text().len() && self.text()[self.pos as int] != '\n'),
    {
        match self.current_char() {
            Some(c) => c != '\n',
            None => false,
        }
    }

    fn current_char_is_digit(&self) -> (r: bool)
        requires
            self.wf(),
        ensures
            r == (self.pos < self.text().len() && ascii_digit(self.text()[self.pos as int])),
    {
        match self.current_char() {
            Some(c) => is_ascii_digit(c),
            None => false,
        }
    }

    fn current_char_continues_identifier(&self) -> (r: bool)
        requires
            self.wf(),
        ensures
            r == (self.pos < self.text().len() && ident_continue(self.text()[self.pos as int])),
    {
        match self.current_char() {
            Some(c) => is_identifier_continue(c),
            None => false,
        }
    }

    fn lex_identifier_or_keyword(&mut self, start: usize)
        requires
            old(self).wf(),
            !old(self).finished,
            start == old(self).pos,
            start < old(self).text().len(),
            ident_start(old(self).text()[start as int]),
        ensures
            final(self).wf(),
            !final(self).finished,
            final(self).source == old(self).source,
            ({
                let t = old(self).text().skip(start as int);
                let e = ident_end(t, 1);
                &&& final(self).pos == start + e
                &&& token_views(final(self).tokens@) == token_views(old(self).tokens@).push(
                    token_of(
                        old(self).text(),
                        LexTok { kind: word_kind(t.take(e)), start: start as int, end: start + e },
                    ),
                )
            }),
            final(self).diagnostics@ == old(self).diagnostics@,
    {
        let ghost s = self.text();
        let ghost t = s.skip(start as int);
        self.bump();
        while self.current_char_continues_identifier()
            invariant
                self.wf(),
                !self.finished,
                s == self.text(),
                t == s.skip(start as int),
                start < self.pos <= s.len(),
                ident_end(t, 1) == ident_end(t, self.pos - start),
                self.source == old(self).source,
                self.tokens@ == old(self).tokens@,
                self.diagnostics@ == old(self).diagnostics@,
            decreases s.len() - self.pos,
        {
            self.bump();
        }
        let end = self.pos;
        let kind = word_token_kind(self.slice(start, end));
        proof {
            assert(s.subrange(start as int, end as int) =~= t.take(end - start));
        }
        self.push_token(kind, start);
    }

    fn lex_invalid_character(&mut self, start: usize, character: char)
        requires
            old(self).wf(),
            !old(self).finished,
            start == old(self).pos,
            start < old(self).text().len(),
            character == old(self).text()[start as int],
        ensures
            final(self).wf(),
            !final(self).finished,
            final(self).source == old(self).source,
            final(self).pos == start + 1,
            token_views(final(self).tokens@) == token_views(old(self).tokens@).push(
                token_of(
                    old(self).text(),
                    LexTok { kind: TokenKind::Error, start: start as int, end: start + 1 },
                ),
            ),
            diagnostic_views(final(self).diagnostics@) == diagnostic_views(old(self).diagnostics@).push(
                DiagnosticView {
                    code: "MD0101"@,
                    severity: DiagnosticSeverity::Error,
                    message: "发现无法识别的字符 `"@ + seq![character] + "`"@,
                    span: resolved_span(
                        old(self).file(),
                        token_of(
                            old(self).text(),
                            LexTok { kind: TokenKind::Error, start: start as int, end: start + 1 },
                        ).range,
                    ),
                    notes: Seq::empty(),
                },
            ),
    {
        proof {
            lemma_lexer_needles();
            lemma_lexer_codes_valid();
        }
        self.bump();
        self.push_token(TokenKind::Error, start);
        let mut message = String::new();
        message.append("发现无法识别的字符 `");
        message.append(self.slice(start, start + 1));
        message.append("`");
        proof {
            assert(self.text().subrange(start as int, start + 1) =~= seq![character]);
        }
        let end = self.pos;
        self.push_diagnostic(MD_INVALID_CHARACTER, message.as_str(), start, end);
    }

    fn consume_symbol(&mut self, kind: TokenKind, start: usize)
        requires
            old(self).wf(),
            !old(self).finished,
            start == old(self).pos,
            start < old(self).text().len(),
        ensures
            final(self).wf(),
            !final(self).finished,
            final(self).source == old(self).source,
            final(self).pos == start + 1,
            token_views(final(self).tokens@) == token_views(old(self).tokens@).push(
                token_of(old(self).text(), LexTok { kind, start: start as int, end: start + 1 }),
            ),
            final(self).diagnostics@ == old(self).diagnostics@,
    {
        self.bump();
        self.push_token(kind, start);
    }

    fn consume_fixed(&mut self, kind: TokenKind, start: usize, byte_len: usize)
        requires
            old(self).wf(),
            !old(self).finished,
            start == old(self).pos,
            start + byte_len <= old(self).text().len(),
            forall|k: int|
                start <= k < start + byte_len ==> (#[trigger] old(self).text()[k] as u32) < 0x80,
        ensures
            final(self).wf(),
            !final(self).finished,
            final(self).source == old(self).source,
            final(self).pos == start + byte_len,
            token_views(final(self).tokens@) == token_views(old(self).tokens@).push(
                token_of(old(self).text(), LexTok { kind, start: start as int, end: start + byte_len }),
            ),
            final(self).diagnostics@ == old(self).diagnostics@,
    {
        self.consume_bytes(byte_len);
        self.push_token(kind, start);
    }

    /// Pushes a token from `start` to the cursor.
    fn push_token(&mut self, kind: TokenKind, start: usize)
        requires
            old(self).wf(),
            start <= old(self).pos,
        ensures
            final(self).wf(),
            final(self).source == old(self).source,
            final(self).pos == old(self).pos,
            final(self).finished == old(self).finished,
            token_views(final(self).tokens@) == token_views(old(self).tokens@).push(
                token_of(
                    old(self).text(),
                    LexTok { kind, start: start as int, end: old(self).pos as int },
                ),
            ),
            final(self).diagnostics@ == old(self).diagnostics@,
    {
        let end = self.pos;
        proof {
            lemma_byte_offset_mono(self.text(), start as int, end as int);
        }
        let range = TextRange::new(self.source.byte_at(start), self.offset);
        let text = self.slice(start, end).to_owned();
        let ghost before = self.tokens@;
        self.tokens.push(Token { kind, range, text });
        proof {
            assert(token_views(self.tokens@) =~= token_views(before).push(
                token_of(self.text(), LexTok { kind, start: start as int, end: end as int }),
            ));
        }
    }

    /// Pushes an error diagnostic for the character range `start..end`.
    fn push_diagnostic(&mut self, code: &str, message: &str, start: usize, end: usize)
        requires
            old(self).wf(),
            start <= end <= old(self).pos,
            is_valid_code(code@),
        ensures
            final(self).wf(),
            final(self).source == old(self).source,
            final(self).pos == old(self).pos,
            final(self).finished == old(self).finished,
            final(self).tokens@ == old(self).tokens@,
            diagnostic_views(final(self).diagnostics@) == diagnostic_views(old(self).diagnostics@).push(
                DiagnosticView {
                    code: code@,
                    severity: DiagnosticSeverity::Error,
                    message: message@,
                    span: resolved_span(
                        old(self).file(),
                        token_of(
                            old(self).text(),
                            LexTok { kind: TokenKind::Error, start: start as int, end: end as int },
                        ).range,
                    ),
                    notes: Seq::empty(),
                },
            ),
    {
        let code = DiagnosticCode::new(code).unwrap();
        let diagnostic = Diagnostic::new(code, DiagnosticSeverity::Error, message);
        proof {
            lemma_byte_offset_mono(self.text(), start as int, end as int);
        }
        let range = TextRange::new(self.source.byte_at(start), self.source.byte_at(end));
        let diagnostic = match DiagnosticSpan::from_source(self.source, range) {
            Some(span) => diagnostic.with_span(span),
            None => diagnostic,
        };
        let ghost before = self.diagnostics@;
        self.diagnostics.push(diagnostic);
        proof {
            assert(diagnostic_views(self.diagnostics@) =~= diagnostic_views(before).push(
                diagnostic@,
            ));
        }
    }

    /// Whether the remaining text starts with `needle`.
    fn starts_with(&self, needle: &str) -> (r: bool)
        requires
            self.wf(),
        ensures
            r == (self.pos + needle@.len() <= self.text().len() && self.text().subrange(
                self.pos as int,
                self.pos + needle@.len(),
            ) == needle@),
    {
        let n = needle.unicode_len();
        let len = self.source.char_count();
        if n > len - self.pos {
            return false;
        }
        let mut i: usize = 0;
        while i < n
            invariant
                n == needle@.len(),
                len == self.text().len(),
                self.pos + n <= len,
                i <= n,
                forall|j: int| 0 <= j < i ==> self.text()[self.pos + j] == #[trigger] needle@[j],
            decreases n - i,
        {
            if self.source.char_at(self.pos + i) != needle.get_char(i) {
                proof {
                    let sub = self.text().subrange(self.pos as int, self.pos + n);
                    assert(sub[i as int] != needle@[i as int]);
                }
                return false;
            }
            i = i + 1;
        }
        proof {
            assert(self.text().subrange(self.pos as int, self.pos + n) =~= needle@);
        }
        true
    }

    /// Character at the cursor.
    fn current_char(&self) -> (r: Option<char>)
        requires
            self.wf(),
        ensures
            self.pos < self.text().len() ==> r == Some(self.text()[self.pos as int]),
            self.pos >= self.text().len() ==> r is None,
    {
        if self.pos < self.source.char_count() {
            Some(self.source.char_at(self.pos))
        } else {
            None
        }
    }

    /// Advances the cursor past one character.
    fn bump(&mut self) -> (r: Option<char>)
        requires
            old(self).wf(),
        ensures
            final(self).wf(),
            final(self).source == old(self).source,
            final(self).finished == old(self).finished,
            final(self).tokens@ == old(self).tokens@,
            final(self).diagnostics@ == old(self).diagnostics@,
            old(self).pos < old(self).text().len() ==> final(self).pos == old(self).pos + 1 && r
                == Some(old(self).text()[old(self).pos as int]),
            old(self).pos >= old(self).text().len() ==> final(self).pos == old(self).pos && r is None,
    {
        let character = match self.current_char() {
            Some(c) => c,
            None => return None,
        };
        self.pos = self.pos + 1;
        self.offset = self.source.byte_at(self.pos);
        Some(character)
    }

    /// Advances the cursor over `byte_len` ASCII characters.
    fn consume_bytes(&mut self, byte_len: usize)
        requires
            old(self).wf(),
            old(self).pos + byte_len <= old(self).text().len(),
        ensures
            final(self).wf(),
            final(self).source == old(self).source,
            final(self).finished == old(self).finished,
            final(self).tokens@ == old(self).tokens@,
            final(self).diagnostics@ == old(self).diagnostics@,
            final(self).pos == old(self).pos + byte_len,
    {
        let target = self.pos + byte_len;
        while self.pos < target
            invariant
                self.wf(),
                self.source == old(self).source,
                self.finished == old(self).finished,
                self.tokens@ == old(self).tokens@,
                self.diagnostics@ == old(self).diagnostics@,
                old(self).pos <= self.pos <= target,
                target <= self.text().len(),
            decreases target - self.pos,
        {
            self.bump();
        }
    }

    /// Whether the cursor is at the end of the text.
    fn is_eof(&self) -> (r: bool)
        requires
            self.wf(),
        ensures
            r == (self.pos >= self.text().len()),
    {
        proof {
            crate::text::lemma_byte_offset_full(self.text());
            if self.pos < self.text().len() {
                crate::text::lemma_byte_offset_strict(
                    self.text(),
                    self.pos as int,
                    self.text().len() as int,
                );
            }
        }
        self.offset >= self.source.len_bytes()
    }

    /// The text between two character positions.
    fn slice(&self, start: usize, end: usize) -> (r: &str)
        requires
            self.wf(),
            start <= end <= self.text().len(),
        ensures
            r@ == self.text().subrange(start as int, end as int),
    {
        self.source.char_slice(start, end)
    }
}

fn is_identifier_start(character: char) -> (r: bool)
    ensures
        r == ident_start(character),
{
    character == '_' || is_xid_start(character)
}

fn is_identifier_continue(character: char) -> (r: bool)
    ensures
        r == ident_continue(character),
{
    character == '_' || is_xid_continue(character)
}

fn symbol_kind(c: char) -> (r: Option<TokenKind>)
    ensures
        r == single_symbol(c),
{
    match c {
        '(' => Some(TokenKind::LeftParen),
        ')' => Some(TokenKind::RightParen),
        '{' => Some(TokenKind::LeftBrace),
        '}' => Some(TokenKind::RightBrace),
        '[' => Some(TokenKind::LeftBracket),
        ']' => Some(TokenKind::RightBracket),
        ',' => Some(TokenKind::Comma),
        ':' => Some(TokenKind::Colon),
        ';' => Some(TokenKind::Semicolon),
        '.' => Some(TokenKind::Dot),
        '<' => Some(TokenKind::Less),
        '>' => Some(TokenKind::Greater),
        '?' => Some(TokenKind::Question),
        '+' => Some(TokenKind::Plus),
        '*' => Some(TokenKind::Star),
        '/' => Some(TokenKind::Slash),
        _ => None,
    }
}

fn word_token_kind(text: &str) -> (r: TokenKind)
    ensures
        r == word_kind(text@),
{
    if crate::text::str_eq(text, "true") || crate::text::str_eq(text, "false") {
        TokenKind::BoolLiteral
    } else if crate::text::str_eq(text, "module") {
        TokenKind::Keyword(Keyword::Module)
    } else if crate::text::str_eq(text, "import") {
        TokenKind::Keyword(Keyword::Import)
    } else if crate::text::str_eq(text, "fn") {
        TokenKind::Keyword(Keyword::Fn)
    } else if crate::text::str_eq(text, "let") {
        TokenKind::Keyword(Keyword::Let)
    } else if crate::text::str_eq(text, "mut") {
        TokenKind::Keyword(Keyword::Mut)
    } else if crate::text::str_eq(text, "struct") {
        TokenKind::Keyword(Keyword::Struct)
    } else if crate::text::str_eq(text, "enum") {
        TokenKind::Keyword(Keyword::Enum)
    } else if crate::text::str_eq(text, "trait") {
        TokenKind::Keyword(Keyword::Trait)
    } else if crate::text::str_eq(text, "impl") {
        TokenKind::Keyword(Keyword::Impl)
    } else if crate::text::str_eq(text, "if") {
        TokenKind::Keyword(Keyword::If)
    } else if crate::text::str_eq(text, "else") {
        TokenKind::Keyword(Keyword::Else)
    } else if crate::text::str_eq(text, "match") {
        TokenKind::Keyword(Keyword::Match)
    } else if crate::text::str_eq(text, "return") {
        TokenKind::Keyword(Keyword::Return)
    } else {
        TokenKind::Identifier
    }
}

} // verus!
