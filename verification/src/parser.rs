//! Hand-written recursive descent parser with error recovery.
use vstd::prelude::*;
use vstd::string::*;

use crate::ast::{
    expr_span, AstFile, BinaryOp, BlockExpr, EnumDecl, EnumVariant, Expr, FieldDecl,
    FunctionDecl, FunctionParam, ImplDecl, ImportDecl, Item, LetStmt, Literal, MatchArm,
    ModuleDecl, ParamList, Pattern, Statement, StructDecl, TraitDecl, TypeRef,
};
use crate::diagnostic::{
    diagnostic_views, in_source_order, is_valid_code, lemma_sort_by_start, resolved_span, sort_by_start,
    sort_diagnostics_by_start, Diagnostic, DiagnosticCode, DiagnosticSeverity,
    DiagnosticSpan, DiagnosticView,
};
use crate::lexer::{
    lex_from, lex_source, lex_spec, lexed_diagnostics, lexed_tokens, token_views, Keyword, LexTok,
    Token, TokenKind, TokenView, MD_INVALID_CHARACTER, MD_UNTERMINATED_BLOCK_COMMENT,
    MD_UNTERMINATED_STRING,
};
use crate::source::{SourceFile, TextRange};
use crate::text::{byte_len, byte_offset, lemma_byte_offset_full, lemma_byte_offset_mono, owned, str_eq};

verus! {

/// Generic unexpected token parser diagnostic.
pub const MD_UNEXPECTED_TOKEN: &'static str = "MD0201";

/// Expected syntax parser diagnostic.
pub const MD_EXPECTED_SYNTAX: &'static str = "MD0202";

/// Result produced by parsing a source file.
#[derive(Debug)]
pub struct ParseResult {
    /// Parsed AST. It may contain missing nodes when diagnostics are present.
    pub ast: AstFile,
    /// Lexer and parser diagnostics in source order.
    pub diagnostics: Vec<Diagnostic>,
}

/// Whitespace and comments, which the parser skips.
pub open spec fn is_trivia(kind: TokenKind) -> bool {
    kind == TokenKind::Whitespace || kind == TokenKind::LineComment || kind
        == TokenKind::BlockComment
}

/// Keeps the tokens the parser reads.
pub open spec fn significant() -> spec_fn(TokenView) -> Option<TokenView> {
    |t: TokenView|
        if is_trivia(t.kind) {
            None
        } else {
            Some(t)
        }
}

/// Token ranges are ordered, do not overlap, follow each other and end within `len` bytes.
pub open spec fn tokens_in_order(toks: Seq<TokenView>, len: nat) -> bool {
    &&& forall|i: int|
        0 <= i < toks.len() ==> #[trigger] toks[i].range.start <= toks[i].range.end <= len
    &&& forall|i: int, j: int|
        0 <= i < j < toks.len() ==> #[trigger] toks[i].range.end <= #[trigger] toks[j].range.start
}

/// A diagnostic the parser reports: one of its two codes, an error, and no notes.
pub open spec fn is_parser_diagnostic(d: DiagnosticView) -> bool {
    &&& (d.code == MD_UNEXPECTED_TOKEN@ || d.code == MD_EXPECTED_SYNTAX@)
    &&& d.severity == DiagnosticSeverity::Error
    &&& d.notes.len() == 0
}

/// A diagnostic of the lexer or the parser.
pub open spec fn is_syntax_diagnostic(d: DiagnosticView) -> bool {
    &&& (d.code == MD_INVALID_CHARACTER@ || d.code == MD_UNTERMINATED_STRING@ || d.code
        == MD_UNTERMINATED_BLOCK_COMMENT@ || d.code == MD_UNEXPECTED_TOKEN@ || d.code
        == MD_EXPECTED_SYNTAX@)
    &&& d.severity == DiagnosticSeverity::Error
    &&& d.notes.len() == 0
}

/// Every lexer diagnostic is a syntax diagnostic.
pub proof fn lemma_lexed_diagnostics_syntax(file: SourceFile)
    ensures
        forall|k: int|
            0 <= k < lexed_diagnostics(file).len() ==> is_syntax_diagnostic(
                #[trigger] lexed_diagnostics(file)[k],
            ),
{
    crate::lexer::lemma_lexer_codes_valid();
    lemma_diags_of_syntax(file, lex_from(file@.text, 0));
}

proof fn lemma_diags_of_syntax(file: SourceFile, toks: Seq<LexTok>)
    requires
        MD_INVALID_CHARACTER@ == "MD0101"@,
        MD_UNTERMINATED_STRING@ == "MD0102"@,
        MD_UNTERMINATED_BLOCK_COMMENT@ == "MD0103"@,
    ensures
        forall|k: int|
            0 <= k < crate::lexer::diags_of(file, toks).len() ==> is_syntax_diagnostic(
                #[trigger] crate::lexer::diags_of(file, toks)[k],
            ),
    decreases toks.len(),
{
    if toks.len() > 0 {
        lemma_diags_of_syntax(file, toks.drop_last());
        let d = crate::lexer::diags_of(file, toks);
        let prev = crate::lexer::diags_of(file, toks.drop_last());
        assert forall|k: int| 0 <= k < d.len() implies is_syntax_diagnostic(#[trigger] d[k]) by {
            if k < prev.len() {
                assert(d[k] == prev[k]);
            }
        }
    }
}

/// The parser's codes follow the diagnostic code rule.
pub proof fn lemma_parser_codes_valid()
    ensures
        is_valid_code(MD_UNEXPECTED_TOKEN@),
        is_valid_code(MD_EXPECTED_SYNTAX@),
        MD_UNEXPECTED_TOKEN@ == "MD0201"@,
        MD_EXPECTED_SYNTAX@ == "MD0202"@,
{
    reveal_strlit("MD0201");
    reveal_strlit("MD0202");
}

/// `ds` is what parsing `file` reports: the lexer's diagnostics and some parser diagnostics,
/// sorted into source order.
pub open spec fn parse_reports(file: SourceFile, ds: Seq<DiagnosticView>) -> bool {
    exists|pd: Seq<DiagnosticView>|
        (forall|k: int| 0 <= k < pd.len() ==> is_parser_diagnostic(#[trigger] pd[k])) && ds == #[trigger] sort_by_start(
            lexed_diagnostics(file) + pd,
        )
}

/// Parses and lexes one source file.
pub fn parse_source(source: &SourceFile) -> (r: ParseResult)
    ensures
        r.ast.span == (TextRange { start: 0, end: byte_len(source@.text) as usize }),
        in_source_order(diagnostic_views(r.diagnostics@)),
        parse_reports(*source, diagnostic_views(r.diagnostics@)),
        forall|k: int|
            0 <= k < r.diagnostics@.len() ==> is_syntax_diagnostic(#[trigger] r.diagnostics@[k]@),
{
    let lex_result = lex_source(source);
    let _ = source.char_count();
    proof {
        lemma_lexed_in_order(source@.text);
        lemma_lexed_diagnostics_syntax(*source);
        lemma_parser_codes_valid();
        crate::lexer::lemma_lexer_codes_valid();
    }
    let r = Parser::new(source, lex_result.tokens, lex_result.diagnostics).parse();
    proof {
        let lexed = lexed_diagnostics(*source);
        let d = diagnostic_views(r.diagnostics@);
        let pd = choose|pd: Seq<DiagnosticView>|
            (forall|k: int| 0 <= k < pd.len() ==> is_parser_diagnostic(#[trigger] pd[k]))
                && d == #[trigger] sort_by_start(lexed + pd);
        lemma_sort_by_start(lexed + pd);
        assert forall|k: int| 0 <= k < r.diagnostics@.len() implies is_syntax_diagnostic(
            #[trigger] r.diagnostics@[k]@,
        ) by {
            assert(d[k] == r.diagnostics@[k]@);
            assert(d.contains(d[k]));
            assert((lexed + pd).contains(d[k]));
            let m = choose|m: int| 0 <= m < (lexed + pd).len() && (lexed + pd)[m] == d[k];
            if m < lexed.len() {
                assert(lexed[m] == d[k]);
            } else {
                assert(pd[m - lexed.len()] == d[k]);
            }
        }
    }
    r
}

/// Lexed tokens are in order and end within the text.
pub proof fn lemma_lexed_in_order(s: Seq<char>)
    requires
        byte_len(s) <= usize::MAX,
    ensures
        tokens_in_order(lexed_tokens(s), byte_len(s)),
{
    let toks = lex_spec(s);
    lemma_lex_from_chain(s, 0);
    crate::lexer::lemma_lex_from_bounds(s, 0);
    let lf = lex_from(s, 0);
    assert forall|i: int| 0 <= i < toks.len() implies 0 <= #[trigger] toks[i].start <= toks[i].end <= s.len() by {
        if i < lf.len() {
            assert(toks[i] == lf[i]);
        }
    }
    assert forall|i: int, j: int| 0 <= i < j < toks.len() implies #[trigger] toks[i].end <= #[trigger] toks[j].start by {
        assert(toks[i] == lf[i]);
        if j < lf.len() {
            assert(toks[j] == lf[j]);
            assert(lf[i].end <= lf[j].start);
        } else {
            assert(0 <= lf[i].start);
            assert(lf[i].end <= s.len());
        }
    }
    lemma_byte_offset_full(s);
    assert forall|i: int| 0 <= i < lexed_tokens(s).len() implies #[trigger] lexed_tokens(
        s,
    )[i].range.start <= lexed_tokens(s)[i].range.end <= byte_len(s) by {
        lemma_byte_offset_mono(s, toks[i].start, toks[i].end);
        lemma_byte_offset_mono(s, toks[i].end, s.len() as int);
    }
    assert forall|i: int, j: int|
        0 <= i < j < lexed_tokens(s).len() implies #[trigger] lexed_tokens(s)[i].range.end
        <= #[trigger] lexed_tokens(s)[j].range.start by {
        lemma_byte_offset_mono(s, toks[i].end, toks[j].start);
        lemma_byte_offset_mono(s, toks[j].start, s.len() as int);
    }
}

/// Tokens of [`lex_from`] follow each other and all end before the text's end.
proof fn lemma_lex_from_chain(s: Seq<char>, i: int)
    requires
        0 <= i,
    ensures
        forall|a: int, b: int|
            0 <= a < b < lex_from(s, i).len() ==> #[trigger] lex_from(s, i)[a].end <= #[trigger] lex_from(
                s,
                i,
            )[b].start,
    decreases s.len() - i,
{
    if i < s.len() {
        crate::lexer::lemma_lex_from_step(s, i);
        let n = crate::lexer::scan(s.skip(i)).1;
        lemma_lex_from_chain(s, i + n);
        crate::lexer::lemma_lex_from_bounds(s, i + n);
        let l = lex_from(s, i);
        let rest = lex_from(s, i + n);
        assert forall|a: int, b: int| 0 <= a < b < l.len() implies #[trigger] l[a].end <= #[trigger] l[b].start by {
            assert(l[b] == rest[b - 1]);
            if a > 0 {
                assert(l[a] == rest[a - 1]);
            }
        }
    }
}

/// How tightly a binary operator holds its operands: `=` loosest, then the comparisons, then
/// `+` and `-`, then `*` and `/`.
pub open spec fn binding_power(op: BinaryOp) -> int {
    match op {
        BinaryOp::Assign => 1,
        BinaryOp::Less | BinaryOp::Greater => 3,
        BinaryOp::Add | BinaryOp::Subtract => 5,
        BinaryOp::Multiply | BinaryOp::Divide => 7,
    }
}

/// The token that spells a binary operator.
pub open spec fn operator_token(op: BinaryOp) -> TokenKind {
    match op {
        BinaryOp::Assign => TokenKind::Equal,
        BinaryOp::Less => TokenKind::Less,
        BinaryOp::Greater => TokenKind::Greater,
        BinaryOp::Add => TokenKind::Plus,
        BinaryOp::Subtract => TokenKind::Minus,
        BinaryOp::Multiply => TokenKind::Star,
        BinaryOp::Divide => TokenKind::Slash,
    }
}

/// Every binary operation of `e` is spelled in `toks` by its operator's token, which lies after
/// the start of its left operand and before its right operand.
pub open spec fn operators_spelled(e: Expr, toks: Seq<TokenView>) -> bool
    decreases e,
{
    match e {
        Expr::Binary { op, left, right, .. } => {
            &&& operators_spelled(*left, toks)
            &&& operators_spelled(*right, toks)
            &&& exists|i: int|
                0 <= i < toks.len() && (#[trigger] toks[i]).kind == operator_token(op) && expr_span(*left).start
                    <= toks[i].range.start && toks[i].range.end <= expr_span(*right).start
        },
        _ => true,
    }
}

/// Precedence and associativity hold throughout the binary operators of `e`: an operand that is
/// itself a binary operation binds at least as tightly as its parent on the left and strictly
/// more tightly on the right, so equal operators group to the left (`a - b - c` is
/// `(a - b) - c`); only `=` groups to the right (`a = b = c` is `a = (b = c)`).
pub open spec fn operators_associate(e: Expr) -> bool
    decreases e,
{
    match e {
        Expr::Binary { op, left, right, .. } => {
            &&& operators_associate(*left)
            &&& operators_associate(*right)
            &&& (*left matches Expr::Binary { op: l, .. } ==> binding_power(l) >= binding_power(op) && !(l is Assign))
            &&& (*right matches Expr::Binary { op: r, .. } ==> binding_power(r) > binding_power(op) || (op is Assign
                && r is Assign))
        },
        _ => true,
    }
}

/// Hand-written recursive descent parser.
#[derive(Debug)]
pub struct Parser<'source> {
    source: &'source SourceFile,
    tokens: Vec<Token>,
    index: usize,
    diagnostics: Vec<Diagnostic>,
}

/// Whether a function body is required.
#[derive(Clone, Copy, Debug, PartialEq, Eq, Structural)]
enum FunctionBodyMode {
    Required,
    Optional,
}

impl<'source> Parser<'source> {
    /// The source being parsed.
    pub closed spec fn file(&self) -> SourceFile {
        *self.source
    }

    /// The tokens the parser reads: the input without trivia.
    pub closed spec fn significant_tokens(&self) -> Seq<TokenView> {
        token_views(self.tokens@)
    }

    /// Index of the next token.
    pub closed spec fn position(&self) -> int {
        self.index as int
    }

    /// Diagnostics gathered so far.
    pub closed spec fn pending_diagnostics(&self) -> Seq<DiagnosticView> {
        diagnostic_views(self.diagnostics@)
    }

    /// The cursor is within the tokens, which are in order.
    pub closed spec fn wf(&self) -> bool {
        &&& self.index <= self.tokens@.len()
        &&& byte_len(self.source@.text) <= isize::MAX
        &&& tokens_in_order(token_views(self.tokens@), byte_len(self.source@.text))
        &&& self.cur_range().start <= self.cur_range().end
        &&& self.cur_range().end <= byte_len(self.source@.text)
    }

    /// `self` is a later state of `before`: same input, cursor not moved back, diagnostics only
    /// added, and every added one is a parser diagnostic.
    spec fn follows(&self, before: Self) -> bool {
        &&& self.wf()
        &&& self.source == before.source
        &&& self.tokens@ == before.tokens@
        &&& before.index <= self.index
        &&& self.diagnostics@.len() >= before.diagnostics@.len()
        &&& forall|k: int|
            0 <= k < before.diagnostics@.len() ==> #[trigger] self.diagnostics@[k]
                == before.diagnostics@[k]
        &&& forall|k: int|
            before.diagnostics@.len() <= k < self.diagnostics@.len() ==> is_parser_diagnostic(
                #[trigger] self.diagnostics@[k]@,
            )
        &&& before.cur_range().start <= self.cur_range().start
        &&& self.cur_range().start <= self.cur_range().end
    }

    /// Range of the current token, or an empty range at the end of the source.
    spec fn cur_range(&self) -> TextRange {
        if self.index < self.tokens@.len() {
            self.tokens@[self.index as int].range
        } else {
            TextRange {
                start: byte_len(self.source@.text) as usize,
                end: byte_len(self.source@.text) as usize,
            }
        }
    }

    /// The binding power of the binary operator at the current token, or `-1` where there is none.
    spec fn cur_op_power(&self) -> int {
        match self.cur_kind() {
            Some(TokenKind::Equal) => 1,
            Some(TokenKind::Less) | Some(TokenKind::Greater) => 3,
            Some(TokenKind::Plus) | Some(TokenKind::Minus) => 5,
            Some(TokenKind::Star) | Some(TokenKind::Slash) => 7,
            _ => -1,
        }
    }

    spec fn cur_kind(&self) -> Option<TokenKind> {
        if self.index < self.tokens@.len() {
            Some(self.tokens@[self.index as int].kind)
        } else {
            None
        }
    }

    spec fn at_item_start_spec(&self) -> bool {
        ||| self.cur_kind() == Some(TokenKind::Keyword(Keyword::Fn))
        ||| self.cur_kind() == Some(TokenKind::Keyword(Keyword::Struct))
        ||| self.cur_kind() == Some(TokenKind::Keyword(Keyword::Enum))
        ||| self.cur_kind() == Some(TokenKind::Keyword(Keyword::Trait))
        ||| self.cur_kind() == Some(TokenKind::Keyword(Keyword::Impl))
    }

    spec fn at_eof_spec(&self) -> bool {
        self.index >= self.tokens@.len() || self.tokens@[self.index as int].kind == TokenKind::Eof
    }

    /// Moving the cursor one token forward keeps it well formed and never moves back.
    proof fn lemma_step(&self, before: Self)
        requires
            before.wf(),
            self.source == before.source,
            self.tokens@ == before.tokens@,
            before.index < before.tokens@.len(),
            self.index == before.index + 1,
        ensures
            self.wf(),
            before.cur_range().start <= self.cur_range().start,
    {
        self.lemma_cur_ordered();
        let v = token_views(self.tokens@);
        assert(v[before.index as int].range == self.tokens@[before.index as int].range);
        if self.index < self.tokens@.len() {
            assert(v[self.index as int].range == self.tokens@[self.index as int].range);
            assert(v[before.index as int].range.end <= v[self.index as int].range.start);
        }
    }

    /// The current range of a well-formed cursor is ordered.
    proof fn lemma_cur_ordered(&self)
        requires
            self.index <= self.tokens@.len(),
            tokens_in_order(token_views(self.tokens@), byte_len(self.source@.text)),
        ensures
            self.cur_range().start <= self.cur_range().end,
            self.cur_range().end <= byte_len(self.source@.text),
    {
        if self.index < self.tokens@.len() {
            let v = token_views(self.tokens@);
            assert(v[self.index as int].range == self.tokens@[self.index as int].range);
        }
    }

    /// Creates a parser from an existing token stream.
    #[verifier::spinoff_prover]
    pub fn new(source: &'source SourceFile, tokens: Vec<Token>, diagnostics: Vec<Diagnostic>) -> (r:
        Self)
        requires
            tokens_in_order(token_views(tokens@), byte_len(source@.text)),
        ensures
            r.wf(),
            r.file() == *source,
            r.significant_tokens() == token_views(tokens@).filter_map(significant()),
            r.position() == 0,
            r.pending_diagnostics() == diagnostic_views(diagnostics@),
    {
        let _ = source.char_count();
        let ghost input = token_views(tokens@);
        let mut kept: Vec<Token> = Vec::new();
        let mut tokens = tokens;
        let mut i: usize = 0;
        proof {
            assert(token_views(kept@) =~= input.take(0).filter_map(significant()));
        }
        while i < tokens.len()
            invariant
                i <= tokens@.len(),
                input == token_views(tokens@),
                tokens_in_order(input, byte_len(source@.text)),
                token_views(kept@) == input.take(i as int).filter_map(significant()),
                tokens_in_order(token_views(kept@), byte_len(source@.text)),
                kept@.len() > 0 ==> forall|j: int|
                    i <= j < input.len() ==> kept@.last().range.end <= #[trigger] input[j].range.start,
            decreases tokens@.len() - i,
        {
            let kind = tokens[i].kind;
            let ghost before = kept@;
            if !is_trivia_kind(kind) {
                let t = Token {
                    kind: tokens[i].kind,
                    range: tokens[i].range,
                    text: tokens[i].text.clone(),
                };
                proof {
                    assert(input[i as int] == tokens@[i as int]@);
                }
                kept.push(t);
                proof {
                    let kb = token_views(before);
                    let kv = token_views(kept@);
                    assert(kv =~= kb.push(t@));
                    assert(kv[kv.len() - 1] == input[i as int]);
                    assert forall|a: int| 0 <= a < kv.len() implies #[trigger] kv[a].range.start
                        <= kv[a].range.end <= byte_len(source@.text) by {
                        if a < before.len() {
                            assert(kv[a] == kb[a]);
                        }
                    }
                    assert forall|a: int, b: int| 0 <= a < b < kv.len() implies #[trigger] kv[a].range.end
                        <= #[trigger] kv[b].range.start by {
                        assert(kv[a] == kb[a]);
                        if b < before.len() {
                            assert(kv[b] == kb[b]);
                            assert(kb[a].range.end <= kb[b].range.start);
                        } else {
                            let last = before.len() - 1;
                            assert(kb[last] == before.last()@);
                            assert(before.last().range.end <= input[i as int].range.start);
                            if a < last {
                                assert(kb[a].range.end <= kb[last].range.start);
                                assert(kb[last].range.start <= kb[last].range.end);
                            }
                        }
                    }
                    assert(kept@.last()@ == input[i as int]);
                    assert forall|j: int| i + 1 <= j < input.len() implies kept@.last().range.end
                        <= #[trigger] input[j].range.start by {
                        assert(input[i as int].range.end <= input[j].range.start);
                    }
                }
            }
            proof {
                input.lemma_filter_map_take_succ(significant(), i as int);
                assert(input[i as int].kind == kind);
            }
            i = i + 1;
        }
        proof {
            assert(input.take(tokens@.len() as int) =~= input);
        }
        let r = Parser { source, tokens: kept, index: 0, diagnostics };
        proof {
            r.lemma_cur_ordered();
        }
        r
    }

    /// Parses the token stream.
    pub fn parse(self) -> (r: ParseResult)
        requires
            self.wf(),
        ensures
            r.ast.span == (TextRange { start: 0, end: byte_len(self.file()@.text) as usize }),
            in_source_order(diagnostic_views(r.diagnostics@)),
            exists|pd: Seq<DiagnosticView>|
                (forall|k: int| 0 <= k < pd.len() ==> is_parser_diagnostic(#[trigger] pd[k]))
                    && diagnostic_views(r.diagnostics@) == #[trigger] sort_by_start(self.pending_diagnostics() + pd),
    {
        let mut p = self;
        let ghost start = p;
        let mut module: Option<ModuleDecl> = None;
        let mut imports: Vec<ImportDecl> = Vec::new();
        let mut items: Vec<Item> = Vec::new();
        while !p.at_eof()
            invariant
                p.follows(start),
                start.wf(),
            decreases p.tokens@.len() - p.index,
        {
            if p.at_keyword(Keyword::Module) {
                if module.is_some() {
                    p.error_current("重复的 module 声明");
                }
                module = Some(p.parse_module_decl());
            } else if p.at_keyword(Keyword::Import) {
                imports.push(p.parse_import_decl());
            } else if p.at_item_start() {
                match p.parse_item() {
                    Some(item) => {
                        items.push(item);
                    },
                    None => {},
                }
            } else {
                p.error_current("顶层只能出现 module、import 或声明");
                p.recover_top_level();
            }
        }
        let len = p.source.len_bytes();
        let ast = AstFile { span: TextRange::new(0, len), module, imports, items };
        let ghost all = diagnostic_views(p.diagnostics@);
        let ghost n = start.diagnostics@.len() as int;
        proof {
            assert(all.take(n) =~= diagnostic_views(start.diagnostics@));
            let pd = all.skip(n);
            assert(all =~= self.pending_diagnostics() + pd);
            assert forall|k: int| 0 <= k < pd.len() implies is_parser_diagnostic(#[trigger] pd[k]) by {
                assert(pd[k] == p.diagnostics@[n + k]@);
            }
            lemma_sort_by_start(all);
        }
        let diagnostics = sort_diagnostics_by_start(p.diagnostics);
        ParseResult { ast, diagnostics }
    }

    fn parse_module_decl(&mut self) -> (r: ModuleDecl)
        requires
            old(self).wf(),
            old(self).cur_kind() == Some(TokenKind::Keyword(Keyword::Module)),
        ensures
            final(self).follows(*old(self)),
            final(self).index > old(self).index,
            r.span.start == old(self).cur_range().start,
            r.span.start <= r.span.end,
    {
        let ghost entry = *self;
        let start = self.advance().range.start;
        let (path, path_span) = self.parse_path_segments("需要 module 路径");
        self.consume_optional_semicolon();
        ModuleDecl { path, span: TextRange::new(start, path_span.end) }
    }

    fn parse_import_decl(&mut self) -> (r: ImportDecl)
        requires
            old(self).wf(),
            old(self).cur_kind() == Some(TokenKind::Keyword(Keyword::Import)),
        ensures
            final(self).follows(*old(self)),
            final(self).index > old(self).index,
            r.span.start == old(self).cur_range().start,
            r.span.start <= r.span.end,
    {
        let start = self.advance().range.start;
        let (path, path_span) = self.parse_path_segments("需要 import 路径");
        self.consume_optional_semicolon();
        ImportDecl { path, span: TextRange::new(start, path_span.end) }
    }

    fn parse_item(&mut self) -> (r: Option<Item>)
        requires
            old(self).wf(),
            old(self).at_item_start_spec(),
        ensures
            final(self).follows(*old(self)),
            final(self).index > old(self).index,
    {
        if self.at_keyword(Keyword::Fn) {
            Some(Item::Function(self.parse_function_decl(FunctionBodyMode::Optional)))
        } else if self.at_keyword(Keyword::Struct) {
            Some(Item::Struct(self.parse_struct_decl()))
        } else if self.at_keyword(Keyword::Enum) {
            Some(Item::Enum(self.parse_enum_decl()))
        } else if self.at_keyword(Keyword::Trait) {
            Some(Item::Trait(self.parse_trait_decl()))
        } else if self.at_keyword(Keyword::Impl) {
            Some(Item::Impl(self.parse_impl_decl()))
        } else {
            self.error_current("需要声明");
            self.recover_top_level();
            None
        }
    }
}

impl<'source> Parser<'source> {
    fn parse_function_decl(&mut self, body_mode: FunctionBodyMode) -> (r: FunctionDecl)
        requires
            old(self).wf(),
            old(self).cur_kind() == Some(TokenKind::Keyword(Keyword::Fn)),
        ensures
            final(self).follows(*old(self)),
            final(self).index > old(self).index,
            r.span.start == old(self).cur_range().start,
            r.span.start <= r.span.end,
    {
        let ghost entry = *self;
        let start = self.expect_keyword(Keyword::Fn, "`fn`").range.start;
        let (name, name_span) = self.parse_identifier("需要函数名");
        let generics = self.parse_generic_params();
        let params = self.parse_param_list();
        let return_type = if self.at_kind(TokenKind::Arrow) {
            self.advance();
            Some(self.parse_type_ref("需要返回类型"))
        } else {
            None
        };
        let body = if self.at_kind(TokenKind::LeftBrace) {
            Some(self.parse_block_expr())
        } else {
            match body_mode {
                FunctionBodyMode::Required => {
                    self.error_current("需要函数体");
                },
                FunctionBodyMode::Optional => {},
            }
            self.consume_optional_semicolon();
            None
        };
        let end = match &body {
            Some(body) => body.span.end,
            None => match &return_type {
                Some(ty) => ty.span.end,
                None => name_span.end,
            },
        };
        FunctionDecl {
            name,
            generics,
            params,
            return_type,
            body,
            span: TextRange::new(start, end),
        }
    }

    fn parse_generic_params(&mut self) -> (r: Vec<String>)
        requires
            old(self).wf(),
        ensures
            final(self).follows(*old(self)),
            old(self).cur_kind() != Some(TokenKind::Less) ==> r@.len() == 0 && *final(self) == *old(self),
            old(self).cur_kind() == Some(TokenKind::Less) ==> final(self).index > old(self).index,
            forall|k: int|
                0 <= k < r@.len() ==> #[trigger] consumed_identifier(
                    old(self).tokens@,
                    old(self).index as int,
                    final(self).index as int,
                    r@[k]@,
                ),
    {
        if !self.at_kind(TokenKind::Less) {
            return Vec::new();
        }
        self.advance();
        let mut params: Vec<String> = Vec::new();
        let ghost entry = *old(self);
        let ghost mut at: Seq<int> = Seq::empty();
        while !self.at_eof() && !self.at_kind(TokenKind::Greater)
            invariant
                self.follows(entry),
                entry.wf(),
                self.index > entry.index,
                at.len() == params@.len(),
                forall|k: int|
                    0 <= k < params@.len() ==> entry.index < #[trigger] at[k] < self.index
                        && entry.tokens@[at[k]].kind == TokenKind::Identifier
                        && entry.tokens@[at[k]].text@ == params@[k]@,
            decreases self.tokens@.len() - self.index,
        {
            let ghost i0 = self.index as int;
            let (name, _) = self.parse_identifier("需要泛型参数名");
            match name {
                Some(name) => {
                    params.push(name);
                    proof {
                        at = at.push(i0);
                    }
                },
                None => {},
            }
            if !self.consume_comma_or_stop(TokenKind::Greater) {
                break;
            }
        }
        let ghost at_end = at;
        let ghost before_close = self.index;
                self.expect_kind(TokenKind::Greater, "`>`");
        proof {
            assert forall|k: int| 0 <= k < params@.len() implies #[trigger] consumed_identifier(
                old(self).tokens@,
                old(self).index as int,
                self.index as int,
                params@[k]@,
            ) by {
                assert(old(self).index < at_end[k] < self.index);
                assert(old(self).tokens@[at_end[k]].kind == TokenKind::Identifier);
            }
        }
        params
    }

    fn parse_param_list(&mut self) -> (r: ParamList)
        requires
            old(self).wf(),
        ensures
            final(self).follows(*old(self)),
            r.span.start == old(self).cur_range().start,
            r.span.start <= r.span.end,
    {
        let ghost entry = *self;
        let start = self.expect_kind(TokenKind::LeftParen, "`(`").range.start;
        let mut params: Vec<FunctionParam> = Vec::new();
        while !self.at_eof() && !self.at_kind(TokenKind::RightParen)
            invariant
                self.follows(entry),
                entry.wf(),
                start == entry.cur_range().start,
            decreases self.tokens@.len() - self.index,
        {
            let param_start = self.current_range().start;
            let (name, name_span) = self.parse_identifier("需要参数名");
            let ty = if self.at_kind(TokenKind::Colon) {
                self.advance();
                Some(self.parse_type_ref("需要参数类型"))
            } else {
                self.error_current("需要参数类型");
                None
            };
            let end = match &ty {
                Some(ty) => ty.span.end,
                None => name_span.end,
            };
            params.push(FunctionParam { name, ty, span: TextRange::new(param_start, end) });
            if !self.consume_comma_or_stop(TokenKind::RightParen) {
                break;
            }
        }
        let end = self.expect_kind(TokenKind::RightParen, "`)`").range.end;
        ParamList { params, span: TextRange::new(start, end) }
    }

    fn parse_struct_decl(&mut self) -> (r: StructDecl)
        requires
            old(self).wf(),
            old(self).cur_kind() == Some(TokenKind::Keyword(Keyword::Struct)),
        ensures
            final(self).follows(*old(self)),
            final(self).index > old(self).index,
            r.span.start == old(self).cur_range().start,
            r.span.start <= r.span.end,
    {
        let ghost entry = *self;
        let start = self.expect_keyword(Keyword::Struct, "`struct`").range.start;
        let (name, name_span) = self.parse_identifier("需要 struct 名称");
        let generics = self.parse_generic_params();
        let mut fields: Vec<FieldDecl> = Vec::new();
        if self.at_kind(TokenKind::LeftBrace) {
            self.advance();
            while !self.at_eof() && !self.at_kind(TokenKind::RightBrace)
                invariant
                    self.follows(entry),
                    entry.wf(),
                    self.index > entry.index,
                    start == entry.cur_range().start,
                decreases self.tokens@.len() - self.index,
            {
                fields.push(self.parse_field_decl());
                if !self.consume_comma_or_stop(TokenKind::RightBrace) {
                    break;
                }
            }
            let end = self.expect_kind(TokenKind::RightBrace, "`}`").range.end;
            StructDecl { name, generics, fields, span: TextRange::new(start, end) }
        } else {
            self.error_current("需要 struct 字段块");
            StructDecl { name, generics, fields, span: TextRange::new(start, name_span.end) }
        }
    }

    fn parse_field_decl(&mut self) -> (r: FieldDecl)
        requires
            old(self).wf(),
        ensures
            final(self).follows(*old(self)),
            r.span.start == old(self).cur_range().start,
            r.span.start <= r.span.end,
    {
        let start = self.current_range().start;
        let (name, name_span) = self.parse_identifier("需要字段名");
        let ty = if self.at_kind(TokenKind::Colon) {
            self.advance();
            Some(self.parse_type_ref("需要字段类型"))
        } else {
            self.error_current("需要字段类型");
            None
        };
        let end = match &ty {
            Some(ty) => ty.span.end,
            None => name_span.end,
        };
        FieldDecl { name, ty, span: TextRange::new(start, end) }
    }

    fn parse_enum_decl(&mut self) -> (r: EnumDecl)
        requires
            old(self).wf(),
            old(self).cur_kind() == Some(TokenKind::Keyword(Keyword::Enum)),
        ensures
            final(self).follows(*old(self)),
            final(self).index > old(self).index,
            r.span.start == old(self).cur_range().start,
            r.span.start <= r.span.end,
    {
        let ghost entry = *self;
        let start = self.expect_keyword(Keyword::Enum, "`enum`").range.start;
        let (name, name_span) = self.parse_identifier("需要 enum 名称");
        let generics = self.parse_generic_params();
        let mut variants: Vec<EnumVariant> = Vec::new();
        if self.at_kind(TokenKind::LeftBrace) {
            self.advance();
            while !self.at_eof() && !self.at_kind(TokenKind::RightBrace)
                invariant
                    self.follows(entry),
                    entry.wf(),
                    self.index > entry.index,
                    start == entry.cur_range().start,
                decreases self.tokens@.len() - self.index,
            {
                variants.push(self.parse_enum_variant());
                if !self.consume_comma_or_stop(TokenKind::RightBrace) {
                    break;
                }
            }
            let end = self.expect_kind(TokenKind::RightBrace, "`}`").range.end;
            EnumDecl { name, generics, variants, span: TextRange::new(start, end) }
        } else {
            self.error_current("需要 enum 变体块");
            EnumDecl { name, generics, variants, span: TextRange::new(start, name_span.end) }
        }
    }

    fn parse_enum_variant(&mut self) -> (r: EnumVariant)
        requires
            old(self).wf(),
        ensures
            final(self).follows(*old(self)),
            r.span.start == old(self).cur_range().start,
            r.span.start <= r.span.end,
    {
        let ghost entry = *self;
        let start = self.current_range().start;
        let (name, name_span) = self.parse_identifier("需要 enum 变体名");
        let mut fields: Vec<TypeRef> = Vec::new();
        let mut end = name_span.end;
        if self.at_kind(TokenKind::LeftParen) {
            self.advance();
            while !self.at_eof() && !self.at_kind(TokenKind::RightParen)
                invariant
                    self.follows(entry),
                    entry.wf(),
                    start == entry.cur_range().start,
                decreases self.tokens@.len() - self.index,
            {
                fields.push(self.parse_type_ref("需要变体载荷类型"));
                if !self.consume_comma_or_stop(TokenKind::RightParen) {
                    break;
                }
            }
            end = self.expect_kind(TokenKind::RightParen, "`)`").range.end;
        }
        EnumVariant { name, fields, span: TextRange::new(start, end) }
    }

    fn parse_trait_decl(&mut self) -> (r: TraitDecl)
        requires
            old(self).wf(),
            old(self).cur_kind() == Some(TokenKind::Keyword(Keyword::Trait)),
        ensures
            final(self).follows(*old(self)),
            final(self).index > old(self).index,
            r.span.start == old(self).cur_range().start,
            r.span.start <= r.span.end,
    {
        let ghost entry = *self;
        let start = self.expect_keyword(Keyword::Trait, "`trait`").range.start;
        let (name, name_span) = self.parse_identifier("需要 trait 名称");
        let generics = self.parse_generic_params();
        let mut functions: Vec<FunctionDecl> = Vec::new();
        if self.at_kind(TokenKind::LeftBrace) {
            self.advance();
            while !self.at_eof() && !self.at_kind(TokenKind::RightBrace)
                invariant
                    self.follows(entry),
                    entry.wf(),
                    self.index > entry.index,
                    start == entry.cur_range().start,
                decreases self.tokens@.len() - self.index,
            {
                if self.at_keyword(Keyword::Fn) {
                    functions.push(self.parse_function_decl(FunctionBodyMode::Optional));
                } else {
                    self.error_current("trait 中只能出现函数签名");
                    self.recover_member();
                }
            }
            let end = self.expect_kind(TokenKind::RightBrace, "`}`").range.end;
            TraitDecl { name, generics, functions, span: TextRange::new(start, end) }
        } else {
            self.error_current("需要 trait 声明块");
            TraitDecl { name, generics, functions, span: TextRange::new(start, name_span.end) }
        }
    }

    fn parse_impl_decl(&mut self) -> (r: ImplDecl)
        requires
            old(self).wf(),
            old(self).cur_kind() == Some(TokenKind::Keyword(Keyword::Impl)),
        ensures
            final(self).follows(*old(self)),
            final(self).index > old(self).index,
            r.span.start == old(self).cur_range().start,
            r.span.start <= r.span.end,
    {
        let ghost entry = *self;
        let start = self.expect_keyword(Keyword::Impl, "`impl`").range.start;
        let first_type = self.parse_type_ref("需要 impl 目标类型");
        let (trait_path, target) = if self.at_identifier_text("for") {
            self.advance();
            let second = self.parse_type_ref("需要 impl 目标类型");
            (Some(first_type), Some(second))
        } else {
            (None, Some(first_type))
        };
        let mut methods: Vec<FunctionDecl> = Vec::new();
        if self.at_kind(TokenKind::LeftBrace) {
            self.advance();
            while !self.at_eof() && !self.at_kind(TokenKind::RightBrace)
                invariant
                    self.follows(entry),
                    entry.wf(),
                    self.index > entry.index,
                    start == entry.cur_range().start,
                decreases self.tokens@.len() - self.index,
            {
                if self.at_keyword(Keyword::Fn) {
                    methods.push(self.parse_function_decl(FunctionBodyMode::Required));
                } else {
                    self.error_current("impl 中只能出现方法声明");
                    self.recover_member();
                }
            }
            let end = self.expect_kind(TokenKind::RightBrace, "`}`").range.end;
            ImplDecl { trait_path, target, methods, span: TextRange::new(start, end) }
        } else {
            self.error_current("需要 impl 声明块");
            let end = match &target {
                Some(ty) => ty.span.end,
                None => start,
            };
            ImplDecl { trait_path, target, methods, span: TextRange::new(start, end) }
        }
    }

    fn parse_block_expr(&mut self) -> (r: BlockExpr)
        requires
            old(self).wf(),
            old(self).cur_kind() == Some(TokenKind::LeftBrace),
        ensures
            final(self).follows(*old(self)),
            final(self).index > old(self).index,
            r.span.start == old(self).cur_range().start,
            r.span.start <= r.span.end,
        decreases old(self).tokens@.len() - old(self).index, 5nat,
    {
        let ghost entry = *self;
        let start = self.expect_kind(TokenKind::LeftBrace, "`{`").range.start;
        let mut statements: Vec<Statement> = Vec::new();
        while !self.at_eof() && !self.at_kind(TokenKind::RightBrace)
            invariant
                self.follows(entry),
                entry.wf(),
                entry == *old(self),
                self.index > entry.index,
                start == entry.cur_range().start,
            decreases self.tokens@.len() - self.index,
        {
            if self.at_keyword(Keyword::Let) {
                statements.push(Statement::Let(self.parse_let_stmt()));
            } else if self.at_keyword(Keyword::Return) {
                statements.push(self.parse_return_stmt());
            } else {
                let expr = self.parse_expr();
                self.consume_optional_semicolon();
                statements.push(Statement::Expr(expr));
            }
        }
        let end = self.expect_kind(TokenKind::RightBrace, "`}`").range.end;
        BlockExpr { statements, span: TextRange::new(start, end) }
    }

    fn parse_let_stmt(&mut self) -> (r: LetStmt)
        requires
            old(self).wf(),
            old(self).cur_kind() == Some(TokenKind::Keyword(Keyword::Let)),
        ensures
            final(self).follows(*old(self)),
            final(self).index > old(self).index,
            r.span.start == old(self).cur_range().start,
            r.span.start <= r.span.end,
        decreases old(self).tokens@.len() - old(self).index, 4nat,
    {
        let ghost entry = *self;
        let start = self.expect_keyword(Keyword::Let, "`let`").range.start;
        let mutable = if self.at_keyword(Keyword::Mut) {
            self.advance();
            true
        } else {
            false
        };
        let (name, name_span) = self.parse_identifier("需要绑定名");
        let ty = if self.at_kind(TokenKind::Colon) {
            self.advance();
            Some(self.parse_type_ref("需要类型标注"))
        } else {
            None
        };
        let value = if self.at_kind(TokenKind::Equal) {
            self.advance();
            Some(self.parse_expr())
        } else {
            None
        };
        self.consume_optional_semicolon();
        let end = match &value {
            Some(expr) => expr.span().end,
            None => match &ty {
                Some(ty) => ty.span.end,
                None => name_span.end,
            },
        };
        LetStmt { mutable, name, ty, value, span: TextRange::new(start, end) }
    }

    fn parse_return_stmt(&mut self) -> (r: Statement)
        requires
            old(self).wf(),
            old(self).cur_kind() == Some(TokenKind::Keyword(Keyword::Return)),
        ensures
            final(self).follows(*old(self)),
            final(self).index > old(self).index,
            crate::ast::statement_span(r).start == old(self).cur_range().start,
            crate::ast::statement_span(r).start <= crate::ast::statement_span(r).end,
        decreases old(self).tokens@.len() - old(self).index, 4nat,
    {
        let ghost entry = *self;
        let start = self.expect_keyword(Keyword::Return, "`return`").range.start;
        let expr = if self.at_kind(TokenKind::Semicolon) || self.at_kind(TokenKind::RightBrace) {
            None
        } else {
            Some(self.parse_expr())
        };
        self.consume_optional_semicolon();
        let end = match &expr {
            Some(expr) => expr.span().end,
            None => start + 6,
        };
        Statement::Return { expr, span: TextRange::new(start, end) }
    }

    fn parse_expr(&mut self) -> (r: Expr)
        requires
            old(self).wf(),
        ensures
            final(self).follows(*old(self)),
            !old(self).at_eof_spec() ==> final(self).index > old(self).index,
            expr_span(r).start == old(self).cur_range().start,
            expr_span(r).start <= expr_span(r).end,
        decreases old(self).tokens@.len() - old(self).index, 9nat,
    {
        self.parse_binary_expr(0)
    }

    fn parse_binary_expr(&mut self, min_binding_power: u8) -> (r: Expr)
        requires
            old(self).wf(),
        ensures
            final(self).follows(*old(self)),
            !old(self).at_eof_spec() ==> final(self).index > old(self).index,
            expr_span(r).start == old(self).cur_range().start,
            expr_span(r).start <= expr_span(r).end,
            operators_associate(r),
            operators_spelled(r, token_views(old(self).tokens@)),
            r matches Expr::Binary { op, .. } ==> binding_power(op) >= min_binding_power,
            final(self).cur_op_power() < min_binding_power,
        decreases old(self).tokens@.len() - old(self).index, 8nat,
    {
        let ghost entry = *self;
        let mut left = self.parse_postfix_expr();
        loop
            invariant
                self.follows(entry),
                entry.wf(),
                entry == *old(self),
                !entry.at_eof_spec() ==> self.index > entry.index,
                expr_span(left).start == entry.cur_range().start,
                expr_span(left).start <= expr_span(left).end,
                operators_associate(left),
                operators_spelled(left, token_views(entry.tokens@)),
                left matches Expr::Binary { op, .. } ==> (binding_power(op) >= min_binding_power && (op is Assign
                    ==> self.cur_op_power() < 1) && (!(op is Assign) ==> self.cur_op_power() <= binding_power(op))),
            ensures
                operators_associate(left),
                operators_spelled(left, token_views(entry.tokens@)),
                left matches Expr::Binary { op, .. } ==> binding_power(op) >= min_binding_power,
                self.cur_op_power() < min_binding_power,
            decreases self.tokens@.len() - self.index,
        {
            let (op, left_power, right_power) = match self.current_binary_op() {
                Some(found) => found,
                None => {
                    break;
                },
            };
            if left_power < min_binding_power {
                break;
            }
            let ghost at_op = *self;
            self.advance();
            let ghost after_op = *self;
            proof {
                let toks = token_views(entry.tokens@);
                let i = at_op.index as int;
                assert(after_op.index == i + 1);
                assert(toks[i] == entry.tokens@[i]@);
                if i + 1 < toks.len() {
                    assert(toks[i + 1] == entry.tokens@[i + 1]@);
                    assert(toks[i].range.end <= toks[i + 1].range.start);
                }
                assert(toks[i].range.end <= after_op.cur_range().start);
            }
            let right = self.parse_binary_expr(right_power);
            let span = TextRange::new(left.span().start, right.span().end);
            proof {
                let toks = token_views(entry.tokens@);
                let i = at_op.index as int;
                assert(toks[i].kind == operator_token(op));
                assert(expr_span(left).start <= toks[i].range.start);
                assert(toks[i].range.end <= expr_span(right).start);
            }
            left = Expr::Binary { op, left: Box::new(left), right: Box::new(right), span };
        }
        left
    }

    fn parse_postfix_expr(&mut self) -> (r: Expr)
        requires
            old(self).wf(),
        ensures
            final(self).follows(*old(self)),
            !old(self).at_eof_spec() ==> final(self).index > old(self).index,
            expr_span(r).start == old(self).cur_range().start,
            expr_span(r).start <= expr_span(r).end,
            !(r is Binary),
        decreases old(self).tokens@.len() - old(self).index, 7nat,
    {
        let ghost entry = *self;
        let mut expr = self.parse_primary_expr();
        loop
            invariant
                self.follows(entry),
                entry.wf(),
                entry == *old(self),
                !entry.at_eof_spec() ==> self.index > entry.index,
                expr_span(expr).start == entry.cur_range().start,
                expr_span(expr).start <= expr_span(expr).end,
                !(expr is Binary),
            decreases self.tokens@.len() - self.index,
        {
            if self.at_kind(TokenKind::LeftParen) {
                let start = expr.span().start;
                let mut args: Vec<Expr> = Vec::new();
                self.advance();
                let ghost inner = *self;
                while !self.at_eof() && !self.at_kind(TokenKind::RightParen)
                    invariant
                        self.follows(inner),
                        inner.follows(entry),
                        entry.wf(),
                        entry == *old(self),
                        self.index > entry.index,
                    decreases self.tokens@.len() - self.index,
                {
                    args.push(self.parse_expr());
                    if !self.consume_comma_or_stop(TokenKind::RightParen) {
                        break;
                    }
                }
                let end = self.expect_kind(TokenKind::RightParen, "`)`").range.end;
                expr = Expr::Call { callee: Box::new(expr), args, span: TextRange::new(start, end) };
            } else if self.at_kind(TokenKind::Question) {
                let start = expr.span().start;
                let end = self.advance().range.end;
                expr = Expr::Try { expr: Box::new(expr), span: TextRange::new(start, end) };
            } else {
                break;
            }
        }
        expr
    }

    fn parse_primary_expr(&mut self) -> (r: Expr)
        requires
            old(self).wf(),
        ensures
            final(self).follows(*old(self)),
            !old(self).at_eof_spec() ==> final(self).index > old(self).index,
            expr_span(r).start == old(self).cur_range().start,
            expr_span(r).start <= expr_span(r).end,
            !(r is Binary),
        decreases old(self).tokens@.len() - old(self).index, 6nat,
    {
        if self.at_kind(TokenKind::IntegerLiteral) {
            let token = self.advance();
            Expr::Literal { literal: Literal::Integer(token.text), span: token.range }
        } else if self.at_kind(TokenKind::BoolLiteral) {
            let token = self.advance();
            let value = str_eq(token.text.as_str(), "true");
            Expr::Literal { literal: Literal::Bool(value), span: token.range }
        } else if self.at_kind(TokenKind::StringLiteral) {
            let token = self.advance();
            Expr::Literal { literal: Literal::String(token.text), span: token.range }
        } else if self.at_kind(TokenKind::Identifier) {
            let (path, span) = self.parse_path_segments("需要路径表达式");
            Expr::Path { path, span }
        } else if self.at_kind(TokenKind::LeftBrace) {
            Expr::Block(self.parse_block_expr())
        } else if self.at_keyword(Keyword::If) {
            self.parse_if_expr()
        } else if self.at_keyword(Keyword::Match) {
            self.parse_match_expr()
        } else {
            let span = self.current_range();
            self.error_current("需要表达式");
            if !self.at_eof() {
                self.advance();
            }
            Expr::Missing { span }
        }
    }

    fn parse_if_expr(&mut self) -> (r: Expr)
        requires
            old(self).wf(),
            old(self).cur_kind() == Some(TokenKind::Keyword(Keyword::If)),
        ensures
            final(self).follows(*old(self)),
            final(self).index > old(self).index,
            expr_span(r).start == old(self).cur_range().start,
            expr_span(r).start <= expr_span(r).end,
            r is If,
        decreases old(self).tokens@.len() - old(self).index, 5nat,
    {
        let ghost entry = *self;
        let start = self.expect_keyword(Keyword::If, "`if`").range.start;
        let condition = self.parse_expr();
        let then_block = if self.at_kind(TokenKind::LeftBrace) {
            self.parse_block_expr()
        } else {
            self.error_current("需要 if 代码块");
            BlockExpr { statements: Vec::new(), span: TextRange::at(condition.span().end) }
        };
        let else_branch = if self.at_keyword(Keyword::Else) {
            self.advance();
            if self.at_keyword(Keyword::If) {
                Some(Box::new(self.parse_if_expr()))
            } else if self.at_kind(TokenKind::LeftBrace) {
                Some(Box::new(Expr::Block(self.parse_block_expr())))
            } else {
                self.error_current("需要 else 分支");
                None
            }
        } else {
            None
        };
        let end = match &else_branch {
            Some(other) => other.span().end,
            None => then_block.span.end,
        };
        Expr::If {
            condition: Box::new(condition),
            then_block,
            else_branch,
            span: TextRange::new(start, end),
        }
    }

    fn parse_match_expr(&mut self) -> (r: Expr)
        requires
            old(self).wf(),
            old(self).cur_kind() == Some(TokenKind::Keyword(Keyword::Match)),
        ensures
            final(self).follows(*old(self)),
            final(self).index > old(self).index,
            expr_span(r).start == old(self).cur_range().start,
            expr_span(r).start <= expr_span(r).end,
            r is Match,
        decreases old(self).tokens@.len() - old(self).index, 5nat,
    {
        let ghost entry = *self;
        let start = self.expect_keyword(Keyword::Match, "`match`").range.start;
        let scrutinee = self.parse_expr();
        let mut arms: Vec<MatchArm> = Vec::new();
        if self.at_kind(TokenKind::LeftBrace) {
            self.advance();
            while !self.at_eof() && !self.at_kind(TokenKind::RightBrace)
                invariant
                    self.follows(entry),
                    entry.wf(),
                    entry == *old(self),
                    self.index > entry.index,
                    start == entry.cur_range().start,
                decreases self.tokens@.len() - self.index,
            {
                arms.push(self.parse_match_arm());
                if !self.consume_comma_or_stop(TokenKind::RightBrace) {
                    break;
                }
            }
            let end = self.expect_kind(TokenKind::RightBrace, "`}`").range.end;
            Expr::Match { scrutinee: Box::new(scrutinee), arms, span: TextRange::new(start, end) }
        } else {
            self.error_current("需要 match 分支块");
            let end = scrutinee.span().end;
            Expr::Match { scrutinee: Box::new(scrutinee), arms, span: TextRange::new(start, end) }
        }
    }

    fn parse_match_arm(&mut self) -> (r: MatchArm)
        requires
            old(self).wf(),
        ensures
            final(self).follows(*old(self)),
            r.span.start == old(self).cur_range().start,
            r.span.start <= r.span.end,
        decreases old(self).tokens@.len() - old(self).index, 10nat,
    {
        let ghost entry = *self;
        let start = self.current_range().start;
        let pattern = self.parse_pattern();
        self.expect_kind(TokenKind::FatArrow, "`=>`");
        let expr = self.parse_expr();
        let end = expr.span().end;
        MatchArm { pattern, expr, span: TextRange::new(start, end) }
    }

    fn parse_pattern(&mut self) -> (r: Pattern)
        requires
            old(self).wf(),
        ensures
            final(self).follows(*old(self)),
            crate::ast::pattern_span(r).start == old(self).cur_range().start,
    {
        if self.at_identifier_text("_") {
            let token = self.advance();
            Pattern::Wildcard { span: token.range }
        } else if self.at_kind(TokenKind::IntegerLiteral) {
            let token = self.advance();
            Pattern::Literal { literal: Literal::Integer(token.text), span: token.range }
        } else if self.at_kind(TokenKind::BoolLiteral) {
            let token = self.advance();
            let value = str_eq(token.text.as_str(), "true");
            Pattern::Literal { literal: Literal::Bool(value), span: token.range }
        } else if self.at_kind(TokenKind::StringLiteral) {
            let token = self.advance();
            Pattern::Literal { literal: Literal::String(token.text), span: token.range }
        } else if self.at_kind(TokenKind::Identifier) {
            let (mut path, span) = self.parse_path_segments("需要模式");
            if path.len() == 1 {
                let name = path.pop().unwrap();
                Pattern::Binding { name, span }
            } else {
                Pattern::Path { path, span }
            }
        } else {
            let span = self.current_range();
            self.error_current("需要模式");
            if !self.at_eof() {
                self.advance();
            }
            Pattern::Wildcard { span }
        }
    }

    fn parse_type_ref(&mut self, message: &str) -> (r: TypeRef)
        requires
            old(self).wf(),
        ensures
            final(self).follows(*old(self)),
            r.span.start == old(self).cur_range().start,
            r.span.start <= r.span.end,
        decreases old(self).tokens@.len() - old(self).index,
    {
        let ghost entry = *self;
        let (path, first_span) = self.parse_path_segments(message);
        let mut span = first_span;
        let mut generic_args: Vec<TypeRef> = Vec::new();
        if self.at_kind(TokenKind::Less) {
            self.advance();
            while !self.at_eof() && !self.at_kind(TokenKind::Greater)
                invariant
                    self.follows(entry),
                    entry.wf(),
                    entry == *old(self),
                    self.index > entry.index,
                    span.start == entry.cur_range().start,
                    span.start <= span.end,
                decreases self.tokens@.len() - self.index,
            {
                let arg = self.parse_type_ref("需要泛型实参类型");
                span = TextRange::new(span.start, arg.span.end);
                generic_args.push(arg);
                if !self.consume_comma_or_stop(TokenKind::Greater) {
                    break;
                }
            }
            let close = self.expect_kind(TokenKind::Greater, "`>`").range.end;
            span = TextRange::new(span.start, close);
        }
        TypeRef { path, generic_args, span }
    }

    fn parse_path_segments(&mut self, message: &str) -> (r: (Vec<String>, TextRange))
        requires
            old(self).wf(),
        ensures
            final(self).follows(*old(self)),
            r.1.start == old(self).cur_range().start,
            r.1.start <= r.1.end,
            old(self).cur_kind() == Some(TokenKind::Identifier) ==> final(self).index > old(self).index,
    {
        let ghost entry = *self;
        let start = self.current_range().start;
        let (first, first_span) = self.parse_identifier(message);
        let mut span = first_span;
        let mut path: Vec<String> = Vec::new();
        match first {
            Some(first) => {
                path.push(first);
            },
            None => {},
        }
        while self.at_kind(TokenKind::Dot)
            invariant
                self.follows(entry),
                entry.wf(),
                start == entry.cur_range().start,
                span.start == start,
                span.start <= span.end,
                entry.cur_kind() == Some(TokenKind::Identifier) ==> self.index > entry.index,
            decreases self.tokens@.len() - self.index,
        {
            self.advance();
            let (segment, segment_span) = self.parse_identifier("需要路径片段");
            match segment {
                Some(segment) => {
                    path.push(segment);
                },
                None => {},
            }
            span = TextRange::new(start, segment_span.end);
        }
        if path.len() == 0 {
            path.push(owned("<missing>"));
        }
        (path, span)
    }

    fn parse_identifier(&mut self, message: &str) -> (r: (Option<String>, TextRange))
        requires
            old(self).wf(),
        ensures
            final(self).follows(*old(self)),
            r.1 == old(self).cur_range(),
            old(self).cur_kind() == Some(TokenKind::Identifier) ==> final(self).index == old(self).index + 1,
            r.0 matches Some(name) ==> old(self).cur_kind() == Some(TokenKind::Identifier)
                && name@ == old(self).tokens@[old(self).index as int].text@,
    {
        if self.at_kind(TokenKind::Identifier) {
            let token = self.advance();
            (Some(token.text), token.range)
        } else {
            let span = self.current_range();
            self.push_expected(message, span);
            (None, span)
        }
    }

    fn current_binary_op(&self) -> (r: Option<(BinaryOp, u8, u8)>)
        ensures
            r is Some ==> self.index < self.tokens@.len(),
            r == match self.cur_kind() {
                Some(TokenKind::Equal) => Some((BinaryOp::Assign, 1u8, 1u8)),
                Some(TokenKind::Less) => Some((BinaryOp::Less, 3u8, 4u8)),
                Some(TokenKind::Greater) => Some((BinaryOp::Greater, 3u8, 4u8)),
                Some(TokenKind::Plus) => Some((BinaryOp::Add, 5u8, 6u8)),
                Some(TokenKind::Minus) => Some((BinaryOp::Subtract, 5u8, 6u8)),
                Some(TokenKind::Star) => Some((BinaryOp::Multiply, 7u8, 8u8)),
                Some(TokenKind::Slash) => Some((BinaryOp::Divide, 7u8, 8u8)),
                _ => None,
            },
    {
        match self.current_kind() {
            Some(TokenKind::Equal) => Some((BinaryOp::Assign, 1, 1)),
            Some(TokenKind::Less) => Some((BinaryOp::Less, 3, 4)),
            Some(TokenKind::Greater) => Some((BinaryOp::Greater, 3, 4)),
            Some(TokenKind::Plus) => Some((BinaryOp::Add, 5, 6)),
            Some(TokenKind::Minus) => Some((BinaryOp::Subtract, 5, 6)),
            Some(TokenKind::Star) => Some((BinaryOp::Multiply, 7, 8)),
            Some(TokenKind::Slash) => Some((BinaryOp::Divide, 7, 8)),
            _ => None,
        }
    }

    fn expect_keyword(&mut self, keyword: Keyword, expected: &str) -> (r: Token)
        requires
            old(self).wf(),
        ensures
            final(self).follows(*old(self)),
            r.range == old(self).cur_range(),
            old(self).cur_kind() == Some(TokenKind::Keyword(keyword)) ==> final(self).index == old(self).index + 1,
    {
        if self.at_keyword(keyword) {
            self.advance()
        } else {
            let mut message = owned("需要 ");
            message.append(expected);
            let range = self.current_range();
            self.push_expected(message.as_str(), range);
            self.synthetic_token()
        }
    }

    fn expect_kind(&mut self, kind: TokenKind, expected: &str) -> (r: Token)
        requires
            old(self).wf(),
            !(kind is Keyword),
        ensures
            final(self).follows(*old(self)),
            r.range == old(self).cur_range(),
            old(self).cur_kind() == Some(kind) ==> final(self).index == old(self).index + 1,
    {
        if self.at_kind(kind) {
            self.advance()
        } else {
            let mut message = owned("需要 ");
            message.append(expected);
            let range = self.current_range();
            self.push_expected(message.as_str(), range);
            self.synthetic_token()
        }
    }

    fn consume_optional_semicolon(&mut self) -> (r: bool)
        requires
            old(self).wf(),
        ensures
            final(self).follows(*old(self)),
            r ==> final(self).index == old(self).index + 1,
            r == (old(self).cur_kind() == Some(TokenKind::Semicolon)),
    {
        if self.at_kind(TokenKind::Semicolon) {
            self.advance();
            true
        } else {
            false
        }
    }

    fn consume_comma_or_stop(&mut self, stop: TokenKind) -> (r: bool)
        requires
            old(self).wf(),
            !(stop is Keyword),
        ensures
            final(self).follows(*old(self)),
            r ==> final(self).index > old(self).index,
            old(self).cur_kind() == Some(TokenKind::Comma) ==> r && final(self).index == old(self).index
                + 1 && final(self).diagnostics@ == old(self).diagnostics@,
            old(self).cur_kind() != Some(TokenKind::Comma) && (old(self).cur_kind() == Some(stop) || (
            stop == TokenKind::RightParen && old(self).cur_kind() == Some(TokenKind::LeftBrace)))
                ==> !r && *final(self) == *old(self),
            old(self).cur_kind() != Some(TokenKind::Comma) && old(self).cur_kind() != Some(stop) && !(
            stop == TokenKind::RightParen && old(self).cur_kind() == Some(TokenKind::LeftBrace)) ==> {
                &&& final(self).diagnostics@.len() == old(self).diagnostics@.len() + 1
                &&& final(self).diagnostics@[old(self).diagnostics@.len() as int]@.message
                    == "需要 `,` 或列表结束"@
                &&& r ==> final(self).tokens@[final(self).index - 1].kind == TokenKind::Comma
            },
    {
        if self.at_kind(TokenKind::Comma) {
            self.advance();
            true
        } else if self.at_kind(stop) || (stop == TokenKind::RightParen && self.at_kind(
            TokenKind::LeftBrace,
        )) {
            false
        } else {
            self.error_current("需要 `,` 或列表结束");
            self.recover_list(stop);
            if self.at_kind(TokenKind::Comma) {
                self.advance();
                true
            } else {
                false
            }
        }
    }

    fn at_item_start(&self) -> (r: bool)
        ensures
            r == self.at_item_start_spec(),
    {
        self.at_keyword(Keyword::Fn) || self.at_keyword(Keyword::Struct) || self.at_keyword(
            Keyword::Enum,
        ) || self.at_keyword(Keyword::Trait) || self.at_keyword(Keyword::Impl)
    }

    fn at_keyword(&self, keyword: Keyword) -> (r: bool)
        ensures
            r == (self.cur_kind() == Some(TokenKind::Keyword(keyword))),
    {
        match self.current_kind() {
            Some(TokenKind::Keyword(current)) => current == keyword,
            _ => false,
        }
    }

    /// Whether the current token has a non-keyword kind.
    fn at_kind(&self, kind: TokenKind) -> (r: bool)
        ensures
            r == (self.cur_kind() == Some(kind) && !(kind is Keyword)),
    {
        match self.current_kind() {
            Some(current) => !matches!(kind, TokenKind::Keyword(_)) && current == kind,
            None => false,
        }
    }

    fn at_identifier_text(&self, text: &str) -> (r: bool)
        ensures
            r ==> self.cur_kind() == Some(TokenKind::Identifier),
            r == (self.cur_kind() == Some(TokenKind::Identifier) && self.tokens@[self.index as int].text@
                == text@),
    {
        if self.index < self.tokens.len() {
            let token = &self.tokens[self.index];
            token.kind == TokenKind::Identifier && str_eq(token.text.as_str(), text)
        } else {
            false
        }
    }

    fn at_eof(&self) -> (r: bool)
        ensures
            r == self.at_eof_spec(),
    {
        self.at_kind(TokenKind::Eof) || self.index >= self.tokens.len()
    }

    fn current_kind(&self) -> (r: Option<TokenKind>)
        ensures
            r == self.cur_kind(),
    {
        if self.index < self.tokens.len() {
            Some(self.tokens[self.index].kind)
        } else {
            None
        }
    }

    fn current_range(&self) -> (r: TextRange)
        ensures
            r == self.cur_range(),
    {
        if self.index < self.tokens.len() {
            self.tokens[self.index].range
        } else {
            TextRange::at(self.source.len_bytes())
        }
    }

    fn advance(&mut self) -> (r: Token)
        requires
            old(self).wf(),
        ensures
            final(self).follows(*old(self)),
            final(self).diagnostics@ == old(self).diagnostics@,
            r.range == old(self).cur_range(),
            r.kind == TokenKind::Error || old(self).cur_kind() == Some(r.kind),
            old(self).index < old(self).tokens@.len() ==> final(self).index == old(self).index + 1,
            old(self).index >= old(self).tokens@.len() ==> final(self).index == old(self).index,
            old(self).index < old(self).tokens@.len() ==> r.text@ == old(self).tokens@[old(self).index as int].text@,
    {
        let token = if self.index < self.tokens.len() {
            let current = &self.tokens[self.index];
            Token { kind: current.kind, range: current.range, text: current.text.clone() }
        } else {
            self.synthetic_token()
        };
        if self.index < self.tokens.len() {
            self.index = self.index + 1;
            proof {
                self.lemma_step(*old(self));
            }
        }
        token
    }

    fn synthetic_token(&self) -> (r: Token)
        ensures
            r.kind == TokenKind::Error,
            r.range == self.cur_range(),
    {
        let range = self.current_range();
        Token { kind: TokenKind::Error, range, text: String::new() }
    }

    fn error_current(&mut self, message: &str)
        requires
            old(self).wf(),
        ensures
            final(self).follows(*old(self)),
            final(self).index == old(self).index,
            final(self).diagnostics@.len() == old(self).diagnostics@.len() + 1,
            final(self).diagnostics@.last()@.message == message@,
    {
        let range = self.current_range();
        self.push_diagnostic(MD_UNEXPECTED_TOKEN, message, range);
    }

    fn push_expected(&mut self, message: &str, range: TextRange)
        requires
            old(self).wf(),
        ensures
            final(self).follows(*old(self)),
            final(self).index == old(self).index,
    {
        self.push_diagnostic(MD_EXPECTED_SYNTAX, message, range);
    }

    fn push_diagnostic(&mut self, code: &str, message: &str, range: TextRange)
        requires
            old(self).wf(),
            code@ == MD_UNEXPECTED_TOKEN@ || code@ == MD_EXPECTED_SYNTAX@,
        ensures
            final(self).follows(*old(self)),
            final(self).index == old(self).index,
            final(self).diagnostics@.len() == old(self).diagnostics@.len() + 1,
            final(self).diagnostics@.last()@ == (DiagnosticView {
                code: code@,
                severity: DiagnosticSeverity::Error,
                message: message@,
                span: resolved_span(*old(self).source, range),
                notes: Seq::empty(),
            }),
    {
        proof {
            lemma_parser_codes_valid();
        }
        let code = DiagnosticCode::new(code).unwrap();
        let diagnostic = Diagnostic::new(code, DiagnosticSeverity::Error, message);
        let diagnostic = match DiagnosticSpan::from_source(self.source, range) {
            Some(span) => diagnostic.with_span(span),
            None => diagnostic,
        };
        self.diagnostics.push(diagnostic);
    }

    fn recover_top_level(&mut self)
        requires
            old(self).wf(),
        ensures
            final(self).follows(*old(self)),
            !old(self).at_eof_spec() && !old(self).at_item_start_spec() && old(self).cur_kind()
                != Some(TokenKind::Keyword(Keyword::Module)) && old(self).cur_kind() != Some(
                TokenKind::Keyword(Keyword::Import),
            ) ==> final(self).index > old(self).index,
    {
        let ghost entry = *self;
        while !self.at_eof() && !self.at_keyword(Keyword::Module) && !self.at_keyword(
            Keyword::Import,
        ) && !self.at_item_start()
            invariant
                self.follows(entry),
                entry.wf(),
                !entry.at_eof_spec() && !entry.at_item_start_spec() && entry.cur_kind() != Some(
                    TokenKind::Keyword(Keyword::Module),
                ) && entry.cur_kind() != Some(TokenKind::Keyword(Keyword::Import))
                    ==> self.index > entry.index || self.index == entry.index,
            decreases self.tokens@.len() - self.index,
        {
            self.advance();
        }
    }

    fn recover_member(&mut self)
        requires
            old(self).wf(),
            !old(self).at_eof_spec(),
        ensures
            final(self).follows(*old(self)),
            final(self).index > old(self).index,
    {
        let ghost entry = *self;
        let start_index = self.index;
        while !self.at_eof() && !self.at_kind(TokenKind::RightBrace) && !self.at_kind(
            TokenKind::Semicolon,
        ) && !self.at_kind(TokenKind::Comma) && !self.at_keyword(Keyword::Fn)
            invariant
                self.follows(entry),
                entry.wf(),
            decreases self.tokens@.len() - self.index,
        {
            self.advance();
        }
        let consumed = self.consume_optional_semicolon();
        if !consumed && self.index == start_index {
            // A stray token that stops recovery is skipped so that parsing moves on.
            self.advance();
        }
    }

    fn recover_list(&mut self, stop: TokenKind)
        requires
            old(self).wf(),
            !(stop is Keyword),
        ensures
            final(self).follows(*old(self)),
            final(self).diagnostics@ == old(self).diagnostics@,
            final(self).at_eof_spec() || final(self).cur_kind() == Some(stop) || final(self).cur_kind()
                == Some(TokenKind::Comma),
            forall|i: int|
                old(self).index <= i < final(self).index ==> (#[trigger] final(self).tokens@[i]).kind
                    != stop && final(self).tokens@[i].kind != TokenKind::Comma
                    && final(self).tokens@[i].kind != TokenKind::Eof,
    {
        let ghost entry = *self;
        while !self.at_eof() && !self.at_kind(stop) && !self.at_kind(TokenKind::Comma)
            invariant
                self.follows(entry),
                entry.wf(),
                self.diagnostics@ == entry.diagnostics@,
                !(stop is Keyword),
                forall|i: int|
                    entry.index <= i < self.index ==> (#[trigger] self.tokens@[i]).kind != stop
                        && self.tokens@[i].kind != TokenKind::Comma && self.tokens@[i].kind
                        != TokenKind::Eof,
            decreases self.tokens@.len() - self.index,
        {
            let ghost i0 = self.index as int;
            assert(self.tokens@[i0].kind != stop && self.tokens@[i0].kind != TokenKind::Comma
                && self.tokens@[i0].kind != TokenKind::Eof);
            self.advance();
        }
    }
}

/// Some identifier token strictly between positions `from` and `to` has text `name`.
spec fn consumed_identifier(tokens: Seq<Token>, from: int, to: int, name: Seq<char>) -> bool {
    exists|i: int|
        from < i < to && (#[trigger] tokens[i]).kind == TokenKind::Identifier && tokens[i].text@ == name
}

fn is_trivia_kind(kind: TokenKind) -> (r: bool)
    ensures
        r == is_trivia(kind),
{
    matches!(kind, TokenKind::Whitespace | TokenKind::LineComment | TokenKind::BlockComment)
}

} // verus!
