use maodie_compiler::highlight::{highlight_source, HighlightKind, HighlightResult, HighlightToken};
use maodie_compiler::incremental::{
    HighlightEdit, IncrementalHighlightError, IncrementalHighlightSession,
};
use maodie_compiler::lexer::{lex_source, MD_INVALID_CHARACTER};
use maodie_compiler::source::{SourceFile, SourceId, TextRange};

#[test]
fn maps_lexer_tokens_to_highlight_kinds() {
    let source = SourceFile::new(
        SourceId::new(1),
        "highlight.mao",
        "module demo\nfn main<T>(value: T) -> bool {\n  let flag = true\n  let n = 42\n  let s = \"ok\"\n  // hi\n  flag?\n}\n",
    );

    let result = highlight_source(&source);

    assert!(result.diagnostics.is_empty());
    assert_eq!(
        dump_tokens(&result.tokens),
        "\
keyword@0..6
identifier@7..11
keyword@12..14
identifier@15..19
operator@19..20
identifier@20..21
operator@21..22
punctuation@22..23
identifier@23..28
punctuation@28..29
identifier@30..31
punctuation@31..32
operator@33..35
identifier@36..40
punctuation@41..42
keyword@45..48
identifier@49..53
operator@54..55
boolean@56..60
keyword@63..66
identifier@67..68
operator@69..70
number@71..73
keyword@76..79
identifier@80..81
operator@82..83
string@84..88
comment@91..96
identifier@99..103
operator@103..104
punctuation@105..106"
    );
}

#[test]
fn omits_whitespace_and_eof_tokens() {
    let source = SourceFile::new(SourceId::new(1), "empty-ish.mao", "  \n\t");
    let result = highlight_source(&source);

    assert!(result.tokens.is_empty());
    assert!(result.diagnostics.is_empty());
}

#[test]
fn preserves_error_tokens_and_lexer_diagnostics() {
    let source = SourceFile::new(SourceId::new(1), "bad.mao", "let x = @");
    let result = highlight_source(&source);

    assert_eq!(result.diagnostics.len(), 1);
    assert_eq!(result.diagnostics[0].code.as_str(), MD_INVALID_CHARACTER);
    assert!(result.tokens.contains(&HighlightToken {
        kind: HighlightKind::Error,
        range: TextRange::new(8, 9),
    }));
}

#[test]
fn creates_session_matching_full_highlight() {
    let source = source("module 示例\nfn main() -> bool { true }\n");
    let session = IncrementalHighlightSession::new(source.clone());

    assert_eq!(session.version(), 0);
    assert_eq!(session.tokens(), highlight_source(&source).tokens);
    assert_eq!(session.diagnostics(), highlight_source(&source).diagnostics);
}

#[test]
fn updates_chinese_identifier_and_emoji_edits() {
    assert_edit_sequence_matches_full(
        "fn main() {\n  let 名称 = 1\n}\n",
        &[
            TestEdit::replace("名称", "值称"),
            TestEdit::insert_after_text("值称", "🙂"),
        ],
    );
}

#[test]
fn updates_arrow_and_fat_arrow_boundaries() {
    assert_edit_sequence_matches_full(
        "fn map<T>(x: T) - bool { match x { _ = x } }\n",
        &[TestEdit::insert_after("-"), TestEdit::insert_after("=")],
    );
}

#[test]
fn updates_block_comment_open_and_close() {
    assert_edit_sequence_matches_full(
        "fn main() {\n  /* comment\n  let x = 1\n}\n",
        &[
            TestEdit::insert_after_text("comment", " */"),
            TestEdit::delete("/*"),
        ],
    );
}

#[test]
fn updates_unclosed_string_recovery() {
    assert_edit_sequence_matches_full(
        "fn main() {\n  let text = \"未闭合\n  return text\n}\n",
        &[TestEdit::insert_after_text("未闭合", "\"")],
    );
}

#[test]
fn updates_invalid_character_recovery() {
    assert_edit_sequence_matches_full(
        "fn main() {\n  let x = @\n}\n",
        &[TestEdit::replace("@", "42")],
    );
}

#[test]
fn handles_full_source_replacement() {
    let initial = "module old\nfn main() { false }\n";
    let mut session = IncrementalHighlightSession::new(source(initial));

    session
        .update(HighlightEdit {
            range: TextRange::new(0, initial.len()),
            replacement: "module 新\nfn main() -> bool { true }\n".to_owned(),
        })
        .expect("full source replacement range is valid");

    assert_session_matches_full(&session);
}

#[test]
fn reset_increments_version_and_rebuilds() {
    let mut session = IncrementalHighlightSession::new(source("let x = 1\n"));
    let next_source = source("let 名 = \"ok\"\n");

    let update = session.reset(next_source.clone());

    assert_eq!(update.version, 1);
    assert!(update.full_rehighlight);
    assert_eq!(
        update.changed_range,
        TextRange::new(0, next_source.len_bytes())
    );
    assert_session_matches_full(&session);
}

#[test]
fn rejects_ranges_that_split_utf8_codepoints() {
    let mut session = IncrementalHighlightSession::new(source("let 名 = 1\n"));

    let error = session
        .update(HighlightEdit {
            range: TextRange::new(5, 6),
            replacement: "x".to_owned(),
        })
        .expect_err("range splits a Chinese codepoint");

    assert_eq!(
        error,
        IncrementalHighlightError::InvalidEditRange {
            range: TextRange::new(5, 6),
            source_len: "let 名 = 1\n".len(),
        }
    );
    assert_eq!(session.version(), 0);
}

#[test]
fn update_reports_changed_range_and_shifts_suffix() {
    let mut session = IncrementalHighlightSession::new(source("let a = 1\nlet b = 2\n"));
    let update = session
        .update(HighlightEdit {
            range: TextRange::new(4, 5),
            replacement: "alpha".to_owned(),
        })
        .expect("edit range is valid");

    assert_eq!(update.version, 1);
    assert!(!update.full_rehighlight);
    assert_eq!(session.source().text(), "let alpha = 1\nlet b = 2\n");
    assert!(update.changed_range.start <= 4);
    assert!(update.changed_range.end >= 9);
    assert_session_matches_full(&session);
}

#[test]
fn rejects_ranges_past_the_end() {
    let mut session = IncrementalHighlightSession::new(source("let x = 1"));
    let error = session
        .update(HighlightEdit {
            range: TextRange::new(3, 40),
            replacement: String::new(),
        })
        .expect_err("range ends past the source");
    assert_eq!(
        error,
        IncrementalHighlightError::InvalidEditRange {
            range: TextRange::new(3, 40),
            source_len: 9,
        }
    );
    assert_eq!(session.source().text(), "let x = 1");
}

fn assert_edit_sequence_matches_full(initial: &str, edits: &[TestEdit]) {
    let mut session = IncrementalHighlightSession::new(source(initial));

    for edit in edits {
        let edit = edit.resolve(session.source().text());
        let update = session
            .update(edit)
            .expect("edit range is valid for current source");
        assert_eq!(update.version, session.version());
        assert_session_matches_full(&session);
    }
}

fn assert_session_matches_full(session: &IncrementalHighlightSession) {
    let full = highlight_source(session.source());
    assert_eq!(session.tokens(), full.tokens);
    assert_eq!(session.diagnostics(), full.diagnostics);
    assert_eq!(
        HighlightResult {
            tokens: session.tokens().to_vec(),
            diagnostics: session.diagnostics().to_vec(),
        },
        full
    );
}

fn source(text: &str) -> SourceFile {
    SourceFile::new(SourceId::new(1), "incremental.mao", text)
}

struct TestEdit {
    needle: &'static str,
    offset_in_needle: usize,
    delete_len: usize,
    replacement: &'static str,
}

impl TestEdit {
    const fn replace(needle: &'static str, replacement: &'static str) -> Self {
        Self {
            needle,
            offset_in_needle: 0,
            delete_len: needle.len(),
            replacement,
        }
    }

    const fn delete(needle: &'static str) -> Self {
        Self::replace(needle, "")
    }

    const fn insert_after(needle: &'static str) -> Self {
        Self::insert_after_text(needle, ">")
    }

    const fn insert_after_text(needle: &'static str, replacement: &'static str) -> Self {
        Self {
            needle,
            offset_in_needle: needle.len(),
            delete_len: 0,
            replacement,
        }
    }

    fn resolve(&self, source: &str) -> HighlightEdit {
        let start =
            source.find(self.needle).expect("test edit needle exists") + self.offset_in_needle;
        HighlightEdit {
            range: TextRange::new(start, start + self.delete_len),
            replacement: self.replacement.to_owned(),
        }
    }
}

fn dump_tokens(tokens: &[HighlightToken]) -> String {
    tokens
        .iter()
        .map(|token| {
            format!(
                "{}@{}..{}",
                dump_kind(token.kind),
                token.range.start,
                token.range.end
            )
        })
        .collect::<Vec<_>>()
        .join("\n")
}

fn dump_kind(kind: HighlightKind) -> &'static str {
    match kind {
        HighlightKind::Keyword => "keyword",
        HighlightKind::Identifier => "identifier",
        HighlightKind::Comment => "comment",
        HighlightKind::String => "string",
        HighlightKind::Number => "number",
        HighlightKind::Boolean => "boolean",
        HighlightKind::Operator => "operator",
        HighlightKind::Punctuation => "punctuation",
        HighlightKind::Error => "error",
    }
}

#[test]
fn falls_back_to_full_pass_when_prefix_would_be_stale() {
    let mut session = IncrementalHighlightSession::new(source("x \"s\" y"));
    let update = session
        .update(HighlightEdit {
            range: TextRange::new(0, 5),
            replacement: "yy".to_owned(),
        })
        .expect("edit range is valid");
    assert_eq!(session.source().text(), "yy y");
    assert_eq!(update.version, 1);
    assert_session_matches_full(&session);
    assert_eq!(session.lex_tokens(), lex_source(session.source()).tokens.as_slice());
}
