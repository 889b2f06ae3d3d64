use maodie_compiler::diagnostic::DiagnosticSeverity;
use maodie_compiler::highlight::HighlightKind;
use maodie_compiler::source::TextRange;
use maodie_compiler::wasm_api::{
    create_highlight_session_response, highlight_error_response,
    highlight_session_error_response, highlight_source_for_json,
    reset_highlight_session_for_json, update_highlight_session_for_json, HighlightOptions,
    HighlightSessionOptions, HighlightSessionResetOptions, HighlightSessionUpdateRequest,
};

#[test]
fn highlights_source_to_json_contract() {
    let response = highlight_source_for_json(
        "\
module demo

fn main() -> bool {
  return true
}
",
        HighlightOptions { source_path: Some("highlight.mao".to_owned()) },
    );

    assert!(response.ok, "{:#?}", response.diagnostics);
    assert!(response.diagnostics.is_empty());
    assert!(response.tokens.iter().any(|token| token.kind == HighlightKind::Keyword));
    assert!(response.tokens.iter().any(|token| token.kind == HighlightKind::Boolean));
}

#[test]
fn reports_highlight_lexer_diagnostics_without_compile_outputs() {
    let response = highlight_source_for_json("let x = @", HighlightOptions::default());

    assert!(!response.ok);
    assert!(response.tokens.iter().any(|token| token.kind == HighlightKind::Error));
    assert_eq!(response.diagnostics[0].severity.as_str(), "error");
    assert_eq!(response.diagnostics[0].code.as_str(), "MD0101");
}

#[test]
fn creates_updates_and_resets_highlight_session_contract() {
    let create = create_highlight_session_response(
        "let x = 1\n",
        HighlightSessionOptions {
            source_path: Some("session.mao".to_owned()),
            editor_version: Some(7),
        },
    );

    assert!(create.ok, "{:#?}", create.diagnostics);
    assert_eq!(create.editor_version, 7);
    assert_eq!(create.session_version, 0);
    assert_eq!(create.changed_range, TextRange { start: 0, end: 10 });
    assert!(create.full_rehighlight);
    assert!(create.session_handle.is_some());

    let mut handle = create.session_handle.expect("session handle");
    let update = update_highlight_session_for_json(
        &mut handle,
        HighlightSessionUpdateRequest {
            editor_version: 8,
            session_version: 0,
            range: TextRange { start: 8, end: 9 },
            replacement: "2".to_owned(),
        },
    );

    assert!(update.ok, "{:#?}", update.diagnostics);
    assert_eq!(update.editor_version, 8);
    assert_eq!(update.session_version, 1);
    assert!(!update.full_rehighlight);
    assert!(update.tokens.iter().any(|token| token.kind == HighlightKind::Number));

    let reset = reset_highlight_session_for_json(
        &mut handle,
        "let y = @\n",
        HighlightSessionResetOptions {
            source_path: Some("reset.mao".to_owned()),
            editor_version: Some(9),
        },
    );

    assert!(!reset.ok);
    assert_eq!(reset.editor_version, 9);
    assert_eq!(reset.session_version, 2);
    assert!(reset.full_rehighlight);
    assert_eq!(reset.diagnostics[0].code.as_str(), "MD0101");
}

#[test]
fn rejects_stale_highlight_session_update_versions() {
    let create = create_highlight_session_response(
        "let x = 1\n",
        HighlightSessionOptions { source_path: None, editor_version: Some(1) },
    );
    let mut handle = create.session_handle.expect("session handle");
    let first = update_highlight_session_for_json(
        &mut handle,
        HighlightSessionUpdateRequest {
            editor_version: 2,
            session_version: 0,
            range: TextRange { start: 8, end: 9 },
            replacement: "2".to_owned(),
        },
    );
    let stale = update_highlight_session_for_json(
        &mut handle,
        HighlightSessionUpdateRequest {
            editor_version: 3,
            session_version: 0,
            range: TextRange { start: 8, end: 9 },
            replacement: "3".to_owned(),
        },
    );

    assert!(first.ok);
    assert!(!stale.ok);
    assert_eq!(stale.session_version, 1);
    assert_eq!(stale.diagnostics[0].code.as_str(), "MD9000");
    assert!(stale.diagnostics[0].message.contains("version mismatch"));
}

#[test]
fn stale_update_message_names_both_versions() {
    let create = create_highlight_session_response(
        "let x = 1\n",
        HighlightSessionOptions::default(),
    );
    let mut handle = create.session_handle.expect("session handle");
    let stale = update_highlight_session_for_json(
        &mut handle,
        HighlightSessionUpdateRequest {
            editor_version: 4,
            session_version: 12,
            range: TextRange { start: 0, end: 0 },
            replacement: String::new(),
        },
    );

    assert_eq!(
        stale.diagnostics[0].message,
        "highlight session version mismatch: request version 12, current version 0"
    );
    assert_eq!(stale.editor_version, 4);
    assert_eq!(stale.session_version, 0);
    assert_eq!(handle.session().version(), 0);
    assert_eq!(handle.source_path(), "<memory>");
}

#[test]
fn out_of_range_update_leaves_session_unchanged() {
    let create = create_highlight_session_response(
        "let x = 1\n",
        HighlightSessionOptions { source_path: Some("a.mao".to_owned()), editor_version: None },
    );
    assert_eq!(create.editor_version, 0);
    let mut handle = create.session_handle.expect("session handle");
    let update = update_highlight_session_for_json(
        &mut handle,
        HighlightSessionUpdateRequest {
            editor_version: 5,
            session_version: 0,
            range: TextRange { start: 4, end: 40 },
            replacement: "z".to_owned(),
        },
    );

    assert!(!update.ok);
    assert_eq!(
        update.diagnostics[0].message,
        "invalid highlight edit range 4..40 for source length 10"
    );
    assert_eq!(update.session_version, 0);
    assert_eq!(update.changed_range, TextRange { start: 0, end: 0 });
    assert!(update.tokens.is_empty());
    assert_eq!(handle.session().version(), 0);
    assert_eq!(handle.session().source().text(), "let x = 1\n");
}

#[test]
fn reset_without_path_keeps_session_path() {
    let create = create_highlight_session_response(
        "let x = 1\n",
        HighlightSessionOptions { source_path: Some("keep.mao".to_owned()), editor_version: None },
    );
    let mut handle = create.session_handle.expect("session handle");
    let reset = reset_highlight_session_for_json(
        &mut handle,
        "let yy = 2\n",
        HighlightSessionResetOptions::default(),
    );

    assert!(reset.ok);
    assert_eq!(reset.editor_version, 0);
    assert_eq!(reset.session_version, 1);
    assert_eq!(reset.changed_range, TextRange { start: 0, end: 11 });
    assert_eq!(handle.source_path(), "keep.mao");
}

#[test]
fn error_responses_carry_one_api_diagnostic() {
    let highlight = highlight_error_response("highlight options are invalid JSON".to_owned());
    assert!(!highlight.ok);
    assert!(highlight.tokens.is_empty());
    assert_eq!(highlight.diagnostics.len(), 1);
    assert_eq!(highlight.diagnostics[0].code.as_str(), "MD9000");
    assert_eq!(highlight.diagnostics[0].severity, DiagnosticSeverity::Error);

    let session = highlight_session_error_response("handle is null".to_owned(), None, 3, 4);
    assert!(!session.ok);
    assert!(session.session_handle.is_none());
    assert_eq!(session.editor_version, 3);
    assert_eq!(session.session_version, 4);
    assert_eq!(session.diagnostics[0].message, "handle is null");
    assert!(session.diagnostics[0].span.is_none());
    assert!(!session.full_rehighlight);
}
