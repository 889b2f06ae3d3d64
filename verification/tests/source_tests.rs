use maodie_compiler::diagnostic::{Diagnostic, DiagnosticCode, DiagnosticSeverity, DiagnosticSpan};
use maodie_compiler::source::{SourceFile, SourceId, TextRange};

#[test]
fn maps_utf8_byte_offsets_to_line_and_column() {
    let source = SourceFile::new(SourceId::new(7), "main.mao", "let 名 = 1\n打印(名)\n");

    let name_offset = source.text().find('名').expect("Chinese identifier exists");
    let name_position = source
        .position_at(name_offset)
        .expect("offset starts at a valid UTF-8 boundary");
    assert_eq!(name_position.line, 1);
    assert_eq!(name_position.column, 5);
    assert_eq!(name_position.byte_offset, name_offset);

    let call_offset = source.text().find('打').expect("Chinese call exists");
    let call_position = source
        .position_at(call_offset)
        .expect("offset starts at a valid UTF-8 boundary");
    assert_eq!(call_position.line, 2);
    assert_eq!(call_position.column, 1);
}

#[test]
fn rejects_offsets_inside_utf8_codepoints() {
    let source = SourceFile::new(SourceId::new(1), "main.mao", "名");

    assert!(source.position_at(1).is_none());
    assert!(!source.is_valid_range(TextRange::new(0, 1)));
    assert!(source.is_valid_range(TextRange::new(0, 3)));
}

#[test]
fn exposes_ranges_and_line_text() {
    let source = SourceFile::new(SourceId::new(1), "main.mao", "one\r\ntwo\nthree");
    let range = TextRange::new(5, 8);

    assert_eq!(range.len(), 3);
    assert!(range.contains(5));
    assert!(!range.contains(8));
    assert_eq!(source.line_count(), 3);
    assert_eq!(source.line_text(2), Some("two"));
}

#[test]
fn maps_eof_after_trailing_newline_to_next_line_start() {
    let source = SourceFile::new(SourceId::new(1), "main.mao", "let x = 1\n");
    let eof = source
        .position_at(source.len_bytes())
        .expect("EOF offset is valid");

    assert_eq!(source.line_count(), 2);
    assert_eq!(eof.line, 2);
    assert_eq!(eof.column, 1);
    assert_eq!(source.line_text(2), Some(""));
}

#[test]
fn source_lengths_match_utf8_bytes() {
    let text = "a名🙂\r\nb";
    let source = SourceFile::new(SourceId::new(2), "w.mao", text);
    assert_eq!(source.len_bytes(), text.len());
    assert_eq!(source.line_start_offsets(), &[0, text.find('b').unwrap()]);
    assert!(source.position_at(2).is_none());
    assert_eq!(source.line_text(1), Some("a名🙂"));
    assert_eq!(source.line_text(0), None);
    assert_eq!(source.line_text(3), None);
    assert!(!SourceFile::new(SourceId::new(3), "e", "").is_empty() == false);
}

#[test]
fn validates_stable_diagnostic_codes() {
    assert_eq!(
        DiagnosticCode::new("MD0001")
            .expect("code follows naming rule")
            .as_str(),
        "MD0001"
    );

    let error = DiagnosticCode::new("M0001").expect_err("missing MD prefix is invalid");
    assert_eq!(error.value(), "M0001");
    assert!(DiagnosticCode::new("MD001").is_err());
    assert!(DiagnosticCode::new("MD00A1").is_err());
}

#[test]
fn renders_chinese_cli_diagnostic_with_source_excerpt() {
    let source = SourceFile::new(SourceId::new(1), "main.mao", "let 名 = @\n");
    let at_offset = source.text().find('@').expect("invalid char exists");
    let span = DiagnosticSpan::from_source(&source, TextRange::new(at_offset, at_offset + 1))
        .expect("span is valid");
    let diagnostic = Diagnostic::new(
        DiagnosticCode::new("MD0001").expect("code is valid"),
        DiagnosticSeverity::Error,
        "发现无法识别的字符",
    )
    .with_span(span);

    let rendered = diagnostic.render_chinese(Some(&source));

    assert!(rendered.contains("错误[MD0001]: 发现无法识别的字符"));
    assert!(rendered.contains("--> main.mao:1:9"));
    assert!(rendered.contains("1 | let 名 = @"));
    assert!(rendered.contains("|          ^"));
}

#[test]
fn renders_notes_and_skips_excerpt_for_other_sources() {
    let source = SourceFile::new(SourceId::new(1), "main.mao", "let 名 = @\n");
    let other = SourceFile::new(SourceId::new(2), "other.mao", "x\n");
    let span = DiagnosticSpan::from_source(&source, TextRange::new(4, 7)).expect("span is valid");
    assert_eq!(span.start.column, 5);
    assert_eq!(span.end.column, 6);
    let diagnostic = Diagnostic::new(
        DiagnosticCode::new("MD0002").expect("code is valid"),
        DiagnosticSeverity::Warning,
        "消息",
    )
    .with_span(span)
    .with_note("提示一")
    .with_note("提示二");
    assert_eq!(
        diagnostic.render_chinese(Some(&other)),
        "警告[MD0002]: 消息\n  --> main.mao:1:5\n  = 提示: 提示一\n  = 提示: 提示二"
    );
    assert_eq!(
        diagnostic.render_chinese(Some(&source)),
        "警告[MD0002]: 消息\n  --> main.mao:1:5\n   |\n 1 | let 名 = @\n   |     ^^\n  = 提示: 提示一\n  = 提示: 提示二"
    );
    assert!(DiagnosticSpan::from_source(&source, TextRange::new(5, 7)).is_none());
    assert_eq!(DiagnosticSeverity::Info.as_str(), "info");
    assert_eq!(DiagnosticSeverity::Info.zh_label(), "信息");
}
