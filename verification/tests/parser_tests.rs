use maodie_compiler::lexer::{lex_source, Token, TokenKind};
use maodie_compiler::parser::{parse_source, Parser, MD_EXPECTED_SYNTAX, MD_UNEXPECTED_TOKEN};
use maodie_compiler::source::{SourceFile, SourceId, TextRange};

#[test]
fn parses_complete_file_into_stable_ast_dump() {
    let source = SourceFile::new(
        SourceId::new(1),
        "main.mao",
        "module demo.app\nimport core.io\nstruct Point { x: Int, y: Int }\nenum Option { Some(Int), None }\ntrait Show { fn show(value: Point) -> String; }\nimpl Show for Point { fn show(value: Point) -> String { return \"点\" } }\nfn main<T>(value: T) -> Bool { let mut count: Int = 1 + 2 * 3; match count { 0 => false, _ => true } }\n",
    );

    let result = parse_source(&source);

    assert!(result.diagnostics.is_empty());
    assert_eq!(
        result.ast.dump(),
        "\
File @0..319
  Module demo.app @0..15
  Import core.io @16..30
  Struct Point @31..62
    Field x @46..52
      Type Int @49..52
    Field y @54..60
      Type Int @57..60
  Enum Option @63..94
    Variant Some @77..86
      Type Int @82..85
    Variant None @88..92
  Trait Show @95..142
    Fn show @108..139
      Param value @116..128
        Type Point @123..128
      ReturnType
        Type String @133..139
  Impl @143..215
    Trait
      Type Show @148..152
    Target
      Type Point @157..162
    Fn show @165..213
      Param value @173..185
        Type Point @180..185
      ReturnType
        Type String @190..196
      Block @197..213
        Return @199..211
          Literal string(\"点\") @206..211
  Fn main @216..318
    Generics T
    Param value @227..235
      Type T @234..235
    ReturnType
      Type Bool @240..244
    Block @245..318
      Let mut count @247..277
        Type
          Type Int @262..265
        Value
          Binary + @268..277
            Literal int(1) @268..269
            Binary * @272..277
              Literal int(2) @272..273
              Literal int(3) @276..277
      Match @279..316
        Scrutinee
          Path count @285..290
        Arm @293..303
          Pattern Literal int(0) @293..294
          Literal bool(false) @298..303
        Arm @305..314
          Pattern _ @305..306
          Literal bool(true) @310..314"
    );
}

#[test]
fn recovers_after_missing_type_and_continues_next_item() {
    let source = SourceFile::new(
        SourceId::new(1),
        "broken.mao",
        "fn broken(value:) { let x = ; }\nfn next() { return true }\n",
    );

    let result = parse_source(&source);
    let dump = result.ast.dump();

    assert!(result
        .diagnostics
        .iter()
        .any(|diagnostic| diagnostic.code.as_str() == MD_EXPECTED_SYNTAX
            && diagnostic.message.contains("需要参数类型")));
    assert!(dump.contains("Fn broken"));
    assert!(dump.contains("Fn next"));
}

#[test]
fn recovers_after_missing_closing_paren() {
    let source = SourceFile::new(
        SourceId::new(1),
        "broken.mao",
        "fn broken(value: Int { return true }\nfn next() { return false }\n",
    );

    let result = parse_source(&source);
    let dump = result.ast.dump();

    assert!(result
        .diagnostics
        .iter()
        .any(|diagnostic| diagnostic.code.as_str() == MD_EXPECTED_SYNTAX
            && diagnostic.message.contains("需要 `)`")));
    assert!(dump.contains("Fn broken"));
    assert!(dump.contains("Fn next"));
}

#[test]
fn recovers_after_illegal_top_level_expression() {
    let source = SourceFile::new(SourceId::new(1), "broken.mao", "123\nstruct A {}\n");
    let result = parse_source(&source);

    assert!(result
        .diagnostics
        .iter()
        .any(|diagnostic| diagnostic.message == "顶层只能出现 module、import 或声明"));
    assert!(result.ast.dump().contains("Struct A"));
}

#[test]
fn parses_calls_if_else_and_try() {
    let source = SourceFile::new(
        SourceId::new(1),
        "calls.mao",
        "fn f() { if a < b { g(x, y)? } else { h() } }",
    );
    let result = parse_source(&source);

    assert!(result.diagnostics.is_empty());
    assert_eq!(
        result.ast.dump(),
        "\
File @0..45
  Fn f @0..45
    Block @7..45
      If @9..43
        Condition
          Binary < @12..17
            Path a @12..13
            Path b @16..17
        Then
          Block @18..30
            Try @20..28
              Call @20..27
                Callee
                  Path g @20..21
                Arg
                  Path x @22..23
                Arg
                  Path y @25..26
        Else
          Block @36..43
            Call @38..41
              Callee
                Path h @38..39"
    );
}

#[test]
fn keeps_lexer_diagnostics_first() {
    let source = SourceFile::new(SourceId::new(1), "bad.mao", "fn f() { let x = @ }");
    let result = parse_source(&source);

    assert!(!result.diagnostics.is_empty());
    assert_eq!(result.diagnostics[0].code.as_str(), "MD0101");
    assert_eq!(result.ast.span, TextRange::new(0, 20));
}

#[test]
fn skips_stray_comma_in_trait_body() {
    let source = SourceFile::new(SourceId::new(1), "stray.mao", "trait A { , fn f(); }");
    let result = parse_source(&source);

    assert!(result
        .diagnostics
        .iter()
        .any(|diagnostic| diagnostic.code.as_str() == MD_UNEXPECTED_TOKEN));
    assert!(result.ast.dump().contains("Fn f"));
}

#[test]
fn parser_new_drops_trivia_tokens() {
    let source = SourceFile::new(SourceId::new(1), "a.mao", "struct  A {}");
    let lexed = lex_source(&source);
    let tokens: Vec<Token> = lexed.tokens.clone();
    assert!(tokens.iter().any(|token| token.kind == TokenKind::Whitespace));
    let result = Parser::new(&source, tokens, Vec::new()).parse();
    assert!(result.diagnostics.is_empty());
    assert_eq!(result.ast.dump(), "File @0..12\n  Struct A @0..12");
}

#[test]
fn parse_diagnostics_come_in_source_order() {
    let source = SourceFile::new(SourceId::new(1), "x.mao", "123\n@");
    let result = parse_source(&source);
    assert_eq!(result.diagnostics.len(), 2);
    assert_eq!(result.diagnostics[0].code.as_str(), "MD0201");
    assert_eq!(result.diagnostics[1].code.as_str(), "MD0101");
    let starts: Vec<usize> = result
        .diagnostics
        .iter()
        .map(|d| d.span.as_ref().map(|s| s.range.start).unwrap_or(0))
        .collect();
    assert_eq!(starts, vec![0, 4]);
}
