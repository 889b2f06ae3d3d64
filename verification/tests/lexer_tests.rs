use maodie_compiler::lexer::{
    lex_source, Keyword, Token, TokenKind, MD_INVALID_CHARACTER, MD_UNTERMINATED_BLOCK_COMMENT,
    MD_UNTERMINATED_STRING,
};
use maodie_compiler::source::{SourceFile, SourceId, TextRange};

#[test]
fn lexes_stable_token_stream_for_mao_source() {
    let source = SourceFile::new(
        SourceId::new(1),
        "examples/main.mao",
        "module 示例\nfn main<T>(value: T) -> bool {\n  let mut 名 = 42\n  // 注释\n  return true\n}\n",
    );

    let result = lex_source(&source);

    assert!(result.diagnostics.is_empty());
    assert_eq!(
        dump_tokens(&result.tokens),
        "\
keyword(module)@0..6 `module`
whitespace@6..7 ` `
identifier@7..13 `示例`
whitespace@13..14 `\\n`
keyword(fn)@14..16 `fn`
whitespace@16..17 ` `
identifier@17..21 `main`
less@21..22 `<`
identifier@22..23 `T`
greater@23..24 `>`
left_paren@24..25 `(`
identifier@25..30 `value`
colon@30..31 `:`
whitespace@31..32 ` `
identifier@32..33 `T`
right_paren@33..34 `)`
whitespace@34..35 ` `
arrow@35..37 `->`
whitespace@37..38 ` `
identifier@38..42 `bool`
whitespace@42..43 ` `
left_brace@43..44 `{`
whitespace@44..47 `\\n  `
keyword(let)@47..50 `let`
whitespace@50..51 ` `
keyword(mut)@51..54 `mut`
whitespace@54..55 ` `
identifier@55..58 `名`
whitespace@58..59 ` `
equal@59..60 `=`
whitespace@60..61 ` `
integer_literal@61..63 `42`
whitespace@63..66 `\\n  `
line_comment@66..75 `// 注释`
whitespace@75..78 `\\n  `
keyword(return)@78..84 `return`
whitespace@84..85 ` `
bool_literal@85..89 `true`
whitespace@89..90 `\\n`
right_brace@90..91 `}`
whitespace@91..92 `\\n`
eof@92..92 ``"
    );
}

#[test]
fn lexes_string_comment_and_symbol_tokens() {
    let source = SourceFile::new(
        SourceId::new(1),
        "symbols.mao",
        "import foo.bar\nmatch x { _ => \"值\\\"\"; ? + - * / [] }\n/* ok */",
    );

    let result = lex_source(&source);

    assert!(result.diagnostics.is_empty());
    assert!(result
        .tokens
        .iter()
        .any(|token| token.kind == TokenKind::FatArrow && token.text == "=>"));
    assert!(result
        .tokens
        .iter()
        .any(|token| token.kind == TokenKind::StringLiteral && token.text == "\"值\\\"\""));
    assert!(result
        .tokens
        .iter()
        .any(|token| token.kind == TokenKind::BlockComment && token.text == "/* ok */"));
    assert!(result
        .tokens
        .iter()
        .any(|token| token.kind == TokenKind::Question));
    assert!(result
        .tokens
        .iter()
        .any(|token| token.kind == TokenKind::LeftBracket));
}

#[test]
fn reports_invalid_character_with_chinese_diagnostic_and_span() {
    let source = SourceFile::new(SourceId::new(1), "bad.mao", "let x = @\n");
    let result = lex_source(&source);

    assert_eq!(result.diagnostics.len(), 1);
    let diagnostic = &result.diagnostics[0];

    assert_eq!(diagnostic.code.as_str(), MD_INVALID_CHARACTER);
    assert_eq!(diagnostic.message, "发现无法识别的字符 `@`");
    assert_eq!(
        diagnostic.span.as_ref().expect("diagnostic has span").range,
        TextRange::new(8, 9)
    );
    assert!(result
        .tokens
        .iter()
        .any(|token| token.kind == TokenKind::Error && token.text == "@"));
}

#[test]
fn reports_unterminated_string_without_consuming_newline() {
    let source = SourceFile::new(SourceId::new(1), "bad.mao", "let x = \"未闭合\nreturn x");
    let result = lex_source(&source);

    assert_eq!(result.diagnostics.len(), 1);
    let diagnostic = &result.diagnostics[0];

    assert_eq!(diagnostic.code.as_str(), MD_UNTERMINATED_STRING);
    assert_eq!(diagnostic.message, "字符串字面量没有闭合");
    assert_eq!(
        diagnostic.span.as_ref().expect("diagnostic has span").range,
        TextRange::new(8, 18)
    );
    assert!(result
        .tokens
        .iter()
        .any(|token| token.kind == TokenKind::Whitespace && token.text == "\n"));
}

#[test]
fn reports_unterminated_block_comment() {
    let source = SourceFile::new(SourceId::new(1), "bad.mao", "fn main() { /* 未闭合");
    let result = lex_source(&source);

    assert_eq!(result.diagnostics.len(), 1);
    let diagnostic = &result.diagnostics[0];

    assert_eq!(diagnostic.code.as_str(), MD_UNTERMINATED_BLOCK_COMMENT);
    assert_eq!(diagnostic.message, "块注释没有闭合");
    assert_eq!(
        diagnostic.span.as_ref().expect("diagnostic has span").range,
        TextRange::new(12, source.len_bytes())
    );
}

#[test]
fn keeps_angle_brackets_as_plain_tokens() {
    let source = SourceFile::new(SourceId::new(1), "angles.mao", "if a < b { return a > b }");
    let result = lex_source(&source);
    let kinds = result
        .tokens
        .iter()
        .map(|token| token.kind)
        .collect::<Vec<_>>();

    assert!(kinds.contains(&TokenKind::Less));
    assert!(kinds.contains(&TokenKind::Greater));
    assert!(result.diagnostics.is_empty());
}

#[test]
fn lexes_escape_at_end_and_slash_forms() {
    let source = SourceFile::new(SourceId::new(1), "edge.mao", "a/b \"x\\");
    let result = lex_source(&source);
    let kinds = result.tokens.iter().map(|t| t.kind).collect::<Vec<_>>();
    assert_eq!(
        kinds,
        vec![
            TokenKind::Identifier,
            TokenKind::Slash,
            TokenKind::Identifier,
            TokenKind::Whitespace,
            TokenKind::Error,
            TokenKind::Eof
        ]
    );
    assert_eq!(result.diagnostics.len(), 1);
    assert_eq!(result.tokens[4].range, TextRange::new(4, 7));
}

#[test]
fn lexes_unicode_spaces_and_identifiers() {
    let source = SourceFile::new(SourceId::new(1), "unicode.mao", "a\u{3000}\u{a0}b 名_1 é");
    let result = lex_source(&source);

    assert!(result.diagnostics.is_empty(), "{:#?}", result.diagnostics);
    let kinds: Vec<TokenKind> = result.tokens.iter().map(|token| token.kind).collect();
    assert_eq!(
        kinds,
        vec![
            TokenKind::Identifier,
            TokenKind::Whitespace,
            TokenKind::Identifier,
            TokenKind::Whitespace,
            TokenKind::Identifier,
            TokenKind::Whitespace,
            TokenKind::Identifier,
            TokenKind::Eof,
        ]
    );
    assert_eq!(result.tokens[1].range, TextRange::new(1, 6));
    assert_eq!(result.tokens[4].text, "名_1");
    assert_eq!(result.tokens[6].text, "é");
}

#[test]
fn reports_characters_outside_identifiers() {
    let source = SourceFile::new(SourceId::new(1), "symbol.mao", "a\u{2603}");
    let result = lex_source(&source);

    assert_eq!(result.tokens[1].kind, TokenKind::Error);
    assert_eq!(result.diagnostics[0].code.as_str(), MD_INVALID_CHARACTER);
}

fn dump_tokens(tokens: &[Token]) -> String {
    tokens
        .iter()
        .map(|token| {
            format!(
                "{}@{}..{} `{}`",
                dump_kind(token.kind),
                token.range.start,
                token.range.end,
                escape_text(&token.text)
            )
        })
        .collect::<Vec<_>>()
        .join("\n")
}

fn dump_kind(kind: TokenKind) -> String {
    match kind {
        TokenKind::Keyword(keyword) => format!("keyword({})", dump_keyword(keyword)),
        TokenKind::Whitespace => "whitespace".to_owned(),
        TokenKind::LineComment => "line_comment".to_owned(),
        TokenKind::BlockComment => "block_comment".to_owned(),
        TokenKind::Identifier => "identifier".to_owned(),
        TokenKind::IntegerLiteral => "integer_literal".to_owned(),
        TokenKind::BoolLiteral => "bool_literal".to_owned(),
        TokenKind::StringLiteral => "string_literal".to_owned(),
        TokenKind::Error => "error".to_owned(),
        TokenKind::LeftParen => "left_paren".to_owned(),
        TokenKind::RightParen => "right_paren".to_owned(),
        TokenKind::LeftBrace => "left_brace".to_owned(),
        TokenKind::RightBrace => "right_brace".to_owned(),
        TokenKind::LeftBracket => "left_bracket".to_owned(),
        TokenKind::RightBracket => "right_bracket".to_owned(),
        TokenKind::Comma => "comma".to_owned(),
        TokenKind::Colon => "colon".to_owned(),
        TokenKind::Semicolon => "semicolon".to_owned(),
        TokenKind::Dot => "dot".to_owned(),
        TokenKind::Arrow => "arrow".to_owned(),
        TokenKind::FatArrow => "fat_arrow".to_owned(),
        TokenKind::Less => "less".to_owned(),
        TokenKind::Greater => "greater".to_owned(),
        TokenKind::Question => "question".to_owned(),
        TokenKind::Equal => "equal".to_owned(),
        TokenKind::Plus => "plus".to_owned(),
        TokenKind::Minus => "minus".to_owned(),
        TokenKind::Star => "star".to_owned(),
        TokenKind::Slash => "slash".to_owned(),
        TokenKind::Eof => "eof".to_owned(),
    }
}

fn dump_keyword(keyword: Keyword) -> &'static str {
    match keyword {
        Keyword::Module => "module",
        Keyword::Import => "import",
        Keyword::Fn => "fn",
        Keyword::Let => "let",
        Keyword::Mut => "mut",
        Keyword::Struct => "struct",
        Keyword::Enum => "enum",
        Keyword::Trait => "trait",
        Keyword::Impl => "impl",
        Keyword::If => "if",
        Keyword::Else => "else",
        Keyword::Match => "match",
        Keyword::Return => "return",
    }
}

fn escape_text(text: &str) -> String {
    text.replace('\\', "\\\\").replace('\n', "\\n")
}
