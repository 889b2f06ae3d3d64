use maodie_compiler::corelib::{
    core_source, resolve_source_with_core, CORE_SOURCE, WASM_HOST_MODULE, WASM_IMPORT_DEBUG_BOOL,
    WASM_IMPORT_DEBUG_I32, WASM_IMPORT_DEBUG_LOG_END, WASM_IMPORT_DEBUG_STRING, WASM_IMPORT_PANIC,
    WASM_MEMORY_EXPORT,
};
use maodie_compiler::diagnostic::DiagnosticSeverity;
use maodie_compiler::hir::{BuiltinType, ItemId, LocalId, LocalKind, ModuleId, SymbolId, SymbolKind};
use maodie_compiler::lexer::TokenKind;
use maodie_compiler::log_format::{parse_log_format, string_literal_value};
use maodie_compiler::resolver::{
    resolve_source, resolve_sources, Resolver, MD_DUPLICATE_NAME, MD_INVALID_IMPORT,
    MD_UNRESOLVED_NAME,
};
use maodie_compiler::source::{SourceFile, SourceId};
use maodie_compiler::CompilerFacade;

#[test]
fn resolves_multi_module_imports_and_stable_hir_dump() {
    let core = SourceFile::new(
        SourceId::new(1),
        "core.mao",
        "module demo.core\nstruct Point { x: Int }\nfn make() -> Point { return Point }\n",
    );
    let app = SourceFile::new(
        SourceId::new(2),
        "app.mao",
        "module demo.app\nimport demo.core.Point\nfn main(value: Point) -> Bool { let copy: Point = value; return true }\n",
    );

    let result = resolve_sources(&[&core, &app]);

    assert!(result.diagnostics.is_empty());
    assert_eq!(
        result.package.dump(),
        "\
Package
  Symbols
    s0 demo.core m0 kind=module
    s1 demo.app m1 kind=module
    s2 demo.core.Point m0 kind=struct
    s3 demo.core.make m0 kind=function
    s4 demo.app.main m1 kind=function
  Module m0 demo.core source=1 @0..77
    Item i0 s2 Struct Point @17..40
      Field x @32..38
        Type Int -> builtin:Int @35..38
    Item i1 s3 Fn make @41..76
      ReturnType
        Type Point -> s2 @54..59
      Block @60..76
        Return @62..74
          Path Point -> s2 @69..74
  Module m1 demo.app source=2 @0..110
    Import demo.core.Point -> s2 @16..38
    Item i2 s4 Fn main @39..109
      Locals
        l0 value kind=param @47..59
        l1 copy kind=let @71..94
      Param l0 value @47..59
        Type Point -> s2 @54..59
      ReturnType
        Type Bool -> builtin:Bool @64..68
      Block @69..109
        Let l1 copy @71..94
          Type
            Type Point -> s2 @81..86
          Value
            Path value -> l0 @89..94
        Return @96..107
          Literal bool(true) @103..107"
    );
}

#[test]
fn reports_duplicate_top_level_names() {
    let source = SourceFile::new(
        SourceId::new(1),
        "dup.mao",
        "module demo\nstruct Point {}\nfn Point() {}\n",
    );

    let result = resolve_source(&source);

    assert!(result
        .diagnostics
        .iter()
        .any(|diagnostic| diagnostic.code.as_str() == MD_DUPLICATE_NAME
            && diagnostic.message.contains("Point")));
}

#[test]
fn reports_invalid_imports() {
    let source = SourceFile::new(
        SourceId::new(1),
        "bad_import.mao",
        "module demo\nimport missing.Symbol\nstruct Point {}\n",
    );

    let result = resolve_source(&source);

    assert!(result
        .diagnostics
        .iter()
        .any(|diagnostic| diagnostic.code.as_str() == MD_INVALID_IMPORT
            && diagnostic.message.contains("missing.Symbol")));
}

#[test]
fn reports_unresolved_paths() {
    let source = SourceFile::new(
        SourceId::new(1),
        "missing.mao",
        "module demo\nfn main() -> Missing { return value }\n",
    );

    let result = resolve_source(&source);

    assert!(result
        .diagnostics
        .iter()
        .any(|diagnostic| diagnostic.code.as_str() == MD_UNRESOLVED_NAME
            && diagnostic.message.contains("Missing")));
    assert!(result
        .diagnostics
        .iter()
        .any(|diagnostic| diagnostic.code.as_str() == MD_UNRESOLVED_NAME
            && diagnostic.message.contains("value")));
}

#[test]
fn names_modules_after_files_without_module_declaration() {
    let source = SourceFile::new(SourceId::new(4), "src/my-tool.main.mao", "fn f() {}\n");
    let result = resolve_source(&source);

    assert!(result.diagnostics.is_empty());
    assert!(result
        .package
        .dump()
        .starts_with("Package\n  Symbols\n    s0 my_tool m0 kind=module\n    s1 my_tool.f m0 kind=function"));
}

#[test]
fn reports_duplicate_locals_and_resolves_match_bindings() {
    let source = SourceFile::new(
        SourceId::new(1),
        "m.mao",
        "module demo\nenum E { A, B }\nfn f(x: Int, x: Int) -> Int { match x { E.A => 1, y => y } }\n",
    );
    let result = resolve_source(&source);

    assert_eq!(result.diagnostics.len(), 1);
    assert_eq!(result.diagnostics[0].code.as_str(), MD_DUPLICATE_NAME);
    assert_eq!(result.diagnostics[0].notes.len(), 1);
    let dump = result.package.dump();
    assert!(dump.contains("Pattern Path E.A -> s2"));
    assert!(dump.contains("Pattern Binding l2 y"));
    assert!(dump.contains("Path y -> l2"));
}

#[test]
fn exposes_core_source_contract() {
    let core = core_source();

    assert_eq!(core.name(), "core.mao");
    assert!(core.text().contains("enum Option<T> { Some(T), None }"));
    assert!(core.text().contains("enum Result<T, E> { Ok(T), Err(E) }"));
    assert!(core.text().contains("struct Slice<T>"));
    assert!(core.text().contains("fn log(message: String) -> unit;"));
    assert_eq!(core.text(), CORE_SOURCE);
    assert_eq!(core.id().get(), 0);
}

#[test]
fn resolves_core_imports_as_ordinary_symbols() {
    let source = SourceFile::new(
        SourceId::new(1),
        "uses_core.mao",
        "\
module demo
import core.Option
import core.Result
import core.Slice
import core.log

fn main(value: i32, text: String, items: Slice<i32>) -> Result<Option<i32>, String> {
  log(\"core ready\")
  let wrapped: Option<i32> = Option.Some(value)
  return Result.Ok(wrapped)
}
",
    );

    let resolved = resolve_source_with_core(&source);

    assert!(
        resolved.diagnostics.is_empty(),
        "{:#?}",
        resolved.diagnostics
    );
    let dump = resolved.package.dump();
    assert!(dump.contains("core.Option"));
    assert!(dump.contains("core.Result"));
    assert!(dump.contains("core.Slice"));
    assert!(dump.contains("core.log"));
    assert!(dump.contains("Import core.Option ->"));
}

#[test]
fn documents_wasm_glue_names_as_stable_constants() {
    assert_eq!(WASM_HOST_MODULE, "maodie");
    assert_eq!(WASM_IMPORT_PANIC, "panic");
    assert_eq!(WASM_IMPORT_DEBUG_STRING, "debug_string");
    assert_eq!(WASM_IMPORT_DEBUG_I32, "debug_i32");
    assert_eq!(WASM_IMPORT_DEBUG_BOOL, "debug_bool");
    assert_eq!(WASM_IMPORT_DEBUG_LOG_END, "debug_log_end");
    assert_eq!(WASM_MEMORY_EXPORT, "memory");
}

#[test]
fn exposes_workspace_facade_metadata() {
    let facade = CompilerFacade::new();

    assert_eq!(facade.crate_name(), "maodie_compiler");
    assert_eq!(facade.version(), "0.1.0");
    assert_eq!(CompilerFacade::default(), facade);
}

#[test]
fn re_exports_diagnostic_model() {
    assert_eq!(DiagnosticSeverity::Error.as_str(), "error");
}

#[test]
fn re_exports_syntax_model() {
    assert_eq!(TokenKind::Eof, TokenKind::Eof);
}

#[test]
fn exposes_resolver_api() {
    let resolver = Resolver::new();
    assert_eq!(resolver, Resolver::new());
}

#[test]
fn exposes_stable_id_and_kind_names() {
    assert_eq!(ModuleId::new(3).get(), 3);
    assert_eq!(ItemId::new(4).get(), 4);
    assert_eq!(SymbolId::new(5).dump_text(), "s5");
    assert_eq!(LocalId::new(6).dump_text(), "l6");
    assert_eq!(SymbolKind::Variant.as_str(), "variant");
    assert_eq!(LocalKind::Pattern.as_str(), "pattern");
    assert_eq!(BuiltinType::from_name("i32"), Some(BuiltinType::I32));
    assert_eq!(BuiltinType::from_name("Float"), None);
    assert_eq!(BuiltinType::BoolLower.as_str(), "bool");
}

#[test]
fn parses_log_format_strings() {
    assert_eq!(
        string_literal_value("string(\"a {} b\")"),
        Some("a {} b".to_owned())
    );
    assert_eq!(string_literal_value("int(3)"), None);
    assert_eq!(string_literal_value("string("), None);
    let format = parse_log_format("string(\"x={}, y={}\")").expect("string literal");
    assert_eq!(format.segments, vec!["x=", ", y=", ""]);
    assert_eq!(format.placeholder_count(), 2);
    let plain = parse_log_format("string(\"plain\")").expect("string literal");
    assert_eq!(plain.placeholder_count(), 0);
    assert_eq!(parse_log_format("bool(true)"), None);
}

#[test]
fn log_format_segments_join_back_and_count_placeholders() {
    let format = parse_log_format("string(\"a{}b{}\")").expect("string literal");
    assert_eq!(format.segments, vec!["a".to_owned(), "b".to_owned(), String::new()]);
    assert_eq!(format.placeholder_count(), 2);
    assert_eq!(format.segments.join("{}"), "a{}b{}");
}
