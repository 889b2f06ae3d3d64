use maodie_compiler::corelib::check_source_with_core;
use maodie_compiler::hir::SymbolId;
use maodie_compiler::source::{SourceFile, SourceId};
use maodie_compiler::typeck::{
    check_source, TypeId, TypeKind, TypeTable, MD_CALL_ARITY, MD_IMMUTABLE_ASSIGNMENT,
    MD_INVALID_LOG_FORMAT, MD_INVALID_TRY, MD_MISSING_TRAIT_METHOD, MD_NON_EXHAUSTIVE_MATCH,
    MD_TYPE_MISMATCH,
};

#[test]
fn accepts_generic_option_result_and_records_type_dump() {
    let source = SourceFile::new(
        SourceId::new(1),
        "generics.mao",
        "\
module demo
enum Option<T> { Some(T), None }
enum Result<T, E> { Ok(T), Err(E) }
fn id<T>(value: T) -> T { return value }
fn main(value: i32) -> Option<i32> {
  let wrapped: Option<i32> = Option.Some(value)
  let none: Option<i32> = Option.None
  let result: Result<i32, String> = Result.Ok(id(value))
  return wrapped
}
",
    );

    let result = check_source(&source);

    assert!(result.diagnostics.is_empty(), "{:#?}", result.diagnostics);
    let dump = result.dump();
    assert!(dump.contains("Types"));
    assert!(dump.contains("Substitutions"));
    assert!(dump.contains("T="));
}

#[test]
fn reports_wrong_return_and_let_annotation_types() {
    let source = SourceFile::new(
        SourceId::new(1),
        "mismatch.mao",
        "\
module demo
fn broken() -> bool {
  let value: bool = 1
  return 1
}
",
    );

    let result = check_source(&source);

    assert!(
        result
            .diagnostics
            .iter()
            .filter(|diagnostic| diagnostic.code.as_str() == MD_TYPE_MISMATCH)
            .count()
            >= 2
    );
}

#[test]
fn reports_assignment_to_immutable_local() {
    let source = SourceFile::new(
        SourceId::new(1),
        "immutable.mao",
        "\
module demo
fn main() {
  let value: i32 = 1
  value = 2
}
",
    );

    let result = check_source(&source);

    assert!(result
        .diagnostics
        .iter()
        .any(|diagnostic| diagnostic.code.as_str() == MD_IMMUTABLE_ASSIGNMENT
            && diagnostic.message.contains("value")));
}

#[test]
fn reports_missing_trait_method_in_impl() {
    let source = SourceFile::new(
        SourceId::new(1),
        "impl.mao",
        "\
module demo
struct Point {}
trait Show { fn show(value: Point) -> String; }
impl Show for Point {}
",
    );

    let result = check_source(&source);

    assert!(result
        .diagnostics
        .iter()
        .any(|diagnostic| diagnostic.code.as_str() == MD_MISSING_TRAIT_METHOD
            && diagnostic.message.contains("show")));
}

#[test]
fn reports_non_exhaustive_enum_match() {
    let source = SourceFile::new(
        SourceId::new(1),
        "match.mao",
        "\
module demo
enum Color { Red, Green }
fn score(color: Color) -> i32 {
  match color {
    Color.Red => 1
  }
}
",
    );

    let result = check_source(&source);

    assert!(result.diagnostics.iter().any(|diagnostic| {
        diagnostic.code.as_str() == MD_NON_EXHAUSTIVE_MATCH && diagnostic.message.contains("Green")
    }));
}

#[test]
fn accepts_wildcard_and_pattern_binding_in_match() {
    let source = SourceFile::new(
        SourceId::new(1),
        "match_binding.mao",
        "\
module demo
enum Color { Red, Green }
fn score(color: Color, value: i32) -> i32 {
  let copied: i32 = match value { bound => bound }
  match color {
    Color.Red => copied,
    _ => 0
  }
}
",
    );

    let result = check_source(&source);

    assert!(result.diagnostics.is_empty(), "{:#?}", result.diagnostics);
    assert!(result.dump().contains("bound t1 owner=score"));
}

#[test]
fn accepts_result_try_propagation() {
    let source = SourceFile::new(
        SourceId::new(1),
        "try.mao",
        "\
module demo
enum Result<T, E> { Ok(T), Err(E) }
fn parse(value: i32) -> Result<i32, String> { return Result.Ok(value) }
fn main(value: i32) -> Result<i32, String> {
  let parsed: i32 = parse(value)?
  return Result.Ok(parsed)
}
",
    );

    let result = check_source(&source);

    assert!(result.diagnostics.is_empty(), "{:#?}", result.diagnostics);
}

#[test]
fn reports_try_in_non_result_function() {
    let source = SourceFile::new(
        SourceId::new(1),
        "try_bad.mao",
        "\
module demo
enum Result<T, E> { Ok(T), Err(E) }
fn parse(value: i32) -> Result<i32, String> { return Result.Ok(value) }
fn main(value: i32) -> i32 {
  let parsed: i32 = parse(value)?
  return parsed
}
",
    );

    let result = check_source(&source);

    assert!(result
        .diagnostics
        .iter()
        .any(|diagnostic| diagnostic.code.as_str() == MD_INVALID_TRY));
}

#[test]
fn accepts_core_log_format_arguments() {
    let source = SourceFile::new(
        SourceId::new(1),
        "log_format.mao",
        "\
module demo
import core.Result
import core.log
fn label() -> String { return \"ok\" }
fn main(value: i32) -> Result<i32, String> {
  let enabled: bool = true
  let message: String = label()
  log(\"value is {} {} {}\", value, enabled, message)
  return Result.Ok(value)
}
",
    );

    let result = check_source_with_core(&source);

    assert!(result.diagnostics.is_empty(), "{:#?}", result.diagnostics);
}

#[test]
fn reports_core_log_format_errors() {
    let source = SourceFile::new(
        SourceId::new(1),
        "log_format_bad.mao",
        "\
module demo
import core.Result
import core.log
struct Point {}
fn bad(point: Point) {
  log(\"value {}\", point)
}
fn main(value: i32) -> Result<i32, String> {
  let format: String = \"value {}\"
  log(format, value)
  log(\"value {} {}\", value)
  return Result.Ok(value)
}
",
    );

    let result = check_source_with_core(&source);

    assert!(result
        .diagnostics
        .iter()
        .any(|diagnostic| diagnostic.code.as_str() == MD_INVALID_LOG_FORMAT));
    assert!(result
        .diagnostics
        .iter()
        .any(|diagnostic| diagnostic.code.as_str() == MD_CALL_ARITY));
    assert!(result
        .diagnostics
        .iter()
        .any(|diagnostic| diagnostic.code.as_str() == MD_TYPE_MISMATCH));
}

#[test]
fn typechecks_option_result_string_and_slice_with_core_loaded() {
    let source = SourceFile::new(
        SourceId::new(1),
        "core_types.mao",
        "\
module demo
import core.Option
import core.Result
import core.Slice

fn parse(value: i32, text: String, items: Slice<i32>) -> Result<Option<i32>, String> {
  let none: Option<i32> = Option.None
  let wrapped: Option<i32> = Option.Some(value)
  return Result.Ok(wrapped)
}
",
    );

    let typed = check_source_with_core(&source);

    assert!(typed.diagnostics.is_empty(), "{:#?}", typed.diagnostics);
    let dump = typed.dump();
    assert!(dump.contains("String"));
    assert!(dump.contains("Substitutions"));
    assert!(dump.contains("T="));
}

#[test]
fn dumps_a_small_type_table_exactly() {
    let table = TypeTable {
        types: vec![
            TypeKind::I32,
            TypeKind::Nominal { symbol: SymbolId::new(3), args: vec![TypeId::new(0)] },
            TypeKind::Function {
                generics: vec!["T".to_owned()],
                params: vec![TypeId::new(1)],
                return_type: TypeId::new(0),
            },
        ],
        items: Vec::new(),
        locals: Vec::new(),
        expressions: Vec::new(),
        substitutions: Vec::new(),
    };

    assert_eq!(
        table.dump(),
        "Types\n  t0 i32\n  t1 s3<i32>\n  t2 fn<T>(s3<i32>) -> i32"
    );
    assert_eq!(table.display_type(TypeId::new(7)), "<invalid>");
}

#[test]
fn records_types_for_every_item_in_order() {
    let source = SourceFile::new(
        SourceId::new(1),
        "items.mao",
        "\
module demo
struct Point {}
fn make() -> i32 { return 1 }
",
    );

    let result = check_source(&source);

    assert!(result.diagnostics.is_empty(), "{:#?}", result.diagnostics);
    assert_eq!(result.type_table.items.len(), 2);
    assert_eq!(result.type_table.items[0].symbol, SymbolId::new(1));
    assert_eq!(result.type_table.items[1].symbol, SymbolId::new(2));
    assert!(result.dump().starts_with("Types\n  t0 s1\n"));
}
