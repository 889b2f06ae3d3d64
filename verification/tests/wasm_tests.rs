use maodie_compiler::corelib::check_source_with_core;
use maodie_compiler::mir::lower_package;
use maodie_compiler::source::{SourceFile, SourceId};
use maodie_compiler::typeck::check_source;
use maodie_compiler::wasm::{
    compile_mir_to_wasm, run_i32_export, WasmBackend, WASM_BINARY_NAME, WASM_LAYOUT_NOTE,
    WAT_DUMP_NAME,
};

#[test]
fn emits_wat_wasm_and_runs_golden_result() {
    let source = SourceFile::new(
        SourceId::new(1),
        "wasm_golden.mao",
        "\
module demo
import core.Result

enum Color { Red, Green }

fn parse(value: i32) -> Result<i32, String> {
  if value > 0 { Result.Ok(value) } else { Result.Ok(1) }
}

fn score(color: Color, value: i32) -> i32 {
  match color {
    Color.Red => value + 10,
    Color.Green => value + 20
  }
}

fn main(value: i32) -> Result<i32, String> {
  let parsed: i32 = parse(value)?
  let color: Color = Color.Green
  let total: i32 = score(color, parsed)
  return Result.Ok(total)
}
",
    );

    let typed = check_source_with_core(&source);
    assert!(typed.diagnostics.is_empty(), "{:#?}", typed.diagnostics);
    let mir = lower_package(&typed);
    let artifacts = compile_mir_to_wasm(&mir);

    assert_eq!(artifacts.artifact_names.wat_dump, WAT_DUMP_NAME);
    assert_eq!(artifacts.artifact_names.wasm_binary, WASM_BINARY_NAME);
    assert!(artifacts.wat.contains("(module"));
    assert!(
        artifacts.wat.contains("(export \"memory\" (memory 0))")
            || artifacts.wat.contains("(memory (export \"memory\") 1)")
    );
    assert!(artifacts.wat.contains("(export \"main\""));
    assert!(artifacts.wat.contains("i32.gt_s"));
    assert!(artifacts.wat.contains("i32.and"));
    assert_eq!(&artifacts.wasm[..4], b"\0asm");
    assert_eq!(artifacts.wasm[4..8], [1, 0, 0, 0]);

    let encoded_result = run_i32_export(&mir, "main", &[2]).expect("golden runs");
    assert_eq!(encoded_result >> 8, 22);
    assert_eq!(encoded_result & 0xff, 0);
}

#[test]
fn lowers_core_log_to_debug_string_host_import() {
    let source = SourceFile::new(
        SourceId::new(1),
        "hello_log.mao",
        "\
module demo
import core.Result
import core.log

fn main(value: i32) -> Result<i32, String> {
  log(\"Hello world\")
  return Result.Ok(value)
}
",
    );

    let typed = check_source_with_core(&source);
    assert!(typed.diagnostics.is_empty(), "{:#?}", typed.diagnostics);
    let mir = lower_package(&typed);
    let artifacts = compile_mir_to_wasm(&mir);

    assert!(artifacts.wat.contains("Hello world"));
    assert!(artifacts.wat.contains("call $__maodie_debug_string"));
    assert!(artifacts.wat.contains("call $__maodie_debug_log_end"));
    assert!(artifacts.wat.contains("(i32.const 11)"));
    assert_eq!(
        run_i32_export(&mir, "main", &[7]).expect("golden runs") >> 8,
        7
    );
}

#[test]
fn lowers_formatted_core_log_chunks_and_string_handles() {
    let source = SourceFile::new(
        SourceId::new(1),
        "formatted_log.mao",
        "\
module demo
import core.Result
import core.log

fn label() -> String { return \"ok\" }

fn main(value: i32) -> Result<i32, String> {
  let enabled: bool = true
  let message: String = label()
  log(\"value is {} {} {}\", value, enabled, message)
  return Result.Ok(value)
}
",
    );

    let typed = check_source_with_core(&source);
    assert!(typed.diagnostics.is_empty(), "{:#?}", typed.diagnostics);
    let mir = lower_package(&typed);
    let artifacts = compile_mir_to_wasm(&mir);

    assert!(artifacts.wat.contains("debug_i32"));
    assert!(artifacts.wat.contains("debug_bool"));
    assert!(artifacts.wat.contains("debug_log_end"));
    assert!(artifacts.wat.contains("(result i64)"));
    assert!(artifacts.wat.contains("(local $__string i64)"));
    assert!(artifacts.wat.contains("i64.shr_u"));
    assert!(artifacts.wat.contains("value is "));
    assert!(artifacts.wat.contains("(i32.const 1)"));
    assert_eq!(&artifacts.wasm[..4], b"\0asm");
}

#[test]
fn reports_missing_exports_and_wrong_argument_counts() {
    let source = SourceFile::new(
        SourceId::new(1),
        "add.mao",
        "module demo\nfn add(a: i32, b: i32) -> i32 { return a + b }\n",
    );
    let typed = check_source(&source);
    assert!(typed.diagnostics.is_empty(), "{:#?}", typed.diagnostics);
    let mir = lower_package(&typed);

    let missing = run_i32_export(&mir, "nope", &[]).unwrap_err();
    assert_eq!(missing.message(), "unknown export `nope`");
    let arity = run_i32_export(&mir, "add", &[1]).unwrap_err();
    assert_eq!(arity.message(), "export `add` expects 2 args, got 1");
    assert_eq!(run_i32_export(&mir, "add", &[40, 2]).unwrap(), 42);
}

#[test]
fn starts_every_module_with_the_layout_note_and_import_section() {
    let source = SourceFile::new(SourceId::new(1), "empty.mao", "module demo\n");
    let typed = check_source(&source);
    let mir = lower_package(&typed);
    let artifacts = WasmBackend::new().compile(&mir);

    assert_eq!(artifacts.diagnostics[0].message, WASM_LAYOUT_NOTE);
    assert!(artifacts.wat.starts_with(
        "(module\n  (import \"maodie\" \"panic\" (func $__maodie_panic (param i32 i32)))\n"
    ));
    assert!(artifacts.wat.ends_with(")\n"));
    // Preamble, then the type section of the three host signatures.
    assert_eq!(
        &artifacts.wasm[..21],
        &[0, 97, 115, 109, 1, 0, 0, 0, 1, 13, 3, 96, 2, 127, 127, 0, 96, 1, 127, 0, 96]
    );
    // The import section follows: id 2, then five imports.
    assert_eq!(artifacts.wasm[23], 2);
}

#[test]
fn reports_division_by_zero_as_an_error() {
    let source = SourceFile::new(
        SourceId::new(1),
        "div.mao",
        "module demo\nfn div(a: i32, b: i32) -> i32 { return a / b }\n",
    );
    let typed = check_source(&source);
    let mir = lower_package(&typed);

    assert_eq!(run_i32_export(&mir, "div", &[7, 2]).unwrap(), 3);
    assert!(run_i32_export(&mir, "div", &[7, 0]).is_err());
}

#[test]
fn division_rounds_toward_zero() {
    let source = SourceFile::new(
        SourceId::new(1),
        "div.mao",
        "module demo\nfn div(a: i32, b: i32) -> i32 { return a / b }\n",
    );
    let typed = check_source(&source);
    let mir = lower_package(&typed);

    assert_eq!(run_i32_export(&mir, "div", &[-7, 2]).unwrap(), -3);
    assert_eq!(run_i32_export(&mir, "div", &[7, -2]).unwrap(), -3);
    assert_eq!(run_i32_export(&mir, "div", &[-7, -2]).unwrap(), 3);
    assert_eq!(
        run_i32_export(&mir, "div", &[i32::MIN, -1]).unwrap_err().message(),
        "MIR arithmetic overflow"
    );
}

#[test]
fn overflowing_addition_is_an_error() {
    let source = SourceFile::new(
        SourceId::new(1),
        "add.mao",
        "module demo\nfn add(a: i32, b: i32) -> i32 { return a + b }\n",
    );
    let typed = check_source(&source);
    let mir = lower_package(&typed);

    assert_eq!(run_i32_export(&mir, "add", &[40, 2]).unwrap(), 42);
    assert_eq!(
        run_i32_export(&mir, "add", &[i32::MAX, 1]).unwrap_err().message(),
        "MIR arithmetic overflow"
    );
}

#[test]
fn variants_are_tagged_by_their_position_in_the_enum() {
    let source = SourceFile::new(
        SourceId::new(1),
        "tags.mao",
        "\
module demo

enum Color { Red, Green, Blue }

fn pick(value: i32) -> Color {
  if value > 0 { Color.Blue } else { Color.Red }
}
",
    );
    let typed = check_source(&source);
    assert!(typed.diagnostics.is_empty(), "{:#?}", typed.diagnostics);
    let mir = lower_package(&typed);

    assert_eq!(run_i32_export(&mir, "pick", &[1]).unwrap(), 2);
    assert_eq!(run_i32_export(&mir, "pick", &[0]).unwrap(), 0);
}

#[test]
fn exports_every_function_under_its_name() {
    let source = SourceFile::new(
        SourceId::new(1),
        "names.mao",
        "module demo\nfn 加一(a: i32) -> i32 { return a + 1 }\nfn twice(a: i32) -> i32 { return a * 2 }\n",
    );
    let typed = check_source(&source);
    assert!(typed.diagnostics.is_empty(), "{:#?}", typed.diagnostics);
    let mir = lower_package(&typed);
    let artifacts = compile_mir_to_wasm(&mir);

    assert!(artifacts.wat.contains("  (export \"加一\" (func $__))\n"));
    assert!(artifacts.wat.contains("  (export \"twice\" (func $twice))\n"));
    assert_eq!(run_i32_export(&mir, "加一", &[41]).unwrap(), 42);
}

#[test]
fn binary_lists_functions_memory_and_exports_in_order() {
    let source = SourceFile::new(
        SourceId::new(1),
        "names.mao",
        "module demo\nfn 加一(a: i32) -> i32 { return a + 1 }\nfn twice(a: i32) -> i32 { return a * 2 }\n",
    );
    let typed = check_source(&source);
    assert!(typed.diagnostics.is_empty(), "{:#?}", typed.diagnostics);
    let mir = lower_package(&typed);
    let artifacts = compile_mir_to_wasm(&mir);

    let mut expected: Vec<u8> = vec![3, 3, 2, 3, 4, 5, 3, 1, 0, 1, 7, 27, 3, 6];
    expected.extend_from_slice(b"memory");
    expected.extend_from_slice(&[2, 0, 6]);
    expected.extend_from_slice("加一".as_bytes());
    expected.extend_from_slice(&[0, 5, 5]);
    expected.extend_from_slice(b"twice");
    expected.extend_from_slice(&[0, 6]);
    let found = artifacts
        .wasm
        .windows(expected.len())
        .any(|window| window == expected.as_slice());
    assert!(found, "{:?}", artifacts.wasm);
}
