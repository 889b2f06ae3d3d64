use maodie_compiler::diagnostic::DiagnosticSeverity;
use maodie_compiler::pipeline::{compile_text, ArtifactContent, CompileOutcome};
use maodie_compiler::wasm_api::{compile_error_response, compile_source, CompileOptions};

fn has_dump(outcome: &CompileOutcome, name: &str) -> bool {
    outcome.dumps.iter().any(|(dump, _)| dump == name)
}

#[test]
fn compiles_source_to_json_contract() {
    let response = compile_source(
        "\
module demo

fn main(value: i32) -> i32 {
  return value + 1
}
",
        CompileOptions {
            source_path: Some("smoke.mao".to_owned()),
            module_name: None,
            target: Some("wasm".to_owned()),
        },
    );

    assert!(response.ok, "{:#?}", response.diagnostics);
    assert!(response
        .artifacts
        .iter()
        .any(|artifact| artifact.filename == "module.wat"));
    assert!(response
        .artifacts
        .iter()
        .any(|artifact| artifact.filename == "module.wasm"));
    assert!(has_dump(&response, "hir"));
    assert!(has_dump(&response, "mir"));
    assert!(has_dump(&response, "wat"));
    assert!(has_dump(&response, "ast"));
}

#[test]
fn reports_source_diagnostics_without_artifacts() {
    let response = compile_source(
        "\
module demo

fn main() -> i32 {
  return @
}
",
        CompileOptions::default(),
    );

    assert!(!response.ok);
    assert!(!response.diagnostics.is_empty());
    assert!(response.artifacts.is_empty());
    assert!(has_dump(&response, "ast"));
    assert!(has_dump(&response, "hir"));
}

#[test]
fn reports_empty_source_as_error() {
    let response = compile_source("", CompileOptions::default());

    assert!(!response.ok);
    assert_eq!(response.diagnostics[0].code.as_str(), "MD0001");
    assert!(response.artifacts.is_empty());
    assert!(response.dumps.is_empty());
}

#[test]
fn whitespace_only_source_is_empty() {
    let response = compile_text("  \n\t \n", "blank.mao");

    assert!(!response.ok);
    assert_eq!(response.diagnostics.len(), 1);
    assert_eq!(response.diagnostics[0].code.as_str(), "MD0001");
    assert_eq!(response.diagnostics[0].severity, DiagnosticSeverity::Error);
    assert_eq!(response.diagnostics[0].message, "Maodie 源文件为空。");
    assert!(response.diagnostics[0].span.is_none());
}

#[test]
fn successful_compile_orders_dumps_and_artifacts() {
    let response = compile_text(
        "\
module demo

fn main(value: i32) -> i32 {
  return value * 2
}
",
        "order.mao",
    );

    assert!(response.ok);
    let names: Vec<&str> = response.dumps.iter().map(|(name, _)| name.as_str()).collect();
    assert_eq!(names, vec!["ast", "hir", "mir", "types", "wat"]);
    assert_eq!(response.artifacts.len(), 2);
    assert_eq!(response.artifacts[0].kind, "wat");
    assert_eq!(response.artifacts[1].kind, "wasm");
    match &response.artifacts[1].content {
        ArtifactContent::Bytes(bytes) => {
            assert_eq!(&bytes[0..8], &[0x00, 0x61, 0x73, 0x6d, 0x01, 0x00, 0x00, 0x00]);
        }
        ArtifactContent::Text(_) => panic!("the second artifact is the binary"),
    }
    match &response.artifacts[0].content {
        ArtifactContent::Text(text) => {
            assert!(text.starts_with("(module"));
            assert_eq!(text, &response.dumps[4].1);
        }
        ArtifactContent::Bytes(_) => panic!("the first artifact is the text"),
    }
    assert_eq!(response.diagnostics[0].message, maodie_compiler::wasm::WASM_LAYOUT_NOTE);
    let last = response.diagnostics.last().expect("the backend reports a note");
    assert_eq!(last.code.as_str(), "MD9001");
    assert_eq!(last.severity, DiagnosticSeverity::Warning);
    assert!(response
        .diagnostics
        .iter()
        .all(|diagnostic| diagnostic.severity != DiagnosticSeverity::Error));
}

#[test]
fn failed_compile_keeps_type_dump() {
    let response = compile_text(
        "\
module demo

fn main() -> i32 {
  return true
}
",
        "types.mao",
    );

    assert!(!response.ok);
    let names: Vec<&str> = response.dumps.iter().map(|(name, _)| name.as_str()).collect();
    assert_eq!(names, vec!["ast", "hir", "types"]);
    assert!(response
        .diagnostics
        .iter()
        .all(|diagnostic| diagnostic.code.as_str() != "MD9001"));
}

#[test]
fn unreadable_compile_request_is_an_api_error() {
    let response = compile_error_response("compile options are invalid JSON".to_owned());

    assert!(!response.ok);
    assert_eq!(response.diagnostics.len(), 1);
    assert_eq!(response.diagnostics[0].code.as_str(), "MD9000");
    assert_eq!(response.diagnostics[0].message, "compile options are invalid JSON");
    assert!(response.artifacts.is_empty());
    assert!(response.dumps.is_empty());
}

#[test]
fn mir_dump_and_artifacts_describe_the_same_functions() {
    let outcome = compile_text(
        "module demo\nfn twice(a: i32) -> i32 { return a * 2 }\nfn main(value: i32) -> i32 { return twice(value) }\n",
        "agree.mao",
    );
    assert!(outcome.ok, "{:#?}", outcome.diagnostics);
    let mir = &outcome.dumps[2];
    assert_eq!(mir.0, "mir");
    assert!(mir.1.contains("twice"), "{}", mir.1);
    assert!(mir.1.contains("main"), "{}", mir.1);
    match &outcome.artifacts[0].content {
        ArtifactContent::Text(wat) => {
            assert!(wat.contains("  (export \"twice\" (func $twice))\n"), "{}", wat);
            assert!(wat.contains("  (export \"main\" (func $main))\n"), "{}", wat);
        }
        ArtifactContent::Bytes(_) => panic!("the first artifact is the WAT text"),
    }
    match &outcome.artifacts[1].content {
        ArtifactContent::Bytes(wasm) => {
            let export_index = |name: &str| -> u8 {
                let mut entry: Vec<u8> = vec![name.len() as u8];
                entry.extend_from_slice(name.as_bytes());
                entry.push(0);
                let at = wasm
                    .windows(entry.len())
                    .position(|w| w == entry.as_slice())
                    .expect("the function is exported");
                wasm[at + entry.len()]
            };
            assert_eq!(export_index("twice") + 1, export_index("main"));
            assert!(export_index("twice") >= 5);
        }
        ArtifactContent::Text(_) => panic!("the second artifact is the WASM binary"),
    }
}
