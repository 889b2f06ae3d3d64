use maodie_compiler::corelib::check_source_with_core;
use maodie_compiler::mir::{
    lower_package, MirConstant, MirLocalKind, MirLowerer, MirOperand, MirPlace, MirTerminator,
};
use maodie_compiler::source::{SourceFile, SourceId};
use maodie_compiler::typeck::check_source;

#[test]
fn lowers_if_expression_to_branch_blocks() {
    let source = SourceFile::new(
        SourceId::new(1),
        "if.mao",
        "\
module demo
fn choose(flag: bool) -> i32 {
  if flag { 1 } else { 2 }
}
",
    );

    let typed = check_source(&source);
    assert!(typed.diagnostics.is_empty(), "{:#?}", typed.diagnostics);

    let mir = lower_package(&typed);
    let dump = mir.dump();

    assert!(dump.contains("Function f0"));
    assert!(dump.contains("branch copy v0 ? bb1 : bb2"));
    assert!(dump.contains("goto bb3"));
    assert!(dump.contains("return copy"));
}

#[test]
fn lowers_match_expression_to_variant_targets() {
    let source = SourceFile::new(
        SourceId::new(1),
        "match.mao",
        "\
module demo
enum Color { Red, Green }
fn score(color: Color) -> i32 {
  match color {
    Color.Red => 1,
    Color.Green => 2
  }
}
",
    );

    let typed = check_source(&source);
    assert!(typed.diagnostics.is_empty(), "{:#?}", typed.diagnostics);

    let dump = lower_package(&typed).dump();

    assert!(dump.contains("match copy v0 [variant("));
    assert!(dump.contains("-> bb"));
    assert!(dump.contains("const(int(1))"));
    assert!(dump.contains("const(int(2))"));
}

#[test]
fn lowers_try_to_result_branch_and_early_return() {
    let source = SourceFile::new(
        SourceId::new(1),
        "try.mao",
        "\
module demo
enum Result<T, E> { Ok(T), Err(E) }
fn parse(value: i32) -> Result<i32, String> { return Result.Ok(value) }
fn main(value: i32) -> Result<i32, String> {
  let parsed: i32 = parse(value)?
  return Result.Ok(parsed)
}
",
    );

    let typed = check_source(&source);
    assert!(typed.diagnostics.is_empty(), "{:#?}", typed.diagnostics);

    let dump = lower_package(&typed).dump();

    assert!(dump.contains("match copy"));
    assert!(dump.contains("project copy"));
    assert!(dump.contains("aggregate variant("));
    assert!(dump.contains("return copy"));
}

#[test]
fn lowers_result_try_from_core_to_mir() {
    let source = SourceFile::new(
        SourceId::new(1),
        "core_try.mao",
        "\
module demo
import core.Result

fn parse(value: i32) -> Result<i32, String> { return Result.Ok(value) }
fn main(value: i32) -> Result<i32, String> {
  let parsed: i32 = parse(value)?
  return Result.Ok(parsed)
}
",
    );

    let typed = check_source_with_core(&source);
    assert!(typed.diagnostics.is_empty(), "{:#?}", typed.diagnostics);

    let dump = lower_package(&typed).dump();

    assert!(dump.contains("match copy"));
    assert!(dump.contains("project copy"));
    assert!(dump.contains("aggregate variant("));
}

#[test]
fn dumps_a_small_function_exactly() {
    let source = SourceFile::new(
        SourceId::new(1),
        "add.mao",
        "module demo\nfn add(a: i32) -> i32 { return a + 1 }\n",
    );

    let typed = check_source(&source);
    assert!(typed.diagnostics.is_empty(), "{:#?}", typed.diagnostics);
    let mir = MirLowerer::new().lower(&typed);

    assert_eq!(mir.functions.len(), 1);
    assert_eq!(mir.functions[0].locals[0].kind, MirLocalKind::Param);
    assert_eq!(mir.functions[0].locals[1].name, "_binary1");
    assert_eq!(MirLocalKind::Temp.as_str(), "temp");
    let dump = mir.dump();
    assert!(dump.starts_with("MIR\n  Function f0 item=i0 symbol=s1 add source=1 return="));
    assert!(dump.contains("\n    Locals\n      v0 param a type="));
    assert!(dump.contains("v1 = binary + copy v0, const(int(1)) @"));
    assert!(dump.contains("return copy v1 @"));
}

#[test]
fn lowers_impl_methods_without_symbols() {
    let source = SourceFile::new(
        SourceId::new(1),
        "methods.mao",
        "module demo\nstruct P {}\nimpl P { fn one() -> i32 { return 1 } fn two() -> i32 { return 2 } }\n",
    );

    let typed = check_source(&source);
    let mir = lower_package(&typed);

    assert_eq!(mir.functions.len(), 2);
    assert_eq!(mir.functions[0].name, "one");
    assert_eq!(mir.functions[1].name, "two");
    assert!(mir.functions[0].symbol.is_none());
    assert_eq!(mir.types.len(), typed.type_table.types.len());
    assert_eq!(mir.symbols.len(), typed.package.symbols.len());
    assert_eq!(mir.symbols[0].name(), "demo");
}

#[test]
fn keeps_parameters_and_lets_before_temporaries() {
    let source = SourceFile::new(
        SourceId::new(1),
        "locals.mao",
        "module demo\nfn add(a: i32, b: i32) -> i32 {\n  let c: i32 = a + b\n  return c * 2\n}\n",
    );
    let typed = check_source(&source);
    assert!(typed.diagnostics.is_empty(), "{:#?}", typed.diagnostics);
    let mir = lower_package(&typed);
    let function = &mir.functions[0];

    assert_eq!(function.locals[0].name, "a");
    assert_eq!(function.locals[0].kind, MirLocalKind::Param);
    assert_eq!(function.locals[1].name, "b");
    assert_eq!(function.locals[1].kind, MirLocalKind::Param);
    assert_eq!(function.locals[2].name, "c");
    assert_eq!(function.locals[2].kind, MirLocalKind::Let);
    assert!(function.locals[3..]
        .iter()
        .all(|local| local.kind == MirLocalKind::Temp && local.hir_local.is_none()));
}

#[test]
fn straight_body_returns_its_tail_from_one_block() {
    let source = SourceFile::new(
        SourceId::new(1),
        "straight.mao",
        "\
module demo
fn one() -> i32 { 1 }
fn add(a: i32, b: i32) -> i32 { let c: i32 = a + b; c }
fn nothing() { let d: i32 = 2 }
",
    );
    let typed = check_source(&source);
    assert!(typed.diagnostics.is_empty(), "{:#?}", typed.diagnostics);
    let mir = lower_package(&typed);
    assert_eq!(mir.functions.len(), 3);

    let one = &mir.functions[0];
    assert_eq!(one.blocks.len(), 1);
    match &one.blocks[0].terminator {
        Some(MirTerminator::Return { value: Some(MirOperand::Const(MirConstant::Literal(text))), .. }) => {
            assert_eq!(text.as_str(), "int(1)");
        }
        other => panic!("unexpected terminator {:?}", other),
    }

    let add = &mir.functions[1];
    assert_eq!(add.blocks.len(), 1);
    assert!(matches!(
        &add.blocks[0].terminator,
        Some(MirTerminator::Return { value: Some(_), .. })
    ));

    let nothing = &mir.functions[2];
    assert_eq!(nothing.blocks.len(), 1);
    assert!(matches!(
        &nothing.blocks[0].terminator,
        Some(MirTerminator::Return { value: None, .. })
    ));
}

#[test]
fn simple_if_body_lowers_to_four_blocks() {
    let source = SourceFile::new(
        SourceId::new(1),
        "if_shape.mao",
        "module demo\nfn pick(flag: bool, a: i32) -> i32 {\n  if flag { a + 1 } else { 2 }\n}\n",
    );
    let typed = check_source(&source);
    assert!(typed.diagnostics.is_empty(), "{:#?}", typed.diagnostics);
    let mir = lower_package(&typed);
    let f = &mir.functions[0];
    assert_eq!(f.blocks.len(), 4);
    match &f.blocks[0].terminator {
        Some(MirTerminator::Branch { then_target, else_target, .. }) => {
            assert_eq!(then_target.get(), 1);
            assert_eq!(else_target.get(), 2);
        }
        other => panic!("unexpected entry terminator {:?}", other),
    }
    for b in 1..3 {
        match &f.blocks[b].terminator {
            Some(MirTerminator::Goto { target, .. }) => assert_eq!(target.get(), 3),
            other => panic!("unexpected branch terminator {:?}", other),
        }
    }
    assert!(f.blocks[3].statements.is_empty());
    assert!(matches!(
        &f.blocks[3].terminator,
        Some(MirTerminator::Return { value: Some(MirOperand::Copy(MirPlace::Local(_))), .. })
    ));
}
