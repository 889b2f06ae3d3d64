//! The compile pipeline from source text to WAT and WASM artifacts, with stable dumps.
use vstd::prelude::*;
use vstd::string::*;

use crate::ast::{file_dump, AstFile};
use crate::corelib::{check_source_with_core, core_then_source_reported};
use crate::diagnostic::{
    diagnostic_views, is_valid_code, Diagnostic, DiagnosticCode, DiagnosticSeverity, DiagnosticView,
};
use crate::hir::{package_dump, HirPackage};
use crate::mir::{
    function_key, locals_kept, lower_package, mir_package_dump, mir_package_wf, modules_lowered_fns,
    modules_lowered_keys, MirFunction, MirPackage,
};
use crate::parser::parse_source;
use crate::source::{SourceFile, SourceId, TextRange};
use crate::text::{byte_len, collect_chars, owned};
use crate::typeck::{
    diag_stage, diags_in_stage_order, type_check_result_wf, type_table_dump, TypeCheckResult,
};
use crate::unicode::{is_whitespace, white_space};
use crate::wasm::{
    compile_mir_to_wasm, exports_all, laid_out_unless_oversized, wasm_header, wat_prelude,
    WASM_BINARY_NAME, WASM_LAYOUT_NOTE, WAT_DUMP_NAME,
};

verus! {

/// Code of the diagnostic for a source with nothing but whitespace.
pub const EMPTY_SOURCE_CODE: &'static str = "MD0001";

/// Message of the diagnostic for a source with nothing but whitespace.
pub const EMPTY_SOURCE_MESSAGE: &'static str = "Maodie 源文件为空。";

/// Code of the warnings that carry the WASM backend's notes.
pub const WASM_NOTE_CODE: &'static str = "MD9001";

/// Content of a compile artifact.
#[derive(Debug)]
pub enum ArtifactContent {
    /// Text content.
    Text(String),
    /// Binary content.
    Bytes(Vec<u8>),
}

/// One compile artifact.
#[derive(Debug)]
pub struct CompileArtifact {
    /// Artifact kind: `wat` or `wasm`.
    pub kind: &'static str,
    /// Artifact file name.
    pub filename: String,
    /// Artifact content.
    pub content: ArtifactContent,
}

/// Outcome of compiling one source text.
#[derive(Debug)]
pub struct CompileOutcome {
    /// Whether compilation produced artifacts.
    pub ok: bool,
    /// Compiler diagnostics in stage order, then the notes of the WASM backend as warnings.
    pub diagnostics: Vec<Diagnostic>,
    /// The artifacts: WAT text, then the WASM binary.
    pub artifacts: Vec<CompileArtifact>,
    /// Stable dumps by name, in name order.
    pub dumps: Vec<(String, String)>,
}

/// What compiling a text with nothing but whitespace gives: one error, and nothing else.
pub open spec fn empty_source_outcome(r: CompileOutcome) -> bool {
    &&& !r.ok
    &&& r.diagnostics@.len() == 1
    &&& r.diagnostics@[0]@.code == EMPTY_SOURCE_CODE@
    &&& r.diagnostics@[0]@.severity == DiagnosticSeverity::Error
    &&& r.diagnostics@[0]@.message == EMPTY_SOURCE_MESSAGE@
    &&& r.diagnostics@[0]@.span is None
    &&& r.diagnostics@[0]@.notes.len() == 0
    &&& r.artifacts@.len() == 0
    &&& r.dumps@.len() == 0
}

/// A text with nothing but whitespace.
pub open spec fn is_blank(s: Seq<char>) -> bool {
    forall|i: int| 0 <= i < s.len() ==> white_space(#[trigger] s[i])
}

/// The names of a list of dumps.
pub open spec fn dump_names(d: Seq<(String, String)>) -> Seq<Seq<char>> {
    d.map_values(|e: (String, String)| e.0@)
}

/// The dump names of a failed compilation.
pub open spec fn failed_dump_names() -> Seq<Seq<char>> {
    seq!["ast"@, "hir"@, "types"@]
}

/// The dump names of a successful compilation.
pub open spec fn full_dump_names() -> Seq<Seq<char>> {
    seq!["ast"@, "hir"@, "mir"@, "types"@, "wat"@]
}

/// Some diagnostic of the list is an error.
pub open spec fn has_error(d: Seq<Diagnostic>) -> bool {
    exists|k: int| 0 <= k < d.len() && (#[trigger] d[k]@).severity == DiagnosticSeverity::Error
}

/// A note of the WASM backend, reported as a warning without a span.
pub open spec fn is_backend_note(d: DiagnosticView) -> bool {
    &&& d.code == WASM_NOTE_CODE@
    &&& d.severity == DiagnosticSeverity::Warning
    &&& d.span is None
    &&& d.notes.len() == 0
}

/// The HIR dump shows `h`, the MIR dump shows `p`, a lowering of `h`: one function per function
/// and method, in order, each keeping its parameters and locals; and the artifacts are those of
/// `p`: the WAT text exports each of its functions, the module lists them.
pub open spec fn dumps_and_artifacts_agree(r: CompileOutcome, h: HirPackage, p: MirPackage) -> bool {
    &&& r.dumps@[1].1@ == package_dump(h)
    &&& r.dumps@[2].1@ == mir_package_dump(p)
    &&& mir_package_wf(p)
    &&& p.functions@.map_values(|f: MirFunction| function_key(f)) == modules_lowered_keys(h.modules@)
    &&& locals_kept(p.functions@, modules_lowered_fns(h.modules@))
    &&& (r.artifacts@[0].content matches ArtifactContent::Text(t) && exports_all(t@, p.functions@))
    &&& (r.artifacts@[1].content matches ArtifactContent::Bytes(b) && laid_out_unless_oversized(
        b@,
        p.functions@,
    ))
}

/// What a compilation of a text that is not blank produces: dumps of every stage that ran, in
/// name order; success exactly when no error was reported. A failed compilation reports the
/// compiler's diagnostics in stage order and no artifact; a successful one reports only the
/// backend's notes, starting with the layout note, and the WAT text (which is also its `wat`
/// dump) and the WASM binary as artifacts, which come from the package that the MIR dump shows.
pub open spec fn compile_outcome_wf(r: CompileOutcome) -> bool {
    &&& r.ok <==> !has_error(r.diagnostics@)
    &&& r.ok ==> dump_names(r.dumps@) == full_dump_names()
    &&& !r.ok ==> dump_names(r.dumps@) == failed_dump_names()
    &&& !r.ok ==> r.artifacts@.len() == 0 && diags_in_stage_order(r.diagnostics@)
    &&& r.ok ==> r.diagnostics@.len() >= 1 && r.diagnostics@[0]@.message == WASM_LAYOUT_NOTE@
        && forall|k: int| 0 <= k < r.diagnostics@.len() ==> is_backend_note(#[trigger] r.diagnostics@[k]@)
    &&& r.ok ==> {
        &&& r.artifacts@.len() == 2
        &&& r.artifacts@[0].kind@ == "wat"@
        &&& r.artifacts@[0].filename@ == WAT_DUMP_NAME@
        &&& (r.artifacts@[0].content matches ArtifactContent::Text(t) && t@.len() >= wat_prelude().len()
            && t@.take(wat_prelude().len() as int) == wat_prelude() && t@ == r.dumps@[4].1@)
        &&& r.artifacts@[1].kind@ == "wasm"@
        &&& r.artifacts@[1].filename@ == WASM_BINARY_NAME@
        &&& (r.artifacts@[1].content matches ArtifactContent::Bytes(b) && b@.len() >= 8 && b@.take(
            8,
        ) == wasm_header())
        &&& exists|h: HirPackage, p: MirPackage| #[trigger] dumps_and_artifacts_agree(r, h, p)
    }
}

fn all_whitespace(text: &str) -> (r: bool)
    ensures
        r == is_blank(text@),
{
    let chars = collect_chars(text);
    let mut i: usize = 0;
    while i < chars.len()
        invariant
            i <= chars@.len(),
            chars@ == text@,
            forall|k: int| 0 <= k < i ==> white_space(#[trigger] text@[k]),
        decreases chars@.len() - i,
    {
        if !is_whitespace(chars[i]) {
            return false;
        }
        i = i + 1;
    }
    true
}

/// `r` is what the front end gives for `source` with the core library loaded: some syntax tree
/// of the whole file and a well-formed check result `t` whose diagnostics begin with what
/// parsing the core library and `source` reports. `ok` holds exactly when `t` has no error; a
/// failed outcome carries `t`'s diagnostics, a successful one begins with them; the dumps are
/// those of the tree, of `t`'s package and of `t`'s types, and on success the MIR dump and the
/// artifacts agree with `t`'s package.
pub open spec fn front_end_outcome(r: CompileOutcome, source: SourceFile) -> bool {
    exists|ast: AstFile, t: TypeCheckResult|
        #![trigger file_dump(ast), package_dump(t.package)]
        {
            &&& ast.span == (TextRange { start: 0, end: byte_len(source@.text) as usize })
            &&& type_check_result_wf(t, seq![0usize, source@.id@])
            &&& core_then_source_reported(diagnostic_views(t.diagnostics@), source)
            &&& (r.ok <==> !has_error(t.diagnostics@))
            &&& r.dumps@.len() >= 3
            &&& r.dumps@[0].1@ == file_dump(ast)
            &&& r.dumps@[1].1@ == package_dump(t.package)
            &&& !r.ok ==> r.diagnostics@ == t.diagnostics@ && r.dumps@[2].1@ == type_table_dump(t.type_table)
            &&& r.ok ==> {
                &&& r.diagnostics@.len() >= t.diagnostics@.len()
                &&& r.diagnostics@.take(t.diagnostics@.len() as int) == t.diagnostics@
                &&& r.dumps@.len() >= 4
                &&& r.dumps@[3].1@ == type_table_dump(t.type_table)
                &&& exists|p: MirPackage| #[trigger] dumps_and_artifacts_agree(r, t.package, p)
            }
        }
}

pub(crate) fn any_error(diagnostics: &[Diagnostic]) -> (r: bool)
    ensures
        r == has_error(diagnostics@),
{
    let mut i: usize = 0;
    while i < diagnostics.len()
        invariant
            i <= diagnostics@.len(),
            forall|k: int|
                0 <= k < i ==> (#[trigger] diagnostics@[k]@).severity != DiagnosticSeverity::Error,
        decreases diagnostics@.len() - i,
    {
        if diagnostics[i].severity == DiagnosticSeverity::Error {
            assert((diagnostics@[i as int]@).severity == DiagnosticSeverity::Error);
            return true;
        }
        i = i + 1;
    }
    false
}

fn push_dump(dumps: &mut Vec<(String, String)>, name: &str, text: String)
    ensures
        dump_names(final(dumps)@) == dump_names(old(dumps)@).push(name@),
        final(dumps)@ == old(dumps)@.push(final(dumps)@.last()),
        final(dumps)@.last().1@ == text@,
{
    let ghost before = dumps@;
    dumps.push((owned(name), text));
    proof {
        assert(dump_names(dumps@) =~= dump_names(before).push(name@));
    }
}

/// Compiles one source text with the core library preloaded: the stages run in order and stop
/// after type checking when it reports an error.
pub fn compile_text(source_text: &str, source_path: &str) -> (r: CompileOutcome)
    requires
        byte_len(source_text@) <= isize::MAX,
    ensures
        is_blank(source_text@) ==> empty_source_outcome(r),
        !is_blank(source_text@) ==> compile_outcome_wf(r),
        !is_blank(source_text@) ==> exists|source: SourceFile|
            #[trigger] front_end_outcome(r, source) && source@.id@ == 1 && source@.name == source_path@
                && source@.text == source_text@,
{
    if all_whitespace(source_text) {
        proof {
            reveal_strlit("MD0001");
        }
        let code = DiagnosticCode::new(EMPTY_SOURCE_CODE).unwrap();
        let diagnostic = Diagnostic::new(code, DiagnosticSeverity::Error, EMPTY_SOURCE_MESSAGE);
        let mut diagnostics: Vec<Diagnostic> = Vec::new();
        diagnostics.push(diagnostic);
        return CompileOutcome {
            ok: false,
            diagnostics,
            artifacts: Vec::new(),
            dumps: Vec::new(),
        };
    }
    let source = SourceFile::new(SourceId::new(1), source_path, source_text);
    compile_file(&source)
}

#[verifier::spinoff_prover]
#[verifier::rlimit(40)]
fn compile_file(source: &SourceFile) -> (r: CompileOutcome)
    ensures
        compile_outcome_wf(r),
        front_end_outcome(r, *source),
{
    let parsed = parse_source(source);
    let typed = check_source_with_core(source);
    let mut dumps: Vec<(String, String)> = Vec::new();
    push_dump(&mut dumps, "ast", parsed.ast.dump());
    push_dump(&mut dumps, "hir", typed.package.dump());
    if any_error(typed.diagnostics.as_slice()) {
        push_dump(&mut dumps, "types", typed.dump());
        proof {
            assert(dump_names(dumps@) =~= failed_dump_names());
        }
        return CompileOutcome {
            ok: false,
            diagnostics: typed.diagnostics,
            artifacts: Vec::new(),
            dumps,
        };
    }
    let types_dump = typed.dump();
    let mir = lower_package(&typed);
    push_dump(&mut dumps, "mir", mir.dump());
    push_dump(&mut dumps, "types", types_dump);
    let wasm = compile_mir_to_wasm(&mir);
    let wat_text = wasm.wat.clone();
    push_dump(&mut dumps, "wat", wat_text);
    proof {
        assert(dump_names(dumps@) =~= full_dump_names());
    }
    let ghost compiler_diags = typed.diagnostics@;
    proof {
        if compiler_diags.len() > 0 {
            assert(diag_stage(compiler_diags[0]@) <= 2);
            assert(compiler_diags[0]@.severity == DiagnosticSeverity::Error);
            assert(has_error(compiler_diags));
        }
    }
    let mut diagnostics = typed.diagnostics;
    let artifacts = artifacts_of(wasm, &mut diagnostics);
    proof {
        assert(!has_error(diagnostics@)) by {
            if has_error(diagnostics@) {
                let k = choose|k: int|
                    0 <= k < diagnostics@.len() && (#[trigger] diagnostics@[k]@).severity
                        == DiagnosticSeverity::Error;
                assert(is_backend_note(diagnostics@[k]@));
            }
        }
    }
    let r = CompileOutcome { ok: true, diagnostics, artifacts, dumps };
    proof {
        assert(dumps_and_artifacts_agree(r, typed.package, mir));
    }
    r
}

/// Splits the backend's output into the two artifacts, and appends its notes to `diagnostics`
/// as warnings.
fn artifacts_of(wasm: crate::wasm::WasmArtifacts, diagnostics: &mut Vec<Diagnostic>) -> (r: Vec<
    CompileArtifact,
>)
    requires
        crate::wasm::wasm_artifacts_wf(wasm),
    ensures
        final(diagnostics)@.len() > old(diagnostics)@.len(),
        final(diagnostics)@.take(old(diagnostics)@.len() as int) == old(diagnostics)@,
        final(diagnostics)@[old(diagnostics)@.len() as int]@.message == WASM_LAYOUT_NOTE@,
        forall|k: int|
            old(diagnostics)@.len() <= k < final(diagnostics)@.len() ==> is_backend_note(
                #[trigger] final(diagnostics)@[k]@,
            ),
        r@.len() == 2,
        r@[0].kind@ == "wat"@,
        r@[0].filename@ == WAT_DUMP_NAME@,
        r@[0].content matches ArtifactContent::Text(t) && t@.len() >= wat_prelude().len()
            && t@.take(wat_prelude().len() as int) == wat_prelude() && t@ == wasm.wat@,
        r@[1].kind@ == "wasm"@,
        r@[1].filename@ == WASM_BINARY_NAME@,
        r@[1].content matches ArtifactContent::Bytes(b) && b@.len() >= 8 && b@.take(8)
            == wasm_header() && b@ == wasm.wasm@,
{
    let ghost before = diagnostics@;
    proof {
        reveal_strlit("MD9001");
    }
    let mut i: usize = 0;
    while i < wasm.diagnostics.len()
        invariant
            i <= wasm.diagnostics@.len(),
            diagnostics@.len() == before.len() + i,
            diagnostics@.take(before.len() as int) == before,
            is_valid_code(WASM_NOTE_CODE@),
            wasm.diagnostics@.len() >= 1,
            wasm.diagnostics@[0].message@ == WASM_LAYOUT_NOTE@,
            i > 0 ==> diagnostics@[before.len() as int]@.message == WASM_LAYOUT_NOTE@,
            forall|k: int|
                before.len() <= k < diagnostics@.len() ==> is_backend_note(
                    #[trigger] diagnostics@[k]@,
                ),
        decreases wasm.diagnostics@.len() - i,
    {
        let code = DiagnosticCode::new(WASM_NOTE_CODE).unwrap();
        let note = Diagnostic::new(
            code,
            DiagnosticSeverity::Warning,
            wasm.diagnostics[i].message.as_str(),
        );
        let ghost prev = diagnostics@;
        diagnostics.push(note);
        proof {
            assert(diagnostics@.take(before.len() as int) =~= prev.take(before.len() as int));
        }
        i = i + 1;
    }
    let crate::wasm::WasmArtifacts { wat, wasm: bytes, artifact_names, diagnostics: _ } = wasm;
    proof {
        reveal_strlit("wat");
        reveal_strlit("wasm");
    }
    let mut artifacts: Vec<CompileArtifact> = Vec::new();
    artifacts.push(
        CompileArtifact {
            kind: "wat",
            filename: owned(artifact_names.wat_dump),
            content: ArtifactContent::Text(wat),
        },
    );
    artifacts.push(
        CompileArtifact {
            kind: "wasm",
            filename: owned(artifact_names.wasm_binary),
            content: ArtifactContent::Bytes(bytes),
        },
    );
    artifacts
}

} // verus!
