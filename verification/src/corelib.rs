//! Core standard library contract: the built-in `core` source and stable host names.
use vstd::prelude::*;
use vstd::string::*;

use crate::diagnostic::{diagnostic_views, DiagnosticView};
use crate::parser::parse_reports;
use crate::resolver::{concat_diags, resolve_result_wf, resolve_sources, source_ids, ResolveResult};
use crate::typeck::{check_sources, type_check_result_wf, TypeCheckResult};
use crate::source::{SourceFile, SourceId};
use crate::text::{byte_len, lemma_byte_len_le};

verus! {

/// Display path for the built-in core source module.
pub const CORE_SOURCE_NAME: &'static str = "core.mao";

/// Source text for the Maodie v1 core library.
///
/// `String` remains a compiler built-in type. `Option`, `Result`, and `Slice` are ordinary source
/// declarations loaded before user modules. `log` is declared as a host-backed function.
pub const CORE_SOURCE: &'static str = "module core\n\nenum Option<T> { Some(T), None }\nenum Result<T, E> { Ok(T), Err(E) }\n\nstruct Slice<T> {\n  ptr: i32,\n  len: i32\n}\n\nfn log(message: String) -> unit;\n";

/// WASM module name used for Maodie host imports.
pub const WASM_HOST_MODULE: &'static str = "maodie";

/// Host import name for reporting a panic/trap message by string slice.
pub const WASM_IMPORT_PANIC: &'static str = "panic";

/// Host import name for writing a debug string slice.
pub const WASM_IMPORT_DEBUG_STRING: &'static str = "debug_string";

/// Host import name for writing a debug i32 chunk.
pub const WASM_IMPORT_DEBUG_I32: &'static str = "debug_i32";

/// Host import name for writing a debug bool chunk.
pub const WASM_IMPORT_DEBUG_BOOL: &'static str = "debug_bool";

/// Host import name for ending one formatted debug log line.
pub const WASM_IMPORT_DEBUG_LOG_END: &'static str = "debug_log_end";

/// Linear-memory export name expected by host glue.
pub const WASM_MEMORY_EXPORT: &'static str = "memory";

/// Creates a [`SourceFile`] for the built-in core library, with source id 0.
pub fn core_source() -> (r: SourceFile)
    ensures
        r@.id@ == 0,
        r@.name == CORE_SOURCE_NAME@,
        r@.text == CORE_SOURCE@,
{
    core_source_with_id(SourceId::new(0))
}

/// Creates a [`SourceFile`] for the built-in core library with a caller-owned id.
pub fn core_source_with_id(id: SourceId) -> (r: SourceFile)
    ensures
        r@.id == id,
        r@.name == CORE_SOURCE_NAME@,
        r@.text == CORE_SOURCE@,
{
    proof {
        reveal_strlit("module core\n\nenum Option<T> { Some(T), None }\nenum Result<T, E> { Ok(T), Err(E) }\n\nstruct Slice<T> {\n  ptr: i32,\n  len: i32\n}\n\nfn log(message: String) -> unit;\n");
        lemma_byte_len_le(CORE_SOURCE@);
    }
    SourceFile::new(id, CORE_SOURCE_NAME, CORE_SOURCE)
}

/// The diagnostics `ds` begin with what parsing the core library reports, followed by what
/// parsing `source` reports.
pub open spec fn core_then_source_reported(ds: Seq<DiagnosticView>, source: SourceFile) -> bool {
    exists|core: SourceFile, a: Seq<DiagnosticView>, b: Seq<DiagnosticView>|
        #![trigger parse_reports(core, a), parse_reports(source, b)]
        core@.id@ == 0 && core@.name == CORE_SOURCE_NAME@ && core@.text == CORE_SOURCE@ && parse_reports(core, a)
            && parse_reports(source, b) && ds.len() >= a.len() + b.len() && ds.take((a.len() + b.len()) as int) == a + b
}

proof fn lemma_core_then_source(ds: Seq<DiagnosticView>, core: SourceFile, source: SourceFile, parts: Seq<Seq<DiagnosticView>>)
    requires
        core@.id@ == 0 && core@.name == CORE_SOURCE_NAME@ && core@.text == CORE_SOURCE@,
        parts.len() == 2,
        parse_reports(core, parts[0]),
        parse_reports(source, parts[1]),
        ds.len() >= concat_diags(parts).len(),
        ds.take(concat_diags(parts).len() as int) == concat_diags(parts),
    ensures
        core_then_source_reported(ds, source),
{
    let p1 = parts.drop_last();
    assert(p1.drop_last() =~= Seq::<Seq<DiagnosticView>>::empty());
    assert(concat_diags(p1.drop_last()) == Seq::<DiagnosticView>::empty());
    assert(p1.last() == parts[0]);
    assert(concat_diags(p1) =~= parts[0]);
    assert(concat_diags(parts) =~= parts[0] + parts[1]);
}

/// Resolves user sources with the core library preloaded as the first module.
pub fn resolve_sources_with_core(sources: &[&SourceFile]) -> (r: ResolveResult)
    ensures
        resolve_result_wf(r, seq![0usize] + source_ids(sources@)),
        exists|core: SourceFile, parts: Seq<Seq<DiagnosticView>>|
            #![trigger concat_diags(parts), core@]
            core@.id@ == 0 && core@.name == CORE_SOURCE_NAME@ && core@.text == CORE_SOURCE@
                && parts.len() == sources@.len() + 1 && parse_reports(core, parts[0]) && (forall|i: int|
                0 <= i < sources@.len() ==> parse_reports(*sources@[i], #[trigger] parts[i + 1]))
                && diagnostic_views(r.diagnostics@).len() >= concat_diags(parts).len() && diagnostic_views(
                r.diagnostics@,
            ).take(concat_diags(parts).len() as int) == concat_diags(parts),
{
    let core = core_source();
    let mut all_sources: Vec<&SourceFile> = Vec::new();
    all_sources.push(&core);
    let mut i: usize = 0;
    while i < sources.len()
        invariant
            i <= sources@.len(),
            all_sources@.len() == i + 1,
            all_sources@[0]@.id@ == 0,
            *all_sources@[0] == core,
            forall|k: int| 0 <= k < i ==> #[trigger] all_sources@[k + 1] == sources@[k],
        decreases sources@.len() - i,
    {
        all_sources.push(sources[i]);
        i = i + 1;
    }
    let r = resolve_sources(all_sources.as_slice());
    proof {
        let expected = seq![0usize] + source_ids(sources@);
        assert forall|k: int| 0 <= k < all_sources@.len() implies source_ids(all_sources@)[k]
            == expected[k] by {
            if k > 0 {
                assert(all_sources@[(k - 1) + 1] == sources@[k - 1]);
            }
        }
        assert(source_ids(all_sources@) =~= expected);
        let parts = choose|parts: Seq<Seq<DiagnosticView>>|
            #![trigger concat_diags(parts)]
            parts.len() == all_sources@.len() && (forall|i: int|
                0 <= i < parts.len() ==> parse_reports(*all_sources@[i], #[trigger] parts[i]))
                && diagnostic_views(r.diagnostics@).len() >= concat_diags(parts).len() && diagnostic_views(
                r.diagnostics@,
            ).take(concat_diags(parts).len() as int) == concat_diags(parts);
        assert(parse_reports(*all_sources@[0], parts[0]));
        assert forall|i: int| 0 <= i < sources@.len() implies parse_reports(*sources@[i], #[trigger] parts[i + 1]) by {
            assert(all_sources@[i + 1] == sources@[i]);
            assert(parse_reports(*all_sources@[i + 1], parts[i + 1]));
        }
        assert(parse_reports(core, parts[0]));
    }
    r
}

/// Resolves one user source with the core library preloaded as the first module.
pub fn resolve_source_with_core(source: &SourceFile) -> (r: ResolveResult)
    ensures
        resolve_result_wf(r, seq![0usize, source@.id@]),
        core_then_source_reported(diagnostic_views(r.diagnostics@), *source),
{
    let sources: Vec<&SourceFile> = vec![source];
    let r = resolve_sources_with_core(sources.as_slice());
    proof {
        assert(seq![0usize] + source_ids(sources@) =~= seq![0usize, source@.id@]);
        let (core, parts) = choose|core: SourceFile, parts: Seq<Seq<DiagnosticView>>|
            #![trigger concat_diags(parts), core@]
            core@.id@ == 0 && core@.name == CORE_SOURCE_NAME@ && core@.text == CORE_SOURCE@
                && parts.len() == sources@.len() + 1 && parse_reports(core, parts[0]) && (forall|i: int|
                0 <= i < sources@.len() ==> parse_reports(*sources@[i], #[trigger] parts[i + 1]))
                && diagnostic_views(r.diagnostics@).len() >= concat_diags(parts).len() && diagnostic_views(
                r.diagnostics@,
            ).take(concat_diags(parts).len() as int) == concat_diags(parts);
        assert(parse_reports(*sources@[0], parts[1]));
        lemma_core_then_source(diagnostic_views(r.diagnostics@), core, *source, parts);
    }
    r
}

/// Type-checks user sources with the core library preloaded as the first module.
pub fn check_sources_with_core(sources: &[&SourceFile]) -> (r: TypeCheckResult)
    ensures
        type_check_result_wf(r, seq![0usize] + source_ids(sources@)),
        exists|core: SourceFile, parts: Seq<Seq<DiagnosticView>>|
            #![trigger concat_diags(parts), core@]
            core@.id@ == 0 && core@.name == CORE_SOURCE_NAME@ && core@.text == CORE_SOURCE@
                && parts.len() == sources@.len() + 1 && parse_reports(core, parts[0]) && (forall|i: int|
                0 <= i < sources@.len() ==> parse_reports(*sources@[i], #[trigger] parts[i + 1]))
                && diagnostic_views(r.diagnostics@).len() >= concat_diags(parts).len() && diagnostic_views(
                r.diagnostics@,
            ).take(concat_diags(parts).len() as int) == concat_diags(parts),
{
    let core = core_source();
    let mut all_sources: Vec<&SourceFile> = Vec::new();
    all_sources.push(&core);
    let mut i: usize = 0;
    while i < sources.len()
        invariant
            i <= sources@.len(),
            all_sources@.len() == i + 1,
            all_sources@[0]@.id@ == 0,
            *all_sources@[0] == core,
            forall|k: int| 0 <= k < i ==> #[trigger] all_sources@[k + 1] == sources@[k],
        decreases sources@.len() - i,
    {
        all_sources.push(sources[i]);
        i = i + 1;
    }
    let r = check_sources(all_sources.as_slice());
    proof {
        let expected = seq![0usize] + source_ids(sources@);
        assert forall|k: int| 0 <= k < all_sources@.len() implies source_ids(all_sources@)[k]
            == expected[k] by {
            if k > 0 {
                assert(all_sources@[(k - 1) + 1] == sources@[k - 1]);
            }
        }
        assert(source_ids(all_sources@) =~= expected);
        let parts = choose|parts: Seq<Seq<DiagnosticView>>|
            #![trigger concat_diags(parts)]
            parts.len() == all_sources@.len() && (forall|i: int|
                0 <= i < parts.len() ==> parse_reports(*all_sources@[i], #[trigger] parts[i]))
                && diagnostic_views(r.diagnostics@).len() >= concat_diags(parts).len() && diagnostic_views(
                r.diagnostics@,
            ).take(concat_diags(parts).len() as int) == concat_diags(parts);
        assert(parse_reports(*all_sources@[0], parts[0]));
        assert forall|i: int| 0 <= i < sources@.len() implies parse_reports(*sources@[i], #[trigger] parts[i + 1]) by {
            assert(all_sources@[i + 1] == sources@[i]);
            assert(parse_reports(*all_sources@[i + 1], parts[i + 1]));
        }
        assert(parse_reports(core, parts[0]));
    }
    r
}

/// Type-checks one user source with the core library preloaded as the first module.
pub fn check_source_with_core(source: &SourceFile) -> (r: TypeCheckResult)
    ensures
        type_check_result_wf(r, seq![0usize, source@.id@]),
        core_then_source_reported(diagnostic_views(r.diagnostics@), *source),
{
    let sources: Vec<&SourceFile> = vec![source];
    let r = check_sources_with_core(sources.as_slice());
    proof {
        assert(seq![0usize] + source_ids(sources@) =~= seq![0usize, source@.id@]);
        let (core, parts) = choose|core: SourceFile, parts: Seq<Seq<DiagnosticView>>|
            #![trigger concat_diags(parts), core@]
            core@.id@ == 0 && core@.name == CORE_SOURCE_NAME@ && core@.text == CORE_SOURCE@
                && parts.len() == sources@.len() + 1 && parse_reports(core, parts[0]) && (forall|i: int|
                0 <= i < sources@.len() ==> parse_reports(*sources@[i], #[trigger] parts[i + 1]))
                && diagnostic_views(r.diagnostics@).len() >= concat_diags(parts).len() && diagnostic_views(
                r.diagnostics@,
            ).take(concat_diags(parts).len() as int) == concat_diags(parts);
        assert(parse_reports(*sources@[0], parts[1]));
        lemma_core_then_source(diagnostic_views(r.diagnostics@), core, *source, parts);
    }
    r
}

} // verus!
