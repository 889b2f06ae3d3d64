//! Request and response logic of the host-facing compiler API: option defaults, response flags,
//! highlight sessions with their versions, and API errors, independent of how the host encodes
//! requests and responses.
use vstd::prelude::*;
use vstd::string::*;

use crate::diagnostic::{
    diagnostic_views, is_valid_code, Diagnostic, DiagnosticCode, DiagnosticSeverity,
    DiagnosticView,
};
use crate::highlight::{highlight_of, highlight_source, HighlightToken};
use crate::incremental::{
    edited_text, HighlightEdit, IncrementalHighlightError,
    IncrementalHighlightSession,
};
use crate::lexer::{lexed_diagnostics, lexed_tokens};
use crate::pipeline::{
    any_error, compile_outcome_wf, compile_text, empty_source_outcome, front_end_outcome, has_error,
    is_blank, CompileOutcome,
};
use crate::source::{SourceFile, SourceId, TextRange};
use crate::text::{byte_len, decimal, owned, push_decimal, push_decimal_u64};

verus! {

/// Code of the diagnostics that report a failed API request.
pub const API_ERROR_CODE: &'static str = "MD9000";

/// Display path used when a request names none.
pub const DEFAULT_SOURCE_PATH: &'static str = "<memory>";

/// Compile options accepted by the API.
#[derive(Clone, Debug, PartialEq, Eq)]
pub struct CompileOptions {
    /// Display path for diagnostics and downstream artifact naming.
    pub source_path: Option<String>,
    /// Optional caller-owned module name for future package-level APIs.
    pub module_name: Option<String>,
    /// Requested target; `wasm` is supported.
    pub target: Option<String>,
}

impl Default for CompileOptions {
    fn default() -> (r: Self)
        ensures
            r.source_path is None,
            r.module_name is None,
            r.target is None,
    {
        CompileOptions { source_path: None, module_name: None, target: None }
    }
}

/// Highlight options accepted by the API.
#[derive(Clone, Debug, PartialEq, Eq)]
pub struct HighlightOptions {
    /// Display path for diagnostics.
    pub source_path: Option<String>,
}

impl Default for HighlightOptions {
    fn default() -> (r: Self)
        ensures
            r.source_path is None,
    {
        HighlightOptions { source_path: None }
    }
}

/// Initial options accepted when creating an incremental highlight session.
#[derive(Clone, Debug, PartialEq, Eq)]
pub struct HighlightSessionOptions {
    /// Display path for diagnostics.
    pub source_path: Option<String>,
    /// Caller-owned editor version mirrored back in the response.
    pub editor_version: Option<u64>,
}

impl Default for HighlightSessionOptions {
    fn default() -> (r: Self)
        ensures
            r.source_path is None,
            r.editor_version is None,
    {
        HighlightSessionOptions { source_path: None, editor_version: None }
    }
}

/// Reset options accepted by an existing incremental highlight session.
#[derive(Clone, Debug, PartialEq, Eq)]
pub struct HighlightSessionResetOptions {
    /// Optional new display path for diagnostics. Omitted values preserve the session path.
    pub source_path: Option<String>,
    /// Caller-owned editor version mirrored back in the response.
    pub editor_version: Option<u64>,
}

impl Default for HighlightSessionResetOptions {
    fn default() -> (r: Self)
        ensures
            r.source_path is None,
            r.editor_version is None,
    {
        HighlightSessionResetOptions { source_path: None, editor_version: None }
    }
}

/// One edit of an incremental highlight session, against the version the caller last saw.
#[derive(Clone, Debug, PartialEq, Eq)]
pub struct HighlightSessionUpdateRequest {
    /// Caller-owned editor version mirrored back in the response.
    pub editor_version: u64,
    /// Session version the edit was written against.
    pub session_version: u64,
    /// Old-source byte range to replace.
    pub range: TextRange,
    /// Replacement source text.
    pub replacement: String,
}

/// Answer to a one-shot highlight request.
#[derive(Debug)]
pub struct HighlightResponse {
    /// Whether no error was reported.
    pub ok: bool,
    /// Highlight tokens of the source.
    pub tokens: Vec<HighlightToken>,
    /// Lexer diagnostics, or the API error.
    pub diagnostics: Vec<Diagnostic>,
}

/// An incremental highlight session with the display path of its source.
#[derive(Debug)]
pub struct HighlightSessionHandle {
    source_path: String,
    session: IncrementalHighlightSession,
}

/// Answer to a request on an incremental highlight session.
#[derive(Debug)]
pub struct HighlightSessionResponse {
    /// Whether no error was reported.
    pub ok: bool,
    /// The new session, on creation.
    pub session_handle: Option<HighlightSessionHandle>,
    /// Caller-owned editor version of the request.
    pub editor_version: u64,
    /// Session version after the request.
    pub session_version: u64,
    /// New-source byte range whose highlight data was recomputed.
    pub changed_range: TextRange,
    /// Current highlight tokens of the session.
    pub tokens: Vec<HighlightToken>,
    /// Current lexer diagnostics of the session, or the API error.
    pub diagnostics: Vec<Diagnostic>,
    /// Whether the whole source was highlighted anew.
    pub full_rehighlight: bool,
}

impl HighlightSessionHandle {
    /// Display path of the session's source.
    pub closed spec fn path(&self) -> Seq<char> {
        self.source_path@
    }

    /// The session.
    pub closed spec fn state(&self) -> IncrementalHighlightSession {
        self.session
    }

    /// Returns the display path of the session's source.
    pub fn source_path(&self) -> (r: &str)
        ensures
            r@ == self.path(),
    {
        self.source_path.as_str()
    }

    /// Returns the session.
    pub fn session(&self) -> (r: &IncrementalHighlightSession)
        ensures
            *r == self.state(),
    {
        &self.session
    }
}

/// The display path a request names, or the default one.
pub open spec fn path_or_default(path: Option<String>) -> Seq<char> {
    match path {
        Some(p) => p@,
        None => DEFAULT_SOURCE_PATH@,
    }
}

/// The editor version a request names, or 0.
pub open spec fn version_or_zero(version: Option<u64>) -> u64 {
    match version {
        Some(v) => v,
        None => 0,
    }
}

/// A source file with the given id, display path and text.
pub open spec fn has_view(f: SourceFile, id: usize, name: Seq<char>, text: Seq<char>) -> bool {
    &&& f@.id@ == id
    &&& f@.name == name
    &&& f@.text == text
}

/// The lexer diagnostics of a source given by id, display path and text.
pub open spec fn lexed_diagnostics_of(id: usize, name: Seq<char>, text: Seq<char>) -> Seq<
    DiagnosticView,
> {
    lexed_diagnostics(choose|f: SourceFile| has_view(f, id, name, text))
}

/// The diagnostic of a failed API request.
pub open spec fn is_api_error(d: DiagnosticView, message: Seq<char>) -> bool {
    &&& d.code == API_ERROR_CODE@
    &&& d.severity == DiagnosticSeverity::Error
    &&& d.message == message
    &&& d.span is None
    &&& d.notes.len() == 0
}

/// Message of an update written against another session version.
pub open spec fn version_mismatch_message(requested: u64, current: u64) -> Seq<char> {
    "highlight session version mismatch: request version "@ + decimal(requested as nat)
        + ", current version "@ + decimal(current as nat)
}

/// Message of an update whose range does not fit the session source.
pub open spec fn invalid_range_message(range: TextRange, source_len: usize) -> Seq<char> {
    "invalid highlight edit range "@ + decimal(range.start as nat) + ".."@ + decimal(
        range.end as nat,
    ) + " for source length "@ + decimal(source_len as nat)
}

/// A session answer that carries one API error and nothing else.
pub open spec fn is_session_error(
    r: HighlightSessionResponse,
    message: Seq<char>,
    editor_version: u64,
    session_version: u64,
) -> bool {
    &&& !r.ok
    &&& r.session_handle is None
    &&& r.editor_version == editor_version
    &&& r.session_version == session_version
    &&& r.changed_range == TextRange { start: 0, end: 0 }
    &&& r.tokens@.len() == 0
    &&& r.diagnostics@.len() == 1
    &&& is_api_error(r.diagnostics@[0]@, message)
    &&& !r.full_rehighlight
}

/// The answer reports the session's current tokens and diagnostics, and is ok exactly when none
/// of them is an error.
pub open spec fn reports_session(r: HighlightSessionResponse, s: IncrementalHighlightSession) -> bool {
    &&& r.session_version == s.version_view()
    &&& r.tokens@ == s.highlight_view()
    &&& diagnostic_views(r.diagnostics@) == s.diagnostics_view()
    &&& r.ok == !has_error(r.diagnostics@)
}

/// The lexer diagnostics of a source file depend on its id, display path and text alone.
pub proof fn lemma_lexed_diagnostics_of(f: SourceFile)
    ensures
        lexed_diagnostics_of(f@.id@, f@.name, f@.text) == lexed_diagnostics(f),
{
    assert(has_view(f, f@.id@, f@.name, f@.text));
    let g = choose|g: SourceFile| has_view(g, f@.id@, f@.name, f@.text);
    SourceId::lemma_eq_from_view(g@.id, f@.id);
    assert(g@ == f@);
    crate::lex_laws::lemma_diags_of_view(g, f, crate::lexer::lex_from(f@.text, 0));
}

fn api_error(message: &str) -> (r: Diagnostic)
    ensures
        is_api_error(r@, message@),
{
    proof {
        reveal_strlit("MD9000");
    }
    assert(is_valid_code(API_ERROR_CODE@));
    let code = DiagnosticCode::new(API_ERROR_CODE).unwrap();
    Diagnostic::new(code, DiagnosticSeverity::Error, message)
}

fn copy_tokens(tokens: &[HighlightToken]) -> (r: Vec<HighlightToken>)
    ensures
        r@ == tokens@,
{
    let mut out: Vec<HighlightToken> = Vec::new();
    let mut i: usize = 0;
    while i < tokens.len()
        invariant
            i <= tokens@.len(),
            out@ == tokens@.take(i as int),
        decreases tokens@.len() - i,
    {
        out.push(tokens[i]);
        proof {
            assert(out@ =~= tokens@.take(i + 1));
        }
        i = i + 1;
    }
    proof {
        assert(tokens@.take(tokens@.len() as int) =~= tokens@);
    }
    out
}

fn copy_diagnostics(diagnostics: &[Diagnostic]) -> (r: Vec<Diagnostic>)
    ensures
        diagnostic_views(r@) == diagnostic_views(diagnostics@),
{
    let mut out: Vec<Diagnostic> = Vec::new();
    let mut i: usize = 0;
    while i < diagnostics.len()
        invariant
            i <= diagnostics@.len(),
            diagnostic_views(out@) == diagnostic_views(diagnostics@).take(i as int),
        decreases diagnostics@.len() - i,
    {
        let ghost prev = out@;
        let d = diagnostics[i].copy_diagnostic();
        out.push(d);
        proof {
            assert(diagnostic_views(out@) =~= diagnostic_views(prev).push(d@));
            assert(diagnostic_views(diagnostics@).take(i + 1) =~= diagnostic_views(
                diagnostics@,
            ).take(i as int).push(diagnostics@[i as int]@));
        }
        i = i + 1;
    }
    proof {
        assert(diagnostic_views(diagnostics@).take(diagnostics@.len() as int) =~= diagnostic_views(
            diagnostics@,
        ));
    }
    out
}

fn path_or_default_string(path: Option<String>) -> (r: String)
    ensures
        r@ == path_or_default(path),
{
    match path {
        Some(p) => p,
        None => owned(DEFAULT_SOURCE_PATH),
    }
}

fn version_or_zero_exec(version: Option<u64>) -> (r: u64)
    ensures
        r == version_or_zero(version),
{
    match version {
        Some(v) => v,
        None => 0,
    }
}

/// Compiles a source text with the display path the options name, or the default one.
pub fn compile_source(source_text: &str, options: CompileOptions) -> (r: CompileOutcome)
    requires
        byte_len(source_text@) <= isize::MAX,
    ensures
        is_blank(source_text@) ==> empty_source_outcome(r),
        !is_blank(source_text@) ==> compile_outcome_wf(r),
        !is_blank(source_text@) ==> exists|source: SourceFile|
            #[trigger] front_end_outcome(r, source) && source@.id@ == 1 && source@.name == path_or_default(
                options.source_path,
            ) && source@.text == source_text@,
{
    let source_path = path_or_default_string(options.source_path);
    compile_text(source_text, source_path.as_str())
}

/// The answer to a compile request that could not be read: one API error.
pub fn compile_error_response(message: String) -> (r: CompileOutcome)
    ensures
        !r.ok,
        r.diagnostics@.len() == 1,
        is_api_error(r.diagnostics@[0]@, message@),
        r.artifacts@.len() == 0,
        r.dumps@.len() == 0,
{
    let mut diagnostics: Vec<Diagnostic> = Vec::new();
    diagnostics.push(api_error(message.as_str()));
    CompileOutcome { ok: false, diagnostics, artifacts: Vec::new(), dumps: Vec::new() }
}

/// Highlights a source text with the display path the options name, or the default one.
pub fn highlight_source_for_json(source_text: &str, options: HighlightOptions) -> (r:
    HighlightResponse)
    requires
        byte_len(source_text@) <= isize::MAX,
    ensures
        r.tokens@ == highlight_of(lexed_tokens(source_text@)),
        diagnostic_views(r.diagnostics@) == lexed_diagnostics_of(
            1,
            path_or_default(options.source_path),
            source_text@,
        ),
        r.ok == !has_error(r.diagnostics@),
{
    let source_path = path_or_default_string(options.source_path);
    let source = SourceFile::new(SourceId::new(1), source_path.as_str(), source_text);
    let highlighted = highlight_source(&source);
    proof {
        lemma_lexed_diagnostics_of(source);
    }
    let has_error = any_error(highlighted.diagnostics.as_slice());
    HighlightResponse { ok: !has_error, tokens: highlighted.tokens, diagnostics: highlighted.diagnostics }
}

/// The answer to a highlight request that could not be read: one API error.
pub fn highlight_error_response(message: String) -> (r: HighlightResponse)
    ensures
        !r.ok,
        r.tokens@.len() == 0,
        r.diagnostics@.len() == 1,
        is_api_error(r.diagnostics@[0]@, message@),
{
    let mut diagnostics: Vec<Diagnostic> = Vec::new();
    diagnostics.push(api_error(message.as_str()));
    HighlightResponse { ok: false, tokens: Vec::new(), diagnostics }
}

/// The answer to a session request that failed: one API error, with the versions it names.
pub fn highlight_session_error_response(
    message: String,
    session_handle: Option<HighlightSessionHandle>,
    editor_version: u64,
    session_version: u64,
) -> (r: HighlightSessionResponse)
    ensures
        r.session_handle == session_handle,
        session_handle is None ==> is_session_error(r, message@, editor_version, session_version),
        !r.ok,
        r.editor_version == editor_version,
        r.session_version == session_version,
        r.changed_range == (TextRange { start: 0, end: 0 }),
        r.tokens@.len() == 0,
        r.diagnostics@.len() == 1,
        is_api_error(r.diagnostics@[0]@, message@),
        !r.full_rehighlight,
{
    let mut diagnostics: Vec<Diagnostic> = Vec::new();
    diagnostics.push(api_error(message.as_str()));
    HighlightSessionResponse {
        ok: false,
        session_handle,
        editor_version,
        session_version,
        changed_range: TextRange::new(0, 0),
        tokens: Vec::new(),
        diagnostics,
        full_rehighlight: false,
    }
}

/// Creates an incremental highlight session at version 0 and answers with its full highlight.
pub fn create_highlight_session_response(
    source_text: &str,
    options: HighlightSessionOptions,
) -> (r: HighlightSessionResponse)
    requires
        byte_len(source_text@) <= isize::MAX,
    ensures
        r.session_handle matches Some(h) && {
            &&& h.path() == path_or_default(options.source_path)
            &&& h.state().version_view() == 0
            &&& has_view(h.state().source_file(), 1, h.path(), source_text@)
            &&& h.state().in_sync()
            &&& reports_session(r, h.state())
        },
        r.editor_version == version_or_zero(options.editor_version),
        r.session_version == 0,
        r.changed_range == (TextRange { start: 0, end: byte_len(source_text@) as usize }),
        r.tokens@ == highlight_of(lexed_tokens(source_text@)),
        diagnostic_views(r.diagnostics@) == lexed_diagnostics_of(
            1,
            path_or_default(options.source_path),
            source_text@,
        ),
        r.full_rehighlight,
{
    let source_path = path_or_default_string(options.source_path);
    let editor_version = version_or_zero_exec(options.editor_version);
    let source = SourceFile::new(SourceId::new(1), source_path.as_str(), source_text);
    let session = IncrementalHighlightSession::new(source);
    proof {
        lemma_lexed_diagnostics_of(session.source_file());
    }
    let len = session.source().len_bytes();
    let tokens = copy_tokens(session.tokens());
    let diagnostics = copy_diagnostics(session.diagnostics());
    let has_error = any_error(diagnostics.as_slice());
    let version = session.version();
    let handle = HighlightSessionHandle { source_path, session };
    HighlightSessionResponse {
        ok: !has_error,
        session_handle: Some(handle),
        editor_version,
        session_version: version,
        changed_range: TextRange::new(0, len),
        tokens,
        diagnostics,
        full_rehighlight: true,
    }
}

fn version_mismatch_text(requested: u64, current: u64) -> (r: String)
    ensures
        r@ == version_mismatch_message(requested, current),
{
    let mut out = owned("highlight session version mismatch: request version ");
    push_decimal_u64(&mut out, requested);
    out.append(", current version ");
    push_decimal_u64(&mut out, current);
    out
}

fn invalid_range_text(range: TextRange, source_len: usize) -> (r: String)
    ensures
        r@ == invalid_range_message(range, source_len),
{
    let mut out = owned("invalid highlight edit range ");
    push_decimal(&mut out, range.start);
    out.append("..");
    push_decimal(&mut out, range.end);
    out.append(" for source length ");
    push_decimal(&mut out, source_len);
    out
}

/// Applies an edit to a session, when it was written against the session's current version.
///
/// An edit written against another version, or whose range does not fit the session source,
/// leaves the session unchanged and is answered with an API error.
pub fn update_highlight_session_for_json(
    handle: &mut HighlightSessionHandle,
    request: HighlightSessionUpdateRequest,
) -> (r: HighlightSessionResponse)
    requires
        request.session_version == old(handle).state().version_view() ==> {
            &&& request.range.start <= request.range.end
            &&& old(handle).state().edit_supported(
                HighlightEdit { range: request.range, replacement: request.replacement },
            )
        },
    ensures
        final(handle).path() == old(handle).path(),
        r.session_handle is None,
        r.editor_version == request.editor_version,
        request.session_version != old(handle).state().version_view() ==> {
            &&& *final(handle) == *old(handle)
            &&& is_session_error(
                r,
                version_mismatch_message(request.session_version, old(handle).state().version_view()),
                request.editor_version,
                old(handle).state().version_view(),
            )
        },
        request.session_version == old(handle).state().version_view()
            && !old(handle).state().source_file().is_valid_range_spec(request.range) ==> {
            &&& *final(handle) == *old(handle)
            &&& is_session_error(
                r,
                invalid_range_message(
                    request.range,
                    byte_len(old(handle).state().source_file()@.text) as usize,
                ),
                request.editor_version,
                old(handle).state().version_view(),
            )
        },
        request.session_version == old(handle).state().version_view()
            && old(handle).state().source_file().is_valid_range_spec(request.range) ==> {
            &&& final(handle).state().version_view() == old(handle).state().version_view() + 1
            &&& final(handle).state().source_file()@.id == old(handle).state().source_file()@.id
            &&& final(handle).state().source_file()@.name == old(
                handle,
            ).state().source_file()@.name
            &&& final(handle).state().source_file()@.text == edited_text(
                old(handle).state().source_file()@.text,
                request.range,
                request.replacement@,
            )
            &&& reports_session(r, final(handle).state())
            &&& final(handle).state().in_sync()
        },
{
    let current_version = handle.session.version();
    if request.session_version != current_version {
        let message = version_mismatch_text(request.session_version, current_version);
        return highlight_session_error_response(
            message,
            None,
            request.editor_version,
            current_version,
        );
    }
    let editor_version = request.editor_version;
    let range = TextRange::new(request.range.start, request.range.end);
    let edit = HighlightEdit { range, replacement: request.replacement };
    match handle.session.update(edit) {
        Ok(update) => {
            let has_error = any_error(update.diagnostics.as_slice());
            HighlightSessionResponse {
                ok: !has_error,
                session_handle: None,
                editor_version,
                session_version: update.version,
                changed_range: update.changed_range,
                tokens: update.tokens,
                diagnostics: update.diagnostics,
                full_rehighlight: update.full_rehighlight,
            }
        },
        Err(IncrementalHighlightError::InvalidEditRange { range, source_len }) => {
            let message = invalid_range_text(range, source_len);
            let version = handle.session.version();
            highlight_session_error_response(message, None, editor_version, version)
        },
    }
}

/// Replaces a session's source, and its display path when the options name one, and answers
/// with the full highlight of the new source.
pub fn reset_highlight_session_for_json(
    handle: &mut HighlightSessionHandle,
    source_text: &str,
    options: HighlightSessionResetOptions,
) -> (r: HighlightSessionResponse)
    requires
        byte_len(source_text@) <= isize::MAX,
        old(handle).state().version_view() < u64::MAX,
    ensures
        final(handle).path() == match options.source_path {
            Some(p) => p@,
            None => old(handle).path(),
        },
        final(handle).state().version_view() == old(handle).state().version_view() + 1,
        has_view(final(handle).state().source_file(), 1, final(handle).path(), source_text@),
        final(handle).state().in_sync(),
        r.session_handle is None,
        r.editor_version == version_or_zero(options.editor_version),
        r.changed_range == (TextRange { start: 0, end: byte_len(source_text@) as usize }),
        r.full_rehighlight,
        reports_session(r, final(handle).state()),
{
    if let Some(source_path) = options.source_path {
        handle.source_path = source_path;
    }
    let editor_version = version_or_zero_exec(options.editor_version);
    let source = SourceFile::new(SourceId::new(1), handle.source_path.as_str(), source_text);
    let update = handle.session.reset(source);
    let has_error = any_error(update.diagnostics.as_slice());
    HighlightSessionResponse {
        ok: !has_error,
        session_handle: None,
        editor_version,
        session_version: update.version,
        changed_range: update.changed_range,
        tokens: update.tokens,
        diagnostics: update.diagnostics,
        full_rehighlight: update.full_rehighlight,
    }
}

} // verus!
